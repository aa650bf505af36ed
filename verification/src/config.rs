//! Configuration of a node and the rules it must obey before the node starts.
use std::collections::HashMap;
use std::time::Duration;

use tonic::transport::Endpoint;
use vstd::prelude::*;

use crate::text::with_u64;
use crate::tick::TickDuration;
use crate::tick::TickThresholds;
use crate::types::ClusterId;
use crate::types::NodeId;

verus! {

use vstd::std_specs::iter::IteratorSpec;

broadcast use vstd::std_specs::hash::group_hash_axioms;

/// A configuration that cannot be used.
#[derive(Debug, PartialEq, Eq)]
pub enum ConfigError {
    /// The node lists itself among its peers.
    SelfLoop(NodeId),
    /// The timers do not fit together.
    TimingInvariant(String),
    /// An address is not a URI.
    InvalidUri(String),
}

/// The contents of a [`ConfigError`].
pub enum FaultView {
    SelfLoop(NodeId),
    TimingInvariant(Seq<char>),
    InvalidUri(Seq<char>),
}

impl View for ConfigError {
    type V = FaultView;

    open spec fn view(&self) -> FaultView {
        match self {
            ConfigError::SelfLoop(id) => FaultView::SelfLoop(*id),
            ConfigError::TimingInvariant(text) => FaultView::TimingInvariant(text@),
            ConfigError::InvalidUri(text) => FaultView::InvalidUri(text@),
        }
    }
}

/// Whether `r` reports `fault`, and succeeds if there is none.
pub open spec fn reports(r: Result<(), ConfigError>, fault: Option<FaultView>) -> bool {
    match r {
        Ok(()) => fault is None,
        Err(e) => fault == Some(e@),
    }
}

impl ConfigError {
    /// The wording of the error.
    pub open spec fn text(&self) -> Seq<char> {
        match self {
            ConfigError::SelfLoop(id) => "Self-loop detected: node_id "@ + crate::text::decimal(
                id@ as nat,
            ) + " found in peers list"@,
            ConfigError::TimingInvariant(detail) => "Invalid configuration invariant: "@ + detail@,
            ConfigError::InvalidUri(detail) => "Invalid URI: "@ + detail@,
        }
    }

    /// Renders the error.
    pub fn message(&self) -> (r: String)
        ensures
            r@ == self.text(),
    {
        match self {
            ConfigError::SelfLoop(id) => with_u64(
                "Self-loop detected: node_id ".to_owned(),
                id.as_u64(),
            ).concat(" found in peers list"),
            ConfigError::TimingInvariant(detail) => "Invalid configuration invariant: ".to_owned()
                .concat(detail.as_str()),
            ConfigError::InvalidUri(detail) => "Invalid URI: ".to_owned().concat(detail.as_str()),
        }
    }
}

/// The duration that `std::time::Duration::from_millis` makes of `ms`.
pub uninterp spec fn millis(ms: u64) -> Duration;

/// `std::time::Duration::from_millis`.
///
/// Claimed of it: the duration depends on the number of milliseconds alone, and
/// no other number of milliseconds gives the same duration.
pub assume_specification[ Duration::from_millis ](ms: u64) -> (r: Duration)
    ensures
        r == millis(ms),
        forall|other: u64| #[trigger] millis(other) == r ==> other == ms,
;

/// The length in milliseconds of a duration that is a whole number of them.
pub open spec fn length_ms(d: Duration) -> u64 {
    choose|ms: u64| #[trigger] millis(ms) == d
}

/// A client endpoint of `tonic`.
#[verifier::external_type_specification]
#[verifier::external_body]
pub struct ExEndpoint(Endpoint);

/// What `tonic::transport::Endpoint::from_shared` makes of a URI; `None` where
/// it reports an error.
pub uninterp spec fn parsed_endpoint(uri: Seq<char>) -> Option<Endpoint>;

/// `tonic::transport::Endpoint::from_shared`, with its error rendered.
///
/// Claimed of it: whether it succeeds and what it returns depends on the URI
/// alone, and the one error that it reports reads "invalid URI".
#[verifier::external_body]
pub(crate) fn parse_endpoint(uri: &String) -> (r: Result<Endpoint, String>)
    ensures
        match r {
            Ok(endpoint) => parsed_endpoint(uri@) == Some(endpoint),
            Err(text) => parsed_endpoint(uri@) is None && text@ == "invalid URI"@,
        },
{
    Endpoint::from_shared(uri.clone()).map_err(|e| e.to_string())
}

/// Why the URI parser does not accept `uri`; `None` if it does.
pub open spec fn uri_cause(uri: Seq<char>) -> Option<Seq<char>> {
    if parsed_endpoint(uri) is Some {
        None
    } else {
        Some("invalid URI"@)
    }
}

/// The text of an optional cause.
pub open spec fn cause_view(cause: Option<String>) -> Option<Seq<char>> {
    match cause {
        Some(text) => Some(text@),
        None => None,
    }
}

/// Why the URI parser does not accept `uri`; `None` if it does.
pub fn find_uri_cause(uri: &String) -> (r: Option<String>)
    ensures
        cause_view(r) == uri_cause(uri@),
{
    match parse_endpoint(uri) {
        Ok(_) => None,
        Err(text) => Some(text),
    }
}

// --- Protocol timing ---

/// Timing of the protocol, in milliseconds.
#[derive(Clone, Copy, Debug, PartialEq, Eq, Structural)]
pub struct RaftConfig {
    /// The interval of the tick loop; all timers are multiples of it.
    pub tick_interval_ms: u64,
    /// The interval between heartbeats of the leader.
    pub heartbeat_interval_ms: u64,
    /// The shortest election timeout.
    pub election_timeout_min_ms: u64,
    /// The longest election timeout.
    pub election_timeout_max_ms: u64,
    /// The limit for one call to a peer.
    pub rpc_timeout_ms: u64,
    /// The limit for a command to be replicated or applied.
    pub consensus_timeout_ms: u64,
    /// How many applied entries the log may hold before it is compacted.
    pub snapshot_threshold: u64,
}

/// `a / b`, rounded up.
pub open spec fn ceil_div(a: int, b: int) -> int {
    (a + b - 1) / b
}

/// The number of ticks of length `tick` that cover `ms`.
fn ticks_to_cover(ms: u64, tick: u64) -> (r: TickDuration)
    requires
        tick > 0,
    ensures
        r.0 == ceil_div(ms as int, tick as int),
{
    let whole: u64 = ms / tick;
    let rest: u64 = ms % tick;
    proof {
        let (m, t, q, p) = (ms as int, tick as int, whole as int, rest as int);
        vstd::arithmetic::div_mod::lemma_fundamental_div_mod(m, t);
        if p == 0 {
            assert(m + t - 1 == t * q + (t - 1));
            vstd::arithmetic::div_mod::lemma_fundamental_div_mod_converse(m + t - 1, t, q, t - 1);
        } else {
            assert(m + t - 1 == t * (q + 1) + (p - 1)) by (nonlinear_arith)
                requires
                    m == t * q + p,
            ;
            vstd::arithmetic::div_mod::lemma_fundamental_div_mod_converse(
                m + t - 1,
                t,
                q + 1,
                p - 1,
            );
            assert(q + 1 <= m) by (nonlinear_arith)
                requires
                    m == t * q + p,
                    t >= 1,
                    p >= 1,
                    q >= 0,
            ;
        }
    }
    if rest == 0 {
        TickDuration(whole)
    } else {
        TickDuration(whole + 1)
    }
}

impl Default for RaftConfig {
    fn default() -> (r: RaftConfig)
        ensures
            r == (RaftConfig {
                tick_interval_ms: 10,
                heartbeat_interval_ms: 50,
                election_timeout_min_ms: 150,
                election_timeout_max_ms: 300,
                rpc_timeout_ms: 40,
                consensus_timeout_ms: 30000,
                snapshot_threshold: 10000,
            }),
    {
        RaftConfig {
            tick_interval_ms: 10,
            heartbeat_interval_ms: 50,
            election_timeout_min_ms: 150,
            election_timeout_max_ms: 300,
            rpc_timeout_ms: 40,
            consensus_timeout_ms: 30000,
            snapshot_threshold: 10000,
        }
    }
}

impl RaftConfig {
    pub fn heartbeat_interval(&self) -> (r: Duration)
        ensures
            r == millis(self.heartbeat_interval_ms),
            length_ms(r) == self.heartbeat_interval_ms,
            self.violation() is None ==> 0 < length_ms(r) && 3 * length_ms(r)
                <= self.election_timeout_min_ms,
    {
        Duration::from_millis(self.heartbeat_interval_ms)
    }

    pub fn tick_interval(&self) -> (r: Duration)
        ensures
            r == millis(self.tick_interval_ms),
            length_ms(r) == self.tick_interval_ms,
            self.violation() is None ==> 0 < length_ms(r) <= self.heartbeat_interval_ms,
    {
        Duration::from_millis(self.tick_interval_ms)
    }

    pub fn rpc_timeout(&self) -> (r: Duration)
        ensures
            r == millis(self.rpc_timeout_ms),
            length_ms(r) == self.rpc_timeout_ms,
            self.violation() is None ==> 0 < length_ms(r) < self.heartbeat_interval_ms
                && length_ms(r) <= self.consensus_timeout_ms,
    {
        Duration::from_millis(self.rpc_timeout_ms)
    }

    pub fn consensus_timeout(&self) -> (r: Duration)
        ensures
            r == millis(self.consensus_timeout_ms),
            length_ms(r) == self.consensus_timeout_ms,
            self.violation() is None ==> 0 < self.rpc_timeout_ms <= length_ms(r),
    {
        Duration::from_millis(self.consensus_timeout_ms)
    }

    /// The timers in ticks, each rounded up to whole ticks.
    pub open spec fn thresholds(&self) -> TickThresholds {
        let tick = self.tick_interval_ms as int;
        TickThresholds {
            heartbeat_interval: TickDuration(
                ceil_div(self.heartbeat_interval_ms as int, tick) as u64,
            ),
            min_election: TickDuration(ceil_div(self.election_timeout_min_ms as int, tick) as u64),
            max_election: TickDuration(ceil_div(self.election_timeout_max_ms as int, tick) as u64),
        }
    }

    /// Translates the timers into ticks.
    pub fn calculate_thresholds(&self) -> (r: TickThresholds)
        requires
            self.tick_interval_ms > 0,
        ensures
            r == self.thresholds(),
            r.heartbeat_interval.0 == ceil_div(
                self.heartbeat_interval_ms as int,
                self.tick_interval_ms as int,
            ),
            r.min_election.0 == ceil_div(
                self.election_timeout_min_ms as int,
                self.tick_interval_ms as int,
            ),
            r.max_election.0 == ceil_div(
                self.election_timeout_max_ms as int,
                self.tick_interval_ms as int,
            ),
    {
        TickThresholds {
            heartbeat_interval: ticks_to_cover(self.heartbeat_interval_ms, self.tick_interval_ms),
            min_election: ticks_to_cover(self.election_timeout_min_ms, self.tick_interval_ms),
            max_election: ticks_to_cover(self.election_timeout_max_ms, self.tick_interval_ms),
        }
    }

    /// The fault of the timing, if there is one.
    pub open spec fn fault(&self) -> Option<FaultView> {
        match self.violation() {
            Some(text) => Some(FaultView::TimingInvariant(text)),
            None => None,
        }
    }

    /// The first timing rule that is broken, in words; `None` if all hold.
    pub open spec fn violation(&self) -> Option<Seq<char>> {
        if self.tick_interval_ms == 0 {
            Some("tick_interval_ms must be greater than 0"@)
        } else if self.heartbeat_interval_ms == 0 {
            Some("heartbeat_interval_ms must be greater than 0"@)
        } else if self.tick_interval_ms > self.heartbeat_interval_ms {
            Some("tick_interval_ms must be less than or equal to heartbeat_interval_ms"@)
        } else if self.rpc_timeout_ms == 0 {
            Some("rpc_timeout_ms must be greater than 0"@)
        } else if self.consensus_timeout_ms == 0 {
            Some("consensus_timeout_ms must be greater than 0"@)
        } else if self.snapshot_threshold == 0 {
            Some("snapshot_threshold must be greater than 0"@)
        } else if self.consensus_timeout_ms < self.rpc_timeout_ms {
            Some(
                "The SLA Invariant: consensus_timeout_ms ("@ + crate::text::decimal(
                    self.consensus_timeout_ms as nat,
                ) + ") cannot be shorter than rpc_timeout_ms ("@ + crate::text::decimal(
                    self.rpc_timeout_ms as nat,
                ) + ")."@,
            )
        } else if self.rpc_timeout_ms >= self.heartbeat_interval_ms {
            Some(
                "rpc_timeout_ms must be less than heartbeat_interval_ms to prevent heartbeat stacking"@,
            )
        } else if self.election_timeout_min_ms < self.heartbeat_interval_ms * 3 {
            Some("ADR 003: election_timeout_min_ms must be at least 3x heartbeat_interval_ms"@)
        } else if self.election_timeout_max_ms <= self.election_timeout_min_ms {
            Some("election_timeout_max_ms must be greater than election_timeout_min_ms"@)
        } else {
            None
        }
    }

    /// Checks the timing rules and reports the first that is broken.
    pub fn validate(&self) -> (r: Result<(), ConfigError>)
        ensures
            reports(r, self.fault()),
    {
        if self.tick_interval_ms == 0 {
            return timing("tick_interval_ms must be greater than 0");
        }
        if self.heartbeat_interval_ms == 0 {
            return timing("heartbeat_interval_ms must be greater than 0");
        }
        if self.tick_interval_ms > self.heartbeat_interval_ms {
            return timing("tick_interval_ms must be less than or equal to heartbeat_interval_ms");
        }
        if self.rpc_timeout_ms == 0 {
            return timing("rpc_timeout_ms must be greater than 0");
        }
        if self.consensus_timeout_ms == 0 {
            return timing("consensus_timeout_ms must be greater than 0");
        }
        if self.snapshot_threshold == 0 {
            return timing("snapshot_threshold must be greater than 0");
        }
        if self.consensus_timeout_ms < self.rpc_timeout_ms {
            let s: String = "The SLA Invariant: consensus_timeout_ms (".to_owned();
            let s: String = with_u64(s, self.consensus_timeout_ms);
            let s: String = s.concat(") cannot be shorter than rpc_timeout_ms (");
            let s: String = with_u64(s, self.rpc_timeout_ms);
            let s: String = s.concat(").");
            return Err(ConfigError::TimingInvariant(s));
        }
        if self.rpc_timeout_ms >= self.heartbeat_interval_ms {
            return timing(
                "rpc_timeout_ms must be less than heartbeat_interval_ms to prevent heartbeat stacking",
            );
        }
        if (self.election_timeout_min_ms as u128) < self.heartbeat_interval_ms as u128 * 3 {
            return timing(
                "ADR 003: election_timeout_min_ms must be at least 3x heartbeat_interval_ms",
            );
        }
        if self.election_timeout_max_ms <= self.election_timeout_min_ms {
            return timing("election_timeout_max_ms must be greater than election_timeout_min_ms");
        }
        Ok(())
    }
}

/// A broken timing rule.
fn timing(text: &str) -> (r: Result<(), ConfigError>)
    ensures
        r matches Err(e) && e@ == FaultView::TimingInvariant(text@),
{
    Err(ConfigError::TimingInvariant(text.to_owned()))
}

// --- External policy ---

/// How the external policy node is reached.
#[derive(Debug)]
pub struct PolicyConfig {
    /// The address of the policy node.
    pub veto_addr: String,
    /// The limit for one evaluation, in milliseconds.
    pub veto_timeout_ms: u64,
    /// How often a failed evaluation is tried again.
    pub veto_max_retries: usize,
    /// The longest justification that is accepted, in characters.
    pub max_justification_len: usize,
}

impl Default for PolicyConfig {
    fn default() -> (r: PolicyConfig)
        ensures
            r.veto_addr@ == "http://127.0.0.1:50060"@,
            r.veto_timeout_ms == 5000,
            r.veto_max_retries == 1,
            r.max_justification_len == 512,
    {
        PolicyConfig {
            veto_addr: "http://127.0.0.1:50060".to_owned(),
            veto_timeout_ms: 5000,
            veto_max_retries: 1,
            max_justification_len: 512,
        }
    }
}

impl PolicyConfig {
    pub fn veto_timeout(&self) -> (r: Duration)
        ensures
            r == millis(self.veto_timeout_ms),
            length_ms(r) == self.veto_timeout_ms,
            self.fault(uri_cause(self.veto_addr@)) is None ==> 0 < length_ms(r),
    {
        Duration::from_millis(self.veto_timeout_ms)
    }

    /// What is wrong with the address of the policy node, given why the URI
    /// parser does not accept it.
    pub open spec fn address_fault(&self, cause: Option<Seq<char>>) -> Option<FaultView> {
        if self.veto_addr@.len() == 0 {
            Some(FaultView::InvalidUri("veto_addr cannot be empty"@))
        } else {
            match cause {
                Some(text) => Some(
                    FaultView::InvalidUri(
                        "veto_addr '"@ + self.veto_addr@ + "' is invalid: "@ + text,
                    ),
                ),
                None => None,
            }
        }
    }

    /// The first fault of the policy, given why the URI parser does not accept
    /// its address.
    pub open spec fn fault(&self, cause: Option<Seq<char>>) -> Option<FaultView> {
        if self.veto_timeout_ms == 0 {
            Some(FaultView::TimingInvariant("veto_timeout_ms must be greater than 0"@))
        } else {
            self.address_fault(cause)
        }
    }

    /// The address of the policy node as an endpoint.
    pub fn veto_endpoint(&self) -> (r: Result<Endpoint, ConfigError>)
        ensures
            match r {
                Ok(e) => self.veto_addr@.len() > 0 && parsed_endpoint(self.veto_addr@) == Some(e),
                Err(e) => self.address_fault(uri_cause(self.veto_addr@)) == Some(e@),
            },
    {
        self.veto_endpoint_from(parse_endpoint(&self.veto_addr))
    }

    /// The address of the policy node as an endpoint, given what the URI
    /// parser makes of it.
    pub fn veto_endpoint_from(&self, parsed: Result<Endpoint, String>) -> (r: Result<
        Endpoint,
        ConfigError,
    >)
        ensures
            match r {
                Ok(e) => self.veto_addr@.len() > 0 && parsed == Ok::<Endpoint, String>(e),
                Err(e) => self.address_fault(
                    match parsed {
                        Ok(_) => None,
                        Err(text) => Some(text@),
                    },
                ) == Some(e@),
            },
    {
        if self.veto_addr.as_str().is_empty() {
            return Err(ConfigError::InvalidUri("veto_addr cannot be empty".to_owned()));
        }
        match parsed {
            Ok(e) => Ok(e),
            Err(text) => {
                let s: String = "veto_addr '".to_owned().concat(self.veto_addr.as_str());
                let s: String = s.concat("' is invalid: ").concat(text.as_str());
                Err(ConfigError::InvalidUri(s))
            },
        }
    }

    /// Checks the limit and the address of the policy node.
    pub fn validate(&self) -> (r: Result<(), ConfigError>)
        ensures
            reports(r, self.fault(uri_cause(self.veto_addr@))),
    {
        self.validate_given(find_uri_cause(&self.veto_addr))
    }

    /// Checks the limit and the address of the policy node, given why the URI
    /// parser does not accept the address.
    pub fn validate_given(&self, cause: Option<String>) -> (r: Result<(), ConfigError>)
        ensures
            reports(r, self.fault(cause_view(cause))),
    {
        if self.veto_timeout_ms == 0 {
            return timing("veto_timeout_ms must be greater than 0");
        }
        if self.veto_addr.as_str().is_empty() {
            return Err(ConfigError::InvalidUri("veto_addr cannot be empty".to_owned()));
        }
        match cause {
            None => Ok(()),
            Some(text) => {
                let s: String = "veto_addr '".to_owned().concat(self.veto_addr.as_str());
                let s: String = s.concat("' is invalid: ").concat(text.as_str());
                Err(ConfigError::InvalidUri(s))
            },
        }
    }
}

// --- The node ---

/// The address of one peer.
#[derive(Debug)]
pub struct PeerAddress {
    pub node_id: NodeId,
    pub uri: String,
}

/// What is wrong with the address `uri` of the peer `node`, given why the URI
/// parser does not accept it.
pub open spec fn peer_fault(node: u64, uri: Seq<char>, cause: Option<Seq<char>>) -> Option<
    FaultView,
> {
    if uri.len() == 0 {
        Some(
            FaultView::InvalidUri(
                "Peer ID "@ + crate::text::decimal(node as nat) + " has an empty URI"@,
            ),
        )
    } else {
        match cause {
            Some(text) => Some(
                FaultView::InvalidUri(
                    "Peer ID "@ + crate::text::decimal(node as nat) + " URI '"@ + uri
                        + "' is invalid: "@ + text,
                ),
            ),
            None => None,
        }
    }
}

impl PeerAddress {
    /// What is wrong with the address, given why the URI parser does not
    /// accept it.
    pub open spec fn fault(&self, cause: Option<Seq<char>>) -> Option<FaultView> {
        peer_fault(self.node_id@, self.uri@, cause)
    }

    /// Checks the address, given why the URI parser does not accept it.
    pub fn validate_given(&self, cause: &Option<String>) -> (r: Result<(), ConfigError>)
        ensures
            reports(r, self.fault(cause_view(*cause))),
    {
        if self.uri.as_str().is_empty() {
            let s: String = with_u64("Peer ID ".to_owned(), self.node_id.as_u64());
            return Err(ConfigError::InvalidUri(s.concat(" has an empty URI")));
        }
        match cause {
            None => Ok(()),
            Some(text) => {
                let s: String = with_u64("Peer ID ".to_owned(), self.node_id.as_u64());
                let s: String = s.concat(" URI '").concat(self.uri.as_str());
                let s: String = s.concat("' is invalid: ").concat(text.as_str());
                Err(ConfigError::InvalidUri(s))
            },
        }
    }
}

/// The addresses of the other nodes, one for each node.
#[derive(Debug)]
pub struct PeerMap {
    addresses: HashMap<u64, PeerAddress>,
}

impl View for PeerMap {
    type V = Map<u64, Seq<char>>;

    closed spec fn view(&self) -> Map<u64, Seq<char>> {
        Map::new(|k: u64| self.addresses@.contains_key(k), |k: u64| self.addresses@[k].uri@)
    }
}

impl PeerMap {
    #[verifier::type_invariant]
    spec fn inv(self) -> bool {
        forall|k: u64| #[trigger]
            self.addresses@.contains_key(k) ==> self.addresses@[k].node_id@ == k
    }

    /// Whether `list` names every node of the map once, with its address, and
    /// no other node.
    pub open spec fn lists(&self, list: Seq<PeerAddress>) -> bool {
        &&& forall|i: int|
            0 <= i < list.len() ==> self@.contains_key((#[trigger] list[i]).node_id@)
                && self@[list[i].node_id@] == list[i].uri@
        &&& forall|i: int, j: int|
            0 <= i < j < list.len() ==> (#[trigger] list[i]).node_id@ != (
            #[trigger] list[j]).node_id@
        &&& forall|k: u64| #[trigger]
            self@.contains_key(k) ==> exists|i: int|
                0 <= i < list.len() && (#[trigger] list[i]).node_id@ == k
    }

    pub fn new() -> (r: PeerMap)
        ensures
            r@ == Map::<u64, Seq<char>>::empty(),
    {
        let r = PeerMap { addresses: HashMap::new() };
        assert(r@ =~= Map::empty());
        r
    }

    /// Sets the address of `node_id` and returns the one it had.
    pub fn insert(&mut self, node_id: NodeId, uri: String) -> (r: Option<String>)
        ensures
            final(self)@ == old(self)@.insert(node_id@, uri@),
            match r {
                Some(previous) => old(self)@.contains_key(node_id@) && previous@
                    == old(self)@[node_id@],
                None => !old(self)@.contains_key(node_id@),
            },
    {
        proof {
            use_type_invariant(&*self);
        }
        let mut addresses: HashMap<u64, PeerAddress> = HashMap::new();
        std::mem::swap(&mut addresses, &mut self.addresses);
        let previous: Option<PeerAddress> = addresses.insert(
            node_id.as_u64(),
            PeerAddress { node_id, uri },
        );
        self.addresses = addresses;
        assert(self@ =~= old(self)@.insert(node_id@, uri@));
        match previous {
            Some(peer) => Some(peer.uri),
            None => None,
        }
    }

    pub fn contains(&self, node_id: NodeId) -> (r: bool)
        ensures
            r == self@.contains_key(node_id@),
    {
        self.addresses.contains_key(&node_id.as_u64())
    }

    pub fn len(&self) -> (r: usize)
        ensures
            r == self@.dom().len(),
    {
        assert(self@.dom() =~= self.addresses@.dom());
        self.addresses.len()
    }

    pub fn is_empty(&self) -> (r: bool)
        ensures
            r == (self@.dom().len() == 0),
    {
        self.len() == 0
    }

    /// Every node with its address, in no particular order.
    pub fn listed(&self) -> (r: Vec<PeerAddress>)
        ensures
            self.lists(r@),
    {
        proof {
            use_type_invariant(self);
        }
        let mut list: Vec<PeerAddress> = Vec::new();
        let ghost dom = self.addresses@.dom();
        for k in it: self.addresses.keys()
            invariant
                dom == self.addresses@.dom(),
                self.inv(),
                it.seq().unref().to_set() == dom,
                list.len() == it.index(),
                forall|j: int|
                    0 <= j < list.len() ==> (#[trigger] list[j]).node_id@ == *it.seq()[j],
                forall|j: int|
                    0 <= j < list.len() ==> self.addresses@.contains_key(
                        (#[trigger] list[j]).node_id@,
                    ) && list[j].uri@ == self.addresses@[list[j].node_id@].uri@,
        {
            proof {
                assert(it.seq().unref()[it.index() as int] == *k);
                assert(it.seq().unref().to_set().contains(*k));
            }
            match self.addresses.get(k) {
                Some(p) => list.push(PeerAddress { node_id: p.node_id, uri: p.uri.clone() }),
                None => {},
            }
        }
        proof {
            let keys = self.addresses.keys().remaining();
            assert forall|a: int, b: int| 0 <= a < b < list.len() implies (
            #[trigger] list[a]).node_id@ != (#[trigger] list[b]).node_id@ by {
                assert(keys[a] != keys[b]);
            }
            assert forall|k: u64| #[trigger] self@.contains_key(k) implies exists|i: int|
                0 <= i < list.len() && (#[trigger] list[i]).node_id@ == k by {
                assert(keys.unref().to_set().contains(k));
                let i = keys.unref().index_of(k);
                assert(list[i].node_id@ == k);
            }
        }
        list
    }
}

/// The first fault among the addresses of `peers`, given for each why the URI
/// parser does not accept it.
pub open spec fn first_peer_fault(
    peers: Seq<PeerAddress>,
    causes: Seq<Option<Seq<char>>>,
) -> Option<FaultView>
    decreases peers.len(),
{
    if peers.len() == 0 {
        None
    } else {
        match first_peer_fault(peers.drop_last(), causes.drop_last()) {
            Some(fault) => Some(fault),
            None => peers.last().fault(causes.last()),
        }
    }
}

/// A fault among the first addresses is the first of all.
proof fn lemma_first_peer_fault_sticks(
    peers: Seq<PeerAddress>,
    causes: Seq<Option<Seq<char>>>,
    n: int,
)
    requires
        0 <= n <= peers.len(),
        peers.len() == causes.len(),
        first_peer_fault(peers.take(n), causes.take(n)) is Some,
    ensures
        first_peer_fault(peers, causes) == first_peer_fault(peers.take(n), causes.take(n)),
    decreases peers.len() - n,
{
    if n == peers.len() {
        assert(peers.take(n) =~= peers);
        assert(causes.take(n) =~= causes);
    } else {
        assert(peers.take(n + 1).drop_last() =~= peers.take(n));
        assert(causes.take(n + 1).drop_last() =~= causes.take(n));
        lemma_first_peer_fault_sticks(peers, causes, n + 1);
    }
}

/// The first fault is that of some address, and there is none if no address has
/// one.
proof fn lemma_first_peer_fault_is_one(
    peers: Seq<PeerAddress>,
    causes: Seq<Option<Seq<char>>>,
)
    requires
        peers.len() == causes.len(),
    ensures
        match first_peer_fault(peers, causes) {
            Some(fault) => exists|i: int|
                0 <= i < peers.len() && (#[trigger] peers[i]).fault(causes[i]) == Some(fault),
            None => forall|i: int|
                0 <= i < peers.len() ==> (#[trigger] peers[i]).fault(causes[i]) is None,
        },
    decreases peers.len(),
{
    if peers.len() > 0 {
        let p = peers.drop_last();
        let c = causes.drop_last();
        lemma_first_peer_fault_is_one(p, c);
        match first_peer_fault(p, c) {
            Some(fault) => {
                let i = choose|i: int|
                    0 <= i < p.len() && (#[trigger] p[i]).fault(c[i]) == Some(fault);
                assert(peers[i].fault(causes[i]) == Some(fault));
            },
            None => {
                assert forall|i: int| 0 <= i < p.len() implies (#[trigger] peers[i]).fault(
                    causes[i],
                ) is None by {
                    assert(p[i].fault(c[i]) is None);
                }
                assert(peers[p.len() as int] == peers.last());
            },
        }
    }
}

/// The configuration of one node.
#[derive(Debug)]
pub struct Config {
    /// The consensus group.
    pub cluster_id: ClusterId,
    /// This node within the group.
    pub node_id: NodeId,
    /// The address to listen on.
    pub listen_addr: String,
    /// The directory for durable state.
    pub data_dir: String,
    /// The other nodes of the group.
    pub peers: PeerMap,
    pub raft: RaftConfig,
    pub policy: PolicyConfig,
}

impl Config {
    /// Whether the node lists itself among its peers.
    pub open spec fn has_self_loop(&self) -> bool {
        self.peers@.contains_key(self.node_id@)
    }

    /// What is wrong with the address of the peer `node`.
    pub open spec fn fault_of_peer(&self, node: u64) -> Option<FaultView> {
        peer_fault(node, self.peers@[node], uri_cause(self.peers@[node]))
    }

    /// Whether every peer has an address that can be used.
    pub open spec fn peers_usable(&self) -> bool {
        forall|k: u64| #[trigger]
            self.peers@.contains_key(k) ==> self.fault_of_peer(k) is None
    }

    /// What is wrong apart from the peers, given why the URI parser does not
    /// accept the address of the policy node: the timing comes first.
    pub open spec fn settings_fault(&self, veto_cause: Option<Seq<char>>) -> Option<FaultView> {
        match self.raft.fault() {
            Some(fault) => Some(fault),
            None => self.policy.fault(veto_cause),
        }
    }

    /// Whether nothing is wrong with the configuration.
    pub open spec fn valid(&self) -> bool {
        &&& !self.has_self_loop()
        &&& self.peers_usable()
        &&& self.settings_fault(uri_cause(self.policy.veto_addr@)) is None
    }

    /// Whether `fault` is to be reported: a self-loop comes first, then the
    /// address of a peer, any one if several have a fault, then the timing, then
    /// the policy node.
    pub open spec fn blames(&self, fault: FaultView) -> bool {
        if self.has_self_loop() {
            fault == FaultView::SelfLoop(self.node_id)
        } else if self.peers_usable() {
            self.settings_fault(uri_cause(self.policy.veto_addr@)) == Some(fault)
        } else {
            exists|k: u64| #[trigger]
                self.peers@.contains_key(k) && self.fault_of_peer(k) == Some(fault)
        }
    }

    /// The first fault of the configuration when its peers are looked at in the
    /// order of `peers`, given why the URI parser does not accept the
    /// addresses.
    pub open spec fn fault(
        &self,
        peers: Seq<PeerAddress>,
        peer_causes: Seq<Option<Seq<char>>>,
        veto_cause: Option<Seq<char>>,
    ) -> Option<FaultView> {
        if self.has_self_loop() {
            Some(FaultView::SelfLoop(self.node_id))
        } else {
            match first_peer_fault(peers, peer_causes) {
                Some(fault) => Some(fault),
                None => self.settings_fault(veto_cause),
            }
        }
    }

    /// Checks the peers, then the timing, then the policy node, and reports a
    /// fault of the first of these that has one.
    pub fn validate(&self) -> (r: Result<(), ConfigError>)
        ensures
            match r {
                Ok(()) => self.valid(),
                Err(e) => self.blames(e@),
            },
    {
        let peers: Vec<PeerAddress> = self.peers.listed();
        let mut causes: Vec<Option<String>> = Vec::new();
        let mut i: usize = 0;
        while i < peers.len()
            invariant
                i <= peers.len(),
                causes.len() == i,
                forall|j: int|
                    0 <= j < i ==> cause_view(#[trigger] causes[j]) == uri_cause(peers[j].uri@),
            decreases peers.len() - i,
        {
            causes.push(find_uri_cause(&peers[i].uri));
            i = i + 1;
        }
        proof {
            let seen = causes@.map_values(|c: Option<String>| cause_view(c));
            lemma_first_peer_fault_is_one(peers@, seen);
            assert forall|j: int| 0 <= j < peers.len() implies (#[trigger] peers@[j]).fault(seen[j])
                == self.fault_of_peer(peers@[j].node_id@) by {
                assert(cause_view(causes@[j]) == uri_cause(peers@[j].uri@));
            }
            match first_peer_fault(peers@, seen) {
                Some(fault) => {
                    let j = choose|j: int|
                        0 <= j < peers.len() && (#[trigger] peers@[j]).fault(seen[j]) == Some(
                            fault,
                        );
                    assert(self.peers@.contains_key(peers@[j].node_id@));
                },
                None => {
                    assert forall|k: u64| #[trigger] self.peers@.contains_key(k) implies
                        self.fault_of_peer(k) is None by {
                        let j = choose|j: int|
                            0 <= j < peers.len() && (#[trigger] peers@[j]).node_id@ == k;
                        assert(peers@[j].fault(seen[j]) is None);
                    }
                },
            }
        }
        self.validate_given(&peers, &causes, find_uri_cause(&self.policy.veto_addr))
    }

    /// Checks the configuration, its peers in the order of `peers`, given for
    /// each and for the policy node why the URI parser does not accept the
    /// address.
    pub fn validate_given(
        &self,
        peers: &Vec<PeerAddress>,
        peer_causes: &Vec<Option<String>>,
        veto_cause: Option<String>,
    ) -> (r: Result<(), ConfigError>)
        requires
            self.peers.lists(peers@),
            peer_causes.len() == peers.len(),
        ensures
            reports(
                r,
                self.fault(
                    peers@,
                    peer_causes@.map_values(|c: Option<String>| cause_view(c)),
                    cause_view(veto_cause),
                ),
            ),
    {
        let ghost causes = peer_causes@.map_values(|c: Option<String>| cause_view(c));
        if self.peers.contains(self.node_id) {
            return Err(ConfigError::SelfLoop(self.node_id));
        }
        let mut k: usize = 0;
        while k < peers.len()
            invariant
                k <= peers.len(),
                peer_causes.len() == peers.len(),
                causes == peer_causes@.map_values(|c: Option<String>| cause_view(c)),
                !self.has_self_loop(),
                first_peer_fault(peers@.take(k as int), causes.take(k as int)) is None,
            decreases peers.len() - k,
        {
            proof {
                assert(peers@.take(k + 1).drop_last() =~= peers@.take(k as int));
                assert(causes.take(k + 1).drop_last() =~= causes.take(k as int));
                assert(causes.take(k + 1).last() == cause_view(peer_causes@[k as int]));
            }
            match peers[k].validate_given(&peer_causes[k]) {
                Ok(()) => {},
                Err(e) => {
                    proof {
                        lemma_first_peer_fault_sticks(peers@, causes, k + 1);
                    }
                    return Err(e);
                },
            }
            k = k + 1;
        }
        proof {
            assert(peers@.take(k as int) =~= peers@);
            assert(causes.take(k as int) =~= causes);
        }
        self.raft.validate()?;
        self.policy.validate_given(veto_cause)
    }
}

/// Rounding up keeps the order.
proof fn lemma_ceil_div_monotone(a: int, b: int, t: int)
    requires
        a <= b,
        t > 0,
    ensures
        ceil_div(a, t) <= ceil_div(b, t),
{
    vstd::arithmetic::div_mod::lemma_div_is_ordered(a + t - 1, b + t - 1, t);
}

/// `n` times the divisor more is `n` more after rounding up.
proof fn lemma_ceil_div_shift(a: int, n: int, t: int)
    requires
        t > 0,
    ensures
        ceil_div(a + n * t, t) == ceil_div(a, t) + n,
{
    vstd::arithmetic::div_mod::lemma_div_multiples_vanish_fancy(n, (a + t - 1) % t, t);
    vstd::arithmetic::div_mod::lemma_fundamental_div_mod(a + t - 1, t);
    let q = (a + t - 1) / t;
    let p = (a + t - 1) % t;
    assert(a + n * t + t - 1 == t * (q + n) + p) by (nonlinear_arith)
        requires
            a + t - 1 == t * q + p,
    ;
    vstd::arithmetic::div_mod::lemma_fundamental_div_mod_converse(a + n * t + t - 1, t, q + n, p);
}

/// The durations of a valid configuration are positive and in order: a tick
/// fits into a heartbeat interval, a call ends within a heartbeat interval and
/// within the limit for consensus, and the shortest election timeout leaves room
/// for three heartbeat intervals.
pub proof fn law_valid_config_orders_its_durations(
    config: RaftConfig,
    tick: Duration,
    heartbeat: Duration,
    rpc: Duration,
    consensus: Duration,
)
    requires
        config.violation() is None,
        length_ms(tick) == config.tick_interval_ms,
        length_ms(heartbeat) == config.heartbeat_interval_ms,
        length_ms(rpc) == config.rpc_timeout_ms,
        length_ms(consensus) == config.consensus_timeout_ms,
    ensures
        0 < length_ms(tick) <= length_ms(heartbeat),
        0 < length_ms(rpc) < length_ms(heartbeat),
        length_ms(rpc) <= length_ms(consensus),
        3 * length_ms(heartbeat) <= config.election_timeout_min_ms,
{
}

/// Thresholds of a valid configuration fit together: the heartbeat takes at
/// least one tick, an election timeout can be drawn, and even the shortest one
/// outlasts a heartbeat interval by two ticks.
pub proof fn law_valid_config_gives_sound_thresholds(config: RaftConfig)
    requires
        config.violation() is None,
    ensures
        config.thresholds().wf(),
        config.thresholds().heartbeat_interval.0 >= 1,
        config.thresholds().min_election.0 >= config.thresholds().heartbeat_interval.0 + 2,
{
    let t = config.tick_interval_ms as int;
    let h = config.heartbeat_interval_ms as int;
    let lo = config.election_timeout_min_ms as int;
    let hi = config.election_timeout_max_ms as int;
    lemma_ceil_div_monotone(h + 2 * t, lo, t);
    lemma_ceil_div_shift(h, 2, t);
    lemma_ceil_div_monotone(lo, hi, t);
    lemma_ceil_div_monotone(t, h, t);
    lemma_ceil_div_shift(0, 1, t);
    assert(ceil_div(0, t) == 0) by {
        vstd::arithmetic::div_mod::lemma_basic_div(t - 1, t);
    }
    lemma_ceil_div_within(hi, t);
}

/// Rounding up does not leave the range of the dividend.
pub(crate) proof fn lemma_ceil_div_within(a: int, t: int)
    requires
        a >= 0,
        t > 0,
    ensures
        0 <= ceil_div(a, t) <= a,
{
    if a == 0 {
        vstd::arithmetic::div_mod::lemma_basic_div(t - 1, t);
    } else {
        let q = (a + t - 1) / t;
        let p = (a + t - 1) % t;
        vstd::arithmetic::div_mod::lemma_fundamental_div_mod(a + t - 1, t);
        vstd::arithmetic::div_mod::lemma_div_pos_is_pos(a + t - 1, t);
        assert(q <= a) by (nonlinear_arith)
            requires
                a + t - 1 == t * q + p,
                0 <= p < t,
                t >= 1,
                a >= 1,
                q >= 0,
        ;
    }
}

} // verus!
