//! Timers, and what a beat of the tick loop decides.
use vstd::prelude::*;

verus! {

use super::logs::knows_term;
use crate::config::Config;
use crate::config::FaultView;
use crate::config::PolicyConfig;
use crate::config::RaftConfig;
use crate::config::ceil_div;
use crate::config::parsed_endpoint;
use crate::config::peer_fault;
use crate::config::uri_cause;
use crate::consensus::lifecycle::TickPlan;
use crate::engine::LogicalView;
use crate::node::RoleView;
use crate::node::TickAction;
use crate::storage::lemma_last_index;
use crate::tick::Tick;
use crate::tick::TickDuration;
use crate::types::NodeId;
use crate::types::Term;
use crate::types::TraceId;

/// The clock moves on by one at each beat, until the end of its range, and a
/// timer runs out exactly when its length has passed since it was started.
pub proof fn law_clock_counts_beats(now: Tick, start: Tick, timeout: TickDuration)
    ensures
        now.0 < u64::MAX ==> now.next().0 == now.0 + 1,
        now.0 == u64::MAX ==> now.next() == now,
        now.0 >= start.0 ==> (now.reached(start, timeout) <==> now.0 - start.0 >= timeout.0),
        now.0 < start.0 ==> (now.reached(start, timeout) <==> timeout.0 == 0),
{
}

/// The ticks of a beat: the moment at which it decides.
pub open spec fn moment(before: LogicalView) -> int {
    if before.tick.0 < u64::MAX {
        before.tick.0 + 1
    } else {
        before.tick.0 as int
    }
}

/// What a beat does is decided by the role and by how long ago its timer was
/// started: a follower or a candidate whose election timeout has passed opens an
/// election, a pre-candidate whose campaign has run out of time steps down, a
/// leader whose heartbeat interval has passed sends a heartbeat, a halted node
/// stops, and otherwise nothing is done.
pub proof fn law_beat_does_what_is_due(
    before: LogicalView,
    after: LogicalView,
    config: RaftConfig,
    trace_id: TraceId,
    plan: TickPlan,
)
    requires
        before.beats(after, config, trace_id, plan),
    ensures
        after.tick.0 == moment(before),
        after.thresholds == before.thresholds,
        before.node is None ==> plan.action == TickAction::Stop && after.node is None
            && plan.handoff is Nothing && plan.compaction is None,
        before.node matches Some(n) ==> {
            let passed = |since: Tick, length: TickDuration| moment(before) - since.0 >= length.0
                || (moment(before) < since.0 && length.0 == 0);
            match n.role {
                RoleView::Follower { last_heartbeat, timeout, .. } => plan.action == (if passed(
                    last_heartbeat,
                    timeout,
                ) {
                    TickAction::StartElection
                } else {
                    TickAction::Idle
                }),
                RoleView::Candidate { election_start, timeout, .. } => plan.action == (if passed(
                    election_start,
                    timeout,
                ) {
                    TickAction::StartElection
                } else {
                    TickAction::Idle
                }),
                RoleView::PreCandidate { campaign_start, timeout } => plan.action == (if passed(
                    campaign_start,
                    timeout,
                ) {
                    TickAction::StepDown
                } else {
                    TickAction::Idle
                }),
                RoleView::Leader(l) => plan.action == (if passed(
                    l.last_heartbeat,
                    before.thresholds.heartbeat_interval,
                ) {
                    TickAction::SendHeartbeat
                } else {
                    TickAction::Idle
                }),
            }
        },
        plan.handoff is Campaign <==> plan.action == TickAction::StartElection,
        plan.handoff is Replicate <==> plan.action == TickAction::SendHeartbeat,
        before.node matches Some(n) ==> plan.term == n.log.current_term,
{
}

/// What a beat does not touch: unless it opens an election the term, the vote,
/// and always the log's entries and the boundaries of the node stay; an idle
/// beat leaves the role alone.
pub proof fn law_beat_leaves_the_log_alone(
    before: LogicalView,
    after: LogicalView,
    config: RaftConfig,
    trace_id: TraceId,
    plan: TickPlan,
)
    requires
        before.node is Some,
        before.beats(after, config, trace_id, plan),
    ensures
        after.node is Some,
        after.node->0.log.entries == before.node->0.log.entries,
        after.node->0.log.included_index == before.node->0.log.included_index,
        after.node->0.log.last_committed == before.node->0.log.last_committed,
        after.node->0.last_committed == before.node->0.last_committed,
        after.node->0.last_applied == before.node->0.last_applied,
        after.node->0.identity == before.node->0.identity,
        plan.action != TickAction::StartElection ==> after.node->0.log == before.node->0.log,
        plan.action == TickAction::Idle ==> after.node->0.role == before.node->0.role
            && plan.handoff is Nothing,
        plan.action == TickAction::StepDown ==> {
            &&& after.node->0.role is Follower
            &&& after.node->0.role->leader_id is None
            &&& after.node->0.role->last_heartbeat == after.tick
            &&& before.thresholds.min_election.0 <= after.node->0.role->Follower_timeout.0
                <= before.thresholds.max_election.0
        },
{
}

/// A heartbeat starts the next interval, and goes out in the leader's own term
/// and name, with its own commit boundary.
pub proof fn law_heartbeat_speaks_for_the_leader(
    before: LogicalView,
    after: LogicalView,
    config: RaftConfig,
    trace_id: TraceId,
    plan: TickPlan,
)
    requires
        before.node is Some,
        before.beats(after, config, trace_id, plan),
        plan.handoff is Replicate,
    ensures
        ({
            let round = plan.handoff->Replicate_0;
            let old_l = before.node->0.role->Leader_0;
            let new_l = after.node->0.role->Leader_0;
            &&& before.node->0.role is Leader
            &&& after.node is Some
            &&& after.node->0.role is Leader
            &&& round.term == before.node->0.log.current_term
            &&& round.node_id == before.node->0.identity.node
            &&& round.last_committed == before.node->0.last_committed
            &&& round.trace_id == trace_id
            &&& new_l.last_heartbeat == after.tick
            &&& new_l.next_index == old_l.next_index
            &&& new_l.match_index == old_l.match_index
            &&& new_l.current_read_epoch == old_l.current_read_epoch
            &&& new_l.confirmed_read_epoch == old_l.confirmed_read_epoch
            &&& new_l.acks == old_l.acks
        }),
{
}

/// A follower or a leader whose timer is started anew waits its whole length
/// from now; nothing else about it changes.
pub proof fn law_timer_starts_now(v: LogicalView)
    requires
        v.node is Some,
    ensures
        v.refreshed().node is Some,
        v.refreshed().node->0.log == v.node->0.log,
        v.refreshed().node->0.last_committed == v.node->0.last_committed,
        v.refreshed().node->0.last_applied == v.node->0.last_applied,
        match (v.node->0.role, v.refreshed().node->0.role) {
            (
                RoleView::Follower { leader_id: a, timeout: b, .. },
                RoleView::Follower { leader_id, last_heartbeat, timeout },
            ) => leader_id == a && timeout == b && last_heartbeat == v.tick,
            (RoleView::Leader(a), RoleView::Leader(b)) => b.last_heartbeat == v.tick
                && b.next_index == a.next_index && b.match_index == a.match_index && b.acks
                == a.acks,
            (a, b) => a == b && !(a is Follower) && !(a is Leader),
        },
{
}

/// A follower that begins to ask for promises does so from now on and for one
/// heartbeat interval; a node in any other role is left alone.
pub proof fn law_pre_vote_campaign_lasts_one_interval(v: LogicalView)
    requires
        v.node is Some,
    ensures
        v.sounding_out().node is Some,
        v.node->0.role is Follower ==> {
            let role = v.sounding_out().node->0.role;
            &&& role is PreCandidate
            &&& role->campaign_start == v.tick
            &&& role->PreCandidate_timeout == v.thresholds.heartbeat_interval
        },
        !(v.node->0.role is Follower) ==> v.sounding_out() == v,
{
}

/// A node that hears a leader whose term has not passed follows it, in its
/// term; a node that followed in that term already keeps its timer.
pub proof fn law_leader_is_followed(
    before: LogicalView,
    after: LogicalView,
    term: Term,
    leader: NodeId,
)
    requires
        before.node is Some,
        term.0 >= before.node->0.log.current_term.0,
        before.hears(after, term, leader),
    ensures
        after.node is Some,
        after.node->0.role is Follower,
        after.node->0.role->leader_id == Some(leader),
        after.node->0.log.current_term == term,
        after.node->0.log.voted_for == (if term == before.node->0.log.current_term {
            before.node->0.log.voted_for
        } else {
            None
        }),
        after.node->0.log.entries == before.node->0.log.entries,
        after.node->0.last_committed == before.node->0.last_committed,
        before.node->0.role is Follower && term == before.node->0.log.current_term ==> {
            &&& after.node->0.role->last_heartbeat == before.node->0.role->last_heartbeat
            &&& after.node->0.role->Follower_timeout == before.node->0.role->Follower_timeout
        },
        !(before.node->0.role is Follower && term == before.node->0.log.current_term) ==> {
            &&& after.node->0.role->last_heartbeat == before.tick
            &&& before.thresholds.min_election.0 <= after.node->0.role->Follower_timeout.0
                <= before.thresholds.max_election.0
        },
{
}

/// A node has a rival exactly in another leader of the term that it leads
/// itself.
pub proof fn law_rival_leads_the_own_term(v: LogicalView, term: Term)
    requires
        v.node is Some,
    ensures
        v.rivals(term) <==> v.node->0.role is Leader && v.node->0.log.current_term == term,
{
}

/// Every request of a leader whose term has not passed puts the follower's
/// election off: its timer starts anew, it follows that leader in that term,
/// and it keeps its vote within the term.
pub proof fn law_request_of_a_leader_puts_elections_off(
    before: LogicalView,
    after: LogicalView,
    req: crate::consensus::types::AppendView,
    result: crate::engine::AppendEntriesResult,
)
    requires
        before.node is Some,
        before.answers_append(after, req, result),
    ensures
        after.node is Some,
        req.term.0 < before.node->0.log.current_term.0 ==> after == before && !result.success
            && result.term == before.node->0.log.current_term,
        req.term.0 >= before.node->0.log.current_term.0 ==> {
            &&& !(before.node->0.role is Leader && before.node->0.log.current_term == req.term)
            &&& result.term == req.term
            &&& after.node->0.log.current_term == req.term
            &&& after.node->0.log.voted_for == (if req.term == before.node->0.log.current_term {
                before.node->0.log.voted_for
            } else {
                None
            })
            &&& after.node->0.role is Follower
            &&& after.node->0.role->leader_id == Some(req.leader_id)
            &&& after.node->0.role->last_heartbeat == before.tick
            &&& if before.node->0.role is Follower && req.term
                == before.node->0.log.current_term {
                after.node->0.role->Follower_timeout == before.node->0.role->Follower_timeout
            } else {
                before.thresholds.min_election.0 <= after.node->0.role->Follower_timeout.0
                    <= before.thresholds.max_election.0
            }
            &&& after.tick == before.tick
            &&& after.freezes == before.freezes
        },
{
}

// --- Compaction ---

/// Compaction forgets only what was applied. A beat plans it up to an index
/// that was applied, in the term of the entry there, if more entries than the
/// threshold were applied since the last snapshot and no snapshot task is under
/// way, and only then.
pub proof fn law_compaction_is_planned_up_to_what_was_applied(
    before: LogicalView,
    after: LogicalView,
    config: RaftConfig,
    trace_id: TraceId,
    plan: TickPlan,
)
    requires
        before.node is Some,
        before.beats(after, config, trace_id, plan),
    ensures
        plan.compaction is Some <==> before.freezes == 0 && before.node->0.last_applied.0
            > before.node->0.log.included_index.0 + config.snapshot_threshold,
        plan.compaction matches Some(target) ==> {
            &&& target.index.0 <= before.node->0.last_applied.0
            &&& target.index.0 >= before.node->0.last_applied.0
            &&& before.node->0.log.entries.contains_key(target.index.0) ==> knows_term(
                before.node->0.log,
                target.index.0,
                target.term.0,
            )
            &&& after.freezes == 1
        },
        plan.compaction is None ==> after.freezes == before.freezes,
{
}

/// After a planned compaction the log still holds every entry that was not yet
/// applied, exactly as it was, so that applying can go on; it ends where it
/// did; and it holds nothing that was applied.
pub proof fn law_compaction_keeps_what_is_not_applied(
    before: LogicalView,
    after: LogicalView,
    config: RaftConfig,
    trace_id: TraceId,
    plan: TickPlan,
)
    requires
        before.node is Some,
        before.node->0.last_applied.0 <= before.node->0.last_committed.0,
        forall|k: u64|
            before.node->0.log.included_index.0 < k <= before.node->0.last_committed.0
                ==> #[trigger] before.node->0.log.entries.contains_key(k),
        before.beats(after, config, trace_id, plan),
        plan.compaction is Some,
    ensures
        ({
            let cut = after.compacted(plan.compaction->0);
            &&& cut.node is Some
            &&& forall|k: u64|
                before.node->0.last_applied.0 < k <= before.node->0.last_committed.0
                    ==> #[trigger] cut.node->0.log.entries.contains_key(k)
            &&& forall|k: u64|
                k > before.node->0.last_applied.0 ==> (
                #[trigger] cut.node->0.log.entries.contains_key(k)
                    <==> before.node->0.log.entries.contains_key(k))
            &&& forall|k: u64| #[trigger]
                cut.node->0.log.entries.contains_key(k) ==> k > before.node->0.last_applied.0
                    && cut.node->0.log.entries[k] == before.node->0.log.entries[k]
            &&& cut.node->0.log.last_index() == before.node->0.log.last_index()
            &&& knows_term(
                before.node->0.log,
                cut.node->0.log.included_index.0,
                cut.node->0.log.included_term.0,
            )
            &&& cut.node->0.log.included_index == before.node->0.last_applied
            &&& cut.node->0.last_applied == before.node->0.last_applied
            &&& cut.node->0.last_committed == before.node->0.last_committed
        }),
{
    let n = before.node->0;
    let cut = after.compacted(plan.compaction->0);
    assert(n.log.entries.contains_key(n.last_applied.0));
    lemma_last_index(n.log);
    let end = n.log.last_index();
    assert(cut.node->0.log.ends_at(end));
    crate::storage::lemma_last_index_unique(cut.node->0.log, end);
}

/// Freezing the state machine and thawing it count snapshot tasks one by one.
pub proof fn law_snapshot_tasks_are_counted(v: LogicalView)
    ensures
        v.freezes < u32::MAX ==> v.frozen().freezes == v.freezes + 1,
        v.freezes > 0 ==> v.thawed().freezes == v.freezes - 1,
        v.frozen().node == v.node,
        v.thawed().node == v.node,
        v.frozen().tick == v.tick,
        v.thawed().tick == v.tick,
{
}

/// A halted node has given up its state, and nothing but its state.
pub proof fn law_halting_gives_up_the_state(v: LogicalView)
    ensures
        v.halted().node is None,
        v.halted().tick == v.tick,
        v.halted().thresholds == v.thresholds,
        v.halted().freezes == v.freezes,
        v.halted().due() == TickAction::Stop,
{
}

// --- Configuration ---

/// The rules of the timing, all of them and no others.
pub proof fn law_timing_rules(c: RaftConfig)
    ensures
        c.violation() is None <==> {
            &&& c.tick_interval_ms > 0
            &&& c.tick_interval_ms <= c.heartbeat_interval_ms
            &&& c.rpc_timeout_ms > 0
            &&& c.rpc_timeout_ms < c.heartbeat_interval_ms
            &&& c.rpc_timeout_ms <= c.consensus_timeout_ms
            &&& c.snapshot_threshold > 0
            &&& 3 * c.heartbeat_interval_ms <= c.election_timeout_min_ms
            &&& c.election_timeout_min_ms < c.election_timeout_max_ms
        },
{
}

/// An address can be used if it is not empty and the URI parser accepts it; a
/// policy needs such an address and a limit.
pub proof fn law_address_rules(p: PolicyConfig, node: u64, uri: Seq<char>)
    ensures
        peer_fault(node, uri, uri_cause(uri)) is None <==> uri.len() > 0 && parsed_endpoint(
            uri,
        ) is Some,
        p.fault(uri_cause(p.veto_addr@)) is None <==> p.veto_timeout_ms > 0 && p.veto_addr@.len()
            > 0 && parsed_endpoint(p.veto_addr@) is Some,
{
}

/// A timer in ticks covers its length in milliseconds, and one tick less would
/// not.
pub proof fn law_ticks_cover_the_interval(ms: u64, tick: u64)
    requires
        tick > 0,
    ensures
        ({
            let n = ceil_div(ms as int, tick as int);
            &&& n * tick >= ms
            &&& ms > 0 ==> (n - 1) * tick < ms
            &&& ms == 0 ==> n == 0
        }),
{
    let (m, t) = (ms as int, tick as int);
    let n = ceil_div(m, t);
    vstd::arithmetic::div_mod::lemma_fundamental_div_mod(m + t - 1, t);
    let rest = (m + t - 1) % t;
    assert(m + t - 1 == t * n + rest);
    assert(0 <= rest < t);
    assert(n * t == t * n) by (nonlinear_arith);
    assert((n - 1) * t == t * n - t) by (nonlinear_arith);
    if m == 0 {
        vstd::arithmetic::div_mod::lemma_basic_div(t - 1, t);
    }
}

/// The thresholds of a configuration are its own intervals, each in ticks.
pub proof fn law_thresholds_are_the_intervals_in_ticks(c: RaftConfig)
    requires
        c.tick_interval_ms > 0,
    ensures
        ({
            let t = c.thresholds();
            let tick = c.tick_interval_ms;
            &&& t.heartbeat_interval.0 * tick >= c.heartbeat_interval_ms
            &&& c.heartbeat_interval_ms > 0 ==> (t.heartbeat_interval.0 - 1) * tick
                < c.heartbeat_interval_ms
            &&& t.min_election.0 * tick >= c.election_timeout_min_ms
            &&& c.election_timeout_min_ms > 0 ==> (t.min_election.0 - 1) * tick
                < c.election_timeout_min_ms
            &&& t.max_election.0 * tick >= c.election_timeout_max_ms
            &&& c.election_timeout_max_ms > 0 ==> (t.max_election.0 - 1) * tick
                < c.election_timeout_max_ms
        }),
{
    law_ticks_cover_the_interval(c.heartbeat_interval_ms, c.tick_interval_ms);
    law_ticks_cover_the_interval(c.election_timeout_min_ms, c.tick_interval_ms);
    law_ticks_cover_the_interval(c.election_timeout_max_ms, c.tick_interval_ms);
    crate::config::lemma_ceil_div_within(
        c.heartbeat_interval_ms as int,
        c.tick_interval_ms as int,
    );
    crate::config::lemma_ceil_div_within(
        c.election_timeout_min_ms as int,
        c.tick_interval_ms as int,
    );
    crate::config::lemma_ceil_div_within(
        c.election_timeout_max_ms as int,
        c.tick_interval_ms as int,
    );
}

/// A configuration is either valid or has a fault to report, never both. A node
/// that lists itself is told so before anything else; then the peers are looked
/// at, then the timing, then the policy.
pub proof fn law_fault_is_reported_in_order(c: Config, fault: FaultView)
    requires
        c.blames(fault),
    ensures
        !c.valid(),
        c.peers@.contains_key(c.node_id@) <==> fault == FaultView::SelfLoop(c.node_id),
        !c.peers@.contains_key(c.node_id@) && (exists|k: u64|
            #![trigger c.peers@.contains_key(k)]
            c.peers@.contains_key(k) && (c.peers@[k].len() == 0 || parsed_endpoint(
                c.peers@[k],
            ) is None)) ==> fault is InvalidUri,
        !c.peers@.contains_key(c.node_id@) && (forall|k: u64|
            #![trigger c.peers@.contains_key(k)]
            c.peers@.contains_key(k) ==> c.peers@[k].len() > 0 && parsed_endpoint(
                c.peers@[k],
            ) is Some) && c.raft.violation() is Some ==> fault is TimingInvariant,
{
}

/// The number that a decimal numeral stands for.
pub open spec fn numeral_value(text: Seq<char>) -> int
    decreases text.len(),
{
    if text.len() == 0 {
        0
    } else {
        10 * numeral_value(text.drop_last()) + (text.last() as int - '0' as int)
    }
}

/// A decimal numeral reads as the number that it was made from.
pub proof fn law_numeral_reads_back(n: nat)
    ensures
        numeral_value(crate::text::decimal(n)) == n,
    decreases n,
{
    let text = crate::text::decimal(n);
    if n < 10 {
        assert(text.drop_last() =~= Seq::empty());
        assert(numeral_value(text.drop_last()) == 0);
    } else {
        law_numeral_reads_back(n / 10);
        assert(text.drop_last() =~= crate::text::decimal(n / 10));
    }
}

/// A configuration is valid exactly if the node does not list itself, every peer
/// has an address that can be used, and timing and policy keep their rules.
pub proof fn law_valid_configuration(c: Config)
    ensures
        c.valid() <==> {
            &&& !c.peers@.contains_key(c.node_id@)
            &&& forall|k: u64|
                #![trigger c.peers@.contains_key(k)]
                c.peers@.contains_key(k) ==> c.peers@[k].len() > 0 && parsed_endpoint(
                    c.peers@[k],
                ) is Some
            &&& c.raft.violation() is None
            &&& c.policy.veto_timeout_ms > 0
            &&& c.policy.veto_addr@.len() > 0
            &&& parsed_endpoint(c.policy.veto_addr@) is Some
        },
{
    if forall|k: u64|
        #![trigger c.peers@.contains_key(k)]
        c.peers@.contains_key(k) ==> c.peers@[k].len() > 0 && parsed_endpoint(c.peers@[k]) is Some {
        assert(c.peers_usable());
    }
}

} // verus!
