//! Leading the cluster.
use std::collections::HashMap;
use std::collections::HashSet;

use vstd::prelude::*;

use super::NodeState;
use super::RaftNode;
use super::TickAction;
use crate::errors::NodeError;
use crate::storage::LogStorage;
use crate::tick::Tick;
use crate::tick::TickDuration;
use crate::types::LogEntry;
use crate::types::LogIndex;
use crate::types::NodeId;
use crate::types::Term;

verus! {

use super::LeaderView;
use super::RoleView;
use crate::types::ArithmeticError;
use crate::types::EntryView;
use crate::types::entry_views;

broadcast use vstd::std_specs::hash::group_hash_axioms;

/// The nodes that a list names.
pub open spec fn id_set(ids: Seq<NodeId>) -> Set<u64> {
    ids.map_values(|id: NodeId| id@).to_set()
}

/// What a leader knows at the start of its term: it will try every peer at the
/// end of its own log, and nothing is known to be replicated.
pub open spec fn fresh_leader(
    peers: Set<u64>,
    last_log_index: LogIndex,
    last_heartbeat: Tick,
) -> LeaderView {
    LeaderView {
        next_index: Map::new(
            |k: u64| peers.contains(k),
            |k: u64| LogIndex((last_log_index.0 + 1) as u64),
        ),
        match_index: Map::new(|k: u64| peers.contains(k), |k: u64| LogIndex(0)),
        last_heartbeat,
        current_read_epoch: 0,
        confirmed_read_epoch: 0,
        acks: Set::empty(),
    }
}

/// Takes in commands and replicates them.
#[derive(Debug)]
pub struct Leader {
    next_index: HashMap<u64, LogIndex>,
    match_index: HashMap<u64, LogIndex>,
    last_heartbeat: Tick,
    current_read_epoch: u64,
    confirmed_read_epoch: u64,
    heartbeat_acks: HashSet<u64>,
}

impl View for Leader {
    type V = LeaderView;

    closed spec fn view(&self) -> LeaderView {
        LeaderView {
            next_index: self.next_index@,
            match_index: self.match_index@,
            last_heartbeat: self.last_heartbeat,
            current_read_epoch: self.current_read_epoch,
            confirmed_read_epoch: self.confirmed_read_epoch,
            acks: self.heartbeat_acks@,
        }
    }
}

impl NodeState for Leader {
    open spec fn role(&self) -> RoleView {
        RoleView::Leader(self@)
    }
}

impl LeaderView {
    /// The index to send to `peer` next; the whole log if the peer is unknown.
    pub open spec fn next_for(self, peer: u64) -> LogIndex {
        if self.next_index.contains_key(peer) {
            self.next_index[peer]
        } else {
            LogIndex(1)
        }
    }

    /// The highest index known to be replicated on `peer`.
    pub open spec fn match_for(self, peer: u64) -> LogIndex {
        if self.match_index.contains_key(peer) {
            self.match_index[peer]
        } else {
            LogIndex(0)
        }
    }

    /// The leader after a read was asked for: a round that was already
    /// confirmed cannot vouch for the read, so a new one is started.
    pub open spec fn probing(self, self_id: u64) -> LeaderView {
        if self.confirmed_read_epoch == self.current_read_epoch {
            LeaderView {
                current_read_epoch: (self.current_read_epoch + 1) as u64,
                acks: set![self_id],
                ..self
            }
        } else {
            self
        }
    }

    /// The leader after `peer` answered a heartbeat.
    pub open spec fn acknowledged(self, peer: u64, quorum: nat) -> LeaderView {
        let acks = self.acks.insert(peer);
        LeaderView {
            acks,
            confirmed_read_epoch: if acks.len() >= quorum {
                self.current_read_epoch
            } else {
                self.confirmed_read_epoch
            },
            ..self
        }
    }
}

impl Leader {
    pub fn new(peer_ids: Vec<NodeId>, last_log_index: LogIndex, last_heartbeat: Tick) -> (r: Result<
        Leader,
        NodeError,
    >)
        ensures
            match r {
                Ok(l) => (peer_ids.len() == 0 || last_log_index.0 < u64::MAX) && l@ == fresh_leader(
                    id_set(peer_ids@),
                    last_log_index,
                    last_heartbeat,
                ),
                Err(e) => peer_ids.len() > 0 && last_log_index.0 == u64::MAX && e
                    == NodeError::Arithmetic(ArithmeticError::Overflow),
            },
    {
        let mut next_index: HashMap<u64, LogIndex> = HashMap::new();
        let mut match_index: HashMap<u64, LogIndex> = HashMap::new();
        let ghost ids = peer_ids@.map_values(|id: NodeId| id@);
        let mut i: usize = 0;
        while i < peer_ids.len()
            invariant
                i <= peer_ids.len(),
                ids == peer_ids@.map_values(|id: NodeId| id@),
                i > 0 ==> last_log_index.0 < u64::MAX,
                forall|k: u64| #[trigger]
                    next_index@.contains_key(k) <==> ids.take(i as int).contains(k),
                forall|k: u64| #[trigger]
                    match_index@.contains_key(k) <==> ids.take(i as int).contains(k),
                forall|k: u64| #[trigger]
                    next_index@.contains_key(k) ==> next_index@[k] == LogIndex(
                        (last_log_index.0 + 1) as u64,
                    ),
                forall|k: u64| #[trigger]
                    match_index@.contains_key(k) ==> match_index@[k] == LogIndex(0),
            decreases peer_ids.len() - i,
        {
            let peer: u64 = peer_ids[i].as_u64();
            let next: LogIndex = match last_log_index.checked_add(1) {
                Ok(n) => n,
                Err(e) => return Err(NodeError::Arithmetic(e)),
            };
            next_index.insert(peer, next);
            match_index.insert(peer, LogIndex(0));
            proof {
                let before = ids.take(i as int);
                let after = ids.take(i + 1);
                assert(after =~= before.push(peer));
                assert forall|k: u64| after.contains(k) <==> before.contains(k) || k == peer by {
                    if before.contains(k) {
                        let j = before.index_of(k);
                        assert(after[j] == k);
                    }
                    if k == peer {
                        assert(after[i as int] == k);
                    }
                    if after.contains(k) && k != peer {
                        let j = after.index_of(k);
                        assert(before[j] == k);
                    }
                }
            }
            i = i + 1;
        }
        proof {
            assert(ids.take(i as int) =~= ids);
        }
        let leader = Leader {
            next_index,
            match_index,
            last_heartbeat,
            current_read_epoch: 0,
            confirmed_read_epoch: 0,
            heartbeat_acks: HashSet::new(),
        };
        assert(leader@ =~= fresh_leader(id_set(peer_ids@), last_log_index, last_heartbeat));
        Ok(leader)
    }

    pub fn last_heartbeat(&self) -> (r: Tick)
        ensures
            r == self@.last_heartbeat,
    {
        self.last_heartbeat
    }

    pub fn reset_heartbeat(&mut self, current_tick: Tick)
        ensures
            final(self)@ == (LeaderView { last_heartbeat: current_tick, ..old(self)@ }),
    {
        self.last_heartbeat = current_tick;
    }

    pub fn next_index(&self) -> (r: &HashMap<u64, LogIndex>)
        ensures
            r@ == self@.next_index,
    {
        &self.next_index
    }

    pub fn next_index_mut(&mut self) -> (r: &mut HashMap<u64, LogIndex>)
        ensures
            r@ == old(self)@.next_index,
            final(self)@ == (LeaderView { next_index: final(r)@, ..old(self)@ }),
    {
        &mut self.next_index
    }

    pub fn match_index(&self) -> (r: &HashMap<u64, LogIndex>)
        ensures
            r@ == self@.match_index,
    {
        &self.match_index
    }

    pub fn match_index_mut(&mut self) -> (r: &mut HashMap<u64, LogIndex>)
        ensures
            r@ == old(self)@.match_index,
            final(self)@ == (LeaderView { match_index: final(r)@, ..old(self)@ }),
    {
        &mut self.match_index
    }

    /// The index to send to `peer_id` next.
    pub fn next_for(&self, peer_id: NodeId) -> (r: LogIndex)
        ensures
            r == self@.next_for(peer_id@),
    {
        match self.next_index.get(&peer_id.as_u64()) {
            Some(index) => *index,
            None => LogIndex(1),
        }
    }

    /// The highest index known to be replicated on `peer_id`.
    pub fn match_for(&self, peer_id: NodeId) -> (r: LogIndex)
        ensures
            r == self@.match_for(peer_id@),
    {
        match self.match_index.get(&peer_id.as_u64()) {
            Some(index) => *index,
            None => LogIndex(0),
        }
    }

    pub fn current_read_epoch(&self) -> (r: u64)
        ensures
            r == self@.current_read_epoch,
    {
        self.current_read_epoch
    }

    pub fn confirmed_read_epoch(&self) -> (r: u64)
        ensures
            r == self@.confirmed_read_epoch,
    {
        self.confirmed_read_epoch
    }

    pub fn evaluate_tick(&self, now: Tick, threshold: TickDuration) -> (r: TickAction)
        ensures
            r == (if now.reached(self@.last_heartbeat, threshold) {
                TickAction::SendHeartbeat
            } else {
                TickAction::Idle
            }),
    {
        if now.has_reached(self.last_heartbeat, threshold) {
            TickAction::SendHeartbeat
        } else {
            TickAction::Idle
        }
    }

    /// Starts a heartbeat round that can vouch for a read made now, unless one
    /// is under way; returns the round to wait for.
    pub fn prepare_read_probe(&mut self, self_id: NodeId) -> (r: u64)
        requires
            old(self)@.confirmed_read_epoch == old(self)@.current_read_epoch ==> old(
                self,
            )@.current_read_epoch < u64::MAX,
        ensures
            final(self)@ == old(self)@.probing(self_id@),
            r == final(self)@.current_read_epoch,
            r > old(self)@.current_read_epoch ==> final(self)@.acks == set![self_id@],
            r == old(self)@.current_read_epoch ==> final(self)@.acks == old(self)@.acks,
            old(self)@.confirmed_read_epoch <= old(self)@.current_read_epoch ==> r
                > final(self)@.confirmed_read_epoch,
    {
        if self.confirmed_read_epoch == self.current_read_epoch {
            self.current_read_epoch = self.current_read_epoch + 1;
            self.heartbeat_acks.clear();
            self.heartbeat_acks.insert(self_id.as_u64());
        }
        assert(self@ =~= old(self)@.probing(self_id@));
        self.current_read_epoch
    }

    /// Records that `peer_id` answered the current round; `quorum_size`
    /// answers confirm it.
    pub fn acknowledge_heartbeat(&mut self, peer_id: NodeId, quorum_size: usize)
        ensures
            final(self)@ == old(self)@.acknowledged(peer_id@, quorum_size as nat),
            final(self)@.acks == old(self)@.acks.insert(peer_id@),
            final(self)@.current_read_epoch == old(self)@.current_read_epoch,
            final(self)@.confirmed_read_epoch != old(self)@.confirmed_read_epoch
                ==> final(self)@.acks.len() >= quorum_size,
    {
        self.heartbeat_acks.insert(peer_id.as_u64());
        if self.heartbeat_acks.len() >= quorum_size {
            self.confirmed_read_epoch = self.current_read_epoch;
        }
    }
}

impl<L: LogStorage> RaftNode<Leader, L> {
    /// Appends `command` to the log under the current term and returns its
    /// index.
    pub fn propose(&mut self, command: Vec<u8>) -> (r: Result<LogIndex, NodeError>)
        ensures
            match r {
                Ok(index) => index.0 == old(self)@.log.last_index() + 1 && final(self)@
                    == old(self)@.with_log(
                    old(self)@.log.appended(
                        seq![
                            EntryView {
                                index: index.0,
                                term: old(self)@.log.current_term.0,
                                data: command@,
                            },
                        ],
                    ),
                ),
                Err(NodeError::Storage(_)) => !old(self).reliable(),
                Err(e) => old(self)@.log.last_index() == u64::MAX && final(self)@ == old(self)@ && e
                    == NodeError::Arithmetic(ArithmeticError::Overflow),
            },
            final(self)@ == old(self)@.with_log(final(self)@.log),
            old(self).reliable() ==> final(self).reliable(),
    {
        let last: LogIndex = self.last_log_index()?;
        let index: LogIndex = match last.checked_add(1) {
            Ok(i) => i,
            Err(e) => return Err(NodeError::Arithmetic(e)),
        };
        let term: Term = self.current_term()?;
        let entry: LogEntry = LogEntry::new(index, term, command);
        let ghost written = seq![entry@];
        let mut entries: Vec<LogEntry> = Vec::new();
        entries.push(entry);
        assert(entry_views(entries@) =~= written);
        self.append_entries(entries)?;
        Ok(index)
    }
}

} // verus!
