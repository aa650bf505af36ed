//! The interface to the replicated state machine.
use vstd::prelude::*;

use crate::errors::FsmError;
use crate::types::LogIndex;
use crate::types::TraceId;

verus! {

/// A command that the state machine was given: its log index and its payload.
pub struct AppliedCommand {
    pub index: u64,
    pub data: Seq<u8>,
}

/// The commands that a state machine was given, in order.
pub type History = Seq<AppliedCommand>;

/// The application behind the log.
///
/// The engine hands it every committed command once, in the order of the log,
/// and never looks into a command or a snapshot. The `spec` functions describe
/// an implementation; nothing calls them at run time.
pub trait StateMachine: Sized {
    /// The index up to which the state machine says that it has applied the log.
    spec fn applied_index(&self) -> LogIndex;

    /// The commands that were applied, in order.
    spec fn history(&self) -> History;

    /// Whether no call on this state machine fails.
    spec fn reliable(&self) -> bool;

    fn last_applied_index(&self) -> (r: Result<LogIndex, FsmError>)
        ensures
            r matches Ok(i) ==> i == self.applied_index(),
            self.reliable() ==> r is Ok,
    ;

    /// Applies the command at `index`. A command that could not be applied has
    /// left no trace.
    fn apply(&mut self, index: LogIndex, data: &Vec<u8>) -> (r: Result<(), FsmError>)
        ensures
            r is Ok ==> final(self).history() == old(self).history().push(
                AppliedCommand { index: index.0, data: data@ },
            ),
            r is Err ==> final(self).history() == old(self).history(),
            old(self).reliable() ==> r is Ok && final(self).reliable(),
    ;

    /// Serialises the whole state.
    fn snapshot(&self) -> Result<Vec<u8>, FsmError>;

    /// Replaces the whole state by a snapshot that ends at `index`.
    fn install_snapshot(&mut self, index: LogIndex, data: &Vec<u8>, trace_id: TraceId) -> Result<
        (),
        FsmError,
    >;
}

} // verus!
