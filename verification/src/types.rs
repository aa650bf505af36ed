//! Identifiers and counters of the protocol.
//!
//! Terms and log indices are opaque counters: they are compared freely, but
//! arithmetic on them is checked and reports what went wrong.
use vstd::prelude::*;

verus! {

/// A failed step of checked arithmetic on a counter.
#[derive(Clone, Copy, Debug, PartialEq, Eq, Structural)]
pub enum ArithmeticError {
    /// The result exceeds the largest representable counter.
    Overflow,
    /// The result would be negative.
    Underflow,
}

impl ArithmeticError {
    /// The wording of the error.
    pub open spec fn text(&self) -> Seq<char> {
        match self {
            ArithmeticError::Overflow => "arithmetic overflow"@,
            ArithmeticError::Underflow => "arithmetic underflow"@,
        }
    }

    /// Renders the error.
    pub fn message(&self) -> (r: String)
        ensures
            r@ == self.text(),
    {
        match self {
            ArithmeticError::Overflow => "arithmetic overflow".to_owned(),
            ArithmeticError::Underflow => "arithmetic underflow".to_owned(),
        }
    }
}

/// An election term.
#[derive(Clone, Copy, Debug, PartialEq, Eq, PartialOrd, Ord, Hash, Structural)]
pub struct Term(pub u64);

impl Term {
    pub fn new(value: u64) -> (r: Term)
        ensures
            r == Term(value),
    {
        Term(value)
    }

    /// The counter before anything happened.
    pub fn zero() -> (r: Term)
        ensures
            r == Term(0),
    {
        Term(0)
    }

    pub fn as_u64(&self) -> (r: u64)
        ensures
            r == self.0,
    {
        self.0
    }

    /// Steps forward by `n`, unless the counter would overflow.
    pub fn checked_add(self, n: u64) -> (r: Result<Term, ArithmeticError>)
        ensures
            r == (if self.0 + n <= u64::MAX {
                Ok(Term((self.0 + n) as u64))
            } else {
                Err(ArithmeticError::Overflow)
            }),
    {
        match self.0.checked_add(n) {
            Some(value) => Ok(Term(value)),
            None => Err(ArithmeticError::Overflow),
        }
    }

    /// Steps back by `n`, unless the counter would become negative.
    pub fn checked_sub(self, n: u64) -> (r: Result<Term, ArithmeticError>)
        ensures
            r == (if self.0 >= n {
                Ok(Term((self.0 - n) as u64))
            } else {
                Err(ArithmeticError::Underflow)
            }),
    {
        match self.0.checked_sub(n) {
            Some(value) => Ok(Term(value)),
            None => Err(ArithmeticError::Underflow),
        }
    }
}

/// A position in the replicated log; the first entry has index 1.
#[derive(Clone, Copy, Debug, PartialEq, Eq, PartialOrd, Ord, Hash, Structural)]
pub struct LogIndex(pub u64);

impl LogIndex {
    pub fn new(value: u64) -> (r: LogIndex)
        ensures
            r == LogIndex(value),
    {
        LogIndex(value)
    }

    /// The counter before anything happened.
    pub fn zero() -> (r: LogIndex)
        ensures
            r == LogIndex(0),
    {
        LogIndex(0)
    }

    pub fn as_u64(&self) -> (r: u64)
        ensures
            r == self.0,
    {
        self.0
    }

    /// Steps forward by `n`, unless the counter would overflow.
    pub fn checked_add(self, n: u64) -> (r: Result<LogIndex, ArithmeticError>)
        ensures
            r == (if self.0 + n <= u64::MAX {
                Ok(LogIndex((self.0 + n) as u64))
            } else {
                Err(ArithmeticError::Overflow)
            }),
    {
        match self.0.checked_add(n) {
            Some(value) => Ok(LogIndex(value)),
            None => Err(ArithmeticError::Overflow),
        }
    }

    /// Steps back by `n`, unless the counter would become negative.
    pub fn checked_sub(self, n: u64) -> (r: Result<LogIndex, ArithmeticError>)
        ensures
            r == (if self.0 >= n {
                Ok(LogIndex((self.0 - n) as u64))
            } else {
                Err(ArithmeticError::Underflow)
            }),
    {
        match self.0.checked_sub(n) {
            Some(value) => Ok(LogIndex(value)),
            None => Err(ArithmeticError::Underflow),
        }
    }
}

/// An identifier that a node or a cluster cannot have.
#[derive(Clone, Copy, Debug, PartialEq, Eq, Structural)]
pub enum IdentityError {
    /// Node identifiers start at 1.
    ZeroNodeId,
    /// A cluster identifier needs at least one character.
    EmptyClusterId,
}

/// The identifier of a node, never zero.
#[derive(Clone, Copy, Debug, PartialEq, Eq, PartialOrd, Ord, Hash, Structural)]
pub struct NodeId {
    value: u64,
}

impl View for NodeId {
    type V = u64;

    closed spec fn view(&self) -> u64 {
        self.value
    }
}

impl NodeId {
    #[verifier::type_invariant]
    spec fn inv(self) -> bool {
        self.value != 0
    }

    pub fn try_new(value: u64) -> (r: Result<NodeId, IdentityError>)
        ensures
            match r {
                Ok(id) => value != 0 && id@ == value,
                Err(e) => value == 0 && e == IdentityError::ZeroNodeId,
            },
    {
        if value == 0 {
            Err(IdentityError::ZeroNodeId)
        } else {
            Ok(NodeId { value })
        }
    }

    pub fn as_u64(&self) -> (r: u64)
        ensures
            r == self@,
            r != 0,
    {
        proof {
            use_type_invariant(self);
        }
        self.value
    }

    /// Whether both name the same node.
    pub fn same(&self, other: &NodeId) -> (r: bool)
        ensures
            r == (*self == *other),
            r == (self@ == other@),
    {
        self.value == other.value
    }
}

/// The name of a consensus group, never empty.
#[derive(Debug, PartialEq, Eq, Hash)]
pub struct ClusterId {
    name: String,
}

impl View for ClusterId {
    type V = Seq<char>;

    closed spec fn view(&self) -> Seq<char> {
        self.name@
    }
}

impl ClusterId {
    #[verifier::type_invariant]
    spec fn inv(self) -> bool {
        self.name@.len() > 0
    }

    pub fn try_new(name: &str) -> (r: Result<ClusterId, IdentityError>)
        ensures
            match r {
                Ok(id) => name@.len() > 0 && id@ == name@,
                Err(e) => name@.len() == 0 && e == IdentityError::EmptyClusterId,
            },
    {
        if name.is_empty() {
            Err(IdentityError::EmptyClusterId)
        } else {
            Ok(ClusterId { name: name.to_owned() })
        }
    }

    pub fn as_str(&self) -> (r: &str)
        ensures
            r@ == self@,
            r@.len() > 0,
    {
        proof {
            use_type_invariant(self);
        }
        self.name.as_str()
    }
}

impl Clone for ClusterId {
    fn clone(&self) -> (r: ClusterId)
        ensures
            r@ == self@,
    {
        proof {
            use_type_invariant(self);
        }
        ClusterId { name: self.name.clone() }
    }
}

/// Which node of which cluster this is.
#[derive(Debug, PartialEq, Eq, Hash)]
pub struct NodeIdentity {
    cluster_id: ClusterId,
    node_id: NodeId,
}

/// The contents of a [`NodeIdentity`].
pub struct IdentityView {
    pub cluster: Seq<char>,
    pub node: NodeId,
}

impl View for NodeIdentity {
    type V = IdentityView;

    closed spec fn view(&self) -> IdentityView {
        IdentityView { cluster: self.cluster_id@, node: self.node_id }
    }
}

impl NodeIdentity {
    pub fn new(cluster_id: ClusterId, node_id: NodeId) -> (r: NodeIdentity)
        ensures
            r@ == (IdentityView { cluster: cluster_id@, node: node_id }),
    {
        NodeIdentity { cluster_id, node_id }
    }

    pub fn cluster_id(&self) -> (r: &ClusterId)
        ensures
            r@ == self@.cluster,
    {
        &self.cluster_id
    }

    pub fn node_id(&self) -> (r: NodeId)
        ensures
            r == self@.node,
    {
        self.node_id
    }
}

impl Clone for NodeIdentity {
    fn clone(&self) -> (r: NodeIdentity)
        ensures
            r@ == self@,
    {
        NodeIdentity { cluster_id: self.cluster_id.clone(), node_id: self.node_id }
    }
}

/// The identifier under which one causal chain of calls is traced.
#[derive(Clone, Copy, Debug, PartialEq, Eq, Hash, Structural)]
pub struct TraceId(pub u128);

impl TraceId {
    pub fn new(value: u128) -> (r: TraceId)
        ensures
            r == TraceId(value),
    {
        TraceId(value)
    }
}

/// One entry of the replicated log.
#[derive(Debug, PartialEq, Eq, Hash)]
pub struct LogEntry {
    pub index: u64,
    pub term: u64,
    pub data: Vec<u8>,
}

/// The contents of a [`LogEntry`].
pub struct EntryView {
    pub index: u64,
    pub term: u64,
    pub data: Seq<u8>,
}

impl View for LogEntry {
    type V = EntryView;

    open spec fn view(&self) -> EntryView {
        EntryView { index: self.index, term: self.term, data: self.data@ }
    }
}

impl LogEntry {
    pub fn new(index: LogIndex, term: Term, data: Vec<u8>) -> (r: LogEntry)
        ensures
            r@ == (EntryView { index: index.0, term: term.0, data: data@ }),
    {
        LogEntry { index: index.0, term: term.0, data }
    }
}

impl Clone for LogEntry {
    fn clone(&self) -> (r: LogEntry)
        ensures
            r@ == self@,
    {
        let data: Vec<u8> = self.data.clone();
        assert(data@ =~= self.data@);
        LogEntry { index: self.index, term: self.term, data }
    }
}

/// The contents of a run of log entries.
pub open spec fn entry_views(entries: Seq<LogEntry>) -> Seq<EntryView> {
    Seq::new(entries.len(), |i: int| entries[i]@)
}

} // verus!
