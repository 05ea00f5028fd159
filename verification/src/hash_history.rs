//! What the board records about a hash: where it came from, and which node
//! combines it.

use vstd::prelude::*;
use crate::hash::HashValue;

verus! {

/// Seconds since the Unix epoch.
pub type Timestamp = u64;

/// The origin of a leaf: when it was submitted, and the data submitted.
/// `data` is `None` once the data has been erased.
#[derive(Debug, PartialEq, Eq)]
pub struct LeafHashHistory {
    pub timestamp: Timestamp,
    pub data: Option<Vec<u8>>,
}

/// The origin of a branch: the two nodes it combines.
#[derive(Clone, Copy, Debug, PartialEq, Eq)]
pub struct BranchHashHistory {
    pub left: HashValue,
    pub right: HashValue,
}

/// The origin of a published root: what its publisher hashed, kept as it is.
#[derive(Debug, PartialEq, Eq)]
pub struct RootHashHistory {
    pub metadata: Vec<u8>,
}

/// Where a hash came from.
#[derive(Debug, PartialEq, Eq)]
pub enum HashSource {
    Leaf(LeafHashHistory),
    Branch(BranchHashHistory),
    Root(RootHashHistory),
}

/// What the board holds for one hash.
#[derive(Debug, PartialEq, Eq)]
pub struct HashInfo {
    pub source: HashSource,
    /// The branch that combines this node, once there is one.
    pub parent: Option<HashValue>,
}

/// The value of a [`HashSource`].
pub enum SourceView {
    Leaf { timestamp: Timestamp, data: Option<Seq<u8>> },
    Branch { left: HashValue, right: HashValue },
    Root { metadata: Seq<u8> },
}

/// The value of a [`HashInfo`].
pub struct RecordView {
    pub source: SourceView,
    pub parent: Option<HashValue>,
}

impl SourceView {
    /// True when a node of this origin combines `child`.
    pub open spec fn names(self, child: HashValue) -> bool {
        self matches SourceView::Branch { left, right } && (left == child || right == child)
    }

    /// The same origin with the data of a leaf erased.
    pub open spec fn censored(self) -> SourceView {
        match self {
            SourceView::Leaf { timestamp, data } => SourceView::Leaf { timestamp, data: None },
            _ => self,
        }
    }
}

impl RecordView {
    /// A node that waits to be combined: a leaf or a branch without a parent.
    pub open spec fn is_orphan(self) -> bool {
        self.parent is None && !(self.source is Root)
    }
}

impl View for LeafHashHistory {
    type V = SourceView;

    open spec fn view(&self) -> SourceView {
        SourceView::Leaf {
            timestamp: self.timestamp,
            data: match self.data {
                Some(bytes) => Some(bytes@),
                None => None,
            },
        }
    }
}

impl View for BranchHashHistory {
    type V = SourceView;

    open spec fn view(&self) -> SourceView {
        SourceView::Branch { left: self.left, right: self.right }
    }
}

impl View for RootHashHistory {
    type V = SourceView;

    open spec fn view(&self) -> SourceView {
        SourceView::Root { metadata: self.metadata@ }
    }
}

impl View for HashSource {
    type V = SourceView;

    open spec fn view(&self) -> SourceView {
        match self {
            HashSource::Leaf(history) => history@,
            HashSource::Branch(history) => history@,
            HashSource::Root(history) => history@,
        }
    }
}

impl View for HashInfo {
    type V = RecordView;

    open spec fn view(&self) -> RecordView {
        RecordView { source: self.source@, parent: self.parent }
    }
}

impl Clone for LeafHashHistory {
    fn clone(&self) -> (copy: Self)
        ensures
            copy@ == self@,
    {
        let data = match &self.data {
            Some(bytes) => Some(bytes.clone()),
            None => None,
        };
        LeafHashHistory { timestamp: self.timestamp, data }
    }
}

impl Clone for RootHashHistory {
    fn clone(&self) -> (copy: Self)
        ensures
            copy@ == self@,
    {
        RootHashHistory { metadata: self.metadata.clone() }
    }
}

impl Clone for HashSource {
    fn clone(&self) -> (copy: Self)
        ensures
            copy@ == self@,
    {
        match self {
            HashSource::Leaf(history) => HashSource::Leaf(history.clone()),
            HashSource::Branch(history) => HashSource::Branch(*history),
            HashSource::Root(history) => HashSource::Root(history.clone()),
        }
    }
}

impl Clone for HashInfo {
    fn clone(&self) -> (copy: Self)
        ensures
            copy@ == self@,
    {
        HashInfo { source: self.source.clone(), parent: self.parent }
    }
}

impl HashInfo {
    /// True when the node waits to be combined: it is a leaf or a branch and
    /// has no parent.
    pub fn is_orphan(&self) -> (orphan: bool)
        ensures
            orphan == self@.is_orphan(),
    {
        self.parent.is_none() && match self.source {
            HashSource::Leaf(_) => true,
            HashSource::Branch(_) => true,
            HashSource::Root(_) => false,
        }
    }
}

} // verus!
