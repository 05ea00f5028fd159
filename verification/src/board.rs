//! The state of a bulletin board as a mathematical value, and what the
//! operations of a backend do to it.

use vstd::prelude::*;
use crate::error::BoardError;
use crate::hash::HashValue;
use crate::hash_history::{RecordView, SourceView};

verus! {

/// The entries of a batch, in the order in which they are applied: each is
/// a new hash and where it came from.
pub type Entries = Seq<(HashValue, SourceView)>;

/// Everything a board holds: a record for each known hash, and the published
/// roots from the oldest to the newest.
pub struct Board {
    pub records: Map<HashValue, RecordView>,
    pub published: Seq<HashValue>,
}

/// An operation that changes a board.
pub enum Operation {
    /// Apply a batch of entries, all of them or none.
    Commit(Entries),
    /// Erase the data of a leaf.
    Censor(HashValue),
}

impl Board {
    /// The board that holds nothing.
    pub open spec fn empty() -> Board {
        Board { records: Map::empty(), published: Seq::empty() }
    }

    /// True when the board has a record for `hash`.
    pub open spec fn knows(self, hash: HashValue) -> bool {
        self.records.contains_key(hash)
    }

    /// The newest published root, if any root was published.
    pub open spec fn head(self) -> Option<HashValue> {
        if self.published.len() == 0 {
            None
        } else {
            Some(self.published.last())
        }
    }

    /// The leaves and branches that no branch combines yet.
    pub open spec fn orphans(self) -> Set<HashValue> {
        Set::new(|hash: HashValue| self.knows(hash) && self.records[hash].is_orphan())
    }

    /// True when an entry may be applied to this board: its hash is new, and
    /// if it is a branch, the board knows both of its children.
    pub open spec fn accepts(self, hash: HashValue, source: SourceView) -> bool {
        &&& !self.knows(hash)
        &&& source matches SourceView::Branch { left, right } ==> self.knows(left) && self.knows(
            right,
        )
    }

    /// The board with a record added for `hash`, which has no parent yet.
    pub open spec fn with_record(self, hash: HashValue, source: SourceView) -> Board {
        Board {
            records: self.records.insert(hash, RecordView { source, parent: None }),
            published: self.published,
        }
    }

    /// The board with `parent` recorded as the parent of `child`, if `child`
    /// has no parent yet. A parent, once recorded, stays: a board on which
    /// `child` has a parent stays as it is, and so does a board that does not
    /// know `child`.
    pub open spec fn with_parent(self, child: HashValue, parent: HashValue) -> Board {
        if self.knows(child) && self.records[child].parent is None {
            Board {
                records: self.records.insert(
                    child,
                    RecordView { source: self.records[child].source, parent: Some(parent) },
                ),
                published: self.published,
            }
        } else {
            self
        }
    }

    /// The board with `root` published after the roots it has.
    pub open spec fn with_root(self, root: HashValue) -> Board {
        Board { records: self.records, published: self.published.push(root) }
    }

    /// The board after one entry: a record for `hash` is added; a branch
    /// becomes the parent of each node it combines that has no parent yet; a
    /// root is published.
    pub open spec fn apply(self, hash: HashValue, source: SourceView) -> Board {
        let added = self.with_record(hash, source);
        match source {
            SourceView::Leaf { .. } => added,
            SourceView::Branch { left, right } => added.with_parent(left, hash).with_parent(
                right,
                hash,
            ),
            SourceView::Root { .. } => added.with_root(hash),
        }
    }

    /// The board after the first `n` entries, applied in order.
    pub open spec fn apply_first(self, entries: Entries, n: nat) -> Board
        decreases n,
    {
        if n == 0 {
            self
        } else {
            let k = (n - 1) as nat;
            self.apply_first(entries, k).apply(entries[k as int].0, entries[k as int].1)
        }
    }

    /// True when one of the first `n` entries brings `hash`.
    pub open spec fn brought_by(entries: Entries, n: int, hash: HashValue) -> bool {
        exists|j: int| 0 <= j < n && j < entries.len() && entries[j].0 == hash
    }

    /// True when `hash` is at hand for entry `k` of a batch: the board knows
    /// it, or an earlier entry of the batch brings it.
    pub open spec fn reaches(self, entries: Entries, k: int, hash: HashValue) -> bool {
        self.knows(hash) || Board::brought_by(entries, k, hash)
    }

    /// True when entry `k` of a batch is well formed: its hash is not at hand
    /// yet, and if it is a branch, both of its children are.
    pub open spec fn well_formed_at(self, entries: Entries, k: int) -> bool {
        &&& !self.reaches(entries, k, entries[k].0)
        &&& entries[k].1 matches SourceView::Branch { left, right } ==> self.reaches(
            entries,
            k,
            left,
        ) && self.reaches(entries, k, right)
    }

    /// True when the batch is well formed for this board: no entry brings a
    /// hash that the board or an earlier entry already holds, and each child
    /// of a branch is on the board or comes earlier in the batch.
    pub open spec fn accepts_all(self, entries: Entries) -> bool {
        forall|k: int| 0 <= k < entries.len() ==> self.well_formed_at(entries, k)
    }

    /// The hashes of the roots among the first `n` entries, in their order.
    pub open spec fn roots_among(entries: Entries, n: nat) -> Seq<HashValue>
        decreases n,
    {
        if n == 0 {
            Seq::empty()
        } else {
            let k = (n - 1) as nat;
            if entries[k as int].1 is Root {
                Board::roots_among(entries, k).push(entries[k as int].0)
            } else {
                Board::roots_among(entries, k)
            }
        }
    }

    /// The board after a batch: every entry applied in order if the batch is
    /// well formed, and the board unchanged if it is not.
    pub open spec fn commit(self, entries: Entries) -> Board {
        if self.accepts_all(entries) {
            self.apply_first(entries, entries.len())
        } else {
            self
        }
    }

    /// True when the data of `hash` can be erased: the board knows it as a
    /// leaf.
    pub open spec fn holds_leaf(self, hash: HashValue) -> bool {
        self.knows(hash) && self.records[hash].source is Leaf
    }

    /// The board with the data of the leaf `hash` erased. Its timestamp and
    /// its parent stay; a board without that leaf stays as it is.
    pub open spec fn censor(self, hash: HashValue) -> Board {
        if self.holds_leaf(hash) {
            Board {
                records: self.records.insert(
                    hash,
                    RecordView {
                        source: self.records[hash].source.censored(),
                        parent: self.records[hash].parent,
                    },
                ),
                published: self.published,
            }
        } else {
            self
        }
    }

    /// How a commit of `entries` ends on this board.
    pub open spec fn commit_outcome(self, entries: Entries) -> Result<(), BoardError> {
        if self.accepts_all(entries) {
            Ok(())
        } else {
            Err(BoardError::MalformedTransaction)
        }
    }

    /// How erasing the data of `hash` ends on this board.
    pub open spec fn censor_outcome(self, hash: HashValue) -> Result<(), BoardError> {
        if !self.knows(hash) {
            Err(BoardError::NotFound)
        } else if !(self.records[hash].source is Leaf) {
            Err(BoardError::InvalidOperation)
        } else {
            Ok(())
        }
    }

    /// True when the record of `hash` fits the rest of the board: its parent
    /// is a known branch that combines it; if it is a branch, the nodes it
    /// combines are known and have a parent; if it is a root, it is
    /// published.
    pub open spec fn linked_at(self, hash: HashValue) -> bool {
        let record = self.records[hash];
        &&& record.parent matches Some(parent) ==> self.knows(parent)
            && self.records[parent].source.names(hash)
        &&& record.source matches SourceView::Branch { left, right } ==> self.knows(left)
            && self.knows(right) && self.records[left].parent is Some
            && self.records[right].parent is Some
        &&& record.source is Root ==> self.published.contains(hash)
    }

    /// True when the board fits together: every record fits the rest, and
    /// the published roots are known roots, each of them once.
    pub open spec fn well_linked(self) -> bool {
        &&& forall|hash: HashValue| self.knows(hash) ==> #[trigger] self.linked_at(hash)
        &&& forall|i: int|
            0 <= i < self.published.len() ==> self.knows(#[trigger] self.published[i])
                && self.records[self.published[i]].source is Root
        &&& self.published.no_duplicates()
    }

    /// True when every node that has a parent on `earlier` has the same
    /// parent on this board.
    pub open spec fn keeps_parents_of(self, earlier: Board) -> bool {
        forall|child: HashValue| #[trigger]
            earlier.knows(child) && earlier.records[child].parent is Some ==> self.knows(child)
                && self.records[child].parent == earlier.records[child].parent
    }

    /// The board after one operation.
    pub open spec fn perform(self, op: Operation) -> Board {
        match op {
            Operation::Commit(entries) => self.commit(entries),
            Operation::Censor(hash) => self.censor(hash),
        }
    }

    /// The board after the first `n` of a sequence of operations.
    pub open spec fn perform_first(self, ops: Seq<Operation>, n: nat) -> Board
        decreases n,
    {
        if n == 0 {
            self
        } else {
            let k = (n - 1) as nat;
            self.perform_first(ops, k).perform(ops[k as int])
        }
    }

    /// The board after a sequence of operations.
    pub open spec fn perform_all(self, ops: Seq<Operation>) -> Board {
        self.perform_first(ops, ops.len())
    }
}

} // verus!
