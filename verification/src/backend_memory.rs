//! A backend that keeps the board in memory.

use vstd::prelude::*;
use crate::backend::{entries_of, BulletinBoardBackend, DatabaseTransaction};
use crate::board::Board;
use crate::laws::{
    lemma_censor_keeps_links, lemma_commit_keeps_links, lemma_commit_keeps_parents,
    lemma_parent_is_recorded, lemma_well_formed_step,
};
use crate::error::BoardError;
use crate::hash::HashValue;
use crate::hash_history::{HashInfo, HashSource, LeafHashHistory, RecordView, Timestamp};

verus! {

/// The rows of the store: each is a hash and its record.
type Rows = Seq<(HashValue, HashInfo)>;

/// True when some row is kept under `hash`.
spec fn holds(rows: Rows, hash: HashValue) -> bool {
    exists|i: int| 0 <= i < rows.len() && rows[i].0 == hash
}

/// A row kept under `hash`.
spec fn slot_of(rows: Rows, hash: HashValue) -> int {
    choose|i: int| 0 <= i < rows.len() && rows[i].0 == hash
}

/// No two rows are kept under the same hash.
spec fn distinct(rows: Rows) -> bool {
    forall|i: int, j: int| 0 <= i < j < rows.len() ==> rows[i].0 != rows[j].0
}

/// True when one of the first `end` rows is kept under `hash` and is an
/// orphan.
spec fn orphan_among(rows: Rows, end: int, hash: HashValue) -> bool {
    exists|j: int| 0 <= j < end && rows[j].0 == hash && rows[j].1@.is_orphan()
}

/// The records that the rows stand for.
spec fn records_of(rows: Rows) -> Map<HashValue, RecordView> {
    Map::new(|hash: HashValue| holds(rows, hash), |hash: HashValue| rows[slot_of(rows, hash)].1@)
}

proof fn lemma_row(rows: Rows, i: int)
    requires
        distinct(rows),
        0 <= i < rows.len(),
    ensures
        holds(rows, rows[i].0),
        slot_of(rows, rows[i].0) == i,
        records_of(rows)[rows[i].0] == rows[i].1@,
{
    let j = slot_of(rows, rows[i].0);
    assert(0 <= j < rows.len() && rows[j].0 == rows[i].0);
    if i < j {
        assert(rows[i].0 != rows[j].0);
    } else if j < i {
        assert(rows[j].0 != rows[i].0);
    }
}

proof fn lemma_row_added(rows: Rows, hash: HashValue, info: HashInfo)
    requires
        distinct(rows),
        !holds(rows, hash),
    ensures
        distinct(rows.push((hash, info))),
        records_of(rows.push((hash, info))) == records_of(rows).insert(hash, info@),
{
    let grown = rows.push((hash, info));
    assert forall|i: int, j: int| 0 <= i < j < grown.len() implies grown[i].0 != grown[j].0 by {
        if j == rows.len() {
            assert(rows[i].0 == grown[i].0);
        } else {
            assert(rows[i].0 != rows[j].0);
        }
    }
    assert forall|h: HashValue| holds(grown, h) <==> (h == hash || holds(rows, h)) by {
        if holds(grown, h) {
            let i = slot_of(grown, h);
            if i < rows.len() {
                assert(rows[i].0 == h);
            }
        }
        if holds(rows, h) {
            let i = slot_of(rows, h);
            assert(grown[i].0 == h);
        }
        if h == hash {
            assert(grown[rows.len() as int].0 == h);
        }
    }
    assert forall|h: HashValue| holds(grown, h) implies #[trigger] records_of(grown)[h]
        == records_of(rows).insert(hash, info@)[h] by {
        let i = slot_of(grown, h);
        lemma_row(grown, i);
        if i < rows.len() {
            lemma_row(rows, i);
        }
    }
    assert(records_of(grown) =~= records_of(rows).insert(hash, info@));
}

proof fn lemma_row_changed(rows: Rows, i: int, info: HashInfo)
    requires
        distinct(rows),
        0 <= i < rows.len(),
    ensures
        distinct(rows.update(i, (rows[i].0, info))),
        records_of(rows.update(i, (rows[i].0, info))) == records_of(rows).insert(
            rows[i].0,
            info@,
        ),
{
    let changed = rows.update(i, (rows[i].0, info));
    assert forall|a: int, b: int| 0 <= a < b < changed.len() implies changed[a].0
        != changed[b].0 by {
        assert(rows[a].0 != rows[b].0);
    }
    assert forall|h: HashValue| holds(changed, h) <==> holds(rows, h) by {
        if holds(changed, h) {
            let k = slot_of(changed, h);
            assert(rows[k].0 == h);
        }
        if holds(rows, h) {
            let k = slot_of(rows, h);
            assert(changed[k].0 == h);
        }
    }
    lemma_row(rows, i);
    assert forall|h: HashValue| holds(changed, h) implies #[trigger] records_of(changed)[h]
        == records_of(rows).insert(rows[i].0, info@)[h] by {
        let k = slot_of(changed, h);
        lemma_row(changed, k);
        lemma_row(rows, k);
    }
    assert(records_of(changed) =~= records_of(rows).insert(rows[i].0, info@));
}

/// Store of the board that lives in memory. Useful for tests, not for
/// production: it is gone with the program.
pub struct BackendMemory {
    hash_lookup: Vec<(HashValue, HashInfo)>,
    published: Vec<HashValue>,
}

impl Default for BackendMemory {
    /// A store that holds the empty board.
    fn default() -> (store: BackendMemory)
        ensures
            store.wf(),
            store.board() == Board::empty(),
            store.board().well_linked(),
    {
        let store = BackendMemory { hash_lookup: Vec::new(), published: Vec::new() };
        assert(store.board().records =~= Map::empty());
        store
    }
}

impl BackendMemory {
    /// The row kept under `hash`, if there is one.
    fn position(&self, hash: &HashValue) -> (slot: Option<usize>)
        requires
            self.wf(),
        ensures
            slot matches Some(i) ==> i < self.hash_lookup@.len() && self.hash_lookup@[i as int].0
                == *hash,
            slot is Some <==> self.board().knows(*hash),
    {
        let mut i: usize = 0;
        while i < self.hash_lookup.len()
            invariant
                i <= self.hash_lookup@.len(),
                forall|j: int| 0 <= j < i ==> self.hash_lookup@[j].0 != *hash,
            decreases self.hash_lookup@.len() - i,
        {
            if self.hash_lookup[i].0 == *hash {
                return Some(i);
            }
            i += 1;
        }
        None
    }

    /// Adds a record for `hash`, which the board does not know yet.
    fn insert(&mut self, hash: HashValue, source: HashSource)
        requires
            old(self).wf(),
            !old(self).board().knows(hash),
        ensures
            final(self).wf(),
            final(self).board() == old(self).board().with_record(hash, source@),
    {
        let info = HashInfo { source, parent: None };
        proof {
            lemma_row_added(self.hash_lookup@, hash, info);
        }
        self.hash_lookup.push((hash, info));
    }

    /// Records the branch `parent` as the parent of `child`, which it
    /// combines, if `child` has no parent yet. A parent that `child` has
    /// stays.
    pub fn add_parent(&mut self, child: &HashValue, parent: HashValue)
        requires
            old(self).wf(),
            old(self).board().knows(*child),
            old(self).board().knows(parent),
            old(self).board().records[parent].source.names(*child),
        ensures
            final(self).wf(),
            final(self).board() == old(self).board().with_parent(*child, parent),
            final(self).board().keeps_parents_of(old(self).board()),
            old(self).board().well_linked() ==> final(self).board() == old(self).board(),
    {
        let i: usize = self.position(child).unwrap();
        proof {
            lemma_row(self.hash_lookup@, i as int);
            if self.board().well_linked() {
                lemma_parent_is_recorded(self.board(), *child, parent);
            }
        }
        if self.hash_lookup[i].1.parent.is_none() {
            proof {
                let row = self.hash_lookup@[i as int];
                lemma_row_changed(
                    self.hash_lookup@,
                    i as int,
                    HashInfo { source: row.1.source, parent: Some(parent) },
                );
            }
            self.hash_lookup[i].1.parent = Some(parent);
            assert(self.hash_lookup@ =~= old(self).hash_lookup@.update(
                i as int,
                (
                    old(self).hash_lookup@[i as int].0,
                    HashInfo {
                        source: old(self).hash_lookup@[i as int].1.source,
                        parent: Some(parent),
                    },
                ),
            ));
        }
    }
}

/// Tells whether one of the first `end` pending nodes brings `hash`.
fn listed_before(pending: &Vec<(HashValue, HashSource)>, end: usize, hash: &HashValue) -> (found:
    bool)
    requires
        end <= pending@.len(),
    ensures
        found == Board::brought_by(entries_of(pending@), end as int, *hash),
{
    let mut j: usize = 0;
    while j < end
        invariant
            j <= end <= pending@.len(),
            forall|a: int| 0 <= a < j ==> pending@[a].0 != *hash,
        decreases end - j,
    {
        if pending[j].0 == *hash {
            assert(entries_of(pending@)[j as int].0 == *hash);
            return true;
        }
        j += 1;
    }
    assert forall|a: int| 0 <= a < end implies entries_of(pending@)[a].0 != *hash by {
        assert(pending@[a].0 != *hash);
    }
    false
}

impl BackendMemory {
    /// Tells whether `hash` is at hand for the pending node at `end`: the
    /// board knows it, or an earlier pending node brings it.
    fn reaches(&self, pending: &Vec<(HashValue, HashSource)>, end: usize, hash: &HashValue) -> (at_hand:
        bool)
        requires
            self.wf(),
            end <= pending@.len(),
        ensures
            at_hand == self.board().reaches(entries_of(pending@), end as int, *hash),
    {
        self.position(hash).is_some() || listed_before(pending, end, hash)
    }

    /// Tells whether the pending nodes form a batch that the board accepts.
    fn accepts(&self, pending: &Vec<(HashValue, HashSource)>) -> (ok: bool)
        requires
            self.wf(),
        ensures
            ok == self.board().accepts_all(entries_of(pending@)),
    {
        let ghost entries = entries_of(pending@);
        let n: usize = pending.len();
        let mut k: usize = 0;
        while k < n
            invariant
                k <= n,
                n == pending@.len(),
                entries == entries_of(pending@),
                self.wf(),
                forall|j: int| 0 <= j < k ==> self.board().well_formed_at(entries, j),
            decreases n - k,
        {
            let fresh = !self.reaches(pending, k, &pending[k].0);
            let linked = match &pending[k].1 {
                HashSource::Branch(history) => self.reaches(pending, k, &history.left)
                    && self.reaches(pending, k, &history.right),
                _ => true,
            };
            assert((fresh && linked) == self.board().well_formed_at(entries, k as int));
            if !(fresh && linked) {
                return false;
            }
            k += 1;
        }
        true
    }
}

impl BulletinBoardBackend for BackendMemory {
    closed spec fn wf(&self) -> bool {
        distinct(self.hash_lookup@)
    }

    closed spec fn board(&self) -> Board {
        Board { records: records_of(self.hash_lookup@), published: self.published@ }
    }

    fn get_all_published_roots(&self) -> (roots: Result<Vec<HashValue>, BoardError>)
        ensures
            roots is Ok,
    {
        Ok(self.published.clone())
    }

    fn get_most_recent_published_root(&self) -> (head: Result<Option<HashValue>, BoardError>)
        ensures
            head is Ok,
    {
        let n: usize = self.published.len();
        if n == 0 {
            Ok(None)
        } else {
            Ok(Some(self.published[n - 1]))
        }
    }

    fn get_all_leaves_and_branches_without_a_parent(&self) -> (orphans: Result<
        Vec<HashValue>,
        BoardError,
    >)
        ensures
            orphans is Ok,
    {
        let mut list: Vec<HashValue> = Vec::new();
        let mut i: usize = 0;
        while i < self.hash_lookup.len()
            invariant
                i <= self.hash_lookup@.len(),
                self.wf(),
                list@.no_duplicates(),
                forall|h: HashValue|
                    list@.contains(h) <==> orphan_among(self.hash_lookup@, i as int, h),
            decreases self.hash_lookup@.len() - i,
        {
            let ghost rows = self.hash_lookup@;
            let ghost before = list@;
            if self.hash_lookup[i].1.is_orphan() {
                list.push(self.hash_lookup[i].0);
            }
            proof {
                let row = rows[i as int];
                assert(!orphan_among(rows, i as int, row.0)) by {
                    if orphan_among(rows, i as int, row.0) {
                        let j = choose|j: int|
                            0 <= j < i && rows[j].0 == row.0 && rows[j].1@.is_orphan();
                        assert(rows[j].0 != rows[i as int].0);
                    }
                }
                assert(!before.contains(row.0));
                assert(list@.no_duplicates()) by {
                    if row.1@.is_orphan() {
                        assert(list@ == before.push(row.0));
                        assert forall|a: int, b: int|
                            0 <= a < list@.len() && 0 <= b < list@.len() && a != b implies list@[a]
                            != list@[b] by {
                            if a < before.len() {
                                assert(before.contains(before[a]));
                            }
                            if b < before.len() {
                                assert(before.contains(before[b]));
                            }
                        }
                    }
                }
                assert forall|h: HashValue|
                    list@.contains(h) <==> orphan_among(rows, i + 1, h) by {
                    assert(before.contains(h) <==> orphan_among(rows, i as int, h));
                    if orphan_among(rows, i + 1, h) {
                        let j = choose|j: int|
                            0 <= j < i + 1 && rows[j].0 == h && rows[j].1@.is_orphan();
                        if j < i {
                            assert(orphan_among(rows, i as int, h));
                            let a = choose|a: int| 0 <= a < before.len() && before[a] == h;
                            assert(list@[a] == h);
                        } else {
                            assert(list@[before.len() as int] == h);
                        }
                    }
                    if list@.contains(h) {
                        let a = choose|a: int| 0 <= a < list@.len() && list@[a] == h;
                        if a < before.len() {
                            assert(before.contains(h));
                            let j = choose|j: int|
                                0 <= j < i && rows[j].0 == h && rows[j].1@.is_orphan();
                            assert(0 <= j < i + 1 && rows[j].0 == h && rows[j].1@.is_orphan());
                        } else {
                            assert(0 <= i < i + 1 && rows[i as int].0 == h && row.1@.is_orphan());
                        }
                    }
                }
            }
            i += 1;
        }
        proof {
            let rows = self.hash_lookup@;
            assert forall|h: HashValue|
                list@.to_set().contains(h) <==> self.board().orphans().contains(h) by {
                if orphan_among(rows, rows.len() as int, h) {
                    let j = choose|j: int|
                        0 <= j < rows.len() && rows[j].0 == h && rows[j].1@.is_orphan();
                    lemma_row(rows, j);
                }
                if self.board().orphans().contains(h) {
                    let j = slot_of(rows, h);
                    assert(0 <= j < rows.len() && rows[j].0 == h && rows[j].1@.is_orphan());
                }
            }
            assert(list@.to_set() =~= self.board().orphans());
        }
        Ok(list)
    }

    fn get_hash_info(&self, query: HashValue) -> (found: Result<Option<HashInfo>, BoardError>)
        ensures
            found is Ok,
    {
        match self.position(&query) {
            Some(i) => {
                proof {
                    lemma_row(self.hash_lookup@, i as int);
                }
                Ok(Some(self.hash_lookup[i].1.clone()))
            },
            None => Ok(None),
        }
    }

    fn publish(&mut self, transaction: &DatabaseTransaction) -> (done: Result<(), BoardError>)
        ensures
            done == old(self).board().commit_outcome(transaction@),
            final(self).board() == old(self).board().commit(transaction@),
            old(self).board().well_linked() ==> final(self).board().well_linked(),
            done is Err ==> *final(self) == *old(self),
    {
        proof {
            if self.board().well_linked() {
                lemma_commit_keeps_links(self.board(), transaction@);
            }
        }
        if !self.accepts(&transaction.pending) {
            return Err(BoardError::MalformedTransaction);
        }
        let ghost start = self.board();
        let ghost entries = transaction@;
        let n: usize = transaction.pending.len();
        let mut k: usize = 0;
        while k < n
            invariant
                k <= n,
                n == transaction.pending@.len(),
                entries == entries_of(transaction.pending@),
                self.wf(),
                start.accepts_all(entries),
                self.board() == start.apply_first(entries, k as nat),
            decreases n - k,
        {
            proof {
                lemma_well_formed_step(start, entries, k as int);
            }
            let new_hash = transaction.pending[k].0;
            match &transaction.pending[k].1 {
                HashSource::Leaf(history) => {
                    self.insert(new_hash, HashSource::Leaf(history.clone()));
                },
                HashSource::Branch(history) => {
                    self.insert(new_hash, HashSource::Branch(*history));
                    self.add_parent(&history.left, new_hash);
                    self.add_parent(&history.right, new_hash);
                },
                HashSource::Root(history) => {
                    self.insert(new_hash, HashSource::Root(history.clone()));
                    self.published.push(new_hash);
                },
            }
            k += 1;
        }
        proof {
            lemma_commit_keeps_parents(start, entries);
        }
        Ok(())
    }

    fn censor_leaf(&mut self, leaf_to_censor: HashValue) -> (done: Result<(), BoardError>)
        ensures
            done == old(self).board().censor_outcome(leaf_to_censor),
            final(self).board() == old(self).board().censor(leaf_to_censor),
            old(self).board().well_linked() ==> final(self).board().well_linked(),
            done is Err ==> *final(self) == *old(self),
    {
        proof {
            if self.board().well_linked() {
                lemma_censor_keeps_links(self.board(), leaf_to_censor);
            }
        }
        match self.position(&leaf_to_censor) {
            None => Err(BoardError::NotFound),
            Some(i) => {
                proof {
                    lemma_row(self.hash_lookup@, i as int);
                }
                match &self.hash_lookup[i].1.source {
                    HashSource::Leaf(history) => {
                        let timestamp: Timestamp = history.timestamp;
                        let erased = HashSource::Leaf(LeafHashHistory { timestamp, data: None });
                        proof {
                            let row = self.hash_lookup@[i as int];
                            lemma_row_changed(
                                self.hash_lookup@,
                                i as int,
                                HashInfo { source: erased, parent: row.1.parent },
                            );
                        }
                        self.hash_lookup[i].1.source = erased;
                        assert(self.hash_lookup@ =~= old(self).hash_lookup@.update(
                            i as int,
                            (
                                old(self).hash_lookup@[i as int].0,
                                HashInfo {
                                    source: erased,
                                    parent: old(self).hash_lookup@[i as int].1.parent,
                                },
                            ),
                        ));
                        Ok(())
                    },
                    _ => Err(BoardError::InvalidOperation),
                }
            },
        }
    }
}

} // verus!
