//! The per-enumeration cache: a filled-once, sorted, cursor-addressed list
//! of directory entries.
//!
//! A cache starts empty, is filled by appending candidate entries, and is
//! then sorted exactly once under the fixed collation and marked filled;
//! only after that are entries read out through the cursor. A restart
//! resets the cache to its empty state.

use vstd::prelude::*;

use crate::name::collate_le;
use vstd::multiset::Multiset;

verus! {

broadcast use vstd::seq_lib::group_to_multiset_ensures, vstd::multiset::group_multiset_axioms;

/// The mathematical value of one directory entry.
pub ghost struct EntryModel {
    pub name: Seq<u8>,
    pub is_directory: bool,
    pub size: i64,
}

/// One entry of a directory listing: a name, whether it is a container, and
/// a size in bytes (always 0 for containers).
pub struct DirEntry {
    pub filename: Vec<u8>,
    pub is_directory: bool,
    pub size: i64,
}

impl View for DirEntry {
    type V = EntryModel;

    open spec fn view(&self) -> EntryModel {
        EntryModel { name: self.filename@, is_directory: self.is_directory, size: self.size }
    }
}

/// The metadata the host needs to materialize a placeholder for an entry.
pub struct FileBasicInfo {
    pub is_directory: bool,
    pub file_size: i64,
}

/// The entries are totally ordered by the collation, ascending.
pub open spec fn sorted_entries(s: Seq<EntryModel>) -> bool {
    forall|i: int, j: int|
        0 <= i < j < s.len() ==> collate_le(#[trigger] s[i].name, #[trigger] s[j].name)
}

/// The models of a run of entries.
pub open spec fn entry_models(entries: Seq<DirEntry>) -> Seq<EntryModel> {
    entries.map_values(|e: DirEntry| e@)
}

proof fn lemma_map_models_push(s: Seq<DirEntry>, e: DirEntry)
    ensures
        entry_models(s.push(e)) =~= entry_models(s).push(e@),
{
}

proof fn lemma_map_models_insert(s: Seq<DirEntry>, k: int, e: DirEntry)
    requires
        0 <= k <= s.len(),
    ensures
        entry_models(s.insert(k, e)) =~= entry_models(s).insert(k, e@),
{
}

proof fn lemma_map_models_remove(s: Seq<DirEntry>, k: int)
    requires
        0 <= k < s.len(),
    ensures
        entry_models(s.remove(k)) =~= entry_models(s).remove(k),
{
}

/// A sequence without elements has no elements in its multiset either.
proof fn lemma_empty_models_multiset(s: Seq<EntryModel>)
    requires
        s.len() == 0,
    ensures
        s.to_multiset() =~= Multiset::<EntryModel>::empty(),
{
    assert forall|y: EntryModel|
        s.to_multiset().count(y) == Multiset::<EntryModel>::empty().count(y) by {
        if s.to_multiset().count(y) > 0 {
            assert(s.contains(y));
        }
    }
}

/// Inserting an element anywhere in a sequence inserts it into the
/// sequence's multiset.
proof fn lemma_to_multiset_insert<A>(s: Seq<A>, k: int, x: A)
    requires
        0 <= k <= s.len(),
    ensures
        s.insert(k, x).to_multiset() =~= s.to_multiset().insert(x),
{
    let t = s.insert(k, x);
    assert(t.remove(k) =~= s);
    vstd::seq_lib::to_multiset_remove(t, k);
    assert(s.to_multiset() == t.to_multiset().remove(x));
    assert(t[k] == x);
    assert(t.contains(x));
    assert(t.to_multiset().count(x) > 0);
    assert forall|y: A| t.to_multiset().count(y) == s.to_multiset().insert(x).count(y) by {
        if y == x {
        } else {
        }
    }
    assert(t.to_multiset() =~= s.to_multiset().insert(x));
}

/// Inserting an element at a position that is at or after everything below
/// it and at or before everything above it keeps the sequence sorted.
proof fn lemma_sorted_insert(s: Seq<EntryModel>, k: int, e: EntryModel)
    requires
        sorted_entries(s),
        0 <= k <= s.len(),
        forall|j: int| 0 <= j < k ==> collate_le(#[trigger] s[j].name, e.name),
        forall|j: int| k <= j < s.len() ==> collate_le(e.name, #[trigger] s[j].name),
    ensures
        sorted_entries(s.insert(k, e)),
{
    let t = s.insert(k, e);
    assert forall|i: int, j: int|
        0 <= i < j < t.len() implies collate_le(#[trigger] t[i].name, #[trigger] t[j].name) by {
        if i < k && j < k {
            assert(t[i] == s[i] && t[j] == s[j]);
        } else if i < k && j == k {
            assert(t[i] == s[i] && t[j] == e);
        } else if i < k && j > k {
            assert(t[i] == s[i] && t[j] == s[j - 1]);
        } else if i == k {
            assert(t[i] == e && t[j] == s[j - 1]);
        } else {
            assert(t[i] == s[i - 1] && t[j] == s[j - 1]);
        }
    }
}

/// Where an entry lands among already-sorted entries: after every entry
/// that collates at or before it, before all the rest. Inserting at this
/// point keeps entries of equal collation in their order of arrival.
pub open spec fn insert_sorted(s: Seq<EntryModel>, e: EntryModel) -> Seq<EntryModel>
    decreases s.len(),
{
    if s.len() == 0 {
        seq![e]
    } else if collate_le(s[0].name, e.name) {
        seq![s[0]] + insert_sorted(s.drop_first(), e)
    } else {
        seq![e] + s
    }
}

/// The stable sort by collation: each entry in turn is placed after the
/// already-placed entries that collate at or before it, so entries of equal
/// collation keep the order they were appended in.
pub open spec fn sort_by_collation(s: Seq<EntryModel>) -> Seq<EntryModel>
    decreases s.len(),
{
    if s.len() == 0 {
        Seq::empty()
    } else {
        insert_sorted(sort_by_collation(s.drop_last()), s.last())
    }
}

/// The stable insertion point is the first index whose entry does not
/// collate at or before the new one.
proof fn lemma_insert_sorted_at(s: Seq<EntryModel>, e: EntryModel, k: int)
    requires
        0 <= k <= s.len(),
        forall|j: int| 0 <= j < k ==> collate_le(#[trigger] s[j].name, e.name),
        k < s.len() ==> !collate_le(s[k].name, e.name),
    ensures
        insert_sorted(s, e) == s.insert(k, e),
    decreases s.len(),
{
    if s.len() == 0 {
        assert(insert_sorted(s, e) =~= s.insert(0, e));
    } else if k == 0 {
        assert(insert_sorted(s, e) =~= s.insert(0, e));
    } else {
        assert forall|j: int| 0 <= j < k - 1 implies collate_le(
            #[trigger] s.drop_first()[j].name,
            e.name,
        ) by {
            assert(s.drop_first()[j] == s[j + 1]);
        }
        if k - 1 < s.drop_first().len() {
            assert(s.drop_first()[k - 1] == s[k]);
        }
        lemma_insert_sorted_at(s.drop_first(), e, k - 1);
        assert(insert_sorted(s, e) =~= s.insert(k, e));
    }
}

/// The per-enumeration cache. `filled` turns true only when the entries
/// have been sorted; the cursor `index` never runs past the entry list.
pub struct DirInfo {
    pub path: Vec<u8>,
    pub index: usize,
    pub filled: bool,
    pub entries: Vec<DirEntry>,
}

impl DirInfo {
    /// The models of the cached entries, in cache order.
    pub open spec fn models(&self) -> Seq<EntryModel> {
        entry_models(self.entries@)
    }

    /// The cursor stays within the entry list, and a filled cache is a
    /// sorted one.
    pub open spec fn wf(&self) -> bool {
        &&& self.index <= self.entries@.len()
        &&& (self.filled ==> sorted_entries(self.models()))
    }

    /// The cache state a fresh or reset cache is in.
    pub open spec fn is_empty_state(&self) -> bool {
        &&& self.index == 0
        &&& !self.filled
        &&& self.entries@.len() == 0
    }

    /// A fresh, empty cache for the directory at `path`.
    pub fn new(path: Vec<u8>) -> (r: DirInfo)
        ensures
            r.is_empty_state(),
            r.wf(),
            r.path@ == path@,
    {
        DirInfo { path, index: 0, filled: false, entries: Vec::new() }
    }

    /// Clear the cache back to its empty state, from any prior state.
    pub fn reset(&mut self)
        ensures
            final(self).is_empty_state(),
            final(self).wf(),
            final(self).path@ == old(self).path@,
    {
        self.index = 0;
        self.filled = false;
        self.entries = Vec::new();
    }

    /// Whether the cache has been filled and sorted.
    pub fn filled(&self) -> (r: bool)
        ensures
            r == self.filled,
    {
        self.filled
    }

    /// Whether the cursor addresses an entry (not yet exhausted).
    pub fn current_is_valid(&self) -> (r: bool)
        ensures
            r == (self.index < self.entries@.len()),
    {
        self.index < self.entries.len()
    }

    /// The name of the entry under the cursor.
    pub fn current_file_name(&self) -> (r: &Vec<u8>)
        requires
            self.index < self.entries@.len(),
        ensures
            r@ == self.models()[self.index as int].name,
    {
        &self.entries[self.index].filename
    }

    /// The placeholder metadata of the entry under the cursor.
    pub fn current_basic_info(&self) -> (r: FileBasicInfo)
        requires
            self.index < self.entries@.len(),
        ensures
            r.is_directory == self.models()[self.index as int].is_directory,
            r.file_size == self.models()[self.index as int].size,
    {
        FileBasicInfo {
            is_directory: self.entries[self.index].is_directory,
            file_size: self.entries[self.index].size,
        }
    }

    /// Advance the cursor past the current entry; report whether another
    /// entry remains.
    pub fn move_next(&mut self) -> (r: bool)
        requires
            old(self).index < old(self).entries@.len(),
        ensures
            final(self).index == old(self).index + 1,
            final(self).entries == old(self).entries,
            final(self).filled == old(self).filled,
            final(self).path == old(self).path,
            r == (final(self).index < final(self).entries@.len()),
    {
        let n = self.entries.len();
        self.index += 1;
        self.index < n
    }

    /// Append a container entry: directory, size 0.
    pub fn fill_dir_entry(&mut self, name: Vec<u8>)
        ensures
            final(self).models() == old(self).models().push(
                EntryModel { name: name@, is_directory: true, size: 0 },
            ),
            final(self).index == old(self).index,
            final(self).filled == old(self).filled,
            final(self).path == old(self).path,
    {
        self.fill_item_entry(name, 0, true);
    }

    /// Append a value entry: file, with the value's byte length as size.
    pub fn fill_file_entry(&mut self, name: Vec<u8>, size: i64)
        ensures
            final(self).models() == old(self).models().push(
                EntryModel { name: name@, is_directory: false, size: size },
            ),
            final(self).index == old(self).index,
            final(self).filled == old(self).filled,
            final(self).path == old(self).path,
    {
        self.fill_item_entry(name, size, false);
    }

    fn fill_item_entry(&mut self, filename: Vec<u8>, size: i64, is_directory: bool)
        ensures
            final(self).models() == old(self).models().push(
                EntryModel { name: filename@, is_directory: is_directory, size: size },
            ),
            final(self).index == old(self).index,
            final(self).filled == old(self).filled,
            final(self).path == old(self).path,
    {
        let ghost before = self.entries@;
        let entry = DirEntry { filename, size, is_directory };
        let ghost pushed = entry;
        self.entries.push(entry);
        proof {
            lemma_map_models_push(before, pushed);
            assert(entry_models(self.entries@) =~= entry_models(before).push(pushed@));
        }
    }

    /// Sort the cached entries by the collation, ascending — one stable
    /// sort: entries of equal collation keep their fill order — and mark
    /// the cache filled. Valid from any fill state, the empty one included:
    /// the entries afterwards are a totally ordered rearrangement of the
    /// entries before, nothing added and nothing lost.
    pub fn sort_entries_and_mark_filled(&mut self)
        ensures
            final(self).filled,
            final(self).models() == sort_by_collation(old(self).models()),
            sorted_entries(final(self).models()),
            final(self).models().to_multiset() == old(self).models().to_multiset(),
            final(self).models().len() == old(self).models().len(),
            final(self).index == old(self).index,
            final(self).path@ == old(self).path@,
    {
        self.filled = true;

        let ghost orig = self.models();
        let mut sorted: Vec<DirEntry> = Vec::new();

        proof {
            lemma_empty_models_multiset(entry_models(sorted@));
            assert(entry_models(sorted@).to_multiset().add(
                entry_models(self.entries@).to_multiset(),
            ) =~= orig.to_multiset());
        }

        let ghost index0 = self.index;
        let ghost path0 = self.path@;
        proof {
            assert(orig.skip(0) =~= orig);
            assert(orig.take(0) =~= Seq::<EntryModel>::empty());
        }
        let ghost mut done: int = 0;
        while self.entries.len() > 0
            invariant
                self.filled,
                self.index == index0,
                self.path@ == path0,
                0 <= done <= orig.len(),
                entry_models(self.entries@) == orig.skip(done),
                entry_models(sorted@) == sort_by_collation(orig.take(done)),
                sorted_entries(entry_models(sorted@)),
                entry_models(sorted@).to_multiset().add(entry_models(self.entries@).to_multiset())
                    == orig.to_multiset(),
            decreases self.entries@.len(),
        {
            let ghost rest_before = self.entries@;
            let ghost sorted_before = sorted@;
            let e = self.entries.remove(0);
            proof {
                lemma_map_models_remove(rest_before, 0);
                vstd::seq_lib::to_multiset_remove(entry_models(rest_before), 0);
                assert(orig.skip(done)[0] == orig[done]);
                assert(e@ == orig[done]);
                assert(entry_models(self.entries@) =~= orig.skip(done + 1));
            }

            let mut k: usize = 0;
            while k < sorted.len() && name_le_entry(&sorted, k, &e)
                invariant
                    k <= sorted@.len(),
                    forall|j: int|
                        0 <= j < k ==> collate_le(
                            #[trigger] entry_models(sorted@)[j].name,
                            e@.name,
                        ),
                    sorted@ == sorted_before,
                decreases sorted@.len() - k,
            {
                k += 1;
            }

            proof {
                let models = entry_models(sorted@);
                if k < sorted@.len() {
                    crate::name::lemma_collate_le_total(models[k as int].name, e@.name);
                    assert(collate_le(e@.name, models[k as int].name));
                }
                assert forall|j: int| k <= j < models.len() implies collate_le(
                    e@.name,
                    #[trigger] models[j].name,
                ) by {
                    if j > k {
                        crate::name::lemma_collate_le_trans(
                            e@.name,
                            models[k as int].name,
                            models[j].name,
                        );
                    }
                }
                lemma_sorted_insert(models, k as int, e@);
                lemma_map_models_insert(sorted@, k as int, e);
                lemma_to_multiset_insert(models, k as int, e@);
                lemma_insert_sorted_at(models, e@, k as int);
                assert(orig.take(done + 1).drop_last() =~= orig.take(done));
                assert(orig.take(done + 1).last() == orig[done]);
                assert(sort_by_collation(orig.take(done + 1)) == insert_sorted(
                    sort_by_collation(orig.take(done)),
                    orig[done],
                ));
            }
            sorted.insert(k, e);
            proof {
                let ghost ms_sorted = entry_models(sorted_before).to_multiset();
                let ghost ms_rest = entry_models(rest_before).to_multiset();
                assert(entry_models(sorted@).to_multiset() == ms_sorted.insert(e@));
                assert(entry_models(self.entries@).to_multiset() == ms_rest.remove(e@));
                assert(ms_rest.count(e@) > 0) by {
                    assert(entry_models(rest_before)[0] == e@);
                    assert(entry_models(rest_before).contains(e@));
                }
                assert(ms_sorted.insert(e@).add(ms_rest.remove(e@)) =~= ms_sorted.add(ms_rest));
                assert(entry_models(sorted@) == sort_by_collation(orig.take(done + 1)));
                done = done + 1;
            }
        }

        proof {
            lemma_empty_models_multiset(entry_models(self.entries@));
            assert(orig.skip(done).len() == 0);
            assert(done == orig.len());
            assert(orig.take(done) =~= orig);
            assert(entry_models(sorted@).to_multiset() =~= orig.to_multiset());
            assert(entry_models(sorted@).to_multiset().len() == entry_models(sorted@).len());
            assert(orig.to_multiset().len() == orig.len());
        }
        self.entries = sorted;
    }
}

/// Whether the entry at `k` collates at or before `e`.
fn name_le_entry(sorted: &Vec<DirEntry>, k: usize, e: &DirEntry) -> (r: bool)
    requires
        k < sorted@.len(),
    ensures
        r == collate_le(entry_models(sorted@)[k as int].name, e@.name),
{
    crate::name::name_le(&sorted[k].filename, &e.filename)
}

} // verus!
