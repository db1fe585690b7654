//! The provider dispatcher: the host-callback decisions, the session table,
//! and the paging of sorted listings into the host's entry buffer.
//!
//! The host invokes the provider with plain values (a 16-byte enumeration
//! identifier carried as an unsigned 128-bit integer, path text, a search
//! expression, flags); each callback here returns a status of the
//! provider's own vocabulary and mutates nothing but the session table and
//! the caller's output buffer. What only the hosting process can do — read
//! the backing store, allocate host memory, hand results back to the host —
//! enters as arguments and leaves in return values, so every decision is
//! specified for each answer those can give.

use std::collections::HashMap;
use vstd::prelude::*;

use crate::dirinfo::{entry_models, sorted_entries, DirEntry, DirInfo, EntryModel, FileBasicInfo};
use crate::name::expr_matches;
use crate::path::is_root_path;
use crate::store::{
    reg_entry_models, spec_enumerate_found, spec_key_exists, spec_read_value, RegEntires,
    RegEntryModel, RegOps,
};

verus! {

broadcast use vstd::std_specs::hash::group_hash_axioms;

/// The provider's status vocabulary. Every callback returns one of these;
/// the host owns their user-visible presentation.
#[derive(PartialEq, Eq, Structural, Clone, Copy, Debug)]
pub enum Status {
    /// The operation succeeded (a full buffer during paging is success).
    Success,
    /// The path resolves to nothing.
    NotFound,
    /// An enumeration callback named an unknown session identifier.
    InvalidSession,
    /// A host buffer could not be allocated.
    OutOfMemory,
    /// The read-only policy vetoed a mutating pre-operation.
    AccessDenied,
    /// The backing store failed for a reason other than absence.
    BackingStoreFailure,
    /// A notification of an unknown kind arrived; never fatal.
    Unexpected,
}

/// The lifecycle notifications the host can deliver.
#[derive(PartialEq, Eq, Structural, Clone, Copy, Debug)]
pub enum NotifyKind {
    FileOpened,
    FileHandleClosedFileModified,
    FileOverwritten,
    NewFileCreated,
    FileRenamed,
    FileHandleClosedFileDeleted,
    PreRename,
    PreDelete,
    FilePreConvertToFull,
    Unknown,
}

/// What a notification is answered, under a given policy: with the
/// read-only policy active, the two mutating pre-operations are refused and
/// everything else — unrecognized kinds included — is acknowledged.
pub open spec fn spec_notify(readonly: bool, kind: NotifyKind) -> Status {
    if (kind == NotifyKind::PreRename || kind == NotifyKind::PreDelete) && readonly {
        Status::AccessDenied
    } else {
        Status::Success
    }
}

/// Under the read-only policy, pre-rename and pre-delete are always
/// refused, and every other notification kind is always acknowledged,
/// whether or not the policy is active.
pub proof fn lemma_read_only_policy(kind: NotifyKind, readonly: bool)
    ensures
        spec_notify(true, NotifyKind::PreRename) == Status::AccessDenied,
        spec_notify(true, NotifyKind::PreDelete) == Status::AccessDenied,
        kind != NotifyKind::PreRename && kind != NotifyKind::PreDelete ==> spec_notify(
            readonly,
            kind,
        ) == Status::Success,
{
}

/// The cross-callback shared state: the session table, a map from an
/// enumeration-session identifier to its cache. The hosting process guards
/// it with one lock around each callback's table access.
pub struct State {
    pub enum_sessions: HashMap<u128, DirInfo>,
}

impl State {
    /// Every held session keeps its cursor inside its entries.
    pub open spec fn wf(&self) -> bool {
        forall|id: u128|
            self.enum_sessions@.contains_key(id) ==> (#[trigger] self.enum_sessions@[id]).wf()
    }
}

/// The provider: the session table, the path resolver, and the access
/// policy. One instance per mount, owned by the hosting process.
pub struct RegFs {
    pub state: State,
    pub regops: RegOps,
    pub readonly: bool,
}

impl RegFs {
    pub open spec fn wf(&self) -> bool {
        self.state.wf() && self.regops.wf()
    }

    /// A fresh provider: no sessions, the fixed root set, and the read-only
    /// policy active.
    pub fn new() -> (r: RegFs)
        ensures
            r.wf(),
            r.readonly,
            r.state.enum_sessions@ == Map::<u128, DirInfo>::empty(),
    {
        RegFs {
            state: State { enum_sessions: HashMap::new() },
            regops: RegOps::new(),
            readonly: true,
        }
    }

    /// Install a fresh, empty session for `enumeration_id`, replacing any
    /// prior session under the same identifier. Always succeeds.
    pub fn start_dir_enum(&mut self, enumeration_id: u128, path: Vec<u8>) -> (r: Status)
        requires
            old(self).wf(),
        ensures
            final(self).wf(),
            r == Status::Success,
            final(self).state.enum_sessions@.contains_key(enumeration_id),
            final(self).state.enum_sessions@[enumeration_id].is_empty_state(),
            final(self).state.enum_sessions@[enumeration_id].path@ == path@,
            final(self).state.enum_sessions@ == old(self).state.enum_sessions@.insert(
                enumeration_id,
                final(self).state.enum_sessions@[enumeration_id],
            ),
            final(self).regops == old(self).regops,
            final(self).readonly == old(self).readonly,
    {
        let cache = DirInfo::new(path);
        self.state.enum_sessions.insert(enumeration_id, cache);
        Status::Success
    }

    /// Destroy the session under `enumeration_id`; an unknown identifier is
    /// a benign no-op.
    pub fn end_dir_enum(&mut self, enumeration_id: u128) -> (r: Status)
        requires
            old(self).wf(),
        ensures
            final(self).wf(),
            r == Status::Success,
            final(self).state.enum_sessions@ == old(self).state.enum_sessions@.remove(
                enumeration_id,
            ),
            final(self).regops == old(self).regops,
            final(self).readonly == old(self).readonly,
    {
        self.state.enum_sessions.remove(&enumeration_id);
        Status::Success
    }

    /// Decide a placeholder request: an existing container becomes a
    /// directory placeholder of size 0; otherwise an existing value becomes
    /// a file placeholder sized by its data; otherwise nothing is found.
    /// `key_exists_raw` and `value_raw` are the backing store's answers at
    /// the resolved locations. On success the hosting process hands the
    /// metadata to the host's materialize-placeholder primitive and returns
    /// that status verbatim.
    pub fn get_placeholder_info(
        &self,
        path: &Vec<u8>,
        key_exists_raw: bool,
        value_raw: Option<Vec<u8>>,
    ) -> (r: (Status, Option<FileBasicInfo>))
        requires
            self.wf(),
            value_raw matches Some(b) ==> b@.len() <= 0x7fff_ffff_ffff_ffff,
        ensures
            spec_key_exists(path@, key_exists_raw) ==> (r.0 == Status::Success && (r.1 matches Some(
                info,
            ) && info.is_directory && info.file_size == 0)),
            !spec_key_exists(path@, key_exists_raw) ==> (spec_read_value(path@, value_raw) matches Some(
                b,
            ) ==> (r.0 == Status::Success && (r.1 matches Some(info) && !info.is_directory
                && info.file_size == b@.len()))),
            !spec_key_exists(path@, key_exists_raw) && spec_read_value(path@, value_raw) is None
                ==> r == (Status::NotFound, None::<FileBasicInfo>),
    {
        if self.regops.does_key_exist(path, key_exists_raw) {
            (Status::Success, Some(FileBasicInfo { is_directory: true, file_size: 0 }))
        } else {
            match self.regops.does_value_exist(path, value_raw) {
                Some(n) => (
                    Status::Success,
                    Some(FileBasicInfo { is_directory: false, file_size: n as i64 }),
                ),
                None => (Status::NotFound, None),
            }
        }
    }

    /// Decide a file-data request. `alloc_ok` is whether the host buffer of
    /// `length` bytes could be allocated (a failure is reported, not
    /// retried); `value_raw` is the backing store's answer at the resolved
    /// address. On success the returned bytes fill the host buffer and the
    /// hosting process hands it to the host's deliver-bytes primitive; the
    /// buffer is released on every exit path.
    pub fn get_file_data(
        &self,
        path: &Vec<u8>,
        alloc_ok: bool,
        value_raw: Option<Vec<u8>>,
        length: u32,
    ) -> (r: (Status, Option<Vec<u8>>))
        requires
            self.wf(),
            spec_read_value(path@, value_raw) matches Some(b) ==> b@.len() == length as usize,
        ensures
            !alloc_ok ==> r == (Status::OutOfMemory, None::<Vec<u8>>),
            alloc_ok && spec_read_value(path@, value_raw) is None ==> r == (
                Status::NotFound,
                None::<Vec<u8>>,
            ),
            alloc_ok ==> (spec_read_value(path@, value_raw) matches Some(b) ==> (r.0
                == Status::Success && (r.1 matches Some(data) && data@ == b@ && data@.len()
                == length as usize))),
    {
        if !alloc_ok {
            return (Status::OutOfMemory, None);
        }
        match self.regops.read_value(path, value_raw) {
            Some(bytes) => (Status::Success, Some(bytes)),
            None => (Status::NotFound, None),
        }
    }

    /// Answer a lifecycle notification: with the read-only policy active,
    /// the mutating pre-operations (rename, delete) are refused and nothing
    /// is mutated; every other kind — unrecognized ones included — is
    /// acknowledged.
    pub fn notify(&self, kind: NotifyKind) -> (r: Status)
        ensures
            r == spec_notify(self.readonly, kind),
    {
        match kind {
            NotifyKind::PreRename => if self.readonly {
                Status::AccessDenied
            } else {
                Status::Success
            },
            NotifyKind::PreDelete => if self.readonly {
                Status::AccessDenied
            } else {
                Status::Success
            },
            _ => Status::Success,
        }
    }

    /// A file-name query is always acknowledged.
    pub fn query_file_name(&self, _path: &Vec<u8>) -> (r: Status)
        ensures
            r == Status::Success,
    {
        Status::Success
    }

    /// Cancellation is acknowledged without aborting in-flight work.
    pub fn cancel_command(&self, _path: &Vec<u8>) -> (r: Status)
        ensures
            r == Status::Success,
    {
        Status::Success
    }
}


/// The entry a matching subcontainer becomes: a container, size 0.
pub open spec fn dir_entry_model(m: RegEntryModel) -> EntryModel {
    EntryModel { name: m.name, is_directory: true, size: 0i64 }
}

/// The entry a matching value becomes: a file, sized by its data.
pub open spec fn file_entry_model(m: RegEntryModel) -> EntryModel {
    EntryModel { name: m.name, is_directory: false, size: m.size as i64 }
}

/// Whether a backing-store child's name passes the search expression.
pub open spec fn admits(expr: Seq<u8>) -> spec_fn(RegEntryModel) -> bool {
    |m: RegEntryModel| expr_matches(expr, m.name)
}

/// The container entries one fill pass appends: the subcontainers whose
/// names the search expression admits, in listing order.
pub open spec fn matching_dir_entries(subkeys: Seq<RegEntryModel>, expr: Seq<u8>) -> Seq<
    EntryModel,
> {
    subkeys.filter(admits(expr)).map_values(|m: RegEntryModel| dir_entry_model(m))
}

/// The value entries one fill pass appends: the values whose names the
/// search expression admits, in listing order.
pub open spec fn matching_file_entries(values: Seq<RegEntryModel>, expr: Seq<u8>) -> Seq<
    EntryModel,
> {
    values.filter(admits(expr)).map_values(|m: RegEntryModel| file_entry_model(m))
}

/// Everything one fill pass appends: matching containers first, then
/// matching values — no sort, no dedup.
pub open spec fn matching_entries(
    subkeys: Seq<RegEntryModel>,
    values: Seq<RegEntryModel>,
    expr: Seq<u8>,
) -> Seq<EntryModel> {
    matching_dir_entries(subkeys, expr) + matching_file_entries(values, expr)
}

/// Every entry a fill pass appends has a name the search expression admits:
/// a non-matching name never appears.
pub proof fn lemma_fill_only_matching(
    subkeys: Seq<RegEntryModel>,
    values: Seq<RegEntryModel>,
    expr: Seq<u8>,
)
    ensures
        forall|i: int|
            0 <= i < matching_entries(subkeys, values, expr).len() ==> expr_matches(
                expr,
                #[trigger] matching_entries(subkeys, values, expr)[i].name,
            ),
{
    broadcast use vstd::seq_lib::group_filter_ensures;

    let pred = admits(expr);
    let dirs = matching_dir_entries(subkeys, expr);
    let files = matching_file_entries(values, expr);
    assert forall|i: int|
        0 <= i < matching_entries(subkeys, values, expr).len() implies expr_matches(
        expr,
        #[trigger] matching_entries(subkeys, values, expr)[i].name,
    ) by {
        if i < dirs.len() {
            assert(matching_entries(subkeys, values, expr)[i] == dirs[i]);
            assert(dirs[i] == dir_entry_model(subkeys.filter(pred)[i]));
            assert(pred(subkeys.filter(pred)[i]));
        } else {
            let j = i - dirs.len();
            assert(matching_entries(subkeys, values, expr)[i] == files[j]);
            assert(files[j] == file_entry_model(values.filter(pred)[j]));
            assert(pred(values.filter(pred)[j]));
        }
    }
}

/// Filtering commutes with appending one element.
proof fn lemma_filter_push<A>(s: Seq<A>, pred: spec_fn(A) -> bool, e: A)
    ensures
        s.push(e).filter(pred) == if pred(e) {
            s.filter(pred).push(e)
        } else {
            s.filter(pred)
        },
{
    reveal(Seq::filter);
    assert(s.push(e).drop_last() =~= s);
    assert(s.push(e).last() == e);
}

/// The subcontainer models a listing offers: at the virtual root the fixed
/// root containers, each of size 0; below it whatever the backing store
/// answered.
pub open spec fn listing_subkey_models(p: Seq<u8>, raw: Option<RegEntires>) -> Seq<RegEntryModel> {
    if is_root_path(p) {
        crate::store::root_subkey_models()
    } else {
        match raw {
            Some(listing) => reg_entry_models(listing.subkeys@),
            None => Seq::empty(),
        }
    }
}

/// The value models a listing offers: none at the virtual root.
pub open spec fn listing_value_models(p: Seq<u8>, raw: Option<RegEntires>) -> Seq<RegEntryModel> {
    if is_root_path(p) {
        Seq::empty()
    } else {
        match raw {
            Some(listing) => reg_entry_models(listing.values@),
            None => Seq::empty(),
        }
    }
}

/// Successive paging calls hand out disjoint, adjacent spans: the pieces of
/// consecutive drains concatenate, in order, to the single larger span — no
/// entry is repeated and none is skipped.
pub proof fn lemma_drain_pieces_concatenate(m: Seq<EntryModel>, a: int, b: int, c: int)
    requires
        0 <= a <= b <= c <= m.len(),
    ensures
        m.subrange(a, b) + m.subrange(b, c) == m.subrange(a, c),
{
    assert(m.subrange(a, b) + m.subrange(b, c) =~= m.subrange(a, c));
}

fn copy_bytes(src: &Vec<u8>) -> (r: Vec<u8>)
    ensures
        r@ == src@,
{
    let mut r: Vec<u8> = Vec::new();
    let mut i: usize = 0;
    while i < src.len()
        invariant
            i <= src@.len(),
            r@ == src@.take(i as int),
        decreases src@.len() - i,
    {
        let b = src[i];
        r.push(b);
        proof {
            assert(r@ =~= src@.take(i + 1));
        }
        i += 1;
    }
    proof {
        assert(r@ =~= src@);
    }
    r
}

/// The host's output buffer for one paging call, as the provider sees it: a
/// sink that accepts whole entries until it reports itself full. A capacity
/// of `None` stands for a host buffer larger than anything offered to it.
pub struct EntryBuffer {
    pub capacity: Option<usize>,
    pub written: Vec<DirEntry>,
}

impl EntryBuffer {
    /// Full: the next entry is refused.
    pub open spec fn is_full(&self) -> bool {
        match self.capacity {
            Some(c) => self.written@.len() >= c,
            None => false,
        }
    }

    /// How many entries the buffer still accepts, when `available` could be
    /// offered.
    pub open spec fn room(&self, available: int) -> int {
        match self.capacity {
            Some(c) => if c > self.written@.len() {
                c - self.written@.len()
            } else {
                0
            },
            None => available,
        }
    }

    /// An empty buffer accepting `capacity` entries (`None`: unbounded).
    pub fn new(capacity: Option<usize>) -> (r: EntryBuffer)
        ensures
            r.capacity == capacity,
            r.written@.len() == 0,
    {
        EntryBuffer { capacity, written: Vec::new() }
    }

    /// Offer one entry: taken exactly when the buffer is not yet full.
    pub fn try_fill(&mut self, entry: DirEntry) -> (r: bool)
        ensures
            r == !old(self).is_full(),
            final(self).capacity == old(self).capacity,
            r ==> final(self).written@ == old(self).written@.push(entry),
            !r ==> final(self).written@ == old(self).written@,
    {
        let full = match self.capacity {
            Some(c) => self.written.len() >= c,
            None => false,
        };
        if full {
            false
        } else {
            self.written.push(entry);
            true
        }
    }
}

/// Fill the cache from one listing: append each subcontainer whose name the
/// search expression admits, containers before values, then each matching
/// value — pure append, no sort, no dedup.
fn populate_dir_info_for_path(
    cache: &mut DirInfo,
    listing: RegEntires,
    search_expression: &Vec<u8>,
)
    ensures
        final(cache).models() == old(cache).models() + matching_entries(
            reg_entry_models(listing.subkeys@),
            reg_entry_models(listing.values@),
            search_expression@,
        ),
        final(cache).index == old(cache).index,
        final(cache).filled == old(cache).filled,
        final(cache).path == old(cache).path,
{
    let ghost sub_models = reg_entry_models(listing.subkeys@);
    let ghost val_models = reg_entry_models(listing.values@);
    let RegEntires { subkeys, values } = listing;

    proof {
        assert(matching_dir_entries(sub_models.take(0), search_expression@)
            =~= Seq::<EntryModel>::empty());
        assert(cache.models() + matching_dir_entries(sub_models.take(0), search_expression@)
            =~= cache.models());
    }
    let mut k: usize = 0;
    while k < subkeys.len()
        invariant
            k <= subkeys@.len(),
            sub_models == reg_entry_models(subkeys@),
            cache.models() == old(cache).models() + matching_dir_entries(
                sub_models.take(k as int),
                search_expression@,
            ),
            cache.index == old(cache).index,
            cache.filled == old(cache).filled,
            cache.path == old(cache).path,
        decreases subkeys@.len() - k,
    {
        let name = copy_bytes(&subkeys[k].name);
        proof {
            assert(sub_models[k as int] == subkeys@[k as int]@);
            assert(sub_models.take(k + 1) =~= sub_models.take(k as int).push(
                sub_models[k as int],
            ));
            lemma_filter_push(
                sub_models.take(k as int),
                admits(search_expression@),
                sub_models[k as int],
            );
        }
        if crate::name::name_matches(search_expression, &name) {
            let ghost before = cache.models();
            cache.fill_dir_entry(name);
            proof {
                assert(admits(search_expression@)(sub_models[k as int]));
                assert(cache.models() == before.push(dir_entry_model(sub_models[k as int])));
                assert(matching_dir_entries(sub_models.take(k + 1), search_expression@)
                    =~= matching_dir_entries(sub_models.take(k as int), search_expression@).push(
                    dir_entry_model(sub_models[k as int]),
                ));
                assert(cache.models() =~= old(cache).models() + matching_dir_entries(
                    sub_models.take(k + 1),
                    search_expression@,
                ));
            }
        } else {
            proof {
                assert(!admits(search_expression@)(sub_models[k as int]));
                assert(matching_dir_entries(sub_models.take(k + 1), search_expression@)
                    =~= matching_dir_entries(sub_models.take(k as int), search_expression@));
            }
        }
        k += 1;
    }
    proof {
        assert(sub_models.take(subkeys@.len() as int) =~= sub_models);
    }

    proof {
        assert(matching_file_entries(val_models.take(0), search_expression@)
            =~= Seq::<EntryModel>::empty());
        assert(cache.models() + matching_file_entries(val_models.take(0), search_expression@)
            =~= cache.models());
    }
    let ghost mid = cache.models();
    let mut k: usize = 0;
    while k < values.len()
        invariant
            k <= values@.len(),
            val_models == reg_entry_models(values@),
            mid == old(cache).models() + matching_dir_entries(
                reg_entry_models(subkeys@),
                search_expression@,
            ),
            sub_models == reg_entry_models(subkeys@),
            cache.models() == mid + matching_file_entries(
                val_models.take(k as int),
                search_expression@,
            ),
            cache.index == old(cache).index,
            cache.filled == old(cache).filled,
            cache.path == old(cache).path,
        decreases values@.len() - k,
    {
        let name = copy_bytes(&values[k].name);
        let size = values[k].size;
        proof {
            assert(val_models[k as int] == values@[k as int]@);
            assert(val_models.take(k + 1) =~= val_models.take(k as int).push(
                val_models[k as int],
            ));
            lemma_filter_push(
                val_models.take(k as int),
                admits(search_expression@),
                val_models[k as int],
            );
        }
        if crate::name::name_matches(search_expression, &name) {
            let ghost before = cache.models();
            let signed_size = #[verifier::truncate] (size as i64);
            cache.fill_file_entry(name, signed_size);
            proof {
                assert(admits(search_expression@)(val_models[k as int]));
                assert(cache.models() == before.push(file_entry_model(val_models[k as int])));
                assert(matching_file_entries(val_models.take(k + 1), search_expression@)
                    =~= matching_file_entries(val_models.take(k as int), search_expression@).push(
                    file_entry_model(val_models[k as int]),
                ));
                assert(cache.models() =~= mid + matching_file_entries(
                    val_models.take(k + 1),
                    search_expression@,
                ));
            }
        } else {
            proof {
                assert(!admits(search_expression@)(val_models[k as int]));
                assert(matching_file_entries(val_models.take(k + 1), search_expression@)
                    =~= matching_file_entries(val_models.take(k as int), search_expression@));
            }
        }
        k += 1;
    }
    proof {
        assert(val_models.take(values@.len() as int) =~= val_models);
        assert(cache.models() =~= old(cache).models() + matching_entries(
            sub_models,
            val_models,
            search_expression@,
        ));
    }
}


/// How many entries a sink with bound `capacity`, holding `written` entries
/// already, still accepts out of `available` on offer.
pub open spec fn room_of(capacity: Option<usize>, written: int, available: int) -> int {
    match capacity {
        Some(c) => if c > written {
            c - written
        } else {
            0
        },
        None => available,
    }
}

impl RegFs {
    /// One paging call of a directory enumeration. `restart` first resets
    /// the session's cache. A cache not yet filled is filled once — `raw` is
    /// the backing store's answer at the resolved location (the virtual
    /// root needs none) — and sorted; the call then streams entries into
    /// `buffer` from the session's cursor until the listing is exhausted or
    /// the buffer reports itself full. A full buffer is success, not an
    /// error: the rest stays cached for a later call, and a call on an
    /// exhausted session succeeds writing nothing. An unknown identifier
    /// reports an invalid session; a path that finds no listing reports
    /// not-found and leaves the session unfilled.
    pub fn get_dir_enum(
        &mut self,
        enumeration_id: u128,
        path: &Vec<u8>,
        search_expression: &Vec<u8>,
        restart: bool,
        raw: Option<RegEntires>,
        buffer: &mut EntryBuffer,
    ) -> (r: Status)
        requires
            old(self).wf(),
        ensures
            final(self).wf(),
            final(self).regops == old(self).regops,
            final(self).readonly == old(self).readonly,
            final(buffer).capacity == old(buffer).capacity,
            !old(self).state.enum_sessions@.contains_key(enumeration_id) ==> (r
                == Status::InvalidSession && final(self).state.enum_sessions@ == old(
                self,
            ).state.enum_sessions@ && final(buffer).written@ == old(buffer).written@),
            old(self).state.enum_sessions@.contains_key(enumeration_id) ==> ({
                let s0 = old(self).state.enum_sessions@[enumeration_id];
                let base_models = if restart {
                    Seq::<EntryModel>::empty()
                } else {
                    s0.models()
                };
                let base_index = if restart {
                    0int
                } else {
                    s0.index as int
                };
                let base_filled = !restart && s0.filled;
                let sf = final(self).state.enum_sessions@[enumeration_id];
                &&& final(self).state.enum_sessions@ == old(self).state.enum_sessions@.insert(
                    enumeration_id,
                    sf,
                )
                &&& sf.path@ == s0.path@
                &&& (r == Status::Success || r == Status::NotFound)
                &&& ((!base_filled && !spec_enumerate_found(path@, raw is Some)) <==> r
                    == Status::NotFound)
                &&& (r == Status::NotFound ==> !sf.filled && sf.models() == base_models && sf.index
                    == base_index && final(buffer).written@ == old(buffer).written@)
                &&& (r == Status::Success ==> {
                    let avail = sf.models().len() - base_index;
                    &&& sf.filled
                    &&& sorted_entries(sf.models())
                    &&& (base_filled ==> sf.models() == base_models)
                    &&& (!base_filled ==> sf.models().to_multiset() == (base_models
                        + matching_entries(
                        listing_subkey_models(path@, raw),
                        listing_value_models(path@, raw),
                        search_expression@,
                    )).to_multiset())
                    &&& base_index <= sf.index <= sf.models().len()
                    &&& sf.index - base_index == vstd::math::min(
                        avail as int,
                        room_of(old(buffer).capacity, old(buffer).written@.len() as int, avail as int),
                    )
                    &&& entry_models(final(buffer).written@) == entry_models(old(buffer).written@)
                        + sf.models().subrange(base_index, sf.index as int)
                })
            }),
    {
        broadcast use vstd::seq_lib::group_to_multiset_ensures;

        let cache_opt = self.state.enum_sessions.remove(&enumeration_id);
        let mut cache = match cache_opt {
            Some(c) => c,
            None => {
                proof {
                    assert(self.state.enum_sessions@ =~= old(self).state.enum_sessions@);
                }
                return Status::InvalidSession;
            },
        };
        let ghost s0 = old(self).state.enum_sessions@[enumeration_id];
        proof {
            assert(cache == s0);
        }

        if restart {
            cache.reset();
        }
        let ghost base_models = cache.models();
        let ghost base_index = cache.index as int;
        proof {
            if restart {
                assert(cache.models() =~= Seq::<EntryModel>::empty());
            }
        }

        let mut status = Status::Success;
        if !cache.filled() {
            match self.regops.enumerate_key(path, raw) {
                Some(listing) => {
                    proof {
                        if is_root_path(path@) {
                            assert(reg_entry_models(listing.subkeys@) == listing_subkey_models(
                                path@,
                                raw,
                            ));
                            assert(reg_entry_models(listing.values@) =~= listing_value_models(
                                path@,
                                raw,
                            ));
                        } else {
                            assert(raw matches Some(l) && listing == l);
                        }
                    }
                    populate_dir_info_for_path(&mut cache, listing, search_expression);
                    cache.sort_entries_and_mark_filled();
                },
                None => {
                    status = Status::NotFound;
                },
            }
        }

        if status == Status::Success {
            let ghost m = cache.models();
            let ghost c0 = cache.index as int;
            let ghost p0 = cache.path@;
            let ghost w0 = buffer.written@;
            let ghost cap0 = buffer.capacity;
            let ghost room0 = room_of(cap0, w0.len() as int, m.len() - c0);
            proof {
                assert(entry_models(buffer.written@) =~= entry_models(w0) + m.subrange(c0, c0));
            }
            loop
                invariant
                    cache.filled,
                    sorted_entries(cache.models()),
                    cache.models() == m,
                    cache.path@ == p0,
                    0 <= c0 <= cache.index as int <= m.len(),
                    cache.index as int - c0 <= room0,
                    room0 == room_of(cap0, w0.len() as int, m.len() - c0),
                    buffer.capacity == cap0,
                    entry_models(buffer.written@) == entry_models(w0) + m.subrange(
                        c0,
                        cache.index as int,
                    ),
                    buffer.written@.len() == w0.len() + cache.index as int - c0,
                ensures
                    cache.filled,
                    sorted_entries(cache.models()),
                    cache.models() == m,
                    cache.path@ == p0,
                    0 <= c0 <= cache.index as int <= m.len(),
                    cache.index as int - c0 <= room0,
                    buffer.capacity == cap0,
                    entry_models(buffer.written@) == entry_models(w0) + m.subrange(
                        c0,
                        cache.index as int,
                    ),
                    buffer.written@.len() == w0.len() + cache.index as int - c0,
                    cache.index as int == m.len() || buffer.is_full(),
                decreases m.len() - cache.index,
            {
                if !cache.current_is_valid() {
                    break;
                }
                let name = copy_bytes(cache.current_file_name());
                let info = cache.current_basic_info();
                let entry = DirEntry {
                    filename: name,
                    is_directory: info.is_directory,
                    size: info.file_size,
                };
                proof {
                    assert(entry@ == m[cache.index as int]);
                }
                let ghost wbefore = buffer.written@;
                if !buffer.try_fill(entry) {
                    break;
                }
                proof {
                    assert(entry_models(buffer.written@) =~= entry_models(wbefore).push(
                        entry@,
                    ));
                    assert(m.subrange(c0, cache.index + 1) =~= m.subrange(
                        c0,
                        cache.index as int,
                    ).push(m[cache.index as int]));
                    assert(entry_models(buffer.written@) =~= entry_models(w0) + m.subrange(
                        c0,
                        cache.index + 1,
                    ));
                    match cap0 {
                        Some(c) => {
                            assert(wbefore.len() < c);
                        },
                        None => {},
                    }
                }
                cache.move_next();
            }
            proof {
                let g = cache.index as int - c0;
                let avail = m.len() - c0;
                if cache.index as int == m.len() {
                    assert(g == vstd::math::min(avail, room0));
                } else {
                    assert(buffer.is_full());
                    match cap0 {
                        Some(c) => {
                            assert(buffer.written@.len() >= c);
                            assert(g == vstd::math::min(avail, room0));
                        },
                        None => {
                            assert(false);
                        },
                    }
                }
            }
        }

        let ghost cache_final = cache;
        self.state.enum_sessions.insert(enumeration_id, cache);
        proof {
            assert(self.state.enum_sessions@ =~= old(self).state.enum_sessions@.insert(
                enumeration_id,
                cache_final,
            ));
            assert forall|k: u128|
                self.state.enum_sessions@.contains_key(k) implies (
            #[trigger] self.state.enum_sessions@[k]).wf() by {
                if k != enumeration_id {
                    assert(self.state.enum_sessions@[k] == old(self).state.enum_sessions@[k]);
                }
            }
        }
        status
    }
}

} // verus!
