//! The path-to-backing-store resolver.
//!
//! The backing store is a hierarchical key/value store read live by the
//! process that hosts the provider; this module holds everything about it
//! that is decided by the path alone. A path's first segment must name one
//! of a fixed set of root containers, exactly; the remaining segments
//! address a key below that root, and a leaf value is addressed by a parent
//! key of at least one segment plus the value's own name. The store's
//! answer for a resolved location enters as an argument (`raw`), so each
//! query is specified for every answer the store could give.

use vstd::prelude::*;

use crate::path::{is_root_path, is_virtualization_root, seg_views, segments, split_segments};

verus! {

/// The name of the `HKEY_CLASSES_ROOT` root container.
pub open spec fn hkey_classes_root() -> Seq<u8> {
    seq![72u8, 75u8, 69u8, 89u8, 95u8, 67u8, 76u8, 65u8, 83u8, 83u8, 69u8, 83u8, 95u8, 82u8, 79u8, 79u8, 84u8]
}

fn make_hkey_classes_root() -> (r: Vec<u8>)
    ensures
        r@ == hkey_classes_root(),
{
    let mut v: Vec<u8> = Vec::new();
    v.push(72);
    v.push(75);
    v.push(69);
    v.push(89);
    v.push(95);
    v.push(67);
    v.push(76);
    v.push(65);
    v.push(83);
    v.push(83);
    v.push(69);
    v.push(83);
    v.push(95);
    v.push(82);
    v.push(79);
    v.push(79);
    v.push(84);
    proof {
        assert(v@ =~= hkey_classes_root());
    }
    v
}

/// The name of the `HKEY_CURRENT_USER` root container.
pub open spec fn hkey_current_user() -> Seq<u8> {
    seq![72u8, 75u8, 69u8, 89u8, 95u8, 67u8, 85u8, 82u8, 82u8, 69u8, 78u8, 84u8, 95u8, 85u8, 83u8, 69u8, 82u8]
}

fn make_hkey_current_user() -> (r: Vec<u8>)
    ensures
        r@ == hkey_current_user(),
{
    let mut v: Vec<u8> = Vec::new();
    v.push(72);
    v.push(75);
    v.push(69);
    v.push(89);
    v.push(95);
    v.push(67);
    v.push(85);
    v.push(82);
    v.push(82);
    v.push(69);
    v.push(78);
    v.push(84);
    v.push(95);
    v.push(85);
    v.push(83);
    v.push(69);
    v.push(82);
    proof {
        assert(v@ =~= hkey_current_user());
    }
    v
}

/// The name of the `HKEY_LOCAL_MACHINE` root container.
pub open spec fn hkey_local_machine() -> Seq<u8> {
    seq![72u8, 75u8, 69u8, 89u8, 95u8, 76u8, 79u8, 67u8, 65u8, 76u8, 95u8, 77u8, 65u8, 67u8, 72u8, 73u8, 78u8, 69u8]
}

fn make_hkey_local_machine() -> (r: Vec<u8>)
    ensures
        r@ == hkey_local_machine(),
{
    let mut v: Vec<u8> = Vec::new();
    v.push(72);
    v.push(75);
    v.push(69);
    v.push(89);
    v.push(95);
    v.push(76);
    v.push(79);
    v.push(67);
    v.push(65);
    v.push(76);
    v.push(95);
    v.push(77);
    v.push(65);
    v.push(67);
    v.push(72);
    v.push(73);
    v.push(78);
    v.push(69);
    proof {
        assert(v@ =~= hkey_local_machine());
    }
    v
}

/// The name of the `HKEY_USERS` root container.
pub open spec fn hkey_users() -> Seq<u8> {
    seq![72u8, 75u8, 69u8, 89u8, 95u8, 85u8, 83u8, 69u8, 82u8, 83u8]
}

fn make_hkey_users() -> (r: Vec<u8>)
    ensures
        r@ == hkey_users(),
{
    let mut v: Vec<u8> = Vec::new();
    v.push(72);
    v.push(75);
    v.push(69);
    v.push(89);
    v.push(95);
    v.push(85);
    v.push(83);
    v.push(69);
    v.push(82);
    v.push(83);
    proof {
        assert(v@ =~= hkey_users());
    }
    v
}

/// The name of the `HKEY_CURRENT_CONFIG` root container.
pub open spec fn hkey_current_config() -> Seq<u8> {
    seq![72u8, 75u8, 69u8, 89u8, 95u8, 67u8, 85u8, 82u8, 82u8, 69u8, 78u8, 84u8, 95u8, 67u8, 79u8, 78u8, 70u8, 73u8, 71u8]
}

fn make_hkey_current_config() -> (r: Vec<u8>)
    ensures
        r@ == hkey_current_config(),
{
    let mut v: Vec<u8> = Vec::new();
    v.push(72);
    v.push(75);
    v.push(69);
    v.push(89);
    v.push(95);
    v.push(67);
    v.push(85);
    v.push(82);
    v.push(82);
    v.push(69);
    v.push(78);
    v.push(84);
    v.push(95);
    v.push(67);
    v.push(79);
    v.push(78);
    v.push(70);
    v.push(73);
    v.push(71);
    proof {
        assert(v@ =~= hkey_current_config());
    }
    v
}

/// The fixed set of root containers, the well-known top-level namespaces of
/// the backing store, in the order the provider installs them.
pub open spec fn root_names() -> Seq<Seq<u8>> {
    seq![
        hkey_classes_root(),
        hkey_current_user(),
        hkey_local_machine(),
        hkey_users(),
        hkey_current_config(),
    ]
}

/// The mathematical value of one backing-store child.
pub ghost struct RegEntryModel {
    pub name: Seq<u8>,
    pub size: u64,
}

/// One child of a backing-store container: its name, and for a value the
/// byte length of its data (0 for subcontainers).
pub struct RegEntry {
    pub name: Vec<u8>,
    pub size: u64,
}

impl View for RegEntry {
    type V = RegEntryModel;

    open spec fn view(&self) -> RegEntryModel {
        RegEntryModel { name: self.name@, size: self.size }
    }
}

impl RegEntry {
    fn new(name: Vec<u8>, size: u64) -> (r: RegEntry)
        ensures
            r@ == (RegEntryModel { name: name@, size: size }),
    {
        RegEntry { name, size }
    }
}

/// The models of a run of backing-store children.
pub open spec fn reg_entry_models(s: Seq<RegEntry>) -> Seq<RegEntryModel> {
    s.map_values(|e: RegEntry| e@)
}

/// One container's listing: its subcontainers and its values.
pub struct RegEntires {
    pub subkeys: Vec<RegEntry>,
    pub values: Vec<RegEntry>,
}

/// The root containers as backing-store children, each of size 0.
pub open spec fn root_subkey_models() -> Seq<RegEntryModel> {
    root_names().map_values(|n: Seq<u8>| RegEntryModel { name: n, size: 0u64 })
}

/// The listing of the virtual root: exactly the fixed root containers, each
/// of size 0, and no values.
pub open spec fn is_root_listing(listing: RegEntires) -> bool {
    &&& reg_entry_models(listing.subkeys@) == root_subkey_models()
    &&& listing.values@.len() == 0
}

/// The path names a key: at least one segment, and the first segment is
/// exactly one of the fixed root-container names.
pub open spec fn key_resolvable(p: Seq<u8>) -> bool {
    segments(p).len() >= 1 && root_names().contains(segments(p)[0])
}

/// The path can address a leaf value: a parent key of at least one segment,
/// plus the value's name.
pub open spec fn value_addressable(p: Seq<u8>) -> bool {
    segments(p).len() >= 2 && root_names().contains(segments(p)[0])
}

/// What the existence check reports, given the store's answer `raw` for the
/// resolved location.
pub open spec fn spec_key_exists(p: Seq<u8>, raw: bool) -> bool {
    key_resolvable(p) && raw
}

/// What a value read returns, given the store's answer `raw` for the
/// resolved location.
pub open spec fn spec_read_value(p: Seq<u8>, raw: Option<Vec<u8>>) -> Option<Vec<u8>> {
    if value_addressable(p) {
        raw
    } else {
        None
    }
}

/// Whether a listing query finds anything, given whether the store answered
/// one at the resolved location.
pub open spec fn spec_enumerate_found(p: Seq<u8>, raw_found: bool) -> bool {
    is_root_path(p) || (key_resolvable(p) && raw_found)
}

/// A path that resolves to nothing is absent consistently: whatever the
/// backing store would answer at any location, the listing finds nothing,
/// the existence check fails, and the value read returns nothing.
pub proof fn lemma_not_found_consistent(p: Seq<u8>, raw_found: bool, raw_exists: bool, raw_bytes: Option<Vec<u8>>)
    requires
        !is_root_path(p),
        !key_resolvable(p),
    ensures
        !spec_enumerate_found(p, raw_found),
        !spec_key_exists(p, raw_exists),
        spec_read_value(p, raw_bytes) is None,
{
}

/// A resolved location below a root container: the root's index in the
/// fixed set, and the segments under it (none addresses the root itself).
pub struct KeyLocation {
    pub root: usize,
    pub subpath: Vec<Vec<u8>>,
}

/// A resolved leaf-value address: the root's index, the segments of the
/// parent key under the root, and the value's own name.
pub struct ValueLocation {
    pub root: usize,
    pub parent: Vec<Vec<u8>>,
    pub leaf: Vec<u8>,
}

fn bytes_eq(a: &Vec<u8>, b: &Vec<u8>) -> (r: bool)
    ensures
        r == (a@ == b@),
{
    if a.len() != b.len() {
        return false;
    }
    let mut i: usize = 0;
    while i < a.len()
        invariant
            i <= a@.len(),
            a@.len() == b@.len(),
            forall|t: int| 0 <= t < i ==> a@[t] == b@[t],
        decreases a@.len() - i,
    {
        if a[i] != b[i] {
            return false;
        }
        i += 1;
    }
    proof {
        assert(a@ =~= b@);
    }
    true
}

/// The resolver and root-set holder over the backing store.
pub struct RegOps {
    pub roots: Vec<Vec<u8>>,
}

impl RegOps {
    /// The held root set is exactly the fixed one.
    pub open spec fn wf(&self) -> bool {
        seg_views(self.roots@) == root_names()
    }

    /// A resolver over the fixed root-container set.
    pub fn new() -> (r: RegOps)
        ensures
            r.wf(),
    {
        let mut roots: Vec<Vec<u8>> = Vec::new();
        roots.push(make_hkey_classes_root());
        roots.push(make_hkey_current_user());
        roots.push(make_hkey_local_machine());
        roots.push(make_hkey_users());
        roots.push(make_hkey_current_config());
        proof {
            assert(seg_views(roots@) =~= root_names());
        }
        RegOps { roots }
    }

    /// The listing of the virtual root: each root container as a
    /// subcontainer of size 0, and no values.
    pub fn root_entries(&self) -> (r: RegEntires)
        requires
            self.wf(),
        ensures
            is_root_listing(r),
    {
        let mut subkeys: Vec<RegEntry> = Vec::new();
        let ghost expected = root_names().map_values(|n: Seq<u8>| RegEntryModel { name: n, size: 0u64 });
        proof {
            assert(self.roots@.len() == root_names().len());
            assert(expected.len() == root_names().len());
            assert(reg_entry_models(subkeys@) =~= expected.take(0));
        }
        let mut i: usize = 0;
        while i < self.roots.len()
            invariant
                self.wf(),
                i <= self.roots@.len(),
                (expected == root_names().map_values(
                    |n: Seq<u8>| RegEntryModel { name: n, size: 0u64 },
                )),
                reg_entry_models(subkeys@) == expected.take(i as int),
            decreases self.roots@.len() - i,
        {
            let mut name: Vec<u8> = Vec::new();
            let mut t: usize = 0;
            while t < self.roots[i].len()
                invariant
                    self.wf(),
                    i < self.roots@.len(),
                    t <= self.roots@[i as int]@.len(),
                    name@ == self.roots@[i as int]@.take(t as int),
                decreases self.roots@[i as int]@.len() - t,
            {
                let b = self.roots[i][t];
                name.push(b);
                proof {
                    assert(name@ =~= self.roots@[i as int]@.take(t + 1));
                }
                t += 1;
            }
            proof {
                assert(name@ =~= self.roots@[i as int]@);
            }
            let ghost before = subkeys@;
            let ghost name_view = name@;
            subkeys.push(RegEntry::new(name, 0));
            proof {
                assert(self.roots@.len() == root_names().len());
                assert(expected.len() == root_names().len());
                assert(seg_views(self.roots@)[i as int] == self.roots@[i as int]@);
                assert(root_names()[i as int] == name_view);
                assert(expected[i as int] == (RegEntryModel { name: name_view, size: 0u64 }));
                assert(reg_entry_models(before).len() == before.len());
                assert(expected.take(i as int).len() == i as int);
                assert(before.len() == i as int);
                assert(subkeys@.len() == i + 1);
                assert(subkeys@ == before.push(subkeys@[i as int]));
                assert(subkeys@[i as int]@ == expected[i as int]);
                assert forall|t: int|
                    0 <= t < i + 1 implies reg_entry_models(subkeys@)[t] == expected.take(i + 1)[t] by {
                    if t < i as int {
                        assert(reg_entry_models(subkeys@)[t] == subkeys@[t]@);
                        assert(subkeys@[t] == before[t]);
                        assert(reg_entry_models(before)[t] == before[t]@);
                        assert(reg_entry_models(before)[t] == expected.take(i as int)[t]);
                    }
                }
                assert(reg_entry_models(subkeys@) =~= expected.take(i + 1));
            }
            i += 1;
        }
        proof {
            assert(expected.take(root_names().len() as int) =~= expected);
            assert(expected =~= root_subkey_models());
        }
        RegEntires { subkeys, values: Vec::new() }
    }

    fn find_root(&self, name: &Vec<u8>) -> (r: Option<usize>)
        requires
            self.wf(),
        ensures
            match r {
                Some(i) => i < root_names().len() && root_names()[i as int] == name@,
                None => !root_names().contains(name@),
            },
    {
        let mut i: usize = 0;
        while i < self.roots.len()
            invariant
                self.wf(),
                i <= self.roots@.len(),
                forall|t: int| 0 <= t < i ==> root_names()[t] != name@,
            decreases self.roots@.len() - i,
        {
            if bytes_eq(&self.roots[i], name) {
                return Some(i);
            }
            i += 1;
        }
        None
    }

    /// Resolve a path to a key location, or to nothing: the first segment
    /// must exactly match a root container's name.
    pub fn open_key_by_path(&self, path: &Vec<u8>) -> (r: Option<KeyLocation>)
        requires
            self.wf(),
        ensures
            match r {
                None => !key_resolvable(path@),
                Some(loc) => {
                    &&& key_resolvable(path@)
                    &&& loc.root < root_names().len()
                    &&& root_names()[loc.root as int] == segments(path@)[0]
                    &&& seg_views(loc.subpath@) == segments(path@).drop_first()
                },
            },
    {
        let mut segs = split_segments(path);
        if segs.len() == 0 {
            return None;
        }
        let ghost all = segs@;
        let first = segs.remove(0);
        proof {
            assert(seg_views(segs@) =~= seg_views(all).drop_first());
            assert(first@ == segments(path@)[0]);
        }
        match self.find_root(&first) {
            Some(i) => Some(KeyLocation { root: i, subpath: segs }),
            None => None,
        }
    }

    /// Resolve a path to a leaf-value address, or to nothing: a value needs
    /// a parent key below a root container, plus its own name.
    pub fn resolve_value_path(&self, path: &Vec<u8>) -> (r: Option<ValueLocation>)
        requires
            self.wf(),
        ensures
            match r {
                None => !value_addressable(path@),
                Some(loc) => {
                    &&& value_addressable(path@)
                    &&& loc.root < root_names().len()
                    &&& root_names()[loc.root as int] == segments(path@)[0]
                    &&& seg_views(loc.parent@) == segments(path@).drop_first().drop_last()
                    &&& loc.leaf@ == segments(path@).last()
                },
            },
    {
        let mut segs = split_segments(path);
        if segs.len() < 2 {
            return None;
        }
        let ghost all = segs@;
        let leaf = match segs.pop() {
            Some(leaf) => leaf,
            None => {
                return None;
            },
        };
        let first = segs.remove(0);
        proof {
            assert(first@ == segments(path@)[0]);
            assert(seg_views(segs@) =~= segments(path@).drop_first().drop_last());
            assert(leaf@ == segments(path@).last());
        }
        match self.find_root(&first) {
            Some(i) => Some(ValueLocation { root: i, parent: segs, leaf }),
            None => None,
        }
    }

    /// List a container's children. For the virtual root the answer is the
    /// fixed root-container listing; below it, `raw` is what the backing
    /// store answered at the resolved location (`None`: no such key), and a
    /// path that does not resolve finds nothing.
    pub fn enumerate_key(&self, path: &Vec<u8>, raw: Option<RegEntires>) -> (r: Option<RegEntires>)
        requires
            self.wf(),
        ensures
            is_root_path(path@) ==> (r matches Some(listing) && is_root_listing(listing)),
            !is_root_path(path@) && key_resolvable(path@) ==> r == raw,
            !is_root_path(path@) && !key_resolvable(path@) ==> r is None,
            r is Some <==> spec_enumerate_found(path@, raw is Some),
    {
        if is_virtualization_root(path) {
            Some(self.root_entries())
        } else {
            match self.open_key_by_path(path) {
                Some(_) => raw,
                None => None,
            }
        }
    }

    /// Read a leaf value's bytes: `raw` is what the backing store answered
    /// at the resolved address (`None`: no such value), and a path too
    /// short to address a value, or outside the fixed roots, reads nothing.
    pub fn read_value(&self, path: &Vec<u8>, raw: Option<Vec<u8>>) -> (r: Option<Vec<u8>>)
        requires
            self.wf(),
        ensures
            r == spec_read_value(path@, raw),
    {
        match self.resolve_value_path(path) {
            Some(_) => raw,
            None => None,
        }
    }

    /// Whether a path names an existing key: it must resolve, and `raw` is
    /// whether the backing store has the resolved key.
    pub fn does_key_exist(&self, path: &Vec<u8>, raw: bool) -> (r: bool)
        requires
            self.wf(),
        ensures
            r == spec_key_exists(path@, raw),
    {
        match self.open_key_by_path(path) {
            Some(_) => raw,
            None => false,
        }
    }

    /// The byte length of an existing leaf value, through the same
    /// resolution as a read.
    pub fn does_value_exist(&self, path: &Vec<u8>, raw: Option<Vec<u8>>) -> (r: Option<usize>)
        requires
            self.wf(),
        ensures
            match r {
                Some(n) => spec_read_value(path@, raw) matches Some(b) && n == b@.len(),
                None => spec_read_value(path@, raw) is None,
            },
    {
        match self.read_value(path, raw) {
            Some(bytes) => Some(bytes.len()),
            None => None,
        }
    }
}

} // verus!
