//! Virtual paths, as the host hands them to the provider: text relative to
//! the virtualization root, with `\` between segments. The empty path (or
//! one that begins with a separator) addresses the virtual root itself.
//!
//! A path's meaning is carried by its segments: the runs of bytes between
//! separators, empty runs dropped. The first segment names a root container;
//! the remaining segments address a nested container or a leaf value.

use vstd::prelude::*;

verus! {

/// The path separator of the host's native path text.
pub const SEPARATOR: u8 = 0x5C;

/// A path addresses the virtual root when it has no leading segment: it is
/// empty, or its first byte is a separator.
pub open spec fn is_root_path(p: Seq<u8>) -> bool {
    p.len() == 0 || p[0] == SEPARATOR
}

/// Whether `path` addresses the virtual root of the projected tree.
pub fn is_virtualization_root(path: &Vec<u8>) -> (r: bool)
    ensures
        r == is_root_path(path@),
{
    path.len() == 0 || path[0] == SEPARATOR
}

/// Where the first segment of `p` ends: the index of the first separator,
/// or the length of `p` when it has none.
pub open spec fn seg_end(p: Seq<u8>) -> int
    decreases p.len(),
{
    if p.len() == 0 || p[0] == SEPARATOR {
        0
    } else {
        1 + seg_end(p.drop_first())
    }
}

/// `seg_end` points just past a separator-free prefix, at a separator or at
/// the end.
proof fn lemma_seg_end(p: Seq<u8>)
    ensures
        0 <= seg_end(p) <= p.len(),
        forall|t: int| 0 <= t < seg_end(p) ==> p[t] != SEPARATOR,
        seg_end(p) < p.len() ==> p[seg_end(p)] == SEPARATOR,
    decreases p.len(),
{
    if p.len() == 0 || p[0] == SEPARATOR {
    } else {
        lemma_seg_end(p.drop_first());
        assert forall|t: int| 0 <= t < seg_end(p) implies p[t] != SEPARATOR by {
            if t > 0 {
                assert(p.drop_first()[t - 1] == p[t]);
            }
        }
    }
}

/// A separator-free prefix of length `m`, followed by a separator or the
/// end, is exactly the first segment.
proof fn lemma_seg_end_eq(p: Seq<u8>, m: int)
    requires
        0 <= m <= p.len(),
        forall|t: int| 0 <= t < m ==> p[t] != SEPARATOR,
        m < p.len() ==> p[m] == SEPARATOR,
    ensures
        seg_end(p) == m,
    decreases m,
{
    if m == 0 {
    } else {
        lemma_seg_end_eq(p.drop_first(), m - 1);
    }
}

/// The segments of `p`: the non-empty runs of bytes between separators, in
/// order.
pub open spec fn segments(p: Seq<u8>) -> Seq<Seq<u8>>
    decreases p.len(),
{
    if p.len() == 0 {
        Seq::empty()
    } else if p[0] == SEPARATOR {
        segments(p.drop_first())
    } else {
        let k = seg_end(p);
        if 1 <= k <= p.len() {
            seq![p.take(k)] + segments(p.skip(k))
        } else {
            Seq::empty()
        }
    }
}

/// A path that starts inside a segment splits at the segment's end; the
/// guard in `segments` is never the case that answers.
proof fn lemma_segments_unfold(p: Seq<u8>)
    requires
        p.len() > 0,
        p[0] != SEPARATOR,
    ensures
        1 <= seg_end(p) <= p.len(),
        segments(p) == seq![p.take(seg_end(p))] + segments(p.skip(seg_end(p))),
{
    lemma_seg_end(p);
}

/// The views of a run of owned segments.
pub open spec fn seg_views(s: Seq<Vec<u8>>) -> Seq<Seq<u8>> {
    s.map_values(|v: Vec<u8>| v@)
}

/// Split `path` into its segments.
pub fn split_segments(path: &Vec<u8>) -> (segs: Vec<Vec<u8>>)
    ensures
        seg_views(segs@) == segments(path@),
{
    let mut segs: Vec<Vec<u8>> = Vec::new();
    let mut i: usize = 0;
    proof {
        assert(path@.skip(0) =~= path@);
        assert(seg_views(segs@) + segments(path@) =~= segments(path@));
    }
    while i < path.len()
        invariant
            i <= path@.len(),
            seg_views(segs@) + segments(path@.skip(i as int)) == segments(path@),
        decreases path@.len() - i,
    {
        if path[i] == SEPARATOR {
            proof {
                assert(path@.skip(i as int).drop_first() =~= path@.skip(i + 1));
            }
            i += 1;
        } else {
            let start = i;
            let mut j = i;
            while j < path.len() && path[j] != SEPARATOR
                invariant
                    i <= j <= path@.len(),
                    forall|t: int| i <= t < j ==> path@[t] != SEPARATOR,
                decreases path@.len() - j,
            {
                j += 1;
            }
            let mut seg: Vec<u8> = Vec::new();
            let mut t = start;
            proof {
                assert(seg@ =~= path@.subrange(start as int, start as int));
            }
            while t < j
                invariant
                    start <= t <= j <= path@.len(),
                    seg@ == path@.subrange(start as int, t as int),
                decreases j - t,
            {
                let b = path[t];
                seg.push(b);
                proof {
                    assert(seg@ =~= path@.subrange(start as int, t + 1));
                }
                t += 1;
            }
            let ghost segs_before = segs@;
            let ghost seg_view = seg@;
            segs.push(seg);
            proof {
                let p1 = path@.skip(start as int);
                lemma_seg_end_eq(p1, j - start);
                lemma_segments_unfold(p1);
                assert(p1.take(j - start) =~= path@.subrange(start as int, j as int));
                assert(p1.skip(j - start) =~= path@.skip(j as int));
                assert(segments(p1) == seq![seg_view] + segments(path@.skip(j as int)));
                assert(seg_views(segs@) =~= seg_views(segs_before).push(seg_view));
                assert(seg_views(segs@) + segments(path@.skip(j as int)) =~= seg_views(
                    segs_before,
                ) + (seq![seg_view] + segments(path@.skip(j as int))));
            }
            i = j;
        }
    }
    proof {
        assert(path@.skip(path@.len() as int) =~= Seq::<u8>::empty());
        assert(seg_views(segs@) + segments(path@.skip(i as int)) =~= seg_views(segs@));
    }
    segs
}

} // verus!
