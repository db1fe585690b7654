//! Filename collation and wildcard matching.
//!
//! Sort order and filter results are externally observable, so the library
//! fixes them deterministically: a case-insensitive ordinal collation (ASCII
//! lower-case letters compare as their upper-case forms, every other byte by
//! its value), and wildcard expressions where `*` matches any run of bytes,
//! `?` matches exactly one byte, letters match case-insensitively, and the
//! empty expression matches every name.

use vstd::prelude::*;

verus! {

/// The wildcard byte that matches any run of bytes, `*`.
pub const WILD_MANY: u8 = 42;

/// The wildcard byte that matches exactly one byte, `?`.
pub const WILD_ONE: u8 = 63;

/// Case folding for the ordinal collation: ASCII `a`..`z` fold to `A`..`Z`,
/// every other byte stands for itself.
pub open spec fn fold_byte(b: u8) -> u8 {
    if 97 <= b && b <= 122 {
        (b - 32) as u8
    } else {
        b
    }
}

/// `a` collates at or before `b`: lexicographic order on case-folded bytes,
/// with a proper prefix before every extension of it.
pub open spec fn collate_le(a: Seq<u8>, b: Seq<u8>) -> bool
    decreases a.len(),
{
    if a.len() == 0 {
        true
    } else if b.len() == 0 {
        false
    } else if fold_byte(a[0]) < fold_byte(b[0]) {
        true
    } else if fold_byte(a[0]) > fold_byte(b[0]) {
        false
    } else {
        collate_le(a.drop_first(), b.drop_first())
    }
}

/// The collation is total: of any two names, one collates at or before the
/// other.
pub proof fn lemma_collate_le_total(a: Seq<u8>, b: Seq<u8>)
    ensures
        collate_le(a, b) || collate_le(b, a),
    decreases a.len(),
{
    if a.len() == 0 || b.len() == 0 {
    } else if fold_byte(a[0]) == fold_byte(b[0]) {
        lemma_collate_le_total(a.drop_first(), b.drop_first());
    }
}

/// The collation is transitive.
pub proof fn lemma_collate_le_trans(a: Seq<u8>, b: Seq<u8>, c: Seq<u8>)
    requires
        collate_le(a, b),
        collate_le(b, c),
    ensures
        collate_le(a, c),
    decreases a.len(),
{
    if a.len() == 0 || b.len() == 0 || c.len() == 0 {
    } else if fold_byte(a[0]) == fold_byte(b[0]) && fold_byte(b[0]) == fold_byte(c[0]) {
        lemma_collate_le_trans(a.drop_first(), b.drop_first(), c.drop_first());
    }
}

/// Case folding of one byte.
fn fold_byte_exec(b: u8) -> (r: u8)
    ensures
        r == fold_byte(b),
{
    if 97 <= b && b <= 122 {
        b - 32
    } else {
        b
    }
}

fn name_le_from(a: &Vec<u8>, b: &Vec<u8>, i: usize) -> (r: bool)
    requires
        i <= a.len(),
        i <= b.len(),
    ensures
        r == collate_le(a@.skip(i as int), b@.skip(i as int)),
    decreases a.len() - i,
{
    if i == a.len() {
        true
    } else if i == b.len() {
        false
    } else {
        let fa = fold_byte_exec(a[i]);
        let fb = fold_byte_exec(b[i]);
        if fa < fb {
            true
        } else if fa > fb {
            false
        } else {
            proof {
                assert(a@.skip(i as int).drop_first() =~= a@.skip(i + 1));
                assert(b@.skip(i as int).drop_first() =~= b@.skip(i + 1));
            }
            name_le_from(a, b, i + 1)
        }
    }
}

/// Whether `a` collates at or before `b` under the fixed collation.
pub fn name_le(a: &Vec<u8>, b: &Vec<u8>) -> (r: bool)
    ensures
        r == collate_le(a@, b@),
{
    proof {
        assert(a@.skip(0) =~= a@);
        assert(b@.skip(0) =~= b@);
    }
    name_le_from(a, b, 0)
}

/// The wildcard expression `p` matches the whole of `s`: `*` matches any run
/// of bytes, `?` exactly one byte, and other bytes match case-insensitively.
pub open spec fn wild_match(p: Seq<u8>, s: Seq<u8>) -> bool
    decreases p.len(), s.len(),
{
    if p.len() == 0 {
        s.len() == 0
    } else if p[0] == WILD_MANY {
        wild_match(p.drop_first(), s) || (s.len() > 0 && wild_match(p, s.drop_first()))
    } else if s.len() == 0 {
        false
    } else {
        (p[0] == WILD_ONE || fold_byte(p[0]) == fold_byte(s[0])) && wild_match(
            p.drop_first(),
            s.drop_first(),
        )
    }
}

/// A search expression admits a name when it is empty (which matches every
/// name) or when it matches the name as a wildcard expression.
pub open spec fn expr_matches(expr: Seq<u8>, name: Seq<u8>) -> bool {
    expr.len() == 0 || wild_match(expr, name)
}

fn wild_match_from(p: &Vec<u8>, s: &Vec<u8>, i: usize, j: usize) -> (r: bool)
    requires
        i <= p.len(),
        j <= s.len(),
    ensures
        r == wild_match(p@.skip(i as int), s@.skip(j as int)),
    decreases p.len() - i, s.len() - j,
{
    if i == p.len() {
        j == s.len()
    } else if p[i] == WILD_MANY {
        proof {
            assert(p@.skip(i as int).drop_first() =~= p@.skip(i + 1));
        }
        if wild_match_from(p, s, i + 1, j) {
            true
        } else if j < s.len() {
            proof {
                assert(s@.skip(j as int).drop_first() =~= s@.skip(j + 1));
            }
            wild_match_from(p, s, i, j + 1)
        } else {
            false
        }
    } else if j == s.len() {
        false
    } else if p[i] == WILD_ONE || fold_byte_exec(p[i]) == fold_byte_exec(s[j]) {
        proof {
            assert(p@.skip(i as int).drop_first() =~= p@.skip(i + 1));
            assert(s@.skip(j as int).drop_first() =~= s@.skip(j + 1));
        }
        wild_match_from(p, s, i + 1, j + 1)
    } else {
        false
    }
}

/// Whether the search expression `expr` admits the name `name`.
pub fn name_matches(expr: &Vec<u8>, name: &Vec<u8>) -> (r: bool)
    ensures
        r == expr_matches(expr@, name@),
{
    if expr.len() == 0 {
        true
    } else {
        proof {
            assert(expr@.skip(0) =~= expr@);
            assert(name@.skip(0) =~= name@);
        }
        wild_match_from(expr, name, 0, 0)
    }
}

} // verus!
