//! Levenshtein edit distance between two strings, computed with the
//! Wagner-Fischer dynamic program, together with the metric laws
//! (identity, symmetry, triangle inequality) proved of the spec-level
//! distance function.

use vstd::prelude::*;
use vstd::string::*;

use crate::text::{lemma_trim_len, trim_exec, trim_spec};

verus! {

/// The minimum of three natural numbers.
pub open spec fn min3(x: nat, y: nat, z: nat) -> nat {
    if x <= y && x <= z {
        x
    } else if y <= z {
        y
    } else {
        z
    }
}

/// Levenshtein distance between two character sequences: the least number
/// of single-character insertions, deletions and substitutions that turns
/// one into the other, defined by the standard recurrence on last
/// characters.
pub open spec fn edit_dist(a: Seq<char>, b: Seq<char>) -> nat
    decreases a.len() + b.len(),
{
    if a.len() == 0 {
        b.len()
    } else if b.len() == 0 {
        a.len()
    } else {
        let cost: nat = if a.last() == b.last() {
            0
        } else {
            1
        };
        min3(
            edit_dist(a.drop_last(), b) + 1,
            edit_dist(a, b.drop_last()) + 1,
            edit_dist(a.drop_last(), b.drop_last()) + cost,
        )
    }
}

/// A string is at distance zero from itself.
pub proof fn lemma_edit_dist_self(a: Seq<char>)
    ensures
        edit_dist(a, a) == 0,
    decreases a.len(),
{
    if a.len() > 0 {
        lemma_edit_dist_self(a.drop_last());
    }
}

/// The distance never exceeds the longer input's length.
pub proof fn lemma_edit_dist_le_max(a: Seq<char>, b: Seq<char>)
    ensures
        edit_dist(a, b) <= a.len() || edit_dist(a, b) <= b.len(),
        a.len() <= b.len() ==> edit_dist(a, b) <= b.len(),
        b.len() <= a.len() ==> edit_dist(a, b) <= a.len(),
    decreases a.len() + b.len(),
{
    if a.len() > 0 && b.len() > 0 {
        lemma_edit_dist_le_max(a.drop_last(), b.drop_last());
    }
}

/// The distance is at least the difference of the input lengths.
pub proof fn lemma_edit_dist_ge_diff(a: Seq<char>, b: Seq<char>)
    ensures
        edit_dist(a, b) + a.len() >= b.len(),
        edit_dist(a, b) + b.len() >= a.len(),
    decreases a.len() + b.len(),
{
    if a.len() > 0 && b.len() > 0 {
        lemma_edit_dist_ge_diff(a.drop_last(), b);
        lemma_edit_dist_ge_diff(a, b.drop_last());
        lemma_edit_dist_ge_diff(a.drop_last(), b.drop_last());
    }
}

/// The distance is symmetric in its arguments.
pub proof fn lemma_edit_dist_symm(a: Seq<char>, b: Seq<char>)
    ensures
        edit_dist(a, b) == edit_dist(b, a),
    decreases a.len() + b.len(),
{
    if a.len() > 0 && b.len() > 0 {
        lemma_edit_dist_symm(a.drop_last(), b);
        lemma_edit_dist_symm(a, b.drop_last());
        lemma_edit_dist_symm(a.drop_last(), b.drop_last());
    }
}

/// The triangle inequality: editing through an intermediate string never
/// costs less than editing directly.
pub proof fn lemma_edit_dist_triangle(a: Seq<char>, b: Seq<char>, c: Seq<char>)
    ensures
        edit_dist(a, c) <= edit_dist(a, b) + edit_dist(b, c),
    decreases a.len() + b.len() + c.len(),
{
    if b.len() == 0 {
        lemma_edit_dist_le_max(a, c);
    } else if a.len() == 0 {
        lemma_edit_dist_ge_diff(b, c);
    } else if c.len() == 0 {
        lemma_edit_dist_ge_diff(a, b);
    } else {
        lemma_edit_dist_triangle(a.drop_last(), b, c);
        lemma_edit_dist_triangle(a, b, c.drop_last());
        lemma_edit_dist_triangle(a, b.drop_last(), c);
        lemma_edit_dist_triangle(a, b.drop_last(), c.drop_last());
        lemma_edit_dist_triangle(a.drop_last(), b.drop_last(), c);
        lemma_edit_dist_triangle(a.drop_last(), b.drop_last(), c.drop_last());
    }
}

/// The distance on prefixes of length zero is the other prefix's length.
proof fn lemma_edit_dist_base(a: Seq<char>, b: Seq<char>, j: int, i: int)
    requires
        0 <= j <= a.len(),
        0 <= i <= b.len(),
    ensures
        edit_dist(a.take(j), b.take(0)) == j,
        edit_dist(a.take(0), b.take(i)) == i,
{
    assert(a.take(0) =~= Seq::<char>::empty());
    assert(b.take(0) =~= Seq::<char>::empty());
}

/// The Wagner-Fischer cell recurrence, restated on prefixes.
proof fn lemma_edit_dist_step(a: Seq<char>, b: Seq<char>, j: int, i: int)
    requires
        1 <= j <= a.len(),
        1 <= i <= b.len(),
    ensures
        ({
            let cost: nat = if a[j - 1] == b[i - 1] {
                0
            } else {
                1
            };
            edit_dist(a.take(j), b.take(i)) == min3(
                edit_dist(a.take(j - 1), b.take(i)) + 1,
                edit_dist(a.take(j), b.take(i - 1)) + 1,
                edit_dist(a.take(j - 1), b.take(i - 1)) + cost,
            )
        }),
{
    assert(a.take(j).drop_last() =~= a.take(j - 1));
    assert(b.take(i).drop_last() =~= b.take(i - 1));
    assert(a.take(j).last() == a[j - 1]);
    assert(b.take(i).last() == b[i - 1]);
}

/// Collect the codepoints of a string into a vector.
fn chars_vec(s: &str) -> (v: Vec<char>)
    ensures
        v@ == s@,
{
    let n: usize = s.unicode_len();
    let mut v: Vec<char> = Vec::new();
    proof {
        assert(s@.take(0) =~= Seq::<char>::empty());
    }
    let mut i: usize = 0;
    while i < n
        invariant
            i <= n,
            n == s@.len(),
            v@ == s@.take(i as int),
        decreases n - i,
    {
        let c = s.get_char(i);
        v.push(c);
        proof {
            assert(s@.take(i + 1) =~= s@.take(i as int).push(s@[i as int]));
        }
        i += 1;
    }
    proof {
        assert(s@.take(n as int) =~= s@);
    }
    v
}

/// The dynamic program over two codepoint vectors, using a rolling row.
fn dp_distance(ac: &Vec<char>, bc: &Vec<char>) -> (r: usize)
    requires
        ac@.len() < usize::MAX,
        bc@.len() < usize::MAX,
    ensures
        r == edit_dist(ac@, bc@),
{
    let alen: usize = ac.len();
    let blen: usize = bc.len();
    if alen == 0 {
        return blen;
    }
    if blen == 0 {
        return alen;
    }
    let mut prev: Vec<usize> = Vec::new();
    let mut j: usize = 0;
    while j <= alen
        invariant
            j <= alen + 1,
            alen == ac@.len(),
            blen == bc@.len(),
            alen < usize::MAX,
            prev@.len() == j,
            forall|k: int| 0 <= k < j ==> prev@[k] == edit_dist(ac@.take(k), bc@.take(0)),
        decreases alen + 1 - j,
    {
        proof {
            lemma_edit_dist_base(ac@, bc@, j as int, 0);
        }
        prev.push(j);
        j += 1;
    }
    let mut i: usize = 1;
    while i <= blen
        invariant
            1 <= i <= blen + 1,
            alen == ac@.len(),
            blen == bc@.len(),
            alen < usize::MAX,
            blen < usize::MAX,
            0 < alen,
            0 < blen,
            prev@.len() == alen + 1,
            forall|k: int| 0 <= k <= alen ==> prev@[k] == edit_dist(ac@.take(k), bc@.take(i - 1)),
        decreases blen + 1 - i,
    {
        let mut curr: Vec<usize> = Vec::new();
        proof {
            lemma_edit_dist_base(ac@, bc@, 0, i as int);
        }
        curr.push(i);
        let mut j: usize = 1;
        while j <= alen
            invariant
                1 <= j <= alen + 1,
                1 <= i <= blen,
                alen == ac@.len(),
                blen == bc@.len(),
                alen < usize::MAX,
                blen < usize::MAX,
                prev@.len() == alen + 1,
                forall|k: int| 0 <= k <= alen ==> prev@[k] == edit_dist(
                    ac@.take(k),
                    bc@.take(i - 1),
                ),
                curr@.len() == j,
                forall|k: int| 0 <= k < j ==> curr@[k] == edit_dist(ac@.take(k), bc@.take(i as int)),
            decreases alen + 1 - j,
        {
            let cost: usize = if ac[j - 1] == bc[i - 1] {
                0
            } else {
                1
            };
            proof {
                lemma_edit_dist_le_max(ac@.take(j as int), bc@.take(i - 1));
                lemma_edit_dist_le_max(ac@.take(j - 1), bc@.take(i as int));
                lemma_edit_dist_le_max(ac@.take(j - 1), bc@.take(i - 1));
                lemma_edit_dist_step(ac@, bc@, j as int, i as int);
            }
            let del: usize = prev[j] + 1;
            let ins: usize = curr[j - 1] + 1;
            let sub: usize = prev[j - 1] + cost;
            let mut v: usize = del;
            if ins < v {
                v = ins;
            }
            if sub < v {
                v = sub;
            }
            curr.push(v);
            j += 1;
        }
        prev = curr;
        i += 1;
    }
    proof {
        assert(ac@.take(alen as int) =~= ac@);
        assert(bc@.take(blen as int) =~= bc@);
    }
    prev[alen]
}

/// Edit distance between two strings: both are first trimmed of leading
/// and trailing whitespace, then compared codepoint by codepoint,
/// case-sensitively and without normalization.
pub fn ld(a: &str, b: &str) -> (r: usize)
    requires
        a@.len() < usize::MAX,
        b@.len() < usize::MAX,
    ensures
        r == edit_dist(trim_spec(a@), trim_spec(b@)),
{
    let at = trim_exec(a);
    let bt = trim_exec(b);
    proof {
        lemma_trim_len(a@);
        lemma_trim_len(b@);
    }
    let ac = chars_vec(at);
    let bc = chars_vec(bt);
    dp_distance(&ac, &bc)
}

} // verus!
