//! Character- and string-level groundwork: whitespace trimming,
//! codepoint-exact equality and lexicographic comparison, lowercasing,
//! and splitting a character sequence at separator characters.

use vstd::prelude::*;
use vstd::string::*;

verus! {

/// What `char::is_whitespace` returns for a character; a Unicode property
/// of the character alone.
pub uninterp spec fn is_ws(c: char) -> bool;

/// Relies on `char::is_whitespace`: a deterministic Unicode property of
/// the character alone.
#[verifier::external_body]
pub(crate) fn char_is_whitespace(c: char) -> (r: bool)
    ensures
        r == is_ws(c),
{
    c.is_whitespace()
}

/// What `str::to_lowercase` returns for a string; the result depends on
/// the characters of the input alone.
pub uninterp spec fn lower_of(s: Seq<char>) -> Seq<char>;

/// Relies on `str::to_lowercase`: the Unicode lowercase mapping, a
/// function of the input characters alone.
#[verifier::external_body]
pub(crate) fn lowercase(s: &str) -> (r: String)
    ensures
        r@ == lower_of(s@),
{
    s.to_lowercase()
}

/// The sequence with its leading whitespace removed.
pub open spec fn trim_front(s: Seq<char>) -> Seq<char>
    decreases s.len(),
{
    if s.len() > 0 && is_ws(s[0]) {
        trim_front(s.skip(1))
    } else {
        s
    }
}

/// The sequence with its trailing whitespace removed.
pub open spec fn trim_back(s: Seq<char>) -> Seq<char>
    decreases s.len(),
{
    if s.len() > 0 && is_ws(s.last()) {
        trim_back(s.drop_last())
    } else {
        s
    }
}

/// The sequence with leading and trailing whitespace removed.
pub open spec fn trim_spec(s: Seq<char>) -> Seq<char> {
    trim_back(trim_front(s))
}

pub proof fn lemma_trim_front_len(s: Seq<char>)
    ensures
        trim_front(s).len() <= s.len(),
    decreases s.len(),
{
    if s.len() > 0 && is_ws(s[0]) {
        lemma_trim_front_len(s.skip(1));
    }
}

pub proof fn lemma_trim_back_len(s: Seq<char>)
    ensures
        trim_back(s).len() <= s.len(),
    decreases s.len(),
{
    if s.len() > 0 && is_ws(s.last()) {
        lemma_trim_back_len(s.drop_last());
    }
}

/// Trimming never lengthens a string.
pub proof fn lemma_trim_len(s: Seq<char>)
    ensures
        trim_spec(s).len() <= s.len(),
{
    lemma_trim_front_len(s);
    lemma_trim_back_len(trim_front(s));
}

/// Skipping a known-whitespace prefix commutes with `trim_front`.
proof fn lemma_trim_front_skip(s: Seq<char>, i: int)
    requires
        0 <= i <= s.len(),
        forall|k: int| 0 <= k < i ==> is_ws(s[k]),
    ensures
        trim_front(s) == trim_front(s.skip(i)),
    decreases i,
{
    if i == 0 {
        assert(s.skip(0) =~= s);
    } else {
        assert(is_ws(s[0]));
        lemma_trim_front_skip(s.skip(1), i - 1);
        assert(s.skip(1).skip(i - 1) =~= s.skip(i));
    }
}

/// A sequence whose suffix from `m` on is all whitespace, with a
/// non-whitespace character just before `m`, trims from the back to its
/// first `m` characters.
proof fn lemma_trim_back_take(s: Seq<char>, m: int)
    requires
        0 <= m <= s.len(),
        forall|k: int| m <= k < s.len() ==> is_ws(s[k]),
        m > 0 ==> !is_ws(s[m - 1]),
    ensures
        trim_back(s) == s.take(m),
    decreases s.len(),
{
    if m == s.len() {
        assert(s.take(m) =~= s);
    } else {
        assert(is_ws(s.last()));
        lemma_trim_back_take(s.drop_last(), m);
        assert(s.drop_last().take(m) =~= s.take(m));
    }
}

/// Remove leading and trailing whitespace; interior whitespace stays.
pub fn trim_exec<'a>(s: &'a str) -> (r: &'a str)
    ensures
        r@ == trim_spec(s@),
{
    let n: usize = s.unicode_len();
    let mut i: usize = 0;
    loop
        invariant
            i <= n,
            n == s@.len(),
            forall|k: int| 0 <= k < i ==> is_ws(s@[k]),
        ensures
            i <= n,
            n == s@.len(),
            forall|k: int| 0 <= k < i ==> is_ws(s@[k]),
            i < n ==> !is_ws(s@[i as int]),
        decreases n - i,
    {
        if i >= n {
            break ;
        }
        if !char_is_whitespace(s.get_char(i)) {
            break ;
        }
        i += 1;
    }
    if i == n {
        proof {
            lemma_trim_front_skip(s@, n as int);
            assert(s@.skip(n as int) =~= Seq::<char>::empty());
            assert(s@.take(0) =~= Seq::<char>::empty());
        }
        let r = s.substring_char(0, 0);
        return r;
    }
    let mut j: usize = n;
    loop
        invariant
            i < j <= n,
            n == s@.len(),
            !is_ws(s@[i as int]),
            forall|k: int| j <= k < n ==> is_ws(s@[k]),
        ensures
            i < j <= n,
            forall|k: int| j <= k < n ==> is_ws(s@[k]),
            !is_ws(s@[j - 1]),
        decreases j,
    {
        if !char_is_whitespace(s.get_char(j - 1)) {
            break ;
        }
        j -= 1;
    }
    proof {
        lemma_trim_front_skip(s@, i as int);
        assert(trim_front(s@.skip(i as int)) == s@.skip(i as int));
        let t = s@.skip(i as int);
        lemma_trim_back_take(t, j - i);
        assert(t.take(j - i) =~= s@.subrange(i as int, j as int));
    }
    let r = s.substring_char(i, j);
    r
}

/// The views of a sequence of strings.
pub open spec fn views(v: Seq<String>) -> Seq<Seq<char>> {
    v.map_values(|s: String| s@)
}

/// Codepoint-exact string equality.
pub(crate) fn str_eq(a: &str, b: &str) -> (r: bool)
    ensures
        r == (a@ == b@),
{
    let an: usize = a.unicode_len();
    let bn: usize = b.unicode_len();
    if an != bn {
        return false;
    }
    let mut i: usize = 0;
    while i < an
        invariant
            i <= an,
            an == a@.len(),
            bn == b@.len(),
            an == bn,
            forall|k: int| 0 <= k < i ==> a@[k] == b@[k],
        decreases an - i,
    {
        if a.get_char(i) != b.get_char(i) {
            return false;
        }
        i += 1;
    }
    proof {
        assert(a@ =~= b@);
    }
    true
}

/// Strict lexicographic order on character sequences, comparing
/// codepoints from the front; a proper prefix precedes its extensions.
pub open spec fn seq_lt(a: Seq<char>, b: Seq<char>) -> bool
    decreases a.len(),
{
    if a.len() == 0 {
        b.len() > 0
    } else if b.len() == 0 {
        false
    } else if a[0] == b[0] {
        seq_lt(a.skip(1), b.skip(1))
    } else {
        (a[0] as u32) < (b[0] as u32)
    }
}

/// The order is irreflexive.
pub proof fn lemma_seq_lt_irrefl(a: Seq<char>)
    ensures
        !seq_lt(a, a),
    decreases a.len(),
{
    if a.len() > 0 {
        lemma_seq_lt_irrefl(a.skip(1));
    }
}

/// Distinct sequences are ordered one way or the other.
pub proof fn lemma_seq_lt_connected(a: Seq<char>, b: Seq<char>)
    requires
        a != b,
    ensures
        seq_lt(a, b) || seq_lt(b, a),
    decreases a.len(),
{
    if a.len() == 0 {
        if b.len() == 0 {
            assert(a =~= b);
        }
    } else if b.len() == 0 {
    } else if a[0] == b[0] {
        if a.skip(1) == b.skip(1) {
            assert(a.skip(1).len() == b.skip(1).len());
            assert forall|k: int| 0 <= k < a.len() implies a[k] == b[k] by {
                if k >= 1 {
                    assert(a.skip(1)[k - 1] == b.skip(1)[k - 1]);
                }
            }
            assert(a =~= b);
        } else {
            lemma_seq_lt_connected(a.skip(1), b.skip(1));
        }
    } else {
        if (a[0] as u32) == (b[0] as u32) {
            vstd::utf8::char_u32_cast(a[0], a[0] as u32);
            vstd::utf8::char_u32_cast(b[0], b[0] as u32);
            assert(false);
        }
    }
}

/// The order is transitive.
pub proof fn lemma_seq_lt_trans(a: Seq<char>, b: Seq<char>, c: Seq<char>)
    requires
        seq_lt(a, b),
        seq_lt(b, c),
    ensures
        seq_lt(a, c),
    decreases a.len(),
{
    if a.len() == 0 {
    } else if a[0] == b[0] && b[0] == c[0] {
        lemma_seq_lt_trans(a.skip(1), b.skip(1), c.skip(1));
    }
}

/// Codepoint-exact lexicographic comparison of two strings.
pub(crate) fn str_lt(a: &str, b: &str) -> (r: bool)
    ensures
        r == seq_lt(a@, b@),
{
    let an: usize = a.unicode_len();
    let bn: usize = b.unicode_len();
    let mut i: usize = 0;
    proof {
        assert(a@.skip(0) =~= a@);
        assert(b@.skip(0) =~= b@);
    }
    loop
        invariant
            i <= an,
            i <= bn,
            an == a@.len(),
            bn == b@.len(),
            seq_lt(a@, b@) == seq_lt(a@.skip(i as int), b@.skip(i as int)),
        decreases an - i,
    {
        if i >= an {
            return i < bn;
        }
        if i >= bn {
            return false;
        }
        let ca = a.get_char(i);
        let cb = b.get_char(i);
        if ca == cb {
            proof {
                assert(a@.skip(i as int).skip(1) =~= a@.skip(i + 1));
                assert(b@.skip(i as int).skip(1) =~= b@.skip(i + 1));
            }
            i += 1;
        } else {
            return (ca as u32) < (cb as u32);
        }
    }
}

/// Split a sequence at every separator character, keeping empty pieces;
/// the result always holds at least one piece.
pub open spec fn split_on(s: Seq<char>, p: spec_fn(char) -> bool) -> Seq<Seq<char>>
    decreases s.len(),
{
    if s.len() == 0 {
        seq![Seq::<char>::empty()]
    } else {
        let r = split_on(s.drop_last(), p);
        if p(s.last()) {
            r.push(Seq::<char>::empty())
        } else {
            r.update(r.len() - 1, r.last().push(s.last()))
        }
    }
}

/// One step of splitting: extending the input by one character either
/// opens a fresh piece or extends the last one.
proof fn lemma_split_on_step(s: Seq<char>, p: spec_fn(char) -> bool, i: int)
    requires
        0 <= i < s.len(),
    ensures
        ({
            let pre = split_on(s.take(i), p);
            split_on(s.take(i + 1), p) == if p(s[i]) {
                pre.push(Seq::<char>::empty())
            } else {
                pre.update(pre.len() - 1, pre.last().push(s[i]))
            }
        }),
{
    assert(s.take(i + 1).drop_last() =~= s.take(i));
    assert(s.take(i + 1).last() == s[i]);
}

/// The pieces of a string split at whitespace characters.
pub open spec fn split_ws(s: Seq<char>) -> Seq<Seq<char>> {
    split_on(s, |c: char| is_ws(c))
}

/// The pieces of a string split at `/` characters.
pub open spec fn split_slash(s: Seq<char>) -> Seq<Seq<char>> {
    split_on(s, |c: char| c == '/')
}

/// Split at whitespace characters, keeping empty pieces.
pub(crate) fn split_ws_exec(s: &str) -> (out: Vec<String>)
    ensures
        views(out@) == split_ws(s@),
{
    let n: usize = s.unicode_len();
    let mut out: Vec<String> = Vec::new();
    out.push(String::new());
    proof {
        assert(s@.take(0) =~= Seq::<char>::empty());
        assert(views(out@) =~= split_on(s@.take(0), |c: char| is_ws(c)));
    }
    let mut i: usize = 0;
    while i < n
        invariant
            i <= n,
            n == s@.len(),
            out@.len() >= 1,
            views(out@) == split_on(s@.take(i as int), |c: char| is_ws(c)),
        decreases n - i,
    {
        let c = s.get_char(i);
        proof {
            lemma_split_on_step(s@, |c: char| is_ws(c), i as int);
        }
        if char_is_whitespace(c) {
            out.push(String::new());
            proof {
                assert(views(out@) =~= split_on(s@.take(i + 1), |c: char| is_ws(c)));
            }
        } else {
            let ghost pre = views(out@);
            let piece = s.substring_char(i, i + 1);
            let mut last = out.pop().unwrap();
            let ghost lastv = last@;
            last.append(piece);
            proof {
                assert(s@.subrange(i as int, i + 1) =~= seq![s@[i as int]]);
                assert(last@ =~= lastv.push(s@[i as int]));
                assert(lastv == pre.last());
            }
            out.push(last);
            proof {
                assert(views(out@) =~= pre.update(
                    pre.len() - 1,
                    pre.last().push(s@[i as int]),
                ));
            }
        }
        i += 1;
    }
    proof {
        assert(s@.take(n as int) =~= s@);
    }
    out
}

/// Split at `/` characters, keeping empty pieces.
pub(crate) fn split_slash_exec(s: &str) -> (out: Vec<String>)
    ensures
        views(out@) == split_slash(s@),
{
    let n: usize = s.unicode_len();
    let mut out: Vec<String> = Vec::new();
    out.push(String::new());
    proof {
        assert(s@.take(0) =~= Seq::<char>::empty());
        assert(views(out@) =~= split_on(s@.take(0), |c: char| c == '/'));
    }
    let mut i: usize = 0;
    while i < n
        invariant
            i <= n,
            n == s@.len(),
            out@.len() >= 1,
            views(out@) == split_on(s@.take(i as int), |c: char| c == '/'),
        decreases n - i,
    {
        let c = s.get_char(i);
        proof {
            lemma_split_on_step(s@, |c: char| c == '/', i as int);
        }
        if c == '/' {
            out.push(String::new());
            proof {
                assert(views(out@) =~= split_on(s@.take(i + 1), |c: char| c == '/'));
            }
        } else {
            let ghost pre = views(out@);
            let piece = s.substring_char(i, i + 1);
            let mut last = out.pop().unwrap();
            let ghost lastv = last@;
            last.append(piece);
            proof {
                assert(s@.subrange(i as int, i + 1) =~= seq![s@[i as int]]);
                assert(last@ =~= lastv.push(s@[i as int]));
                assert(lastv == pre.last());
            }
            out.push(last);
            proof {
                assert(views(out@) =~= pre.update(
                    pre.len() - 1,
                    pre.last().push(s@[i as int]),
                ));
            }
        }
        i += 1;
    }
    proof {
        assert(s@.take(n as int) =~= s@);
    }
    out
}

} // verus!
