//! Keyword extraction for a browser tab: tokenize the title, derive a
//! host label and path segments from the URL, lowercase everything,
//! filter against the lexical resources, then sort and deduplicate into
//! the final keyword set.
//!
//! Filtering policy: every candidate is lowercased first and then held
//! against the (lowercase) stop-word and ignore-word sets, so filtering
//! is case-insensitive; the length check also applies to the lowercased
//! token. The host label is kept regardless of the word sets, but only
//! when longer than one codepoint.

use vstd::prelude::*;
use vstd::string::*;

use crate::text::{lower_of, seq_lt, split_slash, split_slash_exec, split_ws, split_ws_exec, views,
    lowercase, str_eq, str_lt, lemma_seq_lt_connected, lemma_seq_lt_irrefl, lemma_seq_lt_trans};
use crate::words::{is_ignore_word, is_ignore_word_exec, is_stop_word, is_stop_word_exec};

verus! {

/// Why keyword generation failed.
#[derive(Clone, Copy, Debug, PartialEq, Eq, Structural)]
pub enum KeywordError {
    /// The URL argument does not conform to URL syntax.
    InvalidUrl,
}

/// Whether a string parses as an absolute URL; what `url::Url::parse`
/// decides, a function of the input string alone.
pub uninterp spec fn url_parses(s: Seq<char>) -> bool;

/// The host component that `url::Url::host_str` reports for a parsed
/// URL, or the empty sequence where the URL has no host.
pub uninterp spec fn url_host_of(s: Seq<char>) -> Seq<char>;

/// The path component that `url::Url::path` reports for a parsed URL.
pub uninterp spec fn url_path_of(s: Seq<char>) -> Seq<char>;

/// `url::ParseError`, the error that `url::Url::parse` returns, declared
/// opaquely so the trusted parse call can hand it through.
#[verifier::external_type_specification]
#[verifier::external_body]
pub struct ExParseError(url::ParseError);

/// Relies on `url::Url::parse`, a deterministic function of the input
/// string alone, and on `Url::host_str` and `Url::path`, which read the
/// host and path components of the parsed URL. A URL without a host
/// yields the empty string as its host.
#[verifier::external_body]
fn parse_url_parts(s: &str) -> (r: Result<(String, String), url::ParseError>)
    ensures
        r is Ok <==> url_parses(s@),
        r is Ok ==> r->Ok_0.0@ == url_host_of(s@) && r->Ok_0.1@ == url_path_of(s@),
{
    match url::Url::parse(s) {
        Ok(u) => Ok((u.host_str().unwrap_or("").to_string(), u.path().to_string())),
        Err(e) => Err(e),
    }
}

/// Whether a lowercased candidate token is kept as a keyword.
pub open spec fn keep_kw(w: Seq<char>, check_ignore: bool) -> bool {
    &&& w.len() > 1
    &&& !is_stop_word(w)
    &&& check_ignore ==> !is_ignore_word(w)
}

/// Lowercase each piece and keep those that pass the keyword filter,
/// in order.
pub open spec fn kept_keywords(pieces: Seq<Seq<char>>, check_ignore: bool) -> Seq<Seq<char>>
    decreases pieces.len(),
{
    if pieces.len() == 0 {
        Seq::<Seq<char>>::empty()
    } else {
        let rest = kept_keywords(pieces.drop_last(), check_ignore);
        let lw = lower_of(pieces.last());
        if keep_kw(lw, check_ignore) {
            rest.push(lw)
        } else {
            rest
        }
    }
}

/// The keywords contributed by a tab title.
pub open spec fn title_keywords(t: Seq<char>) -> Seq<Seq<char>> {
    kept_keywords(split_ws(t), false)
}

/// The keywords contributed by a URL path.
pub open spec fn path_keywords(p: Seq<char>) -> Seq<Seq<char>> {
    kept_keywords(split_slash(p), true)
}

/// The host's first label: the prefix of the host before its first `.`.
pub open spec fn host_label(h: Seq<char>) -> Seq<char>
    decreases h.len(),
{
    if h.len() == 0 {
        Seq::<char>::empty()
    } else if h[0] == '.' {
        Seq::<char>::empty()
    } else {
        seq![h[0]] + host_label(h.skip(1))
    }
}

/// The keyword contributed by a host: its lowercased first label, kept
/// only when longer than one codepoint, and never held against the word
/// sets.
pub open spec fn host_keyword(h: Seq<char>) -> Seq<Seq<char>> {
    let lab = lower_of(host_label(h));
    if lab.len() > 1 {
        seq![lab]
    } else {
        Seq::<Seq<char>>::empty()
    }
}

/// All candidate keywords of a tab, in pipeline order: title tokens,
/// then the host label, then the path segments.
pub open spec fn combined_keywords(t: Seq<char>, h: Seq<char>, p: Seq<char>) -> Seq<Seq<char>> {
    title_keywords(t) + host_keyword(h) + path_keywords(p)
}

/// Strict ascending lexicographic order, element by element.
pub open spec fn strictly_sorted(s: Seq<Seq<char>>) -> bool {
    forall|i: int, j: int| 0 <= i < j < s.len() ==> seq_lt(s[i], s[j])
}

/// What `generate_keyword_for_tab` returns on success: the candidate
/// set, strictly sorted, with duplicates removed, every element longer
/// than one codepoint.
pub open spec fn keyword_output(out: Seq<Seq<char>>, kws: Seq<Seq<char>>) -> bool {
    &&& strictly_sorted(out)
    &&& forall|i: int, j: int| 0 <= i < j < out.len() ==> out[i] != out[j]
    &&& forall|w: Seq<char>| #[trigger] out.contains(w) <==> kws.contains(w)
    &&& forall|w: Seq<char>| #[trigger] out.contains(w) ==> w.len() > 1
}

/// A strictly sorted sequence holds no element twice.
pub proof fn lemma_strictly_sorted_distinct(s: Seq<Seq<char>>)
    requires
        strictly_sorted(s),
    ensures
        forall|i: int, j: int| 0 <= i < j < s.len() ==> s[i] != s[j],
{
    assert forall|i: int, j: int| 0 <= i < j < s.len() implies s[i] != s[j] by {
        if s[i] == s[j] {
            lemma_seq_lt_irrefl(s[i]);
        }
    }
}

proof fn lemma_push_contains(s: Seq<Seq<char>>, x: Seq<char>, y: Seq<char>)
    ensures
        s.push(x).contains(y) <==> (s.contains(y) || y == x),
{
    if s.push(x).contains(y) {
        let k = choose|k: int| 0 <= k < s.push(x).len() && s.push(x)[k] == y;
        if k < s.len() {
            assert(s[k] == y);
        }
    }
    if s.contains(y) {
        let k = choose|k: int| 0 <= k < s.len() && s[k] == y;
        assert(s.push(x)[k] == y);
    }
    assert(s.push(x)[s.len() as int] == x);
}

proof fn lemma_concat_contains(s: Seq<Seq<char>>, t: Seq<Seq<char>>, y: Seq<char>)
    ensures
        (s + t).contains(y) <==> (s.contains(y) || t.contains(y)),
{
    if (s + t).contains(y) {
        let k = choose|k: int| 0 <= k < (s + t).len() && (s + t)[k] == y;
        if k < s.len() {
            assert(s[k] == y);
        } else {
            assert(t[k - s.len()] == y);
        }
    }
    if s.contains(y) {
        let k = choose|k: int| 0 <= k < s.len() && s[k] == y;
        assert((s + t)[k] == y);
    }
    if t.contains(y) {
        let k = choose|k: int| 0 <= k < t.len() && t[k] == y;
        assert((s + t)[k + s.len()] == y);
    }
}

proof fn lemma_insert_contains(s: Seq<Seq<char>>, j: int, x: Seq<char>, y: Seq<char>)
    requires
        0 <= j <= s.len(),
    ensures
        s.insert(j, x).contains(y) <==> (s.contains(y) || y == x),
{
    let n = s.insert(j, x);
    if n.contains(y) {
        let k = choose|k: int| 0 <= k < n.len() && n[k] == y;
        if k < j {
            assert(s[k] == y);
        } else if k == j {
        } else {
            assert(s[k - 1] == y);
        }
    }
    if s.contains(y) {
        let k = choose|k: int| 0 <= k < s.len() && s[k] == y;
        if k < j {
            assert(n[k] == y);
        } else {
            assert(n[k + 1] == y);
        }
    }
    assert(n[j] == x);
}

/// Every kept keyword passes the keyword filter.
proof fn lemma_kept_keywords_keep(pieces: Seq<Seq<char>>, check_ignore: bool)
    ensures
        forall|w: Seq<char>| #[trigger]
            kept_keywords(pieces, check_ignore).contains(w) ==> keep_kw(w, check_ignore),
    decreases pieces.len(),
{
    if pieces.len() > 0 {
        lemma_kept_keywords_keep(pieces.drop_last(), check_ignore);
        let rest = kept_keywords(pieces.drop_last(), check_ignore);
        let lw = lower_of(pieces.last());
        if keep_kw(lw, check_ignore) {
            assert forall|w: Seq<char>| #[trigger]
                kept_keywords(pieces, check_ignore).contains(w) implies keep_kw(
                w,
                check_ignore,
            ) by {
                lemma_push_contains(rest, lw, w);
            }
        }
    }
}

/// What the filters guarantee of every candidate keyword: each is longer
/// than one codepoint; each is the host label or no stop word; and each
/// is the host label, a title token, or no ignore word.
pub proof fn lemma_keywords_filtered(t: Seq<char>, h: Seq<char>, p: Seq<char>)
    ensures
        forall|w: Seq<char>| #[trigger] combined_keywords(t, h, p).contains(w) ==> w.len() > 1,
        forall|w: Seq<char>| #[trigger]
            combined_keywords(t, h, p).contains(w) ==> (w == lower_of(host_label(h))
                || !is_stop_word(w)),
        forall|w: Seq<char>| #[trigger]
            combined_keywords(t, h, p).contains(w) ==> (w == lower_of(host_label(h))
                || title_keywords(t).contains(w) || !is_ignore_word(w)),
{
    lemma_kept_keywords_keep(split_ws(t), false);
    lemma_kept_keywords_keep(split_slash(p), true);
    assert forall|w: Seq<char>| #[trigger] combined_keywords(t, h, p).contains(w) implies (w.len()
        > 1 && (w == lower_of(host_label(h)) || !is_stop_word(w)) && (w == lower_of(host_label(h))
        || title_keywords(t).contains(w) || !is_ignore_word(w))) by {
        lemma_concat_contains(title_keywords(t) + host_keyword(h), path_keywords(p), w);
        lemma_concat_contains(title_keywords(t), host_keyword(h), w);
        if host_keyword(h).contains(w) {
            let k = choose|k: int| 0 <= k < host_keyword(h).len() && host_keyword(h)[k] == w;
            assert(w == lower_of(host_label(h)));
        }
    }
}

/// Lowercase each piece and keep those that pass the keyword filter.
fn clean_pieces(pieces: &Vec<String>, check_ignore: bool) -> (out: Vec<String>)
    ensures
        views(out@) == kept_keywords(views(pieces@), check_ignore),
{
    let mut out: Vec<String> = Vec::new();
    proof {
        assert(views(pieces@).take(0) =~= Seq::<Seq<char>>::empty());
    }
    let mut i: usize = 0;
    while i < pieces.len()
        invariant
            i <= pieces@.len(),
            views(out@) == kept_keywords(views(pieces@).take(i as int), check_ignore),
        decreases pieces@.len() - i,
    {
        let p: &String = &pieces[i];
        let lw = lowercase(p.as_str());
        let ghost pre = views(out@);
        let mut keep = false;
        if lw.as_str().unicode_len() > 1 {
            if !is_stop_word_exec(lw.as_str()) {
                if check_ignore {
                    keep = !is_ignore_word_exec(lw.as_str());
                } else {
                    keep = true;
                }
            }
        }
        proof {
            assert(views(pieces@).take(i + 1).drop_last() =~= views(pieces@).take(i as int));
            assert(views(pieces@).take(i + 1).last() == pieces@[i as int]@);
            assert(keep == keep_kw(lower_of(pieces@[i as int]@), check_ignore));
        }
        if keep {
            out.push(lw);
        }
        proof {
            assert(views(out@) =~= kept_keywords(views(pieces@).take(i + 1), check_ignore));
        }
        i += 1;
    }
    proof {
        assert(views(pieces@).take(pieces@.len() as int) =~= views(pieces@));
    }
    out
}

/// Tokenize free text: split at whitespace, lowercase each token, and
/// keep the tokens longer than one codepoint that are not stop words.
pub fn clean_text(text: &str) -> (out: Vec<String>)
    ensures
        views(out@) == title_keywords(text@),
{
    let pieces = split_ws_exec(text);
    clean_pieces(&pieces, false)
}

proof fn lemma_host_label_take(h: Seq<char>, d: int)
    requires
        0 <= d <= h.len(),
        forall|k: int| 0 <= k < d ==> h[k] != '.',
        d < h.len() ==> h[d] == '.',
    ensures
        host_label(h) == h.take(d),
    decreases d,
{
    if d == 0 {
        assert(h.take(0) =~= Seq::<char>::empty());
    } else {
        lemma_host_label_take(h.skip(1), d - 1);
        assert(seq![h[0]] + h.skip(1).take(d - 1) =~= h.take(d));
    }
}

/// The prefix of the host before its first `.`.
fn host_label_exec<'a>(h: &'a str) -> (r: &'a str)
    ensures
        r@ == host_label(h@),
{
    let n: usize = h.unicode_len();
    let mut i: usize = 0;
    loop
        invariant
            i <= n,
            n == h@.len(),
            forall|k: int| 0 <= k < i ==> h@[k] != '.',
        ensures
            i <= n,
            forall|k: int| 0 <= k < i ==> h@[k] != '.',
            i < n ==> h@[i as int] == '.',
        decreases n - i,
    {
        if i >= n {
            break ;
        }
        if h.get_char(i) == '.' {
            break ;
        }
        i += 1;
    }
    proof {
        lemma_host_label_take(h@, i as int);
    }
    h.substring_char(0, i)
}

/// Sort ascending by codepoint order and drop duplicates: the result is
/// strictly sorted and holds exactly the input's elements.
fn sort_dedup(input: Vec<String>) -> (out: Vec<String>)
    ensures
        strictly_sorted(views(out@)),
        forall|w: Seq<char>| #[trigger]
            views(out@).contains(w) <==> views(input@).contains(w),
{
    let mut out: Vec<String> = Vec::new();
    proof {
        assert(views(input@).take(0) =~= Seq::<Seq<char>>::empty());
    }
    let mut i: usize = 0;
    while i < input.len()
        invariant
            i <= input@.len(),
            strictly_sorted(views(out@)),
            forall|w: Seq<char>| #[trigger]
                views(out@).contains(w) <==> views(input@).take(i as int).contains(w),
        decreases input@.len() - i,
    {
        let w = input[i].clone();
        let ghost pre = views(out@);
        let ghost wi = views(input@).take(i + 1).last();
        proof {
            assert(wi == w@);
            assert(views(input@).take(i + 1).drop_last() =~= views(input@).take(i as int));
        }
        let mut j: usize = 0;
        let mut dup = false;
        loop
            invariant_except_break
                !dup,
            invariant
                j <= out@.len(),
                views(out@) == pre,
                forall|k: int| 0 <= k < j ==> seq_lt(pre[k], w@),
            ensures
                j <= out@.len(),
                views(out@) == pre,
                forall|k: int| 0 <= k < j ==> seq_lt(pre[k], w@),
                dup ==> j < out@.len() && pre[j as int] == w@,
                !dup ==> j == out@.len() || seq_lt(w@, pre[j as int]),
            decreases out@.len() - j,
        {
            if j >= out.len() {
                break ;
            }
            let oj: &String = &out[j];
            if str_lt(oj.as_str(), w.as_str()) {
                j += 1;
            } else if str_eq(oj.as_str(), w.as_str()) {
                dup = true;
                break ;
            } else {
                proof {
                    lemma_seq_lt_connected(pre[j as int], w@);
                }
                break ;
            }
        }
        if dup {
            proof {
                assert(views(out@).contains(w@)) by {
                    assert(views(out@)[j as int] == w@);
                }
                assert forall|y: Seq<char>| #[trigger]
                    views(out@).contains(y) <==> views(input@).take(i + 1).contains(y) by {
                    lemma_push_contains(views(input@).take(i as int), wi, y);
                }
            }
        } else {
            out.insert(j, w);
            proof {
                assert(views(out@) =~= pre.insert(j as int, wi));
                let newv = views(out@);
                assert forall|p: int, q: int| 0 <= p < q < newv.len() implies seq_lt(
                    newv[p],
                    newv[q],
                ) by {
                    if q < j {
                    } else if p == j {
                        if q > j {
                            assert(newv[q] == pre[q - 1]);
                            if q - 1 > j {
                                lemma_seq_lt_trans(wi, pre[j as int], pre[q - 1]);
                            }
                        }
                    } else if q == j {
                        assert(newv[p] == pre[p]);
                    } else if p < j {
                        if q > j {
                            assert(newv[q] == pre[q - 1]);
                            if q - 1 == j {
                                lemma_seq_lt_trans(pre[p], wi, pre[j as int]);
                            }
                        }
                    }
                }
                assert forall|y: Seq<char>| #[trigger]
                    views(out@).contains(y) <==> views(input@).take(i + 1).contains(y) by {
                    lemma_insert_contains(pre, j as int, wi, y);
                    lemma_push_contains(views(input@).take(i as int), wi, y);
                }
            }
        }
        i += 1;
    }
    proof {
        assert(views(input@).take(input@.len() as int) =~= views(input@));
    }
    out
}

/// Derive the keyword set of a tab from its title and URL. Both fields
/// are required: if either is absent the result is the empty set. A URL
/// that does not parse yields `KeywordError::InvalidUrl` and never
/// aborts the caller. On success the result holds exactly the candidate
/// keywords of title, host label and path, lowercased, strictly sorted
/// and deduplicated.
pub fn generate_keyword_for_tab(title: Option<String>, url: Option<String>) -> (r: Result<
    Vec<String>,
    KeywordError,
>)
    ensures
        (title is None || url is None) ==> (r is Ok && r->Ok_0@.len() == 0),
        (title is Some && url is Some && !url_parses(url->0@)) ==> (r is Err && r->Err_0
            == KeywordError::InvalidUrl),
        (title is Some && url is Some && url_parses(url->0@)) ==> (r is Ok && keyword_output(
            views(r->Ok_0@),
            combined_keywords(title->0@, url_host_of(url->0@), url_path_of(url->0@)),
        )),
{
    match (title, url) {
        (Some(t), Some(u)) => {
            match parse_url_parts(u.as_str()) {
                Ok(parts) => {
                    let (host, path) = parts;
                    let mut data = clean_text(t.as_str());
                    let label = host_label_exec(host.as_str());
                    let llabel = lowercase(label);
                    if llabel.as_str().unicode_len() > 1 {
                        data.push(llabel);
                    }
                    proof {
                        assert(views(data@) =~= title_keywords(t@) + host_keyword(
                            url_host_of(u@),
                        ));
                    }
                    let pieces = split_slash_exec(path.as_str());
                    let mut pk = clean_pieces(&pieces, true);
                    data.append(&mut pk);
                    proof {
                        assert(views(data@) =~= combined_keywords(
                            t@,
                            url_host_of(u@),
                            url_path_of(u@),
                        ));
                    }
                    let out = sort_dedup(data);
                    proof {
                        lemma_keywords_filtered(t@, url_host_of(u@), url_path_of(u@));
                        lemma_strictly_sorted_distinct(views(out@));
                    }
                    Ok(out)
                },
                Err(_) => Err(KeywordError::InvalidUrl),
            }
        },
        _ => Ok(Vec::new()),
    }
}

} // verus!
