use tab_text::generate_keyword_for_tab;
use tab_text::keywords::clean_text;
use tab_text::words::{is_ignore_word_exec, is_stop_word_exec};
use tab_text::KeywordError;

fn strings(v: &[&str]) -> Vec<String> {
    let mut out: Vec<String> = Vec::new();
    for s in v {
        out.push(String::from(*s));
    }
    out
}

#[test]
fn missing_title_or_url_yields_empty() {
    let r = generate_keyword_for_tab(None, Some(String::from("https://x.com")));
    assert_eq!(r, Ok(Vec::new()));
    let r = generate_keyword_for_tab(Some(String::from("x")), None);
    assert_eq!(r, Ok(Vec::new()));
    let r = generate_keyword_for_tab(None, None);
    assert_eq!(r, Ok(Vec::new()));
}

#[test]
fn title_and_url_pipeline() {
    let r = generate_keyword_for_tab(
        Some(String::from("The Quick Brown Fox")),
        Some(String::from("https://www.example.com/Path/To/Page")),
    );
    let out = r.unwrap();
    // title tokens lowercased; "the" is filtered case-insensitively; the
    // host label "www" is kept literally; the path keeps "path" and
    // "page" but drops the stop word "to".
    assert_eq!(out, strings(&["brown", "fox", "page", "path", "quick", "www"]));
}

#[test]
fn invalid_url_is_recoverable() {
    let r = generate_keyword_for_tab(Some(String::from("t")), Some(String::from("not a url")));
    assert_eq!(r, Err(KeywordError::InvalidUrl));
    let r = generate_keyword_for_tab(Some(String::from("t")), Some(String::from("http://")));
    assert_eq!(r, Err(KeywordError::InvalidUrl));
}

#[test]
fn url_without_host_uses_empty_label() {
    let r = generate_keyword_for_tab(
        Some(String::from("hi")),
        Some(String::from("mailto:someone@example.com")),
    );
    let out = r.unwrap();
    assert_eq!(out, strings(&["hi", "someone@example.com"]));
}

#[test]
fn short_host_label_is_dropped() {
    let r = generate_keyword_for_tab(
        Some(String::from("zz top")),
        Some(String::from("https://x.co/ab")),
    );
    let out = r.unwrap();
    assert_eq!(out, strings(&["ab", "top", "zz"]));
}

#[test]
fn output_is_sorted_and_deduplicated() {
    let r = generate_keyword_for_tab(
        Some(String::from("rust rust book")),
        Some(String::from("https://rust.example.com/rust/book")),
    );
    let out = r.unwrap();
    assert_eq!(out, strings(&["book", "rust"]));
    for w in &out {
        assert!(w.chars().count() > 1);
    }
    for k in 1..out.len() {
        assert!(out[k - 1] < out[k]);
    }
}

#[test]
fn host_label_escapes_the_word_filters() {
    // the first host label is pushed without a stop-word or ignore-word
    // check, so a host like "the.example.com" contributes "the".
    let r = generate_keyword_for_tab(
        Some(String::from("zebra cloud")),
        Some(String::from("https://the.example.com/")),
    );
    let out = r.unwrap();
    assert_eq!(out, strings(&["cloud", "the", "zebra"]));
    // a title token is not held against the ignore words either.
    let r = generate_keyword_for_tab(
        Some(String::from("www stuff")),
        Some(String::from("https://ab.cd/")),
    );
    let out = r.unwrap();
    assert_eq!(out, strings(&["ab", "stuff", "www"]));
}

#[test]
fn non_host_keywords_avoid_the_word_sets() {
    let r = generate_keyword_for_tab(
        Some(String::from("The Quick Brown Fox")),
        Some(String::from("https://www.example.com/Path/To/Page")),
    );
    let out = r.unwrap();
    for w in &out {
        assert!(!is_stop_word_exec(w.as_str()));
        if w.as_str() != "www" {
            // "www" is the host label, the one element the ignore set
            // does not reach.
            assert!(!is_ignore_word_exec(w.as_str()));
        }
    }
}

#[test]
fn clean_text_filters_case_insensitively() {
    assert_eq!(clean_text("The Quick Brown"), strings(&["quick", "brown"]));
    assert_eq!(clean_text("a bb c"), strings(&["bb"]));
    assert_eq!(clean_text("rust rust"), strings(&["rust", "rust"]));
    assert_eq!(clean_text(""), Vec::<String>::new());
    assert_eq!(clean_text("  \t  "), Vec::<String>::new());
}

#[test]
fn splits_on_tabs_and_newlines() {
    assert_eq!(clean_text("aa\tbb\ncc"), strings(&["aa", "bb", "cc"]));
}

#[test]
fn lowercases_multibyte_titles() {
    let r = generate_keyword_for_tab(
        Some(String::from("Caf\u{e9} Menu")),
        Some(String::from("https://ab.cd/")),
    );
    let out = r.unwrap();
    assert_eq!(out, strings(&["ab", "caf\u{e9}", "menu"]));
}

#[test]
fn stop_and_ignore_membership() {
    assert!(is_stop_word_exec("the"));
    assert!(is_stop_word_exec("yourselves"));
    assert!(!is_stop_word_exec("fox"));
    assert!(!is_stop_word_exec("The"));
    assert!(is_ignore_word_exec("www"));
    assert!(!is_ignore_word_exec("web"));
}
