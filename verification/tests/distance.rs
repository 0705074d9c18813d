use tab_text::ld;

#[test]
fn empty_vs_abc() {
    assert_eq!(ld("", "abc"), 3);
}

#[test]
fn kitten_sitting() {
    assert_eq!(ld("kitten", "sitting"), 3);
}

#[test]
fn distance_to_self_is_zero() {
    assert_eq!(ld("", ""), 0);
    assert_eq!(ld("a", "a"), 0);
    assert_eq!(ld("tab management", "tab management"), 0);
}

#[test]
fn symmetry_on_examples() {
    assert_eq!(ld("flaw", "lawn"), ld("lawn", "flaw"));
    assert_eq!(ld("flaw", "lawn"), 2);
    assert_eq!(ld("kitten", "sitting"), ld("sitting", "kitten"));
}

#[test]
fn triangle_on_examples() {
    let ac = ld("ab", "cd");
    let ab = ld("ab", "bc");
    let bc = ld("bc", "cd");
    assert!(ac <= ab + bc);
    let xz = ld("kitten", "mittens");
    let xy = ld("kitten", "sitting");
    let yz = ld("sitting", "mittens");
    assert!(xz <= xy + yz);
}

#[test]
fn trims_outer_whitespace_only() {
    assert_eq!(ld("  kitten \t", "kitten"), 0);
    assert_eq!(ld("   ", ""), 0);
    assert_eq!(ld("a b", "ab"), 1);
}

#[test]
fn counts_codepoints_not_bytes() {
    assert_eq!(ld("h\u{e9}llo", "hello"), 1);
    assert_eq!(ld("\u{65e5}\u{672c}\u{8a9e}", ""), 3);
}

#[test]
fn case_and_diacritics_are_significant() {
    assert_eq!(ld("Abc", "abc"), 1);
    assert_eq!(ld("cafe", "caf\u{e9}"), 1);
}
