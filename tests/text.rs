use fas_rs::text::{is_sep, range_contains, split_ranges, Sep};

fn chars(s: &str) -> Vec<char> {
    s.chars().collect()
}

#[test]
fn split_keeps_empty_pieces() {
    let cs = chars("a\n\nbc\n");
    assert_eq!(
        split_ranges(&cs, 0, cs.len(), Sep::Newline),
        vec![(0, 1), (2, 2), (3, 5), (6, 6)]
    );
}

#[test]
fn split_of_empty_range_is_one_empty_piece() {
    let cs = chars("abc");
    assert_eq!(split_ranges(&cs, 1, 1, Sep::Equals), vec![(1, 1)]);
}

#[test]
fn whitespace_separators() {
    assert!(is_sep(Sep::Whitespace, ' '));
    assert!(is_sep(Sep::Whitespace, '\u{2009}'));
    assert!(!is_sep(Sep::Whitespace, 'x'));
    assert!(!is_sep(Sep::Whitespace, '\u{200b}'));
    assert!(is_sep(Sep::Equals, '='));
    assert!(!is_sep(Sep::Newline, '\r'));
}

#[test]
fn contains_within_range_only() {
    let cs = chars("xxpackage=yy");
    let m = chars("package=");
    assert!(range_contains(&cs, 0, cs.len(), &m));
    assert!(range_contains(&cs, 2, 10, &m));
    assert!(!range_contains(&cs, 3, cs.len(), &m));
    assert!(range_contains(&cs, 4, 4, &Vec::new()));
}
