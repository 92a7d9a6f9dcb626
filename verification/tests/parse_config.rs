use myls::config::{find_color, parse_file_colors, SuffixColors};

#[test]
fn parses_single_pair() {
    let sc = parse_file_colors(".txt=38;5;1m").unwrap();
    assert_eq!(sc.pairs.len(), 1);
    assert_eq!(sc.pairs[0].0, ".txt");
    assert_eq!(sc.pairs[0].1, "38;5;1m");
}

#[test]
fn parses_several_pairs() {
    let sc = parse_file_colors(".py=38;5;220m,.html=38;5;208m").unwrap();
    assert_eq!(sc.pairs.len(), 2);
    assert_eq!(sc.pairs[0].0, ".py");
    assert_eq!(sc.pairs[0].1, "38;5;220m");
    assert_eq!(sc.pairs[1].0, ".html");
    assert_eq!(sc.pairs[1].1, "38;5;208m");
}

#[test]
fn later_binding_of_same_suffix_wins() {
    let sc = parse_file_colors(".py=1m,.py=2m").unwrap();
    assert_eq!(sc.pairs.len(), 1);
    assert_eq!(sc.pairs[0].0, ".py");
    assert_eq!(sc.pairs[0].1, "2m");
}

#[test]
fn segment_without_equals_is_rejected() {
    let e = parse_file_colors(".py=1m,broken").unwrap_err();
    assert_eq!(e, "Invalid format: broken");
}

#[test]
fn segment_with_two_equals_is_rejected() {
    let e = parse_file_colors("a=b=c").unwrap_err();
    assert_eq!(e, "Invalid format: a=b=c");
}

#[test]
fn empty_text_is_rejected() {
    let e = parse_file_colors("").unwrap_err();
    assert_eq!(e, "Invalid format: ");
}

#[test]
fn trailing_comma_is_rejected() {
    let e = parse_file_colors("a=b,").unwrap_err();
    assert_eq!(e, "Invalid format: ");
}

#[test]
fn empty_sides_are_accepted() {
    // An '=' alone splits into an empty suffix and an empty color, which
    // counts as exactly one '=' and so is accepted.
    let sc = parse_file_colors("=x").unwrap();
    assert_eq!(sc.pairs.len(), 1);
    assert_eq!(sc.pairs[0].0, "");
    assert_eq!(sc.pairs[0].1, "x");
}

#[test]
fn first_matching_suffix_wins() {
    let sc = parse_file_colors(".txt=1m,txt=2m").unwrap();
    let c = find_color(&sc, "a.txt").unwrap();
    assert_eq!(c, "1m");
    assert!(find_color(&sc, "a.py").is_none());
}

#[test]
fn empty_mapping_matches_nothing() {
    let sc = SuffixColors::new();
    assert!(find_color(&sc, "a.txt").is_none());
}
