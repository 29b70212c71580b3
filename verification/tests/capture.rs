use string_ops::capture::{capture_group, find_capture_group, pick_group};
use string_ops::{CaptureError, MyTraitForStringSlice};

#[test]
fn second_group_of_a_date() {
    let r = "2024-01-02".get_regex_matched_group_n(r"(\d+)-(\d+)-(\d+)", 2);
    assert_eq!(r.unwrap(), "01");
}

#[test]
fn every_group_of_a_date() {
    let pattern = r"(\d+)-(\d+)-(\d+)";
    assert_eq!(capture_group("on 2024-01-02.", pattern, 0).unwrap(), "2024-01-02");
    assert_eq!(capture_group("on 2024-01-02.", pattern, 1).unwrap(), "2024");
    assert_eq!(capture_group("on 2024-01-02.", pattern, 2).unwrap(), "01");
    assert_eq!(capture_group("on 2024-01-02.", pattern, 3).unwrap(), "02");
}

#[test]
fn leftmost_match_is_taken() {
    assert_eq!(capture_group("a1 b22 c333", r"[a-z](\d+)", 1).unwrap(), "1");
    assert_eq!(capture_group("xx yyy", r"y+|x+", 0).unwrap(), "xx");
}

#[test]
fn no_match_is_an_error() {
    let r = "abc".get_regex_matched_group_n(r"(\d+)", 0);
    assert!(matches!(r, Err(CaptureError::NoMatch)));
    assert!(matches!(find_capture_group("abc", r"(\d+)", 0), Err(CaptureError::NoMatch)));
    assert!(matches!(find_capture_group("abc", r"(\d+)", 7), Err(CaptureError::NoMatch)));
}

#[test]
fn bad_pattern_is_an_error_that_carries_the_pattern() {
    let r = "abc".get_regex_matched_group_n(r"(", 0);
    match r {
        Err(CaptureError::Compile { pattern }) => assert_eq!(pattern, "("),
        other => panic!("{:?}", other),
    }
    match find_capture_group("abc", r"a{2,1}", 0) {
        Err(CaptureError::Compile { pattern }) => assert_eq!(pattern, "a{2,1}"),
        other => panic!("{:?}", other),
    }
}

#[test]
fn group_that_is_missing_or_took_no_part_is_none() {
    assert_eq!(find_capture_group("AZ", r"(\w)(\d)?(\w)", 2).unwrap(), None);
    assert_eq!(find_capture_group("AZ", r"(\w)(\d)?(\w)", 4).unwrap(), None);
    assert_eq!(find_capture_group("AZ", r"(\w)(\d)?(\w)", 3).unwrap(), Some("Z".to_string()));
    assert_eq!(find_capture_group("AZ", r"(\w)(\d)?(\w)", 0).unwrap(), Some("AZ".to_string()));
}

#[test]
fn group_may_be_empty() {
    assert_eq!(capture_group("ab", r"a(x*)b", 1).unwrap(), "");
    assert_eq!(find_capture_group("", r"", 0).unwrap(), Some(String::new()));
}

#[test]
fn picking_from_groups_that_were_found() {
    let found = Some(vec![Some("ab".to_string()), None, Some("b".to_string())]);
    assert_eq!(pick_group(&found, 0).unwrap(), "ab");
    assert_eq!(pick_group(&found, 2).unwrap(), "b");
    assert!(matches!(pick_group(&None, 0), Err(CaptureError::NoMatch)));
    assert!(matches!(pick_group(&None, 5), Err(CaptureError::NoMatch)));
}

#[test]
fn errors_in_words() {
    let compile = CaptureError::Compile { pattern: "(".to_string() };
    assert_eq!(compile.message(), "Failed to create regex object for (");
    assert_eq!(CaptureError::NoMatch.message(), "Can't get capture groups");
}
