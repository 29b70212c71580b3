use string_ops::compare::{has_suffix, same_text};
use string_ops::MyTraitForStringSlice;

#[test]
fn equals_one_of_two() {
    assert!("b".equals_to_one_of_2("a", "b"));
    assert!("a".equals_to_one_of_2("a", "b"));
    assert!(!"c".equals_to_one_of_2("a", "b"));
}

#[test]
fn equals_one_of_three() {
    assert!("a".equals_to_one_of_3("a", "b", "c"));
    assert!("b".equals_to_one_of_3("a", "b", "c"));
    assert!("c".equals_to_one_of_3("a", "b", "c"));
    assert!(!"d".equals_to_one_of_3("a", "b", "c"));
}

#[test]
fn equality_is_exact() {
    assert!(!"A".equals_to_one_of_2("a", "a "));
    assert!(!"é".equals_to_one_of_2("e\u{301}", "e"));
    assert!(!"".equals_to_one_of_2("a", "b"));
    assert!("".equals_to_one_of_2("a", ""));
    assert!(!"ab".equals_to_one_of_3("a", "b", "abc"));
    assert!(same_text("名前", "名前"));
    assert!(!same_text("名前", "名"));
}

#[test]
fn ends_with_one_of_the_suffixes() {
    assert!("report.txt".ends_with_vec(vec!["csv", "txt"]));
    assert!("report.txt".ends_with_vec(vec!["txt", "csv"]));
    assert!(!"report.txt".ends_with_vec(vec!["csv", "doc"]));
}

#[test]
fn ends_with_none_of_an_empty_list() {
    assert!(!"report.txt".ends_with_vec(vec![]));
    assert!(!"".ends_with_vec(vec![]));
}

#[test]
fn suffix_edge_cases() {
    assert!("report.txt".ends_with_vec(vec![""]));
    assert!("".ends_with_vec(vec![""]));
    assert!(!"txt".ends_with_vec(vec!["report.txt"]));
    assert!("txt".ends_with_vec(vec!["txt"]));
    assert!(!"report.TXT".ends_with_vec(vec!["txt"]));
    assert!(has_suffix("naïve—名前", "—名前"));
    assert!(!has_suffix("naïve—名前", "名"));
}

#[test]
fn suffix_is_a_matter_of_characters_not_bytes() {
    // The last byte of "é" is 0xA9, which is also the last byte of "©".
    assert!(!has_suffix("é", "©"));
    assert!(!"aé".ends_with_vec(vec!["©", "e"]));
    assert_eq!(has_suffix("aé", "é"), "aé".ends_with("é"));
}

#[test]
fn suffixes_are_tried_in_a_borrowed_list() {
    let ends = vec!["csv", "txt"];
    assert!(string_ops::compare::ends_with_any("report.txt", &ends));
    assert!(!string_ops::compare::ends_with_any("report.doc", &ends));
    assert!(!string_ops::compare::ends_with_any("report.txt", &Vec::new()));
}
