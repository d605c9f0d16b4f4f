use taskwarrior_views::text::{
    concatenate, contains_text, decimal_string, join_strings, same_text, split_by, starts_with,
};

fn strings(v: &[&str]) -> Vec<String> {
    v.iter().map(|s| s.to_string()).collect()
}

#[test]
fn split_by_matches_str_split() {
    for s in ["a.b.c", "", ".", "a..b", "home", ".x.", "ünï.cödé"] {
        let expected: Vec<String> = s.split('.').map(|p| p.to_string()).collect();
        assert_eq!(split_by(s, '.'), expected, "splitting {:?}", s);
    }
}

#[test]
fn join_strings_matches_slice_join() {
    assert_eq!(join_strings(&strings(&["a", "b", "c"]), "."), "a.b.c");
    assert_eq!(join_strings(&strings(&[]), " "), "");
    assert_eq!(join_strings(&strings(&["solo"]), " "), "solo");
    assert_eq!(join_strings(&strings(&["work", "home"]), " "), "work home");
}

#[test]
fn decimal_string_renders_numbers() {
    assert_eq!(decimal_string(0), "0");
    assert_eq!(decimal_string(7), "7");
    assert_eq!(decimal_string(10), "10");
    assert_eq!(decimal_string(1234567890), "1234567890");
    assert_eq!(decimal_string(u64::MAX), u64::MAX.to_string());
}

#[test]
fn prefix_and_equality() {
    assert!(starts_with("project:home", "project:"));
    assert!(!starts_with("proj", "project:"));
    assert!(starts_with("anything", ""));
    assert!(same_text("abc", "abc"));
    assert!(!same_text("abc", "abd"));
    assert!(!same_text("abc", "ab"));
    assert_eq!(concatenate("+", "tag"), "+tag");
    assert!(contains_text(&strings(&["x", "y"]), "y"));
    assert!(!contains_text(&strings(&["x", "y"]), "z"));
}

#[test]
fn join_of_split_gives_back_the_text() {
    for s in ["a.b.c", "", ".", "a..b", "home", ".x."] {
        assert_eq!(join_strings(&split_by(s, '.'), "."), s);
    }
}
