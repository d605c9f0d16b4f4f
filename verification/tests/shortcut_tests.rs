use taskwarrior_views::shortcut::{consider_candidate, lowercase_code, make_shortcut, Attempt, ShortcutSet};

fn is_shortcut(s: &str) -> bool {
    (2..=3).contains(&s.chars().count())
        && s.chars().all(|c| c.is_ascii_digit() || c.is_ascii_lowercase())
}

#[test]
fn make_shortcut_hands_out_fresh_lowercase_codes() {
    let mut set = ShortcutSet::new();
    let mut seen = std::collections::HashSet::new();
    for i in 0..300 {
        let s = make_shortcut(&mut set).0.expect("a free shortcut");
        assert!(is_shortcut(&s), "bad shortcut {:?}", s);
        assert!(seen.insert(s.clone()), "shortcut {:?} handed out twice", s);
        assert!(set.contains(&s));
        assert_eq!(set.len(), i + 1);
    }
}

#[test]
fn consider_candidate_takes_a_free_code() {
    let mut set = ShortcutSet::new();
    assert!(matches!(consider_candidate(&mut set, "ab".to_string(), 2, 0), Attempt::Taken));
    assert!(set.contains("ab"));
    assert_eq!(set.len(), 1);
}

#[test]
fn consider_candidate_retries_then_lengthens_then_gives_up() {
    let mut set = ShortcutSet::new();
    assert!(matches!(consider_candidate(&mut set, "ab".to_string(), 2, 0), Attempt::Taken));
    match consider_candidate(&mut set, "ab".to_string(), 2, 5) {
        Attempt::Retry { len, tries } => assert_eq!((len, tries), (2, 6)),
        _ => panic!("expected a retry"),
    }
    match consider_candidate(&mut set, "ab".to_string(), 2, 1000) {
        Attempt::Retry { len, tries } => assert_eq!((len, tries), (3, 0)),
        _ => panic!("expected a longer retry"),
    }
    assert!(matches!(consider_candidate(&mut set, "ab".to_string(), 3, 1000), Attempt::Exhausted));
    assert_eq!(set.len(), 1);
}

#[test]
fn first_shortcut_of_an_empty_set_has_two_characters() {
    for _ in 0..50 {
        let mut set = ShortcutSet::new();
        let s = make_shortcut(&mut set).0.expect("a free shortcut");
        assert_eq!(s.chars().count(), 2);
        assert_eq!(set.len(), 1);
        assert!(set.contains(&s));
    }
}

#[test]
fn lowercase_code_lowers_ascii_letters_only() {
    assert_eq!(lowercase_code("AbZ09az"), "abz09az");
    assert_eq!(lowercase_code(""), "");
    assert_eq!(lowercase_code("QW3"), "qw3");
}
