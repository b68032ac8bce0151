use orbis::labels::{is_dns_label_range, is_lite_person_label, is_person_label};

#[test]
fn person_label_accepts_lowercase_letters_only() {
    assert!(is_person_label(b"a"));
    assert!(is_person_label(b"alice"));
    assert!(is_person_label(b"bob"));
}

#[test]
fn person_label_rejects_empty() {
    assert!(!is_person_label(b""));
}

#[test]
fn person_label_rejects_digits_or_hyphens() {
    assert!(!is_person_label(b"alice42"));
    assert!(!is_person_label(b"alice-bob"));
    assert!(!is_person_label(b"123"));
    assert!(!is_person_label(b"-"));
}

#[test]
fn person_label_rejects_uppercase_or_punctuation() {
    assert!(!is_person_label(b"Alice"));
    assert!(!is_person_label(b"alice.bob"));
    assert!(!is_person_label(b"ali_ce"));
    assert!(!is_person_label(b"ali ce"));
}

#[test]
fn lite_person_label_accepts_valid() {
    assert!(is_lite_person_label(b"a.42"));
    assert!(is_lite_person_label(b"alice.42"));
    assert!(is_lite_person_label(b"alice.123456"));
    assert!(is_lite_person_label(b"a-b.99"));
    assert!(is_lite_person_label(b"123.99"));
}

#[test]
fn lite_person_label_rejects_missing_or_short_suffix() {
    assert!(!is_lite_person_label(b"alice"));
    assert!(!is_lite_person_label(b"alice."));
    assert!(!is_lite_person_label(b"alice.1"));
}

#[test]
fn lite_person_label_rejects_bad_suffix_characters() {
    assert!(!is_lite_person_label(b"alice.4a"));
    assert!(!is_lite_person_label(b"alice.-42"));
}

#[test]
fn lite_person_label_rejects_multi_dot_or_empty_stem() {
    assert!(!is_lite_person_label(b"alice..42"));
    assert!(!is_lite_person_label(b"a.b.42"));
    assert!(!is_lite_person_label(b".42"));
}

#[test]
fn lite_person_label_rejects_hyphen_adjacent_to_dot() {
    assert!(!is_lite_person_label(b"-alice.42"));
    assert!(!is_lite_person_label(b"alice-.42"));
}

#[test]
fn lite_person_label_rejects_too_short() {
    assert!(!is_lite_person_label(b""));
    assert!(!is_lite_person_label(b"a"));
    assert!(!is_lite_person_label(b"a."));
    assert!(!is_lite_person_label(b".1"));
}

#[test]
fn dns_label_range_checks_only_the_range() {
    let bytes = b"x-abc-9.";
    assert!(is_dns_label_range(bytes, 2, 7));
    assert!(!is_dns_label_range(bytes, 1, 7));
    assert!(!is_dns_label_range(bytes, 2, 8));
    assert!(!is_dns_label_range(bytes, 3, 3));
}

#[test]
fn lite_person_label_needs_two_digits() {
    assert!(is_lite_person_label(b"z.00"));
    assert!(!is_lite_person_label(b"z.0"));
    assert!(!is_lite_person_label(b"Z.00"));
}

#[test]
fn an_empty_or_reversed_range_is_no_label_whatever_the_bytes() {
    assert!(!is_dns_label_range(b"abc", 2, 2));
    assert!(!is_dns_label_range(b"abc", 10, 5));
    assert!(!is_dns_label_range(b"", 0, 0));
}
