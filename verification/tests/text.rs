use utilfns::{char_count, count_vowels, is_palindrome, reverse, to_lowercase, to_uppercase};

#[test]
fn test_reverse() {
    assert_eq!(reverse("hello"), "olleh");
    assert_eq!(reverse("Rust"), "tsuR");
    assert_eq!(reverse(""), "");
}

#[test]
fn test_count_vowels() {
    assert_eq!(count_vowels("hello"), 2);
    assert_eq!(count_vowels("AEIOU"), 5);
    assert_eq!(count_vowels("xyz"), 0);
    assert_eq!(count_vowels("Programming"), 3);
}

#[test]
fn test_to_uppercase() {
    assert_eq!(to_uppercase("hello"), "HELLO");
    assert_eq!(to_uppercase("Rust"), "RUST");
}

#[test]
fn test_to_lowercase() {
    assert_eq!(to_lowercase("HELLO"), "hello");
    assert_eq!(to_lowercase("Rust"), "rust");
}

#[test]
fn test_char_count() {
    assert_eq!(char_count("hello"), 5);
    assert_eq!(char_count("こんにちは"), 5);
    assert_eq!(char_count(""), 0);
}

#[test]
fn test_is_palindrome() {
    assert!(is_palindrome("racecar"));
    assert!(is_palindrome("A man a plan a canal Panama"));
    assert!(!is_palindrome("hello"));
    assert!(is_palindrome(""));
}

#[test]
fn lib_test_reverse() {
    assert_eq!(reverse("hello"), "olleh");
    assert_eq!(reverse("Rust"), "tsuR");
    assert_eq!(reverse(""), "");
}

#[test]
fn lib_test_count_vowels() {
    assert_eq!(count_vowels("hello"), 2);
    assert_eq!(count_vowels("AEIOU"), 5);
    assert_eq!(count_vowels("xyz"), 0);
    assert_eq!(count_vowels("Programming"), 3);
}

#[test]
fn lib_test_to_uppercase() {
    assert_eq!(to_uppercase("hello"), "HELLO");
    assert_eq!(to_uppercase("Rust"), "RUST");
}

#[test]
fn lib_test_to_lowercase() {
    assert_eq!(to_lowercase("HELLO"), "hello");
    assert_eq!(to_lowercase("Rust"), "rust");
}

#[test]
fn lib_test_char_count() {
    assert_eq!(char_count("hello"), 5);
    assert_eq!(char_count("こんにちは"), 5);
    assert_eq!(char_count(""), 0);
}

#[test]
fn lib_test_is_palindrome() {
    assert!(is_palindrome("racecar"));
    assert!(is_palindrome("A man a plan a canal Panama"));
    assert!(!is_palindrome("hello"));
    assert!(is_palindrome(""));
}

#[test]
fn reverse_is_codepoint_wise() {
    assert_eq!(reverse("こんにちは"), "はちにんこ");
    assert_eq!(reverse("aé中"), "中éa");
}

#[test]
fn reverse_twice_is_identity() {
    for s in ["", "a", "hello", "こんにちは", "a man, a plan"] {
        assert_eq!(reverse(&reverse(s)), s);
    }
}

#[test]
fn case_mapping_is_full_unicode() {
    assert_eq!(to_uppercase("straße"), "STRASSE");
    assert_eq!(to_uppercase("ñandú"), "ÑANDÚ");
    assert_eq!(to_lowercase("ΑΒΓ"), "αβγ");
}

#[test]
fn palindrome_edge_cases() {
    assert!(is_palindrome("x"));
    assert!(is_palindrome("!!"));
    assert!(is_palindrome("No 'x' in Nixon"));
    assert!(!is_palindrome("ab"));
}
