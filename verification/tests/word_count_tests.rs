use hn_client::word_count::count_word;

#[test]
fn counts_and_sorts_by_frequency() {
    let r = count_word("b a b");

    assert_eq!(r.len(), 2);
    assert_eq!(r[0], ("b".to_string(), 2));
    assert_eq!(r[1], ("a".to_string(), 1));
}

#[test]
fn empty_text_has_no_words() {
    assert!(count_word("").is_empty());
    assert!(count_word(" \t\r\n").is_empty());
}

#[test]
fn a_single_word_counts_once() {
    assert_eq!(count_word("alone"), vec![("alone".to_string(), 1)]);
}

#[test]
fn mixed_whitespace_separates_words() {
    let r = count_word("a\tb\na  a\u{a0}a");

    assert_eq!(r[0], ("a".to_string(), 4));
    assert_eq!(r[1], ("b".to_string(), 1));
    assert_eq!(r.len(), 2);
}

#[test]
fn counts_are_descending() {
    let r = count_word("x y y z z z");

    assert_eq!(r[0], ("z".to_string(), 3));
    assert_eq!(r[1], ("y".to_string(), 2));
    assert_eq!(r[2], ("x".to_string(), 1));
}
