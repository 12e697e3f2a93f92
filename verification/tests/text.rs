use phrase_router::text::{join_words, normalize};

#[test]
fn normalize_drops_punctuation_and_case() {
    assert_eq!(normalize("Hello, World!"), "hello world");
}

#[test]
fn normalize_collapses_runs_of_separators() {
    assert_eq!(normalize("  a -- b\t\tc\n"), "a b c");
    assert_eq!(normalize("(one):two;three?'four'\"five\""), "one two three four five");
}

#[test]
fn normalize_of_nothing_is_nothing() {
    assert_eq!(normalize(""), "");
    assert_eq!(normalize(" ,.!?"), "");
}

#[test]
fn normalize_keeps_what_is_no_separator() {
    assert_eq!(normalize("/help"), "/help");
    assert_eq!(normalize("a|b_c@d"), "a|b_c@d");
}

#[test]
fn normalize_composes() {
    assert_eq!(normalize("e\u{301}"), "\u{e9}");
    assert_eq!(normalize("A\u{30a}"), "\u{e5}");
}

#[test]
fn normalize_lowercases_beyond_ascii() {
    assert_eq!(normalize("\u{c0}\u{c9} \u{3a9}"), "\u{e0}\u{e9} \u{3c9}");
}

#[test]
fn normalize_is_case_insensitive() {
    assert_eq!(normalize("GOOD Morning"), normalize("good morning"));
    assert_eq!(normalize("Stra\u{df}e"), normalize("STRA\u{df}E"));
}

#[test]
fn normalize_is_composition_insensitive() {
    assert_eq!(normalize("caf\u{e9}"), normalize("cafe\u{301}"));
    assert_eq!(normalize("\u{1e69}"), normalize("s\u{323}\u{307}"));
    assert_eq!(normalize("\u{1e69}"), normalize("s\u{307}\u{323}"));
}

#[test]
fn normalize_twice_is_normalize_once() {
    for text in ["Hello, World!", "  a -- b ", "Cafe\u{301} AU LAIT", "", "x", "\u{130}stanbul"] {
        let once = normalize(text);
        assert_eq!(normalize(&once), once);
    }
}

#[test]
fn normalize_twice_differs_where_composing_makes_a_separator() {
    let once = normalize("a\u{37e}b");
    assert_eq!(once, "a;b");
    assert_eq!(normalize(&once), "a b");
}

#[test]
fn join_words_puts_single_spaces() {
    let words = vec!["a".to_string(), "b".to_string(), "c".to_string()];
    assert_eq!(join_words(&words), "a b c");
    assert_eq!(join_words(&vec!["one".to_string()]), "one");
    assert_eq!(join_words(&Vec::new()), "");
}

#[test]
fn normalize_tells_equivalent_texts_apart_where_composing_makes_a_separator() {
    assert_eq!(normalize("x\u{37e}y"), "x;y");
    assert_eq!(normalize("x;y"), "x y");
}
