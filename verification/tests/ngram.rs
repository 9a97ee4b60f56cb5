use bumpalo::Bump;
use coding_agent::ngram::{NgramBuilder, NgramIntern};

#[test]
fn test_basic_ngrams() {
    let arena = Bump::new();
    let mut builder = NgramBuilder::new(&arena);
    let ngrams = builder.add_text("the cat sat on the mat", 2);

    assert_eq!(
        ngrams,
        vec!["cat sat", "on the", "sat on", "the cat", "the mat"]
    );
    assert_eq!(builder.len(), 5);
}

#[test]
fn test_single_ngram() {
    let arena = Bump::new();
    let mut builder = NgramBuilder::new(&arena);
    let ngrams = builder.add_text("hello world", 1);
    assert_eq!(ngrams, vec!["hello", "world"]);
}

#[test]
fn test_intern_dedup() {
    let arena = Bump::new();
    let mut builder = NgramBuilder::new(&arena);
    let a = builder.intern("hello");
    let b = builder.intern("world");
    let c = builder.intern("hello");

    assert_eq!(a, c);
    assert_eq!(b, "world");
    assert_eq!(a.as_ptr(), c.as_ptr());
    assert_eq!(builder.len(), 2);
}

#[test]
fn test_large_vocab() {
    let arena = Bump::new();
    let mut builder = NgramBuilder::new(&arena);

    for _ in 0..1000 {
        builder.add_text("the quick brown fox jumps over the lazy dog", 2);
    }

    assert_eq!(builder.len(), 8);
}

#[test]
fn shared_ngrams_are_kept_once() {
    let arena = Bump::new();
    let mut builder = NgramBuilder::new(&arena);
    builder.add_text("the cat sat", 2);
    builder.add_text("the cat ran", 2);

    let all = builder.all();
    assert!(all.contains(&"the cat"));
    assert_eq!(all, vec!["cat ran", "cat sat", "the cat"]);
    assert_eq!(builder.len(), 3);
}

#[test]
fn a_new_builder_is_empty() {
    let arena = Bump::new();
    let mut builder = NgramBuilder::new(&arena);
    assert!(builder.is_empty());
    assert_eq!(builder.len(), 0);
    builder.intern("");
    assert!(!builder.is_empty());
    assert_eq!(builder.all(), vec![""]);
}

#[test]
fn texts_with_too_few_words_have_no_ngrams() {
    let arena = Bump::new();
    let mut builder = NgramBuilder::new(&arena);
    assert_eq!(builder.add_text("one two", 3), Vec::<&str>::new());
    assert_eq!(builder.add_text("  \t\n", 1), Vec::<&str>::new());
    assert!(builder.is_empty());
}

#[test]
fn words_stand_between_any_white_space() {
    let arena = Bump::new();
    let mut builder = NgramBuilder::new(&arena);
    assert_eq!(
        builder.add_text(" a\tb\u{a0}c\u{3000}d ", 2),
        vec!["a b", "b c", "c d"]
    );
}

#[test]
fn order_is_that_of_strings() {
    let arena = Bump::new();
    let mut builder = NgramBuilder::new(&arena);
    let words = ["b", "", "ab", "a", "é", "z", "Z", "\u{10000}", "\u{ffff}", "aa"];
    for word in words {
        builder.intern(word);
    }
    let mut sorted = words.to_vec();
    sorted.sort_unstable();
    assert_eq!(builder.all(), sorted);
}

#[test]
fn interned_ngrams_are_given_once_and_sorted() {
    let arena = Bump::new();
    let mut intern = NgramIntern::new(&arena);
    let first = intern.intern("b a");
    assert_eq!(first, "b a");
    assert_eq!(intern.build_ngrams("b a b a", 2), vec!["a b", "b a"]);
    let again = intern.intern("b a");
    assert_eq!(first.as_ptr(), again.as_ptr());
    assert_eq!(intern.build_ngrams("b a b a", 2), vec!["a b", "b a"]);
}

#[test]
fn interned_strings_live_in_the_arena() {
    let arena = Bump::new();
    let mut builder = NgramBuilder::new(&arena);
    let input = String::from("hello");
    let kept = builder.intern(&input);
    assert_ne!(kept.as_ptr(), input.as_ptr());
    drop(input);
    assert_eq!(kept, "hello");
}

#[test]
fn texts_can_come_in_any_order() {
    let arena = Bump::new();
    let mut one = NgramBuilder::new(&arena);
    one.add_text("a b c", 2);
    one.add_text("b c d", 2);
    let mut other = NgramBuilder::new(&arena);
    other.add_text("b c d", 2);
    other.add_text("a b c", 2);
    other.add_text("a b c", 2);
    assert_eq!(one.all(), other.all());
    assert_eq!(one.all(), vec!["a b", "b c", "c d"]);
}
