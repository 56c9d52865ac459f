use neural::language::{clean, tokenize, word_to_num, words};

#[test]
fn clean_strips_punctuation_and_lowercases() {
    assert_eq!(clean(String::from("Hello, World!")), "hello world");
}

#[test]
fn clean_turns_dashes_into_spaces() {
    assert_eq!(clean(String::from("co-op.")), "co op");
}

#[test]
fn clean_strips_each_punctuation_mark() {
    assert_eq!(clean(String::from("a.b,c:d;e?f!g\"h")), "abcdefgh");
}

#[test]
fn clean_keeps_clean_text() {
    assert_eq!(clean(String::from("already clean")), "already clean");
}

#[test]
fn words_split_on_any_whitespace() {
    assert_eq!(words("  a\tbb\nccc "), vec!["a", "bb", "ccc"]);
}

#[test]
fn words_of_empty_text() {
    assert_eq!(words(""), Vec::<String>::new());
    assert_eq!(words("   "), Vec::<String>::new());
}

#[test]
fn tokenize_numbers_words_by_first_appearance() {
    let (nums, num_to_word) = tokenize(String::from("the cat sat on the mat"));
    assert_eq!(nums, vec![0, 1, 2, 3, 0, 4]);
    assert_eq!(num_to_word, vec!["the", "cat", "sat", "on", "mat"]);
}

#[test]
fn tokenize_repeated_word_gets_one_number() {
    let (nums, num_to_word) = tokenize(String::from("go go go"));
    assert_eq!(nums, vec![0, 0, 0]);
    assert_eq!(num_to_word, vec!["go"]);
}

#[test]
fn tokenize_empty_text() {
    let (nums, num_to_word) = tokenize(String::new());
    assert!(nums.is_empty());
    assert!(num_to_word.is_empty());
}

#[test]
fn word_to_num_finds_first_occurrence() {
    let list = vec![String::from("a"), String::from("b"), String::from("a")];
    assert_eq!(word_to_num(&list, "a"), Some(0));
    assert_eq!(word_to_num(&list, "b"), Some(1));
    assert_eq!(word_to_num(&list, "c"), None);
}

#[test]
fn tokenize_codes_decode_to_their_words() {
    let text = "one fish two fish red fish blue fish";
    let (nums, num_to_word) = tokenize(String::from(text));
    let expected: Vec<&str> = text.split_whitespace().collect();
    assert_eq!(nums.len(), expected.len());
    for (k, w) in expected.iter().enumerate() {
        assert_eq!(&num_to_word[nums[k]], w);
    }
}

#[test]
fn tokenize_of_punctuation_only_cleaned_text() {
    let (nums, num_to_word) = tokenize(clean(String::from("?!;  ..")));
    assert!(nums.is_empty());
    assert!(num_to_word.is_empty());
}

#[test]
fn tokenize_after_clean_round() {
    let cleaned = clean(String::from("The cat, the hat."));
    let (nums, num_to_word) = tokenize(cleaned);
    assert_eq!(num_to_word, vec!["the", "cat", "hat"]);
    assert_eq!(nums, vec![0, 1, 0, 2]);
}
