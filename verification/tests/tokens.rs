use tokenizer::tokenizer::has_alphanumeric;
use tokenizer::Tokenizer;

fn scan(text: &str) -> Vec<String> {
    Tokenizer::new(String::from(text)).tokenize()
}

fn join(tokens: &[&str]) -> String {
    let owned: Vec<String> = tokens.iter().map(|t| String::from(*t)).collect();
    Tokenizer::new(String::new()).detokenize(&owned)
}

#[test]
fn keeps_apostrophe_word_whole() {
    assert_eq!(scan("don't"), vec!["don't"]);
}

#[test]
fn keeps_hyphenated_word_whole() {
    assert_eq!(scan("mother-in-law"), vec!["mother-in-law"]);
}

#[test]
fn keeps_edge_apostrophe_and_hyphen() {
    assert_eq!(scan("'tis"), vec!["'tis"]);
    assert_eq!(scan("well-"), vec!["well-"]);
}

#[test]
fn splits_punctuation_from_words() {
    assert_eq!(scan("Hello, world!"), vec!["Hello", ",", "world", "!"]);
}

#[test]
fn repeated_punctuation_splits_each() {
    assert_eq!(scan("Absolutely!!!"), vec!["Absolutely", "!", "!", "!"]);
}

#[test]
fn chunk_of_only_punctuation() {
    assert_eq!(scan("..."), vec![".", ".", "."]);
}

#[test]
fn whitespace_kinds_all_separate() {
    assert_eq!(scan("a\tb\nc d"), vec!["a", "b", "c", "d"]);
}

#[test]
fn non_ascii_words_stay_whole() {
    assert_eq!(scan("café über!"), vec!["café", "über", "!"]);
}

#[test]
fn non_ascii_whitespace_separates() {
    assert_eq!(scan("a\u{00A0}b"), vec!["a", "b"]);
}

#[test]
fn empty_text_gives_no_tokens() {
    assert_eq!(scan(""), Vec::<String>::new());
}

#[test]
fn detokenize_empty_gives_empty() {
    assert_eq!(join(&[]), "");
}

#[test]
fn detokenize_bracket_suppression() {
    assert_eq!(join(&["(", "Not", "really", ")"]), "(Not really)");
}

#[test]
fn detokenize_attaches_punctuation_left() {
    assert_eq!(join(&["Hello", ",", "world", "!"]), "Hello, world!");
}

#[test]
fn detokenize_quote_attaches_both_ways() {
    assert_eq!(join(&["He", "said", "\"", "hi", "\""]), "He said\"hi\"");
}

#[test]
fn detokenize_empty_token_gets_spaces() {
    assert_eq!(join(&["", "a"]), " a");
}

#[test]
fn round_trip_single_spaced_text() {
    let text = "Hello, world! How are you?";
    let t = Tokenizer::new(String::from(text));
    assert_eq!(t.detokenize(&t.tokenize()), text);
}

#[test]
fn whitespace_collapse_same_tokens() {
    assert_eq!(scan("This  has   multiple    spaces."), scan("This has multiple spaces."));
    let t = Tokenizer::new(String::from("This  has   multiple    spaces."));
    assert_eq!(t.detokenize(&t.tokenize()), "This has multiple spaces.");
}

#[test]
fn retokenizing_joined_tokens_reproduces_them() {
    let t = Tokenizer::new(String::from("This Rust project is awesome, isn't it? (Not really)"));
    let tokens = t.tokenize();
    let rebuilt = t.detokenize(&tokens);
    assert_eq!(Tokenizer::new(rebuilt).tokenize(), tokens);
}

#[test]
fn analyze_empty_is_all_zero() {
    let t = Tokenizer::new(String::new());
    let (total, words, punct, chars) = t.analyze_tokens(&[]);
    assert_eq!((total, words, punct, chars), (0, 0, 0, 0));
    let avg = if total > 0 { chars as f64 / total as f64 } else { 0.0 };
    assert_eq!(avg, 0.0);
}

#[test]
fn analyze_counts_words_and_punctuation() {
    let t = Tokenizer::new(String::from("Hello, world!"));
    let tokens = t.tokenize();
    let (total, words, punct, chars) = t.analyze_tokens(&tokens);
    assert_eq!((total, words, punct, chars), (4, 2, 2, 12));
    assert_eq!(words + punct, total);
    assert_eq!(chars as f64 / total as f64, 3.0);
}

#[test]
fn analyze_counts_characters_not_bytes() {
    let t = Tokenizer::new(String::from("café"));
    let tokens = t.tokenize();
    let (total, words, punct, chars) = t.analyze_tokens(&tokens);
    assert_eq!((total, words, punct, chars), (1, 1, 0, 4));
}

#[test]
fn analyze_punctuation_only() {
    let t = Tokenizer::new(String::new());
    let tokens = vec![String::from("!"), String::from("?")];
    let (total, words, punct, chars) = t.analyze_tokens(&tokens);
    assert_eq!((total, words, punct, chars), (2, 0, 2, 2));
}

#[test]
fn word_classification_predicate() {
    assert!(has_alphanumeric("don't"));
    assert!(has_alphanumeric("x1"));
    assert!(!has_alphanumeric("!?"));
    assert!(!has_alphanumeric(""));
    assert!(!has_alphanumeric("--"));
}

#[test]
fn original_text_is_kept() {
    let t = Tokenizer::new(String::from("Mr. Smith said, \"Don't worry!\""));
    assert_eq!(t.original_text(), "Mr. Smith said, \"Don't worry!\"");
}
