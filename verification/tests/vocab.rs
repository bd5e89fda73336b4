use kokoro::error::{KokoroError, LoadFailure};
use kokoro::json::JsonValue;
use kokoro::vocab::Vocab;

const SAMPLE_VOCAB_JSON: &str = r#"{
    "model": {
        "vocab": {
            "$": 0,
            "t": 1,
            "ɛ": 2,
            "s": 3,
            "I": 4,
            "ʤ": 5,
            " ": 6
        }
    }
}"#;

fn sample_vocab() -> Vocab {
    Vocab::from_json(SAMPLE_VOCAB_JSON.as_bytes()).unwrap()
}

#[test]
fn load_parses_model_vocab_and_finds_bos_token() {
    let vocab = sample_vocab();
    assert_eq!(vocab.bos_id(), 0);
    assert_eq!(vocab.eos_id(), 0);
}

#[test]
fn load_errors_when_model_vocab_missing() {
    let result = Vocab::from_json(br#"{"model": {}}"#);
    assert!(matches!(result, Err(KokoroError::FailedToLoadResource(_))));
    assert!(matches!(
        result,
        Err(KokoroError::FailedToLoadResource(LoadFailure::MissingVocabObject))
    ));
}

#[test]
fn load_errors_when_bos_token_absent() {
    let result = Vocab::from_json(br#"{"model": {"vocab": {"t": 1}}}"#);
    assert!(matches!(result, Err(KokoroError::FailedToLoadResource(_))));
    assert!(matches!(
        result,
        Err(KokoroError::FailedToLoadResource(LoadFailure::MissingBosToken))
    ));
}

#[test]
fn tokenize_matches_single_char_symbols() {
    let vocab = sample_vocab();
    assert_eq!(vocab.tokenize("tɛst"), vec![1, 2, 3, 1]);
}

#[test]
fn tokenize_prefers_longest_match_over_single_chars() {
    let vocab = sample_vocab();
    assert_eq!(vocab.tokenize("ʤ"), vec![5]);
}

#[test]
fn tokenize_skips_unknown_characters() {
    let vocab = sample_vocab();
    assert_eq!(vocab.tokenize("tzs"), vec![1, 3]);
}

#[test]
fn load_errors_on_invalid_json() {
    let result = Vocab::from_json(b"{ not valid json");
    assert!(matches!(
        result,
        Err(KokoroError::FailedToLoadResource(LoadFailure::InvalidJson(_)))
    ));
}

#[test]
fn load_errors_when_vocab_is_no_object() {
    let result = Vocab::from_json(br#"{"model": {"vocab": [1, 2]}}"#);
    assert!(matches!(
        result,
        Err(KokoroError::FailedToLoadResource(LoadFailure::MissingVocabObject))
    ));
    let result = Vocab::from_json(br#"{"model": 3}"#);
    assert!(matches!(
        result,
        Err(KokoroError::FailedToLoadResource(LoadFailure::MissingVocabObject))
    ));
    let result = Vocab::from_json(br#"[]"#);
    assert!(matches!(
        result,
        Err(KokoroError::FailedToLoadResource(LoadFailure::MissingVocabObject))
    ));
}

#[test]
fn load_errors_on_non_integer_id() {
    let result = Vocab::from_json(br#"{"model": {"vocab": {"$": 0, "t": 1.5}}}"#);
    match result {
        Err(KokoroError::FailedToLoadResource(LoadFailure::NonIntegerId(token))) => {
            assert_eq!(token, "t")
        }
        _ => panic!("expected a non-integer id error"),
    }
    let result = Vocab::from_json(br#"{"model": {"vocab": {"$": "zero"}}}"#);
    assert!(matches!(
        result,
        Err(KokoroError::FailedToLoadResource(LoadFailure::NonIntegerId(_)))
    ));
    let result = Vocab::from_json(br#"{"model": {"vocab": {"$": 18446744073709551615}}}"#);
    assert!(matches!(
        result,
        Err(KokoroError::FailedToLoadResource(LoadFailure::NonIntegerId(_)))
    ));
}

#[test]
fn load_keeps_negative_and_large_ids() {
    let vocab = Vocab::from_json(br#"{"model": {"vocab": {"$": -7, "a": 9223372036854775807}}}"#)
        .unwrap();
    assert_eq!(vocab.bos_id(), -7);
    assert_eq!(vocab.tokenize("aa"), vec![9223372036854775807, 9223372036854775807]);
}

#[test]
fn tokenize_takes_multi_char_tokens_whole() {
    let vocab = Vocab::from_json(
        r#"{"model": {"vocab": {"$": 0, "a": 1, "ab": 2, "b": 3, "abc": 4, "ᵊn": 5}}}"#.as_bytes(),
    )
    .unwrap();
    assert_eq!(vocab.tokenize("abb"), vec![2, 3]);
    assert_eq!(vocab.tokenize("abcab"), vec![4, 2]);
    assert_eq!(vocab.tokenize("ba"), vec![3, 1]);
    assert_eq!(vocab.tokenize("bˈʌtᵊn"), vec![3, 5]);
}

#[test]
fn tokenize_of_empty_and_unknown_text_is_empty() {
    let vocab = sample_vocab();
    assert!(vocab.tokenize("").is_empty());
    assert!(vocab.tokenize("zzz").is_empty());
}

#[test]
fn tokenize_yields_at_most_one_id_per_char() {
    let vocab = sample_vocab();
    let text = "tɛst ʤIz";
    let ids = vocab.tokenize(text);
    assert!(ids.len() <= text.chars().count());
    assert!(ids.iter().all(|id| (0..=6).contains(id)));
}

#[test]
fn sentence_token_ids_wraps_tokens_in_boundaries() {
    let vocab = sample_vocab();
    assert_eq!(vocab.sentence_token_ids("t\u{025b}st"), vec![0, 1, 2, 3, 1, 0]);
    assert_eq!(vocab.sentence_token_ids(""), vec![0, 0]);
}

#[test]
fn the_boundary_token_itself_tokenizes_to_the_boundary_id() {
    let vocab = sample_vocab();
    assert_eq!(vocab.tokenize("$"), vec![vocab.bos_id()]);
}

fn object(members: Vec<(&str, JsonValue)>) -> JsonValue {
    JsonValue::Object(members.into_iter().map(|(k, v)| (k.to_string(), v)).collect())
}

#[test]
fn from_document_reads_the_vocab_object() {
    let doc = object(vec![(
        "model",
        object(vec![(
            "vocab",
            object(vec![("$", JsonValue::Number(Some(4))), ("ab", JsonValue::Number(Some(9)))]),
        )]),
    )]);
    let vocab = Vocab::from_document(&doc).unwrap();
    assert_eq!(vocab.bos_id(), 4);
    assert_eq!(vocab.tokenize("ab$"), vec![9, 4]);
    // a repeated name keeps its last id
    let doc = object(vec![(
        "model",
        object(vec![(
            "vocab",
            object(vec![
                ("$", JsonValue::Number(Some(1))),
                ("$", JsonValue::Number(Some(2))),
            ]),
        )]),
    )]);
    assert_eq!(Vocab::from_document(&doc).unwrap().bos_id(), 2);
}

#[test]
fn from_document_reports_each_failure() {
    assert!(matches!(
        Vocab::from_document(&JsonValue::Null),
        Err(KokoroError::FailedToLoadResource(LoadFailure::MissingVocabObject))
    ));
    let doc = object(vec![(
        "model",
        object(vec![("vocab", object(vec![("t", JsonValue::Number(None))]))]),
    )]);
    assert!(matches!(
        Vocab::from_document(&doc),
        Err(KokoroError::FailedToLoadResource(LoadFailure::NonIntegerId(_)))
    ));
    let doc = object(vec![(
        "model",
        object(vec![("vocab", object(vec![("t", JsonValue::Number(Some(1)))]))]),
    )]);
    assert!(matches!(
        Vocab::from_document(&doc),
        Err(KokoroError::FailedToLoadResource(LoadFailure::MissingBosToken))
    ));
}

#[test]
fn every_vocab_token_tokenizes_to_its_own_id() {
    let vocab = sample_vocab();
    for (token, id) in [("$", 0), ("t", 1), ("ɛ", 2), ("s", 3), ("I", 4), ("ʤ", 5), (" ", 6)] {
        assert_eq!(vocab.tokenize(token), vec![id]);
    }
}
