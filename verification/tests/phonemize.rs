use kokoro::error::KokoroError;
use kokoro::phonemize::{espeak_ipa_to_kokoro, kokoro_phonemes_from_ipa, text_to_kokoro_phonemes};

#[test]
fn espeak_ipa_to_kokoro_composes_ai_diphthong() {
    assert_eq!(espeak_ipa_to_kokoro("tˈaɪm"), "tˈIm");
}

#[test]
fn espeak_ipa_to_kokoro_composes_dz_affricate() {
    assert_eq!(espeak_ipa_to_kokoro("dʒˈɑːb"), "ʤˈɑb");
}

#[test]
fn espeak_ipa_to_kokoro_composes_oi_diphthong() {
    assert_eq!(espeak_ipa_to_kokoro("tˈɔɪ"), "tˈY");
}

#[test]
fn espeak_ipa_to_kokoro_composes_au_diphthong() {
    assert_eq!(espeak_ipa_to_kokoro("hˈaʊs"), "hˈWs");
}

#[test]
fn espeak_ipa_to_kokoro_leaves_plain_phonemes_unchanged() {
    assert_eq!(espeak_ipa_to_kokoro("tˈɛst"), "tˈɛst");
}

#[test]
fn espeak_ipa_to_kokoro_composes_syllabic_consonant() {
    assert_eq!(espeak_ipa_to_kokoro("bˈʌʔn\u{0329}."), "bˈʌtᵊn.");
}

#[test]
fn text_to_kokoro_phonemes_returns_error_when_espeak_disabled() {
    let result = text_to_kokoro_phonemes("hello", "en-US");
    assert!(matches!(result, Err(KokoroError::PhonemizationError(_))));
}

#[test]
fn espeak_ipa_to_kokoro_applies_every_substitution() {
    assert_eq!(espeak_ipa_to_kokoro("aɪ aʊ dʒ eɪ tʃ ɔɪ oʊ"), "I W ʤ A ʧ Y O");
    assert_eq!(espeak_ipa_to_kokoro("ɚ r x ç ɐ ɬ ʔ"), "əɹ ɹ k k ə l t");
    assert_eq!(espeak_ipa_to_kokoro("n\u{0329} tʲ aː"), "ᵊn t a");
}

#[test]
fn espeak_ipa_to_kokoro_replaces_every_occurrence() {
    assert_eq!(espeak_ipa_to_kokoro("aɪaɪaɪ"), "III");
    assert_eq!(espeak_ipa_to_kokoro("rrr"), "ɹɹɹ");
}

#[test]
fn espeak_ipa_to_kokoro_applies_substitutions_in_order() {
    // "aɪ" is composed before the "ɪ" could take part in anything else, and a
    // mark dropped late does not let an earlier pattern form again.
    assert_eq!(espeak_ipa_to_kokoro("aʲɪ"), "aɪ");
    assert_eq!(espeak_ipa_to_kokoro("ɚ"), "əɹ");
}

#[test]
fn espeak_ipa_to_kokoro_drops_replaced_symbols() {
    let out = espeak_ipa_to_kokoro("ɚrxçɐɬʔʲːaʲːr");
    for c in ['ɚ', 'r', 'x', 'ç', 'ɐ', 'ɬ', 'ʔ', 'ʲ', 'ː'] {
        assert!(!out.contains(c), "{c} left in {out}");
    }
}

#[test]
fn espeak_ipa_to_kokoro_of_empty_is_empty() {
    assert_eq!(espeak_ipa_to_kokoro(""), "");
}

#[test]
fn kokoro_phonemes_from_ipa_converts_each_sentence() {
    let sentences = vec!["həlˈoʊ ðˈɛɹ.".to_string(), "dʒˈɛnɚɹəl kɛnˈoʊbaɪ.".to_string()];
    let out = kokoro_phonemes_from_ipa(&sentences);
    assert_eq!(out, vec!["həlˈO ðˈɛɹ.".to_string(), "ʤˈɛnəɹɹəl kɛnˈObI.".to_string()]);
    assert!(kokoro_phonemes_from_ipa(&Vec::new()).is_empty());
}
