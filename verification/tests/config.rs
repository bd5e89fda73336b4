use kokoro::config::{base_dir_from_parent, KokoroVoiceConfig, RawKokoroVoiceConfig};
use kokoro::error::{KokoroError, LoadFailure};
use std::path::{Path, PathBuf};

fn raw(model_type: &str, voices: Vec<String>) -> RawKokoroVoiceConfig {
    RawKokoroVoiceConfig {
        model_type: model_type.to_string(),
        model_path: "model.onnx".to_string(),
        voices_dir: "voices".to_string(),
        vocab_path: "tokenizer.json".to_string(),
        sample_rate: 24000,
        voices,
    }
}

#[test]
fn load_config_parses_valid_manifest_with_paths_relative_to_config_dir() {
    let dir = PathBuf::from("/tmp/dengjen_kokoro_test_valid");
    let config_path = dir.join("config.json");
    let config = KokoroVoiceConfig::from_raw(
        raw("kokoro", vec!["af_heart".to_string(), "am_adam".to_string()]),
        config_path.to_str().unwrap(),
    )
    .unwrap();
    assert_eq!(PathBuf::from(&config.model_path), dir.join("model.onnx"));
    assert_eq!(PathBuf::from(&config.voices_dir), dir.join("voices"));
    assert_eq!(PathBuf::from(&config.vocab_path), dir.join("tokenizer.json"));
    assert_eq!(config.sample_rate, 24000);
    assert_eq!(config.voices, vec!["af_heart".to_string(), "am_adam".to_string()]);
}

#[test]
fn load_config_errors_on_wrong_model_type() {
    let result = KokoroVoiceConfig::from_raw(raw("piper", vec![]), "config.json");
    assert!(matches!(result, Err(KokoroError::FailedToLoadResource(_))));
    match result {
        Err(KokoroError::FailedToLoadResource(LoadFailure::WrongModelType(found))) => {
            assert_eq!(found, "piper")
        }
        _ => panic!("expected a wrong model type error"),
    }
}

#[test]
fn model_type_check_is_case_sensitive() {
    let result = KokoroVoiceConfig::from_raw(raw("Kokoro", vec![]), "config.json");
    assert!(matches!(
        result,
        Err(KokoroError::FailedToLoadResource(LoadFailure::WrongModelType(_)))
    ));
}

#[test]
fn config_without_directory_resolves_against_current_dir() {
    let config =
        KokoroVoiceConfig::from_raw(raw("kokoro", vec![]), "").unwrap();
    assert_eq!(Path::new(&config.model_path), Path::new(".").join("model.onnx"));
    assert_eq!(config.model_path, "./model.onnx");
    let config =
        KokoroVoiceConfig::from_raw(raw("kokoro", vec![]), "config.json").unwrap();
    assert_eq!(Path::new(&config.model_path), Path::new("").join("model.onnx"));
    assert_eq!(config.model_path, "model.onnx");
}

#[test]
fn default_voice_is_the_first_listed() {
    let config = KokoroVoiceConfig::from_raw(
        raw("kokoro", vec!["af_heart".to_string(), "am_adam".to_string()]),
        "/voices/config.json",
    )
    .unwrap();
    assert_eq!(config.default_voice().unwrap(), "af_heart");
}

#[test]
fn default_voice_errors_without_voices() {
    let config =
        KokoroVoiceConfig::from_raw(raw("kokoro", vec![]), "/voices/config.json")
            .unwrap();
    assert!(matches!(
        config.default_voice(),
        Err(KokoroError::FailedToLoadResource(LoadFailure::NoVoices))
    ));
}

#[test]
fn paths_resolve_per_field_and_absolute_paths_stay() {
    let mut r = raw("kokoro", vec![]);
    r.vocab_path = "/abs/tokenizer.json".to_string();
    let config = KokoroVoiceConfig::from_raw(r, "/voices/v1/config.json").unwrap();
    assert_eq!(config.model_path, "/voices/v1/model.onnx");
    assert_eq!(config.voices_dir, "/voices/v1/voices");
    assert_eq!(config.vocab_path, "/abs/tokenizer.json");
}

#[test]
fn base_dir_falls_back_to_current_dir() {
    assert_eq!(base_dir_from_parent(None), ".");
    assert_eq!(base_dir_from_parent(Some("/a/b".to_string())), "/a/b");
    assert_eq!(base_dir_from_parent(Some(String::new())), "");
}
