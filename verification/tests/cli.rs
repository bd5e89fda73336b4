use kokoro::cli::{
    backend_for_model_type, model_type_of_config, plan_synthesis, ModelBackend, SynthesisMode,
    SynthesisPlan,
};
use kokoro::cli::model_type_of_document;
use kokoro::error::{KokoroError, LoadFailure};
use kokoro::json::JsonValue;
use std::str::FromStr;

#[test]
fn synthesis_mode_from_str_parses_known_values_case_insensitively() {
    assert!(matches!(SynthesisMode::from_str("Lazy"), Ok(SynthesisMode::Lazy)));
    assert!(matches!(SynthesisMode::from_str("PARALLEL"), Ok(SynthesisMode::Parallel)));
    assert!(matches!(SynthesisMode::from_str("realtime"), Ok(SynthesisMode::Realtime)));
}

#[test]
fn synthesis_mode_from_str_returns_an_error_instead_of_panicking_on_unknown_value() {
    assert!(SynthesisMode::from_str("bogus").is_err());
}

#[test]
fn synthesis_mode_error_names_the_unknown_value() {
    assert_eq!(
        SynthesisMode::from_str("bogus"),
        Err("Unknown synthesis mode: `bogus`".to_string())
    );
    assert!(SynthesisMode::from_str("").is_err());
    assert!(SynthesisMode::from_str("lazy ").is_err());
    assert!(SynthesisMode::from_str("lazyy").is_err());
    assert_eq!(SynthesisMode::from_str("ReAlTiMe"), Ok(SynthesisMode::Realtime));
}

#[test]
fn synthesis_mode_defaults_to_lazy() {
    assert_eq!(SynthesisMode::default(), SynthesisMode::Lazy);
}

#[test]
fn plan_writes_file_when_one_is_given() {
    assert_eq!(
        plan_synthesis(true, None, None, None),
        SynthesisPlan::WriteFile { mode_ignored: false }
    );
    assert_eq!(
        plan_synthesis(true, Some(SynthesisMode::Realtime), Some(5), None),
        SynthesisPlan::WriteFile { mode_ignored: true }
    );
}

#[test]
fn plan_streams_in_the_requested_mode() {
    assert_eq!(plan_synthesis(false, None, None, None), SynthesisPlan::StreamLazy);
    assert_eq!(
        plan_synthesis(false, Some(SynthesisMode::Lazy), None, None),
        SynthesisPlan::StreamLazy
    );
    assert_eq!(
        plan_synthesis(false, Some(SynthesisMode::Parallel), Some(1), Some(1)),
        SynthesisPlan::StreamParallel
    );
    assert_eq!(
        plan_synthesis(false, Some(SynthesisMode::Realtime), None, None),
        SynthesisPlan::StreamRealtime { chunk_size: 100, chunk_padding: 3 }
    );
    assert_eq!(
        plan_synthesis(false, Some(SynthesisMode::Realtime), Some(40), Some(0)),
        SynthesisPlan::StreamRealtime { chunk_size: 40, chunk_padding: 0 }
    );
}

#[test]
fn detect_model_type_recognizes_kokoro() {
    assert_eq!(model_type_of_config(br#"{"model_type": "kokoro"}"#).unwrap(), "kokoro");
}

#[test]
fn detect_model_type_defaults_to_piper_when_field_absent() {
    assert_eq!(
        model_type_of_config(br#"{"audio": {"sample_rate": 22050}}"#).unwrap(),
        "piper"
    );
}

#[test]
fn detect_model_type_errors_on_malformed_json() {
    assert!(model_type_of_config(b"{ not valid").is_err());
    assert!(matches!(
        model_type_of_config(b"{ not valid"),
        Err(KokoroError::FailedToLoadResource(LoadFailure::InvalidJson(_)))
    ));
}

#[test]
fn detect_model_type_defaults_to_piper_for_non_string_or_non_object() {
    assert_eq!(model_type_of_config(br#"{"model_type": 3}"#).unwrap(), "piper");
    assert_eq!(model_type_of_config(br#"["kokoro"]"#).unwrap(), "piper");
    assert_eq!(model_type_of_config(br#"{"model_type": "vits"}"#).unwrap(), "vits");
}

#[test]
fn backend_follows_the_model_type() {
    assert_eq!(backend_for_model_type(&"kokoro".to_string()), ModelBackend::Kokoro);
    assert_eq!(backend_for_model_type(&"piper".to_string()), ModelBackend::Piper);
    assert_eq!(backend_for_model_type(&"Kokoro".to_string()), ModelBackend::Piper);
}

#[test]
fn model_type_of_document_reads_the_field() {
    let doc = JsonValue::Object(vec![(
        "model_type".to_string(),
        JsonValue::String("kokoro".to_string()),
    )]);
    assert_eq!(model_type_of_document(&doc), "kokoro");
    let doc = JsonValue::Object(vec![("model_type".to_string(), JsonValue::Bool(true))]);
    assert_eq!(model_type_of_document(&doc), "piper");
    assert_eq!(model_type_of_document(&JsonValue::Array(vec![])), "piper");
}

#[test]
fn as_audio_output_config_carries_over_all_fields() {
    let config = kokoro::cli::as_audio_output_config(Some(80), Some(40), Some(90), Some(200));
    assert_eq!(config.rate, Some(80));
    assert_eq!(config.pitch, Some(40));
    assert_eq!(config.volume, Some(90));
    assert_eq!(config.appended_silence_ms, Some(200));
    let config = kokoro::cli::as_audio_output_config(None, None, None, None);
    assert_eq!(config.rate, None);
    assert_eq!(config.appended_silence_ms, None);
}
