use vstd::prelude::*;

verus! {

#[verifier::external_type_specification]
#[verifier::external_body]
pub struct ExJsonError(serde_json::Error);

/// Why a voice resource (configuration or vocabulary) could not be loaded.
#[derive(Debug)]
pub enum LoadFailure {
    /// The resource could not be read; holds the reason.
    Unreadable(String),
    /// The document is not valid JSON.
    InvalidJson(serde_json::Error),
    /// The tokenizer document has no `model.vocab` object.
    MissingVocabObject,
    /// A vocabulary entry whose id is not an integer; holds the entry's token.
    NonIntegerId(String),
    /// The vocabulary has no `$` token, which marks both ends of a sentence.
    MissingBosToken,
    /// The configuration names another model type; holds the type found.
    WrongModelType(String),
    /// The configuration lists no voices.
    NoVoices,
}

/// Errors of the Kokoro front end.
#[derive(Debug)]
pub enum KokoroError {
    FailedToLoadResource(LoadFailure),
    PhonemizationError(String),
}

} // verus!
