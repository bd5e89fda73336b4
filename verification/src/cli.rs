use vstd::prelude::*;

use crate::error::{KokoroError, LoadFailure};
use crate::json::{
    distinct_member_names, lemma_member_absent, lemma_member_found_anywhere, members_of, parse_json,
    parsed_json, spec_member, spec_str, JsonValue,
};

verus! {

broadcast use vstd::string::group_string_axioms;

/// How the audio of a request reaches the standard output.
#[derive(Clone, Copy, Debug, PartialEq, Eq, Structural)]
pub enum SynthesisMode {
    /// Sentence by sentence, as each is synthesized.
    Lazy,
    /// All sentences synthesized in parallel.
    Parallel,
    /// In chunks of mel frames, as they are produced.
    Realtime,
}

impl Default for SynthesisMode {
    fn default() -> (mode: Self)
        ensures
            mode == SynthesisMode::Lazy,
    {
        SynthesisMode::Lazy
    }
}

/// `c` with an ASCII capital letter turned into its small letter.
pub open spec fn ascii_lower(c: char) -> char {
    match c {
        'A' => 'a',
        'B' => 'b',
        'C' => 'c',
        'D' => 'd',
        'E' => 'e',
        'F' => 'f',
        'G' => 'g',
        'H' => 'h',
        'I' => 'i',
        'J' => 'j',
        'K' => 'k',
        'L' => 'l',
        'M' => 'm',
        'N' => 'n',
        'O' => 'o',
        'P' => 'p',
        'Q' => 'q',
        'R' => 'r',
        'S' => 's',
        'T' => 't',
        'U' => 'u',
        'V' => 'v',
        'W' => 'w',
        'X' => 'x',
        'Y' => 'y',
        'Z' => 'z',
        _ => c,
    }
}

/// `c` with an ASCII capital letter turned into its small letter.
fn to_ascii_lower(c: char) -> (res: char)
    ensures
        res == ascii_lower(c),
{
    match c {
        'A' => 'a',
        'B' => 'b',
        'C' => 'c',
        'D' => 'd',
        'E' => 'e',
        'F' => 'f',
        'G' => 'g',
        'H' => 'h',
        'I' => 'i',
        'J' => 'j',
        'K' => 'k',
        'L' => 'l',
        'M' => 'm',
        'N' => 'n',
        'O' => 'o',
        'P' => 'p',
        'Q' => 'q',
        'R' => 'r',
        'S' => 's',
        'T' => 't',
        'U' => 'u',
        'V' => 'v',
        'W' => 'w',
        'X' => 'x',
        'Y' => 'y',
        'Z' => 'z',
        _ => c,
    }
}

/// `s` with every ASCII capital letter turned into its small letter.
pub open spec fn ascii_lowercase(s: Seq<char>) -> Seq<char> {
    s.map_values(|c: char| ascii_lower(c))
}

/// The mode that `text` names, in any mix of capital and small letters.
pub open spec fn named_mode(text: Seq<char>) -> Option<SynthesisMode> {
    let lower = ascii_lowercase(text);
    if lower == seq!['l', 'a', 'z', 'y'] {
        Some(SynthesisMode::Lazy)
    } else if lower == seq!['p', 'a', 'r', 'a', 'l', 'l', 'e', 'l'] {
        Some(SynthesisMode::Parallel)
    } else if lower == seq!['r', 'e', 'a', 'l', 't', 'i', 'm', 'e'] {
        Some(SynthesisMode::Realtime)
    } else {
        None
    }
}

/// Mode names are read without regard to case: lowering the ASCII capitals
/// of a text changes neither whether it names a mode nor which.
pub proof fn lemma_mode_names_ignore_case(text: Seq<char>)
    ensures
        named_mode(ascii_lowercase(text)) == named_mode(text),
{
    assert(ascii_lowercase(ascii_lowercase(text)) =~= ascii_lowercase(text));
}

/// ASCII lowering turns each capital letter `A` to `Z` into its small letter,
/// 32 code points on, and leaves every other character as it is.
pub proof fn lemma_ascii_lower(c: char)
    ensures
        'A' <= c <= 'Z' ==> ascii_lower(c) as int == c as int + 32,
        !('A' <= c <= 'Z') ==> ascii_lower(c) == c,
{
}

/// Whether `text`, with its ASCII capitals lowered, is `word`.
fn lowercase_equals(text: &Vec<char>, word: &Vec<char>) -> (res: bool)
    ensures
        res == (ascii_lowercase(text@) == word@),
{
    if text.len() != word.len() {
        assert(ascii_lowercase(text@).len() != word@.len());
        return false;
    }
    let mut i: usize = 0;
    while i < text.len()
        invariant
            text.len() == word.len(),
            0 <= i <= text.len(),
            forall|k: int| 0 <= k < i ==> ascii_lower(#[trigger] text@[k]) == word@[k],
        decreases text.len() - i,
    {
        if to_ascii_lower(text[i]) != word[i] {
            assert(ascii_lowercase(text@)[i as int] != word@[i as int]);
            return false;
        }
        i += 1;
    }
    assert(ascii_lowercase(text@) =~= word@);
    true
}

impl SynthesisMode {
    /// Reads a synthesis mode from its name, `lazy`, `parallel` or
    /// `realtime`, in any mix of capital and small letters; any other text is
    /// an error that names it.
    pub fn parse(text: &str) -> (res: Result<SynthesisMode, String>)
        ensures
            match named_mode(text@) {
                Some(mode) => res == Ok::<SynthesisMode, String>(mode),
                None => res matches Err(msg) && msg@ == "Unknown synthesis mode: `"@ + text@
                    + "`"@,
            },
    {
        let chars = crate::chars::chars_of(text);
        if lowercase_equals(&chars, &vec!['l', 'a', 'z', 'y']) {
            return Ok(SynthesisMode::Lazy);
        }
        if lowercase_equals(&chars, &vec!['p', 'a', 'r', 'a', 'l', 'l', 'e', 'l']) {
            return Ok(SynthesisMode::Parallel);
        }
        if lowercase_equals(&chars, &vec!['r', 'e', 'a', 'l', 't', 'i', 'm', 'e']) {
            return Ok(SynthesisMode::Realtime);
        }
        let mut msg = String::from_str("Unknown synthesis mode: `");
        msg.append(text);
        msg.append("`");
        Err(msg)
    }
}

impl std::str::FromStr for SynthesisMode {
    type Err = String;

    fn from_str(other: &str) -> (res: Result<Self, Self::Err>)
        ensures
            match named_mode(other@) {
                Some(mode) => res == Ok::<SynthesisMode, String>(mode),
                None => res matches Err(msg) && msg@ == "Unknown synthesis mode: `"@ + other@
                    + "`"@,
            },
    {
        SynthesisMode::parse(other)
    }
}

/// Chunk size, in mel frames, of real-time synthesis where a request names none.
pub const DEFAULT_CHUNK_SIZE: usize = 100;

/// Padding, in mel frames, of each real-time chunk where a request names none.
pub const DEFAULT_CHUNK_PADDING: usize = 3;

/// What a synthesis request comes to.
#[derive(Clone, Copy, Debug, PartialEq, Eq, Structural)]
pub enum SynthesisPlan {
    /// All audio into the output file; `mode_ignored` where the request named
    /// a mode, which has no effect then.
    WriteFile { mode_ignored: bool },
    /// Streamed sentence by sentence.
    StreamLazy,
    /// Streamed after parallel synthesis.
    StreamParallel,
    /// Streamed in chunks of mel frames.
    StreamRealtime { chunk_size: usize, chunk_padding: usize },
}

pub open spec fn spec_plan(
    writes_file: bool,
    mode: Option<SynthesisMode>,
    chunk_size: Option<usize>,
    chunk_padding: Option<usize>,
) -> SynthesisPlan {
    if writes_file {
        SynthesisPlan::WriteFile { mode_ignored: mode is Some }
    } else {
        match mode {
            None | Some(SynthesisMode::Lazy) => SynthesisPlan::StreamLazy,
            Some(SynthesisMode::Parallel) => SynthesisPlan::StreamParallel,
            Some(SynthesisMode::Realtime) => SynthesisPlan::StreamRealtime {
                chunk_size: match chunk_size {
                    Some(n) => n,
                    None => DEFAULT_CHUNK_SIZE,
                },
                chunk_padding: match chunk_padding {
                    Some(n) => n,
                    None => DEFAULT_CHUNK_PADDING,
                },
            },
        }
    }
}

/// Real-time chunking takes each setting on its own: the chunk size is the
/// requested one or 100 whatever the padding, and the padding is the
/// requested one or 3 whatever the chunk size.
pub proof fn lemma_realtime_settings_independent(
    chunk_size: Option<usize>,
    padding_a: Option<usize>,
    padding_b: Option<usize>,
)
    ensures
        ({
            let a = spec_plan(false, Some(SynthesisMode::Realtime), chunk_size, padding_a);
            let b = spec_plan(false, Some(SynthesisMode::Realtime), chunk_size, padding_b);
            &&& a is StreamRealtime && b is StreamRealtime
            &&& a->chunk_size == b->chunk_size
            &&& a->chunk_size == (match chunk_size {
                Some(n) => n,
                None => 100,
            })
        }),
        ({
            let a = spec_plan(false, Some(SynthesisMode::Realtime), padding_a, chunk_size);
            let b = spec_plan(false, Some(SynthesisMode::Realtime), padding_b, chunk_size);
            &&& a is StreamRealtime && b is StreamRealtime
            &&& a->chunk_padding == b->chunk_padding
            &&& a->chunk_padding == (match chunk_size {
                Some(n) => n,
                None => 3,
            })
        }),
{
}

/// Decides how a synthesis request is carried out: into the output file
/// where there is one (a mode is then ignored), otherwise streamed in the
/// request's mode, lazy by default, with the default chunking where the
/// request names none.
pub fn plan_synthesis(
    writes_file: bool,
    mode: Option<SynthesisMode>,
    chunk_size: Option<usize>,
    chunk_padding: Option<usize>,
) -> (plan: SynthesisPlan)
    ensures
        plan == spec_plan(writes_file, mode, chunk_size, chunk_padding),
        writes_file ==> plan == (SynthesisPlan::WriteFile { mode_ignored: mode is Some }),
        !writes_file && (mode is None || mode == Some(SynthesisMode::Lazy)) ==> plan
            == SynthesisPlan::StreamLazy,
        !writes_file && mode == Some(SynthesisMode::Parallel) ==> plan
            == SynthesisPlan::StreamParallel,
        !writes_file && mode == Some(SynthesisMode::Realtime) ==> {
            &&& plan is StreamRealtime
            &&& chunk_size matches Some(n) ==> plan->chunk_size == n
            &&& chunk_size is None ==> plan->chunk_size == DEFAULT_CHUNK_SIZE
            &&& chunk_padding matches Some(n) ==> plan->chunk_padding == n
            &&& chunk_padding is None ==> plan->chunk_padding == DEFAULT_CHUNK_PADDING
        },
{
    if writes_file {
        return SynthesisPlan::WriteFile { mode_ignored: mode.is_some() };
    }
    let mode = match mode {
        Some(m) => m,
        None => SynthesisMode::default(),
    };
    match mode {
        SynthesisMode::Lazy => SynthesisPlan::StreamLazy,
        SynthesisMode::Parallel => SynthesisPlan::StreamParallel,
        SynthesisMode::Realtime => SynthesisPlan::StreamRealtime {
            chunk_size: match chunk_size {
                Some(n) => n,
                None => DEFAULT_CHUNK_SIZE,
            },
            chunk_padding: match chunk_padding {
                Some(n) => n,
                None => DEFAULT_CHUNK_PADDING,
            },
        },
    }
}

/// How the synthesized audio is shaped: speaking rate, pitch and volume (each
/// on a scale of 0 to 100) and extra silence after each sentence, in
/// milliseconds; `None` leaves the synthesizer's default.
#[derive(Clone, Copy, Debug, PartialEq, Eq)]
pub struct AudioOutputConfig {
    pub rate: Option<u8>,
    pub pitch: Option<u8>,
    pub volume: Option<u8>,
    pub appended_silence_ms: Option<u32>,
}

/// The audio output settings of a synthesis request: its rate, pitch, volume
/// and appended silence, each carried over as the request gives it.
pub fn as_audio_output_config(
    rate: Option<u8>,
    pitch: Option<u8>,
    volume: Option<u8>,
    appended_silence_ms: Option<u32>,
) -> (config: AudioOutputConfig)
    ensures
        config.rate == rate,
        config.pitch == pitch,
        config.volume == volume,
        config.appended_silence_ms == appended_silence_ms,
{
    AudioOutputConfig { rate, pitch, volume, appended_silence_ms }
}

/// The model type that a voice configuration declares: its `model_type`
/// string, `piper` where it has none.
pub open spec fn declared_model_type(doc: JsonValue) -> Seq<char> {
    match spec_member(doc, "model_type"@) {
        Some(v) => match spec_str(v) {
            Some(s) => s,
            None => "piper"@,
        },
        None => "piper"@,
    }
}

/// The declared model type is read by name: where the document's members
/// have distinct names, the member named `model_type`, wherever it stands,
/// gives the type if it is a string; otherwise the type is `piper`.
pub proof fn lemma_model_type_by_name(doc: JsonValue, i: int)
    requires
        doc is Object,
        distinct_member_names(members_of(doc)),
        0 <= i < members_of(doc).len(),
        members_of(doc)[i].0@ == "model_type"@,
    ensures
        declared_model_type(doc) == match spec_str(members_of(doc)[i].1) {
            Some(s) => s,
            None => "piper"@,
        },
{
    lemma_member_found_anywhere(members_of(doc), i);
}

/// A document with no member named `model_type` declares `piper`.
pub proof fn lemma_model_type_defaults_to_piper(doc: JsonValue)
    requires
        forall|i: int|
            0 <= i < members_of(doc).len() ==> (#[trigger] members_of(doc)[i]).0@ != "model_type"@,
    ensures
        declared_model_type(doc) == "piper"@,
{
    lemma_member_absent(members_of(doc), "model_type"@);
}

/// Reads the model type that the voice configuration `bytes` declares.
pub fn model_type_of_config(bytes: &[u8]) -> (res: Result<String, KokoroError>)
    ensures
        match parsed_json(bytes@) {
            None => res matches Err(KokoroError::FailedToLoadResource(LoadFailure::InvalidJson(_))),
            Some(doc) => res matches Ok(t) && t@ == declared_model_type(doc),
        },
{
    let doc = match parse_json(bytes) {
        Ok(doc) => doc,
        Err(e) => {
            return Err(KokoroError::FailedToLoadResource(LoadFailure::InvalidJson(e)));
        },
    };
    Ok(model_type_of_document(&doc))
}

/// The model type that the parsed voice configuration `doc` declares: its
/// `model_type` string, `piper` where it has none.
pub fn model_type_of_document(doc: &JsonValue) -> (model_type: String)
    ensures
        model_type@ == declared_model_type(*doc),
{
    let key = String::from_str("model_type");
    match doc.member(&key) {
        Some(v) => match v.as_str() {
            Some(s) => s.clone(),
            None => String::from_str("piper"),
        },
        None => String::from_str("piper"),
    }
}

/// The synthesis back end that a voice is loaded with.
#[derive(Clone, Copy, Debug, PartialEq, Eq, Structural)]
pub enum ModelBackend {
    Kokoro,
    Piper,
}

/// The back end for a declared model type: Kokoro for `kokoro`, Piper for
/// anything else.
pub fn backend_for_model_type(model_type: &String) -> (backend: ModelBackend)
    ensures
        backend == (if model_type@ == "kokoro"@ {
            ModelBackend::Kokoro
        } else {
            ModelBackend::Piper
        }),
{
    if *model_type == String::from_str("kokoro") {
        ModelBackend::Kokoro
    } else {
        ModelBackend::Piper
    }
}

} // verus!
