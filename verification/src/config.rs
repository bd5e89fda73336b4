use vstd::prelude::*;

use std::path::Path;

use crate::error::{KokoroError, LoadFailure};

verus! {

/// A Kokoro voice configuration as its JSON file writes it: the model type and
/// paths relative to the file's directory.
pub struct RawKokoroVoiceConfig {
    pub model_type: String,
    pub model_path: String,
    pub voices_dir: String,
    pub vocab_path: String,
    pub sample_rate: u32,
    pub voices: Vec<String>,
}

/// A Kokoro voice configuration, with its paths resolved against the
/// directory of the configuration file.
#[derive(Debug, Clone)]
pub struct KokoroVoiceConfig {
    pub model_path: String,
    pub voices_dir: String,
    pub vocab_path: String,
    pub sample_rate: u32,
    pub voices: Vec<String>,
}

/// The directory part of the path `path`, as `Path::parent` gives it on the
/// platform the crate is built for; `None` where the path ends in a root or a
/// prefix, or is empty.
pub uninterp spec fn path_parent_of(path: Seq<char>) -> Option<Seq<char>>;

/// The path `relative` adjoined to `base`, as `Path::join` gives it on the
/// platform the crate is built for.
pub uninterp spec fn path_joined(base: Seq<char>, relative: Seq<char>) -> Seq<char>;

/// Calls `Path::parent` on `path` and converts the directory it returns back
/// into text (a parent of a UTF-8 path is UTF-8, so nothing is lost). The
/// contract claims that the result is `path_parent_of(path)`, which is `None`
/// for the empty path, as `Path::parent` documents.
#[verifier::external_body]
fn path_parent(path: &str) -> (res: Option<String>)
    ensures
        match res {
            Some(dir) => path_parent_of(path@) == Some(dir@),
            None => path_parent_of(path@) is None,
        },
        path@.len() == 0 ==> res is None,
{
    match Path::new(path).parent() {
        Some(dir) => Some(dir.to_string_lossy().into_owned()),
        None => None,
    }
}

/// Calls `Path::join` to adjoin `relative` to `base` and converts the path it
/// returns back into text (two UTF-8 paths join into UTF-8, so nothing is
/// lost). The contract claims that the result is `path_joined(base, relative)`.
#[verifier::external_body]
fn path_join(base: &String, relative: &String) -> (res: String)
    ensures
        res@ == path_joined(base@, relative@),
{
    Path::new(base).join(relative).to_string_lossy().into_owned()
}

/// The directory that the paths of the configuration file `config_path` are
/// relative to: its parent, or the current directory `.` where it has none.
pub open spec fn config_base_dir(config_path: Seq<char>) -> Seq<char> {
    match path_parent_of(config_path) {
        Some(dir) => dir,
        None => "."@,
    }
}

/// The directory that a configuration file's paths are relative to, given the
/// file's parent directory: that parent, or the current directory `.` where
/// the file has none.
pub fn base_dir_from_parent(parent: Option<String>) -> (dir: String)
    ensures
        dir@ == match parent {
            Some(d) => d@,
            None => "."@,
        },
{
    match parent {
        Some(d) => d,
        None => String::from_str("."),
    }
}

impl KokoroVoiceConfig {
    /// Checks that `raw` describes a Kokoro voice and resolves its paths
    /// against the directory of `config_path` (the current directory where it
    /// has none).
    pub fn from_raw(raw: RawKokoroVoiceConfig, config_path: &str) -> (res: Result<
        KokoroVoiceConfig,
        KokoroError,
    >)
        ensures
            res is Err <==> raw.model_type@ != "kokoro"@,
            res matches Err(e) ==> e matches KokoroError::FailedToLoadResource(
                LoadFailure::WrongModelType(found),
            ) && found@ == raw.model_type@,
            res matches Ok(config) ==> {
                &&& config.model_path@ == path_joined(config_base_dir(config_path@), raw.model_path@)
                &&& config.voices_dir@ == path_joined(config_base_dir(config_path@), raw.voices_dir@)
                &&& config.vocab_path@ == path_joined(config_base_dir(config_path@), raw.vocab_path@)
                &&& config.sample_rate == raw.sample_rate
                &&& config.voices@ == raw.voices@
            },
    {
        let expected = String::from_str("kokoro");
        if raw.model_type != expected {
            return Err(
                KokoroError::FailedToLoadResource(LoadFailure::WrongModelType(raw.model_type)),
            );
        }
        let base_dir: String = base_dir_from_parent(path_parent(config_path));
        Ok(
            KokoroVoiceConfig {
                model_path: path_join(&base_dir, &raw.model_path),
                voices_dir: path_join(&base_dir, &raw.voices_dir),
                vocab_path: path_join(&base_dir, &raw.vocab_path),
                sample_rate: raw.sample_rate,
                voices: raw.voices,
            },
        )
    }

    /// The voice a model speaks with: the first that the configuration lists.
    pub fn default_voice(&self) -> (res: Result<String, KokoroError>)
        ensures
            res is Ok <==> self.voices.len() > 0,
            res matches Ok(voice) ==> voice@ == self.voices@[0]@,
            res matches Err(e) ==> e matches KokoroError::FailedToLoadResource(LoadFailure::NoVoices),
    {
        if self.voices.len() == 0 {
            Err(KokoroError::FailedToLoadResource(LoadFailure::NoVoices))
        } else {
            Ok(self.voices[0].clone())
        }
    }
}

} // verus!
