//! Language-aware source-code skimmer.
//!
//! Given a blob of source text and a declared source language, the library
//! produces a reduced rendering that keeps the code's public shape
//! (declarations, signatures, type definitions, document headings,
//! configuration key skeletons) and drops implementation detail.
//!
//! The engine is a pure function of its inputs: it parses, walks, splices
//! and returns, never touching the filesystem or the network.  Callers that
//! want caching or multi-file parallelism layer them outside.

use vstd::prelude::*;
use vstd::utf8::encode_utf8;
use vstd::string::StringExecFns;

pub mod text;
pub mod types;
pub mod splice;
pub mod parser;
pub mod transform;
pub mod tokens;
pub mod cache;

pub use types::{Language, Mode, TransformConfig, TransformResult, SkimError, SkimResult};
pub use parser::Parser;

use crate::types::{lang_of_extension, lang_of_path, is_cst_language};
use crate::parser::cst_tree_of;
use crate::transform::tree_output;
use crate::transform::json::json_output;
use crate::transform::yaml::yaml_output;

verus! {

broadcast use vstd::utf8::group_utf8_lib;

/// What the engine emits, as the UTF-8 bytes of the output: the source
/// itself in full mode; the key skeleton for the data languages; the
/// mode's rendering of the parsed tree for the CST languages; nothing when
/// parsing fails or a safety bound is exceeded.
pub open spec fn transform_spec(source: Seq<char>, language: Language, mode: Mode) -> Option<
    Seq<u8>,
> {
    if mode == Mode::Full {
        Some(encode_utf8(source))
    } else if language == Language::Json {
        match json_output(source) {
            Some(s) => Some(encode_utf8(s)),
            None => None,
        }
    } else if language == Language::Yaml {
        match yaml_output(source) {
            Some(s) => Some(encode_utf8(s)),
            None => None,
        }
    } else {
        match cst_tree_of(language, source) {
            Some(nodes) => tree_output(encode_utf8(source), nodes, language, mode),
            None => None,
        }
    }
}

/// Transform source code according to a full configuration.
pub fn transform_with_config(source: &str, language: Language, config: &TransformConfig) -> (r:
    Result<String, SkimError>)
    ensures
        r is Ok <==> transform_spec(source@, language, config.mode) is Some,
        r matches Ok(out) ==> transform_spec(source@, language, config.mode) == Some(
            encode_utf8(out@),
        ),
        config.mode == Mode::Full ==> (r matches Ok(out) && out@ == source@),
{
    match config.mode {
        Mode::Full => {
            // Full mode is the identity transform for every language.
            let out = source.to_owned();
            proof {
                assert(encode_utf8(out@) == encode_utf8(source@));
            }
            return Ok(out);
        },
        _ => {},
    }
    match language {
        Language::Json => {
            let r = crate::transform::json::transform_json(source);
            match r {
                Ok(out) => Ok(out),
                Err(e) => Err(e),
            }
        },
        Language::Yaml => {
            let r = crate::transform::yaml::transform_yaml(source);
            match r {
                Ok(out) => Ok(out),
                Err(e) => Err(e),
            }
        },
        _ => {
            // Every language on this arm is CST-backed, so the parser
            // constructor cannot refuse it.
            let parser = match Parser::new(language) {
                Ok(p) => p,
                Err(e) => {
                    proof {
                        assert(false);
                    }
                    return Err(e);
                },
            };
            let tree = match parser.parse(source) {
                Ok(t) => t,
                Err(e) => {
                    return Err(e);
                },
            };
            crate::transform::transform_tree(source, &tree, language, config)
        },
    }
}

/// Transform source code in the given mode.
///
/// This is the primary entry point: full mode returns the source
/// unchanged; the data languages yield their key skeleton whatever the
/// mode; the CST languages are parsed and rendered per mode.
pub fn transform(source: &str, language: Language, mode: Mode) -> (r: Result<String, SkimError>)
    ensures
        r is Ok <==> transform_spec(source@, language, mode) is Some,
        r matches Ok(out) ==> transform_spec(source@, language, mode) == Some(encode_utf8(out@)),
        mode == Mode::Full ==> (r matches Ok(out) && out@ == source@),
{
    transform_with_config(source, language, &TransformConfig::with_mode(mode))
}

/// Transform source code, detecting the language from the file path.
pub fn transform_auto(source: &str, path: &str, mode: Mode) -> (r: Result<String, SkimError>)
    ensures
        lang_of_path(path@) is None ==> (r matches Err(e) && e matches
            SkimError::UnsupportedLanguage(p) && p@ == path@),
        lang_of_path(path@) matches Some(l) ==> {
            &&& (r is Ok <==> transform_spec(source@, l, mode) is Some)
            &&& (r matches Ok(out) ==> transform_spec(source@, l, mode) == Some(
                encode_utf8(out@),
            ))
        },
{
    match Language::from_path(path) {
        Some(language) => transform(source, language, mode),
        None => Err(SkimError::UnsupportedLanguage(path.to_owned())),
    }
}

/// Relies on `std::time::SystemTime::now`: the clock reading in
/// milliseconds since the Unix epoch, zero when the clock reads earlier
/// than the epoch.
#[verifier::external_body]
fn now_unix_millis() -> u64 {
    match std::time::SystemTime::now().duration_since(std::time::UNIX_EPOCH) {
        Ok(d) => d.as_millis() as u64,
        Err(_) => 0,
    }
}

/// Transform source code and report how long the transformation took.
pub fn transform_detailed(source: &str, language: Language, mode: Mode) -> (r: Result<
    TransformResult,
    SkimError,
>)
    ensures
        r is Ok <==> transform_spec(source@, language, mode) is Some,
        r matches Ok(d) ==> transform_spec(source@, language, mode) == Some(
            encode_utf8(d.content@),
        ) && d.original_tokens is None && d.transformed_tokens is None && d.duration_ms is Some,
{
    let start = now_unix_millis();
    let content = match transform(source, language, mode) {
        Ok(c) => c,
        Err(e) => {
            return Err(e);
        },
    };
    let end = now_unix_millis();
    let elapsed: u64 = if end >= start {
        end - start
    } else {
        0
    };
    Ok(
        TransformResult {
            content,
            original_tokens: None,
            transformed_tokens: None,
            duration_ms: Some(elapsed),
        },
    )
}

/// Detect language from a file extension.
pub fn detect_language(extension: &str) -> (r: Option<Language>)
    ensures
        r == lang_of_extension(extension@),
{
    Language::from_extension(extension)
}

/// Detect language from a file path.
pub fn detect_language_from_path(path: &str) -> (r: Option<Language>)
    ensures
        r == lang_of_path(path@),
{
    Language::from_path(path)
}

/// The library version.
pub fn version() -> (r: &'static str)
    ensures
        r@ == "0.1.0"@,
{
    "0.1.0"
}

/// The code languages the CST transforms support.
pub fn supported_languages() -> (r: Vec<Language>)
    ensures
        r@ == seq![
            Language::TypeScript,
            Language::JavaScript,
            Language::Python,
            Language::Rust,
            Language::Go,
            Language::Java,
        ],
{
    let mut v: Vec<Language> = Vec::new();
    v.push(Language::TypeScript);
    v.push(Language::JavaScript);
    v.push(Language::Python);
    v.push(Language::Rust);
    v.push(Language::Go);
    v.push(Language::Java);
    proof {
        assert(v@ =~= seq![
            Language::TypeScript,
            Language::JavaScript,
            Language::Python,
            Language::Rust,
            Language::Go,
            Language::Java,
        ]);
    }
    v
}

// ============================================================================
// Laws of the engine
// ============================================================================

/// Full mode is the identity: for every source and language, the full-mode
/// rendering is the source itself.
pub proof fn lemma_full_mode_is_identity(source: Seq<char>, language: Language)
    ensures
        transform_spec(source, language, Mode::Full) == Some(encode_utf8(source)),
{
}

/// Determinism: the engine's output is a function of the source, language
/// and mode alone, so two renderings of the same inputs are equal.
pub proof fn lemma_transform_deterministic(
    source: Seq<char>,
    language: Language,
    mode: Mode,
    r1: Option<Seq<u8>>,
    r2: Option<Seq<u8>>,
)
    requires
        r1 == transform_spec(source, language, mode),
        r2 == transform_spec(source, language, mode),
    ensures
        r1 == r2,
{
}

/// Safety envelope: in structure or signatures mode, a CST source whose
/// tree nests deeper than the depth bound is rejected rather than walked.
pub proof fn lemma_depth_envelope(source: Seq<char>, language: Language, mode: Mode)
    requires
        is_cst_language(language),
        mode == Mode::Structure || mode == Mode::Signatures,
        cst_tree_of(language, source) is Some,
        crate::transform::depth_exceeded(cst_tree_of(language, source)->Some_0),
    ensures
        transform_spec(source, language, mode) is None,
{
}


} // verus!
