//! Tests of the data model: languages, modes, configuration, errors and
//! the cache key logic.

use rskim_core::{detect_language, version, supported_languages, Language, Mode, TransformConfig,
    SkimError, Parser};
use rskim_core::cache::{cache_key_hex, cache_entry_is_fresh, mode_tag_str};

#[test]
fn test_version() {
    assert!(!version().is_empty());
}

#[test]
fn test_supported_languages() {
    assert_eq!(supported_languages().len(), 6);
}

#[test]
fn test_detect_language() {
    assert_eq!(detect_language("ts"), Some(Language::TypeScript));
    assert_eq!(detect_language("unknown"), None);
}

#[test]
fn test_language_from_extension() {
    assert_eq!(Language::from_extension("ts"), Some(Language::TypeScript));
    assert_eq!(Language::from_extension("tsx"), Some(Language::TypeScript));
    assert_eq!(Language::from_extension("py"), Some(Language::Python));
    assert_eq!(Language::from_extension("unknown"), None);
}

#[test]
fn test_language_from_path() {
    assert_eq!(Language::from_path("src/main.rs"), Some(Language::Rust));
    assert_eq!(Language::from_path("test.py"), Some(Language::Python));
    assert_eq!(Language::from_path("no_extension"), None);
}

#[test]
fn test_language_from_path_rejects_traversal() {
    // Any parent-directory component makes detection fail.
    assert_eq!(Language::from_path("../main.rs"), None);
    assert_eq!(Language::from_path("a/../main.rs"), None);
    assert_eq!(Language::from_path("a/.."), None);
    assert_eq!(Language::from_path("/absolute/path.rs"), Some(Language::Rust));
    assert_eq!(Language::from_path("dotted../name.rs"), Some(Language::Rust));
}

#[test]
fn test_language_names() {
    assert_eq!(Language::TypeScript.name(), "TypeScript");
    assert_eq!(Language::Json.name(), "JSON");
    assert_eq!(Language::Yaml.name(), "YAML");
}

#[test]
fn test_mode_parse() {
    assert_eq!(Mode::parse("structure"), Some(Mode::Structure));
    assert_eq!(Mode::parse("STRUCTURE"), Some(Mode::Structure));
    assert_eq!(Mode::parse("invalid"), None);
}

#[test]
fn test_mode_names() {
    assert_eq!(Mode::Structure.name(), "structure");
    assert_eq!(Mode::Signatures.name(), "signatures");
    assert_eq!(Mode::Types.name(), "types");
    assert_eq!(Mode::Full.name(), "full");
}

#[test]
fn test_transform_config_builder() {
    let config = TransformConfig::with_mode(Mode::Signatures).preserve_comments(false).with_cache(
        true,
    );
    assert_eq!(config.mode, Mode::Signatures);
    assert!(!config.preserve_comments);
    assert!(config.cache_enabled);
}

#[test]
fn test_error_messages() {
    let e = SkimError::ParseError(String::from("boom"));
    assert_eq!(e.message(), "Failed to parse source code: boom");
    let u = SkimError::UnsupportedLanguage(String::from("weird.bin"));
    assert!(u.message().contains("Unsupported language for file: weird.bin"));
}

#[test]
fn test_parser_bound_to_language() {
    let parser = Parser::new(Language::Rust).unwrap();
    assert_eq!(parser.language(), Language::Rust);
}

#[test]
fn test_parser_rejects_data_language() {
    let r = Parser::new(Language::Json);
    assert!(r.is_err());
    match r {
        Err(e) => assert!(matches!(e, SkimError::ConfigError(_))),
        Ok(_) => panic!("expected a configuration error"),
    }
}

#[test]
fn test_cache_key_generation() {
    // The key is a function of path, modification time and mode alone.
    let key1 = cache_key_hex("/tmp/example.ts", 1700000000, Mode::Structure);
    let key2 = cache_key_hex("/tmp/example.ts", 1700000000, Mode::Structure);
    assert_eq!(key1, key2);
    let key3 = cache_key_hex("/tmp/example.ts", 1700000000, Mode::Signatures);
    assert_ne!(key1, key3);
    let key4 = cache_key_hex("/tmp/example.ts", 1700000001, Mode::Structure);
    assert_ne!(key1, key4);
    assert_eq!(key1.len(), 64);
    assert!(key1.chars().all(|c| c.is_ascii_hexdigit()));
}

#[test]
fn test_cache_entry_freshness() {
    // An entry written for a state validates against that state and no
    // other.
    let tag = mode_tag_str(Mode::Structure);
    assert!(cache_entry_is_fresh(42, tag, 42, Mode::Structure));
    assert!(!cache_entry_is_fresh(42, tag, 43, Mode::Structure));
    assert!(!cache_entry_is_fresh(42, tag, 42, Mode::Types));
}

#[test]
fn test_cache_key_known_digest() {
    // SHA-256 of "a|1|Structure", in lowercase hex.
    let key = cache_key_hex("a", 1, Mode::Structure);
    assert_eq!(key, "200052f0b51645a86f03899213495b34720006cd15f97eea288c6ad633c616c7");
}
