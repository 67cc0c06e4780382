//! Tests of the CST parser facade and the splice engine.

use rskim_core::{Language, Parser};
use rskim_core::splice::{splice, Edit};

#[test]
fn test_parser_typescript() {
    let source = "function test() {}";
    let parser = Parser::new(Language::TypeScript).unwrap();
    let result = parser.parse(source);
    assert!(result.is_ok());
}

#[test]
fn test_parser_all_languages() {
    let test_cases = vec![
        (Language::TypeScript, "function test() {}"),
        (Language::JavaScript, "function test() {}"),
        (Language::Python, "def test():\n    pass"),
        (Language::Rust, "fn test() {}"),
        (Language::Go, "func test() {}"),
        (Language::Java, "class Test { void test() {} }"),
    ];
    for (language, source) in test_cases {
        let parser = Parser::new(language).unwrap();
        let result = parser.parse(source);
        assert!(result.is_ok(), "Failed to parse {}", language.name());
    }
}

#[test]
fn test_parser_invalid_syntax() {
    // The grammars are error-tolerant: broken input still yields a tree.
    let source = "function {{{{{ this is broken";
    let parser = Parser::new(Language::TypeScript).unwrap();
    let result = parser.parse(source);
    assert!(result.is_ok());
}

#[test]
fn test_parser_tree_has_nodes() {
    let parser = Parser::new(Language::Rust).unwrap();
    let tree = parser.parse("fn a() {}").unwrap();
    assert!(!tree.nodes.is_empty());
    assert_eq!(tree.nodes[0].depth, 0);
}

#[test]
fn test_splice_basic() {
    let edits = vec![Edit { start: 0, end: 5, replacement: "HI" }];
    let out = splice("hello world", &edits).unwrap();
    assert_eq!(out, "HI world");
}

#[test]
fn test_splice_drops_nested_range() {
    // A range nested inside an applied replacement is dropped.
    let edits = vec![
        Edit { start: 0, end: 8, replacement: "X" },
        Edit { start: 2, end: 5, replacement: "Y" },
    ];
    let out = splice("abcdefghij", &edits).unwrap();
    assert_eq!(out, "Xij");
}

#[test]
fn test_splice_sorts_by_start() {
    let edits = vec![
        Edit { start: 6, end: 11, replacement: "there" },
        Edit { start: 0, end: 5, replacement: "howdy" },
    ];
    let out = splice("hello world", &edits).unwrap();
    assert_eq!(out, "howdy there");
}

#[test]
fn test_splice_rejects_inverted_range() {
    let edits = vec![Edit { start: 5, end: 2, replacement: "X" }];
    let r = splice("hello", &edits);
    assert!(r.is_err());
    assert!(r.unwrap_err().message().contains("Invalid AST range"));
}

#[test]
fn test_splice_rejects_overlong_range() {
    let edits = vec![Edit { start: 0, end: 99, replacement: "X" }];
    let r = splice("hello", &edits);
    assert!(r.is_err());
    assert!(r.unwrap_err().message().contains("exceeds source length"));
}

#[test]
fn test_splice_rejects_split_character() {
    // A range ending inside a multi-byte character violates the UTF-8
    // boundary rule.
    let source = "a\u{e9}b";
    let edits = vec![Edit { start: 1, end: 2, replacement: "X" }];
    let r = splice(source, &edits);
    assert!(r.is_err());
    assert!(r.unwrap_err().message().contains("Invalid UTF-8 boundary"));
}

#[test]
fn test_splice_preserves_multibyte_text() {
    // Splicing at character boundaries keeps multi-byte text intact.
    let source = "\u{4f60}\u{597d} fn x() {}";
    let edits = vec![Edit { start: 7, end: 7, replacement: "" }];
    let out = splice(source, &edits).unwrap();
    assert_eq!(out, source);
}

#[test]
fn test_parse_typescript() {
    let source = "function test() {}";
    let result = Parser::new(Language::TypeScript).unwrap().parse(source);
    assert!(result.is_ok());
}

#[test]
fn test_parse_all_languages() {
    let test_cases = vec![
        (Language::TypeScript, "function test() {}"),
        (Language::JavaScript, "function test() {}"),
        (Language::Python, "def test():\n    pass"),
        (Language::Rust, "fn test() {}"),
        (Language::Go, "func test() {}"),
        (Language::Java, "class Test { void test() {} }"),
    ];
    for (language, source) in test_cases {
        let result = Parser::new(language).unwrap().parse(source);
        assert!(result.is_ok(), "Failed to parse {}", language.name());
    }
}

#[test]
fn test_parse_invalid_syntax() {
    let source = "function {{{{{ this is broken";
    let result = Parser::new(Language::TypeScript).unwrap().parse(source);
    assert!(result.is_ok());
}
