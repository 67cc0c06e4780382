//! Tests of the JSON key extractor.

use rskim_core::transform::json::transform_json;
use rskim_core::{transform, Language, Mode};

#[test]
fn test_simple_object() {
    let input = "{\"name\": \"John\", \"age\": 30}";
    let result = transform_json(input).expect("test JSON should parse successfully");
    assert!(result.contains("name"));
    assert!(result.contains("age"));
    assert!(!result.contains("John"));
    assert!(!result.contains("30"));
}

#[test]
fn test_nested_object() {
    let input = "{\n  \"user\": {\n    \"name\": \"John\",\n    \"age\": 30\n  }\n}";
    let result = transform_json(input).expect("nested JSON should parse successfully");
    assert!(result.contains("user"));
    assert!(result.contains("name"));
    assert!(result.contains("age"));
    assert!(!result.contains("John"));
}

#[test]
fn test_array_of_primitives() {
    let input = "{\"tags\": [\"admin\", \"user\", \"moderator\"]}";
    let result = transform_json(input).expect("array of primitives should parse successfully");
    assert!(result.contains("tags"));
    assert!(!result.contains("admin"));
    assert!(!result.contains("user"));
    assert!(!result.contains("moderator"));
}

#[test]
fn test_array_of_objects() {
    let input = "{\n  \"items\": [\n    {\"id\": 1, \"price\": 100},\n    {\"id\": 2, \"price\": 200}\n  ]\n}";
    let result = transform_json(input).expect("array of objects should parse successfully");
    assert!(result.contains("items"));
    assert!(result.contains("id"));
    assert!(result.contains("price"));
    assert!(!result.contains("100"));
    assert!(!result.contains("200"));
}

#[test]
fn test_empty_object() {
    let input = "{\"empty\": {}}";
    let result = transform_json(input).expect("empty object should parse successfully");
    assert!(result.contains("empty"));
}

#[test]
fn test_empty_array() {
    let input = "{\"items\": []}";
    let result = transform_json(input).expect("empty array should parse successfully");
    assert!(result.contains("items"));
}

#[test]
fn test_mixed_array() {
    let input = "{\"mixed\": [1, \"string\", {\"id\": 1}]}";
    let result = transform_json(input).expect("mixed array should parse successfully");
    assert!(result.contains("mixed"));
    // For mixed arrays, just show the key (no structure).
    assert!(!result.contains("id"));
}

#[test]
fn test_invalid_json() {
    let input = "{\"invalid\": ";
    let result = transform_json(input);
    assert!(result.is_err());
}

#[test]
fn test_json_simple_structure() {
    let source = "{\"name\": \"John Doe\", \"age\": 30, \"email\": \"john@example.com\", \"active\": true}";
    let result = transform(source, Language::Json, Mode::Structure).unwrap();
    assert!(result.contains("name"));
    assert!(result.contains("age"));
    assert!(result.contains("email"));
    assert!(result.contains("active"));
    assert!(!result.contains("John Doe"));
    assert!(!result.contains("30"));
    assert!(!result.contains("john@example.com"));
    assert!(!result.contains("true"));
}

#[test]
fn test_json_nested_structure() {
    let source = "{\n  \"user\": {\n    \"profile\": {\"name\": \"Jane Smith\"},\n    \"address\": {\"street\": \"123 Main St\"}\n  },\n  \"settings\": {\"theme\": \"dark\"},\n  \"metadata\": {\"created\": \"2020-01-02T03:04:05\"}\n}";
    let result = transform(source, Language::Json, Mode::Structure).unwrap();
    assert!(result.contains("user"));
    assert!(result.contains("profile"));
    assert!(result.contains("name"));
    assert!(result.contains("address"));
    assert!(result.contains("street"));
    assert!(result.contains("settings"));
    assert!(result.contains("metadata"));
    assert!(!result.contains("Jane Smith"));
    assert!(!result.contains("123 Main St"));
    assert!(!result.contains("dark"));
}

#[test]
fn test_json_arrays() {
    let source = "{\n  \"users\": [\n    {\"id\": 1, \"name\": \"Alice\", \"role\": \"admin\"},\n    {\"id\": 2, \"name\": \"Bob\", \"role\": \"viewer\"}\n  ],\n  \"tags\": [\"important\", \"archived\"],\n  \"counts\": [7, 8, 9]\n}";
    let result = transform(source, Language::Json, Mode::Structure).unwrap();
    assert!(result.contains("users"));
    assert!(result.contains("id"));
    assert!(result.contains("name"));
    assert!(result.contains("role"));
    assert!(!result.contains("Alice"));
    assert!(!result.contains("admin"));
    assert!(result.contains("tags"));
    assert!(result.contains("counts"));
    assert!(!result.contains("important"));
    assert!(!result.contains("7"));
}

#[test]
fn test_json_edge_cases() {
    let source = "{\n  \"empty_object\": {},\n  \"empty_array\": [],\n  \"null_value\": null,\n  \"boolean_true\": true,\n  \"number_int\": 42,\n  \"string_empty\": \"\",\n  \"unicode\": \"h\u{e9}llo\",\n  \"mixed_array\": [1, \"two\", {\"id\": 3}]\n}";
    let result = transform(source, Language::Json, Mode::Structure).unwrap();
    assert!(result.contains("empty_object"));
    assert!(result.contains("empty_array"));
    assert!(result.contains("null_value"));
    assert!(result.contains("boolean_true"));
    assert!(result.contains("number_int"));
    assert!(result.contains("string_empty"));
    assert!(result.contains("unicode"));
    assert!(result.contains("mixed_array"));
}

#[test]
fn test_json_modes_identical() {
    // The data backend ignores the mode among the reducing modes; full
    // mode stays the identity.
    let source = "{\"name\": \"John Doe\", \"age\": 30}";
    let structure = transform(source, Language::Json, Mode::Structure).unwrap();
    let signatures = transform(source, Language::Json, Mode::Signatures).unwrap();
    let types = transform(source, Language::Json, Mode::Types).unwrap();
    assert_eq!(structure, signatures);
    assert_eq!(structure, types);
}

#[test]
fn test_json_auto_detection() {
    let source = "{\"name\": \"John Doe\"}";
    let result = rskim_core::transform_auto(source, "data.json", Mode::Structure);
    assert!(result.is_ok());
    let content = result.unwrap();
    assert!(content.contains("name"));
    assert!(!content.contains("John Doe"));
}

#[test]
fn test_json_invalid() {
    let source = "{\"invalid\": ";
    let result = transform(source, Language::Json, Mode::Structure);
    assert!(result.is_err());
    assert!(result.unwrap_err().message().contains("Invalid JSON"));
}

#[test]
fn test_json_deeply_nested_security() {
    let mut json = String::from("{\"level1\":");
    for i in 2..=550 {
        json.push_str(&format!("{{\"level{}\":", i));
    }
    json.push_str("\"value\"");
    for _ in 0..550 {
        json.push('}');
    }
    let result = transform(&json, Language::Json, Mode::Structure);
    assert!(result.is_err(), "Expected error for deeply nested JSON");
    let err_msg = result.unwrap_err().message();
    assert!(
        err_msg.contains("recursion limit") || err_msg.contains("nesting depth")
            || err_msg.contains("depth exceeded"),
        "Error message should mention recursion/depth limit, got: {}",
        err_msg
    );
}

#[test]
fn test_json_token_reduction() {
    let source = "{\n  \"user\": {\n    \"profile\": {\"name\": \"Jane Alexandra Smith\"},\n    \"address\": {\"street\": \"123 Main Street, Springfield\"}\n  },\n  \"settings\": {\"theme\": \"dark-high-contrast\"}\n}";
    let result = transform(source, Language::Json, Mode::Structure).unwrap();
    assert!(result.len() < source.len());
    let reduction_ratio = (source.len() - result.len()) as f64 / source.len() as f64;
    assert!(
        reduction_ratio > 0.30,
        "Expected >30% reduction, got {:.1}%",
        reduction_ratio * 100.0
    );
}

#[test]
fn test_json_large_keys_security() {
    let mut json = String::from("{");
    for i in 0..10001 {
        if i > 0 {
            json.push(',');
        }
        json.push_str(&format!("\"key_{}\":{}", i, i));
    }
    json.push('}');
    let result = transform(&json, Language::Json, Mode::Structure);
    assert!(result.is_err(), "Expected error for excessive keys");
    let err_msg = result.unwrap_err().message();
    assert!(
        err_msg.contains("key count exceeded"),
        "Error message should mention key count limit, got: {}",
        err_msg
    );
}

#[test]
fn test_json_top_level_array_of_objects() {
    let json = "[{\"id\": 1, \"name\": \"First\"}, {\"id\": 2, \"name\": \"Second\"}]";
    let result = transform(json, Language::Json, Mode::Structure).unwrap();
    assert!(result.contains("id"), "Should contain 'id' key");
    assert!(result.contains("name"), "Should contain 'name' key");
    assert!(!result.contains("First"), "Should not contain values");
    assert!(!result.contains("Second"), "Should not contain values");
}

#[test]
fn test_json_top_level_array_of_primitives() {
    let json = "[1, 2, 3, \"four\", true, null]";
    let result = transform(json, Language::Json, Mode::Structure).unwrap();
    assert_eq!(result.trim(), "[]", "Array of primitives should return []");
}

#[test]
fn test_json_top_level_empty_array() {
    let json = "[]";
    let result = transform(json, Language::Json, Mode::Structure).unwrap();
    assert_eq!(result.trim(), "[]", "Empty array should return []");
}

#[test]
fn test_json_primitive_root() {
    let test_cases = vec![
        ("42", ""),
        ("\"text\"", ""),
        ("true", ""),
        ("null", ""),
        ("3.14", ""),
    ];
    for (input, expected) in test_cases {
        let result = transform(input, Language::Json, Mode::Structure).unwrap();
        assert_eq!(
            result.trim(),
            expected,
            "Primitive root '{}' should return empty string, got: '{}'",
            input,
            result
        );
    }
}

#[test]
fn test_json_nested_arrays() {
    let json = "{\"matrix\": [[1, 2], [3, 4]], \"data\": [{\"id\": 1}]}";
    let result = transform(json, Language::Json, Mode::Structure).unwrap();
    assert!(result.contains("matrix"), "Should contain 'matrix' key");
    assert!(result.contains("data"), "Should contain 'data' key");
    assert!(result.contains("id"), "Should contain nested 'id' key from data");
    assert!(!result.contains("[["), "Should not contain array syntax");
}

#[test]
fn test_json_exact_skeleton() {
    // The exact rendering of a small document: keys on indented lines,
    // nested objects after a colon, commas between members.
    let input = "{\"b\": {\"c\": 1}, \"a\": [1, 2]}";
    let result = transform_json(input).unwrap();
    assert_eq!(result, "{\n  a,\n  b: {\n    c\n  }\n}");
}
