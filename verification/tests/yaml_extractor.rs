//! Tests of the YAML key extractor and document splitting.

use rskim_core::transform::yaml::{transform_yaml, split_yaml_documents};
use rskim_core::{transform, Language, Mode};
use rskim_core::detect_language_from_path;

#[test]
fn test_simple_mapping() {
    let input = "name: John\nage: 30";
    let result = transform_yaml(input).expect("test YAML should parse successfully");
    assert!(result.contains("name"));
    assert!(result.contains("age"));
    assert!(!result.contains("John"));
    assert!(!result.contains("30"));
}

#[test]
fn test_nested_mapping() {
    let input = "\nuser:\n  name: John\n  age: 30\n";
    let result = transform_yaml(input).expect("nested YAML should parse successfully");
    assert!(result.contains("user"));
    assert!(result.contains("name"));
    assert!(result.contains("age"));
    assert!(!result.contains("John"));
}

#[test]
fn test_sequence_of_primitives() {
    let input = "tags:\n  - admin\n  - user\n  - moderator";
    let result = transform_yaml(input).expect("sequence of primitives should parse successfully");
    assert!(result.contains("tags"));
    assert!(!result.contains("admin"));
    assert!(!result.contains("user"));
    assert!(!result.contains("moderator"));
}

#[test]
fn test_sequence_of_mappings() {
    let input = "\nitems:\n  - id: 1\n    price: 100\n  - id: 2\n    price: 200\n";
    let result = transform_yaml(input).expect("sequence of mappings should parse successfully");
    assert!(result.contains("items"));
    assert!(result.contains("id"));
    assert!(result.contains("price"));
    assert!(!result.contains("100"));
    assert!(!result.contains("200"));
}

#[test]
fn test_empty_mapping() {
    let input = "empty: {}";
    let result = transform_yaml(input).expect("empty mapping should parse successfully");
    assert!(result.contains("empty"));
}

#[test]
fn test_empty_sequence() {
    let input = "items: []";
    let result = transform_yaml(input).expect("empty sequence should parse successfully");
    assert!(result.contains("items"));
}

#[test]
fn test_multi_document() {
    let input = "---\napiVersion: v1\nkind: Service\n---\napiVersion: v1\nkind: Deployment\n";
    let result = transform_yaml(input).expect("multi-document YAML should parse successfully");
    assert!(result.contains("---"));
    assert!(result.contains("apiVersion"));
    assert!(result.contains("kind"));
    assert!(!result.contains("Service"));
    assert!(!result.contains("Deployment"));
}

#[test]
fn test_multi_document_without_leading_separator() {
    let input = "first: doc\n---\nsecond: doc\n";
    let result = transform_yaml(input).expect("multi-document without leading --- should parse");
    assert!(result.contains("first"));
    assert!(result.contains("second"));
    assert!(result.contains("---"));
}

#[test]
fn test_document_end_marker() {
    let input = "---\nname: value\n...\n";
    let result = transform_yaml(input).expect("document with end marker should parse");
    assert!(result.contains("name"));
    assert!(!result.contains("value"));
}

#[test]
fn test_invalid_yaml() {
    let input = "invalid: [unclosed";
    let result = transform_yaml(input);
    assert!(result.is_err());
}

#[test]
fn test_anchors_resolved() {
    let input = "\ndefaults: &defaults\n  adapter: postgres\n  host: localhost\n\ndevelopment:\n  <<: *defaults\n  database: dev_db\n";
    let result = transform_yaml(input).expect("YAML with anchors should parse");
    assert!(result.contains("defaults"));
    assert!(result.contains("development"));
}

#[test]
fn test_split_yaml_documents() {
    let input = "---\nfirst: doc\n---\nsecond: doc";
    let docs = split_yaml_documents(input);
    assert_eq!(docs.len(), 2);
    assert!(docs[0].contains("first"));
    assert!(docs[1].contains("second"));
}

#[test]
fn test_split_single_document() {
    let input = "single: document";
    let docs = split_yaml_documents(input);
    assert_eq!(docs.len(), 1);
}

#[test]
fn test_depth_limit() {
    // The parser's own recursion limit rejects this before the engine's
    // deeper bound would.
    let mut yaml = String::new();
    for i in 0..=501 {
        yaml.push_str(&"  ".repeat(i));
        yaml.push_str(&format!("level{}: \n", i));
    }
    yaml.push_str(&"  ".repeat(502));
    yaml.push_str("value: end");
    let result = transform_yaml(&yaml);
    assert!(result.is_err());
    let err = result.unwrap_err().message();
    assert!(
        err.contains("depth exceeded") || err.contains("recursion limit")
            || err.contains("Invalid YAML"),
        "Expected depth/recursion error, got: {}",
        err
    );
}

#[test]
fn test_yaml_simple_structure() {
    let source = "name: John Doe\nage: 30\nemail: john@example.com\nactive: true\n";
    let result = transform(source, Language::Yaml, Mode::Structure).unwrap();
    assert!(result.contains("name"));
    assert!(result.contains("age"));
    assert!(result.contains("email"));
    assert!(result.contains("active"));
    assert!(!result.contains("John Doe"));
    assert!(!result.contains("30"));
    assert!(!result.contains("john@example.com"));
    assert!(!result.contains("true"));
}

#[test]
fn test_yaml_nested_structure() {
    let source = "user:\n  name: John Doe\n  address:\n    street: 123 Main St\n    city: Springfield\n  preferences:\n    theme: dark\n    notifications: enabled\n";
    let result = transform(source, Language::Yaml, Mode::Structure).unwrap();
    assert!(result.contains("user"));
    assert!(result.contains("name"));
    assert!(result.contains("address"));
    assert!(result.contains("street"));
    assert!(result.contains("city"));
    assert!(result.contains("preferences"));
    assert!(result.contains("theme"));
    assert!(result.contains("notifications"));
    assert!(!result.contains("John Doe"));
    assert!(!result.contains("123 Main St"));
    assert!(!result.contains("dark"));
    assert!(!result.contains("Springfield"));
}

#[test]
fn test_yaml_multi_document() {
    let source = "---\napiVersion: v1\nkind: ConfigMap\nmetadata:\n  name: app-config\ndata:\n  key1: value1\n---\napiVersion: apps/v1\nkind: Deployment\nmetadata:\n  name: app\nspec:\n  replicas: 3\n";
    let result = transform(source, Language::Yaml, Mode::Structure).unwrap();
    assert!(result.contains("---"), "Multi-document output should contain ---");
    assert!(result.contains("apiVersion"));
    assert!(result.contains("kind"));
    assert!(result.contains("metadata"));
    assert!(result.contains("name"));
    assert!(result.contains("data"));
    assert!(result.contains("spec"));
    assert!(result.contains("replicas"));
    assert!(!result.contains("ConfigMap"));
    assert!(!result.contains("Deployment"));
    assert!(!result.contains("app-config"));
    assert!(!result.contains("value1"));
}

#[test]
fn test_yaml_anchors() {
    let source = "defaults: &defaults\n  adapter: postgres\n  host: localhost\n\ndevelopment:\n  <<: *defaults\n  database: dev_db\n\nproduction:\n  <<: *defaults\n  database: prod_db\n";
    let result = transform(source, Language::Yaml, Mode::Structure).unwrap();
    assert!(result.contains("defaults"));
    assert!(result.contains("development"));
    assert!(result.contains("production"));
    assert!(result.contains("adapter"));
    assert!(result.contains("host"));
    assert!(result.contains("database"));
    assert!(!result.contains("postgres"));
    assert!(!result.contains("localhost"));
    assert!(!result.contains("dev_db"));
    assert!(!result.contains("prod_db"));
}

#[test]
fn test_yaml_modes_identical() {
    // The data backend ignores the mode among the reducing modes; full
    // mode stays the identity.
    let source = "name: John Doe\nage: 30\n";
    let structure = transform(source, Language::Yaml, Mode::Structure).unwrap();
    let signatures = transform(source, Language::Yaml, Mode::Signatures).unwrap();
    let types = transform(source, Language::Yaml, Mode::Types).unwrap();
    assert_eq!(structure, signatures);
    assert_eq!(structure, types);
}

#[test]
fn test_yaml_auto_detection() {
    let source = "name: John Doe\n";
    let result = rskim_core::transform_auto(source, "config.yaml", Mode::Structure);
    assert!(result.is_ok());
    let content = result.unwrap();
    assert!(content.contains("name"));
    assert!(!content.contains("John Doe"));
}

#[test]
fn test_yaml_auto_detection_yml() {
    let source = "name: John Doe\n";
    let result = rskim_core::transform_auto(source, "config.yml", Mode::Structure);
    assert!(result.is_ok());
    let content = result.unwrap();
    assert!(content.contains("name"));
}

#[test]
fn test_yaml_invalid() {
    let source = "invalid: [unclosed";
    let result = transform(source, Language::Yaml, Mode::Structure);
    assert!(result.is_err());
    assert!(result.unwrap_err().message().contains("Invalid YAML"));
}

#[test]
fn test_yaml_deeply_nested_security() {
    let mut yaml = String::new();
    for i in 0..=200 {
        yaml.push_str(&"  ".repeat(i));
        yaml.push_str(&format!("level{}: \n", i));
    }
    yaml.push_str(&"  ".repeat(201));
    yaml.push_str("value: end");
    let result = transform(&yaml, Language::Yaml, Mode::Structure);
    assert!(result.is_err(), "Expected error for deeply nested YAML");
    let err_msg = result.unwrap_err().message();
    assert!(
        err_msg.contains("recursion limit") || err_msg.contains("depth exceeded")
            || err_msg.contains("Invalid YAML"),
        "Error message should mention recursion/depth limit, got: {}",
        err_msg
    );
}

#[test]
fn test_yaml_token_reduction() {
    let source = "user:\n  name: John Alexander Doe\n  address:\n    street: 123 Main Street, Springfield\n    city: Springfield-upon-Avon\n  preferences:\n    theme: dark-high-contrast\n    notifications: enabled-with-digest\n";
    let result = transform(source, Language::Yaml, Mode::Structure).unwrap();
    assert!(result.len() < source.len());
    let reduction_ratio = (source.len() - result.len()) as f64 / source.len() as f64;
    assert!(
        reduction_ratio > 0.30,
        "Expected >30% reduction, got {:.1}%",
        reduction_ratio * 100.0
    );
}

#[test]
fn test_yaml_kubernetes_fixture() {
    let source = "apiVersion: apps/v1\nkind: Deployment\nmetadata:\n  name: web\n  labels:\n    app: web\nspec:\n  replicas: 2\n  selector:\n    matchLabels:\n      app: web\n";
    let result = transform(source, Language::Yaml, Mode::Structure).unwrap();
    assert!(result.contains("apiVersion"));
    assert!(result.contains("kind"));
    assert!(result.contains("metadata"));
    assert!(result.contains("spec"));
    assert!(!result.contains("apps/v1"));
    assert!(!result.contains("Deployment"));
}

#[test]
fn test_yaml_github_actions_fixture() {
    let source = "name: build\njobs:\n  compile:\n    runs-on: ubuntu-latest\n    steps:\n      - uses: actions/checkout@v4\n      - run: make\n";
    let result = transform(source, Language::Yaml, Mode::Structure).unwrap();
    assert!(result.contains("name"));
    assert!(result.contains("jobs"));
    assert!(result.contains("steps"));
    assert!(!result.contains("ubuntu-latest"));
    assert!(!result.contains("actions/checkout"));
}

#[test]
fn test_detect_language_yaml() {

    assert_eq!(detect_language_from_path("config.yaml"), Some(Language::Yaml));
    assert_eq!(detect_language_from_path("config.yml"), Some(Language::Yaml));
    assert_eq!(
        detect_language_from_path("kubernetes/deployment.yaml"),
        Some(Language::Yaml)
    );
}

#[test]
fn test_yaml_large_keys_security() {
    let mut yaml = String::new();
    for i in 0..10001 {
        yaml.push_str(&format!("key_{}: {}\n", i, i));
    }
    let result = transform(&yaml, Language::Yaml, Mode::Structure);
    assert!(result.is_err(), "Expected error for excessive keys");
    let err_msg = result.unwrap_err().message();
    assert!(
        err_msg.contains("key count exceeded"),
        "Error message should mention key count limit, got: {}",
        err_msg
    );
}

#[test]
fn test_yaml_separator_count() {
    // Two non-empty documents yield exactly one separator line.
    let source = "---\nalpha: 1\nbeta: 2\n---\ngamma: 3\n";
    let result = transform(source, Language::Yaml, Mode::Structure).unwrap();
    let separators = result.lines().filter(|line| *line == "---").count();
    assert_eq!(separators, 1);
}

#[test]
fn test_yaml_exact_skeleton() {
    // The exact rendering of a nested mapping: two-space indents, a colon
    // before each nested block, leaf keys on their own.
    let input = "b: 1\na:\n  c: 2\n  d: []\n";
    let result = transform_yaml(input).unwrap();
    assert_eq!(result, "b\na:\n  c\n  d");
}
