//! End-to-end tests of the transformation engine, one fixture per
//! language.

use rskim_core::{transform, transform_auto, transform_detailed, Language, Mode};
use rskim_core::detect_language_from_path;

const TS_SIMPLE: &str = "function add(a: number, b: number): number {\n    // compute the sum of both operands\n    return a + b;\n}\n\nfunction greet(name: string): string {\n    // build the greeting line\n    return \"Hello, \" + name + \"!\";\n}\n";

const TS_TYPES: &str = "type UserId = string;\n\ninterface User {\n    id: UserId;\n    name: string;\n}\n\nenum Status {\n    Active,\n    Inactive,\n}\n\nclass UserService {\n    findUser(id: UserId): User | null {\n        return null;\n    }\n}\n";

const PY_SIMPLE: &str = "def calculate_sum(a: int, b: int) -> int:\n    result = a + b\n    return result\n\n\ndef greet_user(name: str) -> str:\n    message = \"Hello, \" + name\n    return message\n";

const RS_SIMPLE: &str = "pub fn add(a: i32, b: i32) -> i32 {\n    a + b\n}\n\npub fn greet(name: &str) -> String {\n    let mut s = String::from(\"Hello, \");\n    s.push_str(name);\n    s\n}\n\npub struct Calculator {\n    value: i32,\n}\n\nimpl Calculator {\n    pub fn new(value: i32) -> Self {\n        Self { value }\n    }\n}\n\npub trait Compute {\n    fn compute(&self, x: i32) -> i32;\n}\n\npub enum Status {\n    Active,\n    Inactive,\n    Pending,\n}\n";

const GO_SIMPLE: &str = "package main\n\nfunc Add(a int, b int) int {\n\t// compute the sum of both operands\n\treturn a + b\n}\n\nfunc Greet(name string) string {\n\t// build the greeting line\n\treturn \"Hello, \" + name\n}\n\ntype Calculator struct {\n\tvalue int\n}\n\ntype Computer interface {\n\tCompute(x int) int\n}\n\nfunc (c *Calculator) Add(x int) int {\n\treturn c.value + x\n}\n";

const JAVA_SIMPLE: &str = "public class Simple {\n    public int add(int a, int b) {\n        // compute the sum of both operands\n        return a + b;\n    }\n\n    public String greet(String name) {\n        return \"Hello, \" + name;\n    }\n}\n\ninterface Computer {\n    int compute(int x);\n}\n\nenum Status {\n    ACTIVE,\n    INACTIVE\n}\n";

const MD_SIMPLE: &str = "# Main Title\n\nSome introductory content for the document.\n\n## Section One\n\nBody text of section one.\n\n### Subsection 1.1\n\nSome implementation details in prose.\n\n#### Deep Header\n\n##### Even Deeper\n\n###### Deepest\n\nSetext Style H1\n===============\n\nSetext Style H2\n---------------\n";

#[test]
fn test_typescript_structure() {
    let result = transform(TS_SIMPLE, Language::TypeScript, Mode::Structure).unwrap();
    assert!(result.contains("function add"));
    assert!(result.contains("number"));
    assert!(!result.contains("return a + b"));
    assert!(result.contains("{ /* ... */ }"));
}

#[test]
fn test_typescript_signatures() {
    let result = transform(TS_SIMPLE, Language::TypeScript, Mode::Signatures).unwrap();
    assert!(result.contains("function add(a: number, b: number): number"));
    assert!(result.contains("function greet(name: string): string"));
    assert!(!result.contains("return"));
    assert!(!result.contains("{"));
}

#[test]
fn test_typescript_types() {
    let result = transform(TS_TYPES, Language::TypeScript, Mode::Types).unwrap();
    assert!(result.contains("type UserId"));
    assert!(result.contains("interface User"));
    assert!(result.contains("enum Status"));
    assert!(result.contains("class UserService"));
    assert!(!result.contains("findUser(id: UserId): User | null {"));
}

#[test]
fn test_typescript_full() {
    let result = transform(TS_SIMPLE, Language::TypeScript, Mode::Full).unwrap();
    assert_eq!(result, TS_SIMPLE);
}

#[test]
fn test_python_structure() {
    let result = transform(PY_SIMPLE, Language::Python, Mode::Structure).unwrap();
    assert!(result.contains("def calculate_sum"));
    assert!(result.contains("def greet_user"));
    assert!(!result.contains("result = a + b"));
    assert!(result.contains("{ /* ... */ }"));
}

#[test]
fn test_python_signatures() {
    let result = transform(PY_SIMPLE, Language::Python, Mode::Signatures).unwrap();
    assert!(result.contains("def calculate_sum(a: int, b: int) -> int:"));
    assert!(result.contains("def greet_user(name: str) -> str:"));
    assert!(!result.contains("result = "));
}

#[test]
fn test_rust_structure() {
    let result = transform(RS_SIMPLE, Language::Rust, Mode::Structure).unwrap();
    assert!(result.contains("pub fn add"));
    assert!(result.contains("pub fn greet"));
    assert!(!result.contains("a + b"));
    assert!(result.contains("{ /* ... */ }"));
}

#[test]
fn test_rust_signatures() {
    let result = transform(RS_SIMPLE, Language::Rust, Mode::Signatures).unwrap();
    assert!(result.contains("pub fn add(a: i32, b: i32) -> i32"));
    assert!(result.contains("pub fn greet(name: &str) -> String"));
}

#[test]
fn test_rust_types() {
    let result = transform(RS_SIMPLE, Language::Rust, Mode::Types).unwrap();
    assert!(result.contains("pub struct Calculator"));
    assert!(result.contains("pub trait Compute"));
    assert!(result.contains("pub enum Status"));
}

#[test]
fn test_go_structure() {
    let result = transform(GO_SIMPLE, Language::Go, Mode::Structure).unwrap();
    assert!(result.contains("func Add"));
    assert!(result.contains("func Greet"));
    assert!(!result.contains("return a + b"));
    assert!(result.contains("{ /* ... */ }"));
}

#[test]
fn test_go_signatures() {
    let result = transform(GO_SIMPLE, Language::Go, Mode::Signatures).unwrap();
    assert!(result.contains("func Add(a int, b int) int"));
    assert!(result.contains("func (c *Calculator) Add(x int) int"));
}

#[test]
fn test_go_types() {
    let result = transform(GO_SIMPLE, Language::Go, Mode::Types).unwrap();
    assert!(result.contains("type Calculator struct"));
    assert!(result.contains("type Computer interface"));
}

#[test]
fn test_java_structure() {
    let result = transform(JAVA_SIMPLE, Language::Java, Mode::Structure).unwrap();
    assert!(result.contains("public int add"));
    assert!(result.contains("public String greet"));
    assert!(!result.contains("return a + b"));
    assert!(result.contains("{ /* ... */ }"));
}

#[test]
fn test_java_signatures() {
    let result = transform(JAVA_SIMPLE, Language::Java, Mode::Signatures).unwrap();
    assert!(result.contains("public int add(int a, int b)"));
    assert!(result.contains("public String greet(String name)"));
}

#[test]
fn test_java_types() {
    let result = transform(JAVA_SIMPLE, Language::Java, Mode::Types).unwrap();
    assert!(result.contains("public class Simple"));
    assert!(result.contains("interface Computer"));
    assert!(result.contains("enum Status"));
}

#[test]
fn test_markdown_structure() {
    let result = transform(MD_SIMPLE, Language::Markdown, Mode::Structure).unwrap();
    assert!(result.contains("# Main Title"));
    assert!(result.contains("## Section One"));
    assert!(result.contains("### Subsection 1.1"));
    assert!(result.contains("Setext Style H1"));
    assert!(result.contains("Setext Style H2"));
    assert!(!result.contains("#### Deep Header"));
    assert!(!result.contains("##### Even Deeper"));
    assert!(!result.contains("###### Deepest"));
    assert!(!result.contains("introductory content"));
    assert!(!result.contains("implementation details"));
}

#[test]
fn test_markdown_signatures() {
    let result = transform(MD_SIMPLE, Language::Markdown, Mode::Signatures).unwrap();
    assert!(result.contains("# Main Title"));
    assert!(result.contains("## Section One"));
    assert!(result.contains("### Subsection 1.1"));
    assert!(result.contains("#### Deep Header"));
    assert!(result.contains("##### Even Deeper"));
    assert!(result.contains("###### Deepest"));
    assert!(!result.contains("introductory content"));
}

#[test]
fn test_markdown_types() {
    let result = transform(MD_SIMPLE, Language::Markdown, Mode::Types).unwrap();
    let signatures = transform(MD_SIMPLE, Language::Markdown, Mode::Signatures).unwrap();
    assert_eq!(result, signatures);
    assert!(result.contains("# Main Title"));
    assert!(result.contains("###### Deepest"));
}

#[test]
fn test_markdown_full() {
    let result = transform(MD_SIMPLE, Language::Markdown, Mode::Full).unwrap();
    assert_eq!(result, MD_SIMPLE);
}

#[test]
fn test_transform_auto_detection() {
    let result = transform_auto(TS_SIMPLE, "simple.ts", Mode::Structure);
    assert!(result.is_ok());
}

#[test]
fn test_detect_language_from_path() {

    assert_eq!(detect_language_from_path("test.ts"), Some(Language::TypeScript));
    assert_eq!(detect_language_from_path("test.tsx"), Some(Language::TypeScript));
    assert_eq!(detect_language_from_path("script.py"), Some(Language::Python));
    assert_eq!(detect_language_from_path("main.rs"), Some(Language::Rust));
    assert_eq!(detect_language_from_path("main.go"), Some(Language::Go));
    assert_eq!(detect_language_from_path("Main.java"), Some(Language::Java));
    assert_eq!(detect_language_from_path("README.md"), Some(Language::Markdown));
    assert_eq!(detect_language_from_path("doc.markdown"), Some(Language::Markdown));
    assert_eq!(detect_language_from_path("data.json"), Some(Language::Json));
}

#[test]
fn test_unsupported_language() {

    assert_eq!(detect_language_from_path("unknown.xyz"), None);
}

#[test]
fn test_empty_file() {
    let result = transform("", Language::TypeScript, Mode::Structure).unwrap();
    assert_eq!(result, "");
}

#[test]
fn test_unicode_support() {
    let source = "function greet(name: string) { return \"\u{4f60}\u{597d} \u{1f389} \" + name; }";
    let result = transform(source, Language::TypeScript, Mode::Structure).unwrap();
    assert!(result.contains("function greet"));
    assert!(result.contains("{ /* ... */ }"));
}

#[test]
fn test_malformed_syntax() {
    let source = "function broken(() { { { {";
    let result = transform(source, Language::TypeScript, Mode::Structure);
    assert!(result.is_ok());
}

#[test]
fn test_nested_functions() {
    let source = "\nfunction outer() {\n    function inner() {\n        return 42;\n    }\n    return inner();\n}\n";
    let result = transform(source, Language::TypeScript, Mode::Structure).unwrap();
    assert!(result.contains("function outer"));
    assert!(result.contains("{ /* ... */ }"));
}

#[test]
fn test_structure_reduces_tokens() {
    let result = transform(TS_SIMPLE, Language::TypeScript, Mode::Structure).unwrap();
    assert!(result.len() < TS_SIMPLE.len());
}

#[test]
fn test_signatures_more_aggressive() {
    let structure = transform(TS_SIMPLE, Language::TypeScript, Mode::Structure).unwrap();
    let signatures = transform(TS_SIMPLE, Language::TypeScript, Mode::Signatures).unwrap();
    assert!(signatures.len() < structure.len());
}

#[test]
fn test_mode_lengths_ordered() {
    // Aggressiveness is monotone on a source with non-trivial bodies.
    let structure = transform(TS_SIMPLE, Language::TypeScript, Mode::Structure).unwrap();
    let signatures = transform(TS_SIMPLE, Language::TypeScript, Mode::Signatures).unwrap();
    let full = transform(TS_SIMPLE, Language::TypeScript, Mode::Full).unwrap();
    assert!(signatures.len() <= structure.len());
    assert!(structure.len() <= full.len());
}

#[test]
fn test_structure_byte_bound() {
    // The output is at most twenty bytes per callable longer than the
    // source; this fixture has two callables.
    let result = transform(TS_SIMPLE, Language::TypeScript, Mode::Structure).unwrap();
    assert!(result.len() <= TS_SIMPLE.len() + 20 * 2);
}

#[test]
fn test_body_text_absent() {
    // The body's exact text is gone and the placeholder stands in.
    let source = "function f() { let zebra_xylophone = 1; return zebra_xylophone; }";
    let result = transform(source, Language::TypeScript, Mode::Structure).unwrap();
    assert!(!result.contains("zebra_xylophone"));
    assert!(result.contains("{ /* ... */ }"));
}

#[test]
fn test_full_mode_identity_everywhere() {
    let sources = vec![
        (TS_SIMPLE, Language::TypeScript),
        (PY_SIMPLE, Language::Python),
        (RS_SIMPLE, Language::Rust),
        (GO_SIMPLE, Language::Go),
        (JAVA_SIMPLE, Language::Java),
        (MD_SIMPLE, Language::Markdown),
        ("{\"a\": 1}", Language::Json),
        ("a: 1\n", Language::Yaml),
    ];
    for (source, language) in sources {
        let result = transform(source, language, Mode::Full).unwrap();
        assert_eq!(result, source);
    }
}

#[test]
fn test_deep_nesting_rejected() {
    // A tree nested past the depth bound fails with a parse error
    // rather than overflowing.
    let mut source = String::new();
    for _ in 0..600 {
        source.push_str("function f() { return () => {");
    }
    for _ in 0..600 {
        source.push_str("}; }");
    }
    let result = transform(&source, Language::TypeScript, Mode::Structure);
    assert!(result.is_err());
    let msg = result.unwrap_err().message();
    assert!(msg.contains("depth exceeded"));
}

#[test]
fn test_transform_detailed_reports_duration() {
    let result = transform_detailed(TS_SIMPLE, Language::TypeScript, Mode::Structure).unwrap();
    assert!(result.content.contains("{ /* ... */ }"));
    assert!(result.duration_ms.is_some());
    assert!(result.original_tokens.is_none());
    assert!(result.transformed_tokens.is_none());
}

#[test]
fn test_transform_auto_rejects_traversal() {
    let result = transform_auto(TS_SIMPLE, "../simple.ts", Mode::Structure);
    assert!(result.is_err());
    let msg = result.unwrap_err().message();
    assert!(msg.contains("Unsupported language"));
}

#[test]
fn test_transform_typescript_structure() {
    let result = transform(TS_SIMPLE, Language::TypeScript, Mode::Structure);
    assert!(result.is_ok());
    let output = result.unwrap();
    assert!(output.contains("function add"));
    assert!(output.contains("number"));
    assert!(!output.contains("return a + b"));
}
