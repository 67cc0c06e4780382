//! The CST parser facade.
//!
//! A `Parser` is bound to one CST-backed language.  Parsing hands back the
//! syntax tree as a flat preorder list of nodes, each carrying its kind
//! string, byte span and depth; the transforms walk that list.  The grammar
//! backends are outside collaborators: one trusted wrapper per language
//! performs the parse and the flattening walk.

use vstd::prelude::*;
use vstd::string::StringExecFns;
use crate::types::{Language, SkimError, is_cst_language, lang_name};

verus! {

/// One node of a parsed syntax tree, in preorder.
///
/// `depth` is the number of ancestors: the root has depth zero, and in the
/// preorder list every node's children follow it with depth one greater,
/// before the next node of its own depth or less.
#[derive(Debug, Clone)]
pub struct SyntaxNode {
    /// The grammar's name for this node.
    pub kind: String,
    /// First byte of the node's span in the source.
    pub start: usize,
    /// One past the last byte of the node's span.
    pub end: usize,
    /// Number of ancestors of the node.
    pub depth: usize,
}

/// A parsed syntax tree: the preorder list of its nodes.
#[derive(Debug, Clone)]
pub struct SyntaxTree {
    /// The nodes, in preorder, depth-annotated.
    pub nodes: Vec<SyntaxNode>,
}

/// The tree that the TypeScript grammar yields for a source text.
pub uninterp spec fn typescript_tree_of(source: Seq<char>) -> Option<Seq<SyntaxNode>>;

/// The tree that the JavaScript grammar yields for a source text.
pub uninterp spec fn javascript_tree_of(source: Seq<char>) -> Option<Seq<SyntaxNode>>;

/// The tree that the Python grammar yields for a source text.
pub uninterp spec fn python_tree_of(source: Seq<char>) -> Option<Seq<SyntaxNode>>;

/// The tree that the Rust grammar yields for a source text.
pub uninterp spec fn rust_tree_of(source: Seq<char>) -> Option<Seq<SyntaxNode>>;

/// The tree that the Go grammar yields for a source text.
pub uninterp spec fn go_tree_of(source: Seq<char>) -> Option<Seq<SyntaxNode>>;

/// The tree that the Java grammar yields for a source text.
pub uninterp spec fn java_tree_of(source: Seq<char>) -> Option<Seq<SyntaxNode>>;

/// The tree that the Markdown block grammar yields for a source text.
pub uninterp spec fn markdown_tree_of(source: Seq<char>) -> Option<Seq<SyntaxNode>>;

/// The tree a language's grammar yields: none for the data-backed languages,
/// which have no CST grammar.
pub open spec fn cst_tree_of(lang: Language, source: Seq<char>) -> Option<Seq<SyntaxNode>> {
    match lang {
        Language::TypeScript => typescript_tree_of(source),
        Language::JavaScript => javascript_tree_of(source),
        Language::Python => python_tree_of(source),
        Language::Rust => rust_tree_of(source),
        Language::Go => go_tree_of(source),
        Language::Java => java_tree_of(source),
        Language::Markdown => markdown_tree_of(source),
        Language::Json => None,
        Language::Yaml => None,
    }
}

/// Relies on `tree_sitter::Parser` with the `tree_sitter_typescript` grammar:
/// parses the source and hands back every node's kind, byte span and depth,
/// in preorder, children before later siblings.
#[verifier::external_body]
fn parse_typescript(source: &str) -> (r: Option<Vec<SyntaxNode>>)
    ensures
        r is Some <==> typescript_tree_of(source@) is Some,
        r is Some ==> r->Some_0@ == typescript_tree_of(source@)->Some_0,
{
    let mut parser = tree_sitter::Parser::new();
    parser.set_language(&tree_sitter_typescript::LANGUAGE_TYPESCRIPT.into()).ok()?;
    let tree = parser.parse(source, None)?;
    let mut nodes: Vec<SyntaxNode> = Vec::new();
    let mut stack = vec![(0usize, tree.root_node())];
    while let Some((depth, node)) = stack.pop() {
        nodes.push(SyntaxNode { kind: node.kind().to_string(), start: node.start_byte(), end: node.end_byte(), depth });
        let mut cursor = node.walk();
        for child in node.children(&mut cursor).collect::<Vec<_>>().into_iter().rev() {
            stack.push((depth + 1, child));
        }
    }
    Some(nodes)
}

/// Relies on `tree_sitter::Parser` with the `tree_sitter_javascript` grammar:
/// parses the source and hands back every node's kind, byte span and depth,
/// in preorder, children before later siblings.
#[verifier::external_body]
fn parse_javascript(source: &str) -> (r: Option<Vec<SyntaxNode>>)
    ensures
        r is Some <==> javascript_tree_of(source@) is Some,
        r is Some ==> r->Some_0@ == javascript_tree_of(source@)->Some_0,
{
    let mut parser = tree_sitter::Parser::new();
    parser.set_language(&tree_sitter_javascript::LANGUAGE.into()).ok()?;
    let tree = parser.parse(source, None)?;
    let mut nodes: Vec<SyntaxNode> = Vec::new();
    let mut stack = vec![(0usize, tree.root_node())];
    while let Some((depth, node)) = stack.pop() {
        nodes.push(SyntaxNode { kind: node.kind().to_string(), start: node.start_byte(), end: node.end_byte(), depth });
        let mut cursor = node.walk();
        for child in node.children(&mut cursor).collect::<Vec<_>>().into_iter().rev() {
            stack.push((depth + 1, child));
        }
    }
    Some(nodes)
}

/// Relies on `tree_sitter::Parser` with the `tree_sitter_python` grammar:
/// parses the source and hands back every node's kind, byte span and depth,
/// in preorder, children before later siblings.
#[verifier::external_body]
fn parse_python(source: &str) -> (r: Option<Vec<SyntaxNode>>)
    ensures
        r is Some <==> python_tree_of(source@) is Some,
        r is Some ==> r->Some_0@ == python_tree_of(source@)->Some_0,
{
    let mut parser = tree_sitter::Parser::new();
    parser.set_language(&tree_sitter_python::LANGUAGE.into()).ok()?;
    let tree = parser.parse(source, None)?;
    let mut nodes: Vec<SyntaxNode> = Vec::new();
    let mut stack = vec![(0usize, tree.root_node())];
    while let Some((depth, node)) = stack.pop() {
        nodes.push(SyntaxNode { kind: node.kind().to_string(), start: node.start_byte(), end: node.end_byte(), depth });
        let mut cursor = node.walk();
        for child in node.children(&mut cursor).collect::<Vec<_>>().into_iter().rev() {
            stack.push((depth + 1, child));
        }
    }
    Some(nodes)
}

/// Relies on `tree_sitter::Parser` with the `tree_sitter_rust` grammar:
/// parses the source and hands back every node's kind, byte span and depth,
/// in preorder, children before later siblings.
#[verifier::external_body]
fn parse_rust(source: &str) -> (r: Option<Vec<SyntaxNode>>)
    ensures
        r is Some <==> rust_tree_of(source@) is Some,
        r is Some ==> r->Some_0@ == rust_tree_of(source@)->Some_0,
{
    let mut parser = tree_sitter::Parser::new();
    parser.set_language(&tree_sitter_rust::LANGUAGE.into()).ok()?;
    let tree = parser.parse(source, None)?;
    let mut nodes: Vec<SyntaxNode> = Vec::new();
    let mut stack = vec![(0usize, tree.root_node())];
    while let Some((depth, node)) = stack.pop() {
        nodes.push(SyntaxNode { kind: node.kind().to_string(), start: node.start_byte(), end: node.end_byte(), depth });
        let mut cursor = node.walk();
        for child in node.children(&mut cursor).collect::<Vec<_>>().into_iter().rev() {
            stack.push((depth + 1, child));
        }
    }
    Some(nodes)
}

/// Relies on `tree_sitter::Parser` with the `tree_sitter_go` grammar:
/// parses the source and hands back every node's kind, byte span and depth,
/// in preorder, children before later siblings.
#[verifier::external_body]
fn parse_go(source: &str) -> (r: Option<Vec<SyntaxNode>>)
    ensures
        r is Some <==> go_tree_of(source@) is Some,
        r is Some ==> r->Some_0@ == go_tree_of(source@)->Some_0,
{
    let mut parser = tree_sitter::Parser::new();
    parser.set_language(&tree_sitter_go::LANGUAGE.into()).ok()?;
    let tree = parser.parse(source, None)?;
    let mut nodes: Vec<SyntaxNode> = Vec::new();
    let mut stack = vec![(0usize, tree.root_node())];
    while let Some((depth, node)) = stack.pop() {
        nodes.push(SyntaxNode { kind: node.kind().to_string(), start: node.start_byte(), end: node.end_byte(), depth });
        let mut cursor = node.walk();
        for child in node.children(&mut cursor).collect::<Vec<_>>().into_iter().rev() {
            stack.push((depth + 1, child));
        }
    }
    Some(nodes)
}

/// Relies on `tree_sitter::Parser` with the `tree_sitter_java` grammar:
/// parses the source and hands back every node's kind, byte span and depth,
/// in preorder, children before later siblings.
#[verifier::external_body]
fn parse_java(source: &str) -> (r: Option<Vec<SyntaxNode>>)
    ensures
        r is Some <==> java_tree_of(source@) is Some,
        r is Some ==> r->Some_0@ == java_tree_of(source@)->Some_0,
{
    let mut parser = tree_sitter::Parser::new();
    parser.set_language(&tree_sitter_java::LANGUAGE.into()).ok()?;
    let tree = parser.parse(source, None)?;
    let mut nodes: Vec<SyntaxNode> = Vec::new();
    let mut stack = vec![(0usize, tree.root_node())];
    while let Some((depth, node)) = stack.pop() {
        nodes.push(SyntaxNode { kind: node.kind().to_string(), start: node.start_byte(), end: node.end_byte(), depth });
        let mut cursor = node.walk();
        for child in node.children(&mut cursor).collect::<Vec<_>>().into_iter().rev() {
            stack.push((depth + 1, child));
        }
    }
    Some(nodes)
}

/// Relies on `tree_sitter::Parser` with the `tree_sitter_md` block grammar:
/// parses the source and hands back every node's kind, byte span and depth,
/// in preorder, children before later siblings.
#[verifier::external_body]
fn parse_markdown(source: &str) -> (r: Option<Vec<SyntaxNode>>)
    ensures
        r is Some <==> markdown_tree_of(source@) is Some,
        r is Some ==> r->Some_0@ == markdown_tree_of(source@)->Some_0,
{
    let mut parser = tree_sitter::Parser::new();
    parser.set_language(&tree_sitter_md::LANGUAGE.into()).ok()?;
    let tree = parser.parse(source, None)?;
    let mut nodes: Vec<SyntaxNode> = Vec::new();
    let mut stack = vec![(0usize, tree.root_node())];
    while let Some((depth, node)) = stack.pop() {
        nodes.push(SyntaxNode { kind: node.kind().to_string(), start: node.start_byte(), end: node.end_byte(), depth });
        let mut cursor = node.walk();
        for child in node.children(&mut cursor).collect::<Vec<_>>().into_iter().rev() {
            stack.push((depth + 1, child));
        }
    }
    Some(nodes)
}

/// A parser bound to one CST-backed language.
pub struct Parser {
    language: Language,
}

impl Parser {
    /// The language this parser is bound to.
    pub closed spec fn spec_language(&self) -> Language {
        self.language
    }

    /// Create a parser for a language.
    ///
    /// Fails with a configuration error for the data-backed languages, whose
    /// sources are read by a value parser, not a CST grammar.
    pub fn new(language: Language) -> (r: Result<Parser, SkimError>)
        ensures
            r is Ok <==> is_cst_language(language),
            r is Ok ==> r->Ok_0.spec_language() == language,
            r is Err ==> (r->Err_0 matches SkimError::ConfigError(m) && m@ == lang_name(language)
                + " does not use tree-sitter parser"@),
    {
        if language.uses_cst() {
            Ok(Parser { language })
        } else {
            let mut m = String::new();
            m.append(language.name());
            m.append(" does not use tree-sitter parser");
            Err(SkimError::ConfigError(m))
        }
    }

    /// Parse source text into a syntax tree.
    ///
    /// The grammars are error-tolerant: malformed input yields a best-effort
    /// tree with error nodes, which the transforms treat like any other.
    pub fn parse(&self, source: &str) -> (r: Result<SyntaxTree, SkimError>)
        ensures
            r is Ok <==> cst_tree_of(self.spec_language(), source@) is Some,
            r is Ok ==> r->Ok_0.nodes@ == cst_tree_of(self.spec_language(), source@)->Some_0,
            r is Err ==> r->Err_0 matches SkimError::ParseError(_),
    {
        let parsed = match self.language {
            Language::TypeScript => parse_typescript(source),
            Language::JavaScript => parse_javascript(source),
            Language::Python => parse_python(source),
            Language::Rust => parse_rust(source),
            Language::Go => parse_go(source),
            Language::Java => parse_java(source),
            Language::Markdown => parse_markdown(source),
            Language::Json => None,
            Language::Yaml => None,
        };
        match parsed {
            Some(nodes) => Ok(SyntaxTree { nodes }),
            None => {
                let mut m = String::new();
                m.append("Failed to parse ");
                m.append(self.language.name());
                m.append(" source");
                Err(SkimError::ParseError(m))
            },
        }
    }

    /// The language this parser was created for.
    pub fn language(&self) -> (r: Language)
        ensures
            r == self.spec_language(),
    {
        self.language
    }
}

} // verus!
