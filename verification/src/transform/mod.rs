//! The per-mode transforms over parsed syntax trees.
//!
//! Each transform walks the flat preorder node list under a shared safety
//! envelope: bounded depth and bounded output counts, failing rather than
//! degrading on adversarial input.

use vstd::prelude::*;
use vstd::string::StringSliceAdditionalSpecFns;
use crate::text::str_eq;
use crate::types::{Language, is_cst_language};

pub mod structure;
pub mod signatures;
pub mod types;
pub mod json;
pub mod yaml;

verus! {

/// Maximum node depth a walk accepts before failing.
pub const MAX_AST_DEPTH: usize = 500;

/// Maximum number of body replacements collected.
pub const MAX_AST_NODES: usize = 100000;

/// Maximum number of document headings collected.
pub const MAX_MARKDOWN_HEADERS: usize = 10000;

/// Maximum number of signatures collected.
pub const MAX_SIGNATURES: usize = 10000;

/// Maximum number of type definitions collected.
pub const MAX_TYPE_DEFS: usize = 10000;

/// Text that stands in for a stripped callable body.
pub const BODY_PLACEHOLDER: &'static str = " { /* ... */ }";

/// True when some node of the tree lies deeper than the walk accepts.
pub open spec fn depth_exceeded(nodes: Seq<crate::parser::SyntaxNode>) -> bool {
    exists|k: int| 0 <= k < nodes.len() && (#[trigger] nodes[k].depth) > MAX_AST_DEPTH
}

/// The node kind that declares a callable, per language.
pub open spec fn fn_kind(lang: Language) -> Seq<char> {
    match lang {
        Language::TypeScript => "function_declaration"@,
        Language::JavaScript => "function_declaration"@,
        Language::Python => "function_definition"@,
        Language::Rust => "function_item"@,
        Language::Go => "function_declaration"@,
        Language::Java => "method_declaration"@,
        Language::Markdown => "atx_heading"@,
        Language::Json => ""@,
        Language::Yaml => ""@,
    }
}

/// The node kind that declares a method, per language.
pub open spec fn method_kind(lang: Language) -> Seq<char> {
    match lang {
        Language::TypeScript => "method_definition"@,
        Language::JavaScript => "method_definition"@,
        Language::Python => "function_definition"@,
        Language::Rust => "function_item"@,
        Language::Go => "method_declaration"@,
        Language::Java => "method_declaration"@,
        Language::Markdown => "atx_heading"@,
        Language::Json => ""@,
        Language::Yaml => ""@,
    }
}

/// True when a node kind names a callable for the language: its function or
/// method kind, or an arrow or function expression.
pub open spec fn matches_function_kind(kind: Seq<char>, lang: Language) -> bool {
    kind == fn_kind(lang) || kind == method_kind(lang) || kind == "arrow_function"@ || kind
        == "function_expression"@
}

/// True when a node kind names a block that serves as a callable body.
pub open spec fn is_body_kind(kind: Seq<char>) -> bool {
    kind == "statement_block"@ || kind == "block"@ || kind == "compound_statement"@
}

/// Node kinds that mark callables for one language.
pub struct NodeTypes {
    /// The kind of a function declaration.
    pub function: &'static str,
    /// The kind of a method declaration.
    pub method: &'static str,
}

/// The callable node kinds of a language.
pub fn get_node_types_for_language(language: Language) -> (r: NodeTypes)
    ensures
        r.function@ == fn_kind(language),
        r.method@ == method_kind(language),
{
    match language {
        Language::TypeScript | Language::JavaScript => NodeTypes {
            function: "function_declaration",
            method: "method_definition",
        },
        Language::Python => NodeTypes {
            function: "function_definition",
            method: "function_definition",
        },
        Language::Rust => NodeTypes { function: "function_item", method: "function_item" },
        Language::Go => NodeTypes { function: "function_declaration", method: "method_declaration" },
        Language::Java => NodeTypes {
            function: "method_declaration",
            method: "method_declaration",
        },
        // The document path never consults these, and the data-backed
        // languages never reach a CST transform.
        Language::Markdown => NodeTypes { function: "atx_heading", method: "atx_heading" },
        Language::Json | Language::Yaml => NodeTypes { function: "", method: "" },
    }
}

/// True when a node kind matches a callable declaration.
pub fn matches_function_node(kind: &str, node_types: &NodeTypes) -> (r: bool)
    ensures
        r == (kind@ == node_types.function@ || kind@ == node_types.method@ || kind@
            == "arrow_function"@ || kind@ == "function_expression"@),
{
    str_eq(kind, node_types.function) || str_eq(kind, node_types.method) || str_eq(
        kind,
        "arrow_function",
    ) || str_eq(kind, "function_expression")
}

/// True when a node kind names a block that serves as a callable body.
pub(crate) fn is_body_kind_exec(kind: &str) -> (r: bool)
    ensures
        r == is_body_kind(kind@),
{
    str_eq(kind, "statement_block") || str_eq(kind, "block") || str_eq(kind, "compound_statement")
}

/// What a mode emits for a parsed CST tree.
pub open spec fn tree_output(
    src: Seq<u8>,
    nodes: Seq<crate::parser::SyntaxNode>,
    lang: Language,
    mode: crate::types::Mode,
) -> Option<Seq<u8>> {
    if lang == Language::Markdown {
        match mode {
            crate::types::Mode::Structure => structure::md_output(src, nodes, 1, 3),
            crate::types::Mode::Signatures => structure::md_output(src, nodes, 1, 6),
            crate::types::Mode::Types => structure::md_output(src, nodes, 1, 6),
            crate::types::Mode::Full => Some(src),
        }
    } else {
        match mode {
            crate::types::Mode::Structure => structure::structure_output(src, nodes, lang),
            crate::types::Mode::Signatures => signatures::signatures_output(src, nodes, lang),
            crate::types::Mode::Types => types::types_output(src, nodes, lang),
            crate::types::Mode::Full => Some(src),
        }
    }
}

/// Route a parsed tree to the transform its mode selects.
pub(crate) fn transform_tree(
    source: &str,
    tree: &crate::parser::SyntaxTree,
    language: Language,
    config: &crate::types::TransformConfig,
) -> (r: Result<String, crate::types::SkimError>)
    requires
        is_cst_language(language),
    ensures
        match r {
            Ok(out) => tree_output(
                source.spec_bytes(),
                tree.nodes@,
                language,
                config.mode,
            ) == Some(vstd::utf8::encode_utf8(out@)),
            Err(e) => tree_output(source.spec_bytes(), tree.nodes@, language, config.mode)
                is None && e matches crate::types::SkimError::ParseError(_),
        },
{
    match config.mode {
        crate::types::Mode::Structure => structure::transform_structure(
            source,
            tree,
            language,
            config,
        ),
        crate::types::Mode::Signatures => signatures::transform_signatures(
            source,
            tree,
            language,
            config,
        ),
        crate::types::Mode::Types => types::transform_types(source, tree, language, config),
        crate::types::Mode::Full => {
            let out = source.to_owned();
            proof {
                assert(out@ == source@);
            }
            Ok(out)
        },
    }
}

} // verus!
