//! Types mode: emit only type-declaration spans, with class bodies
//! stripped; do not descend into a type declaration.  For documents, emit
//! all headings.

use vstd::prelude::*;
use vstd::utf8::{encode_utf8, valid_utf8, is_char_boundary};
use vstd::string::{StringSliceAdditionalSpecFns, StringExecFns};
use crate::parser::{SyntaxNode, SyntaxTree};
use crate::text::{str_eq, slice_range, usize_to_string, trim_span, trimmed_range, trimmed_sub,
    lemma_trimmed_range_bounds, lemma_trim_start_boundary, lemma_trim_end_boundary,
    lemma_encode_utf8_concat, join_with, lemma_join_with_snoc};
use crate::types::{Language, SkimError, TransformConfig, is_cst_language};
use crate::transform::{MAX_AST_DEPTH, MAX_TYPE_DEFS};
use crate::transform::structure::{extract_markdown_headers, md_output};

verus! {

broadcast use vstd::utf8::group_utf8_lib;

/// The node kind of a type alias, per language; empty when absent.
pub open spec fn type_alias_kind(lang: Language) -> Seq<char> {
    match lang {
        Language::TypeScript => "type_alias_declaration"@,
        Language::Python => "type_alias_statement"@,
        Language::Rust => "type_item"@,
        Language::Go => "type_declaration"@,
        _ => ""@,
    }
}

/// The node kind of an interface or trait, per language; empty when absent.
pub open spec fn interface_kind(lang: Language) -> Seq<char> {
    match lang {
        Language::TypeScript => "interface_declaration"@,
        Language::Rust => "trait_item"@,
        Language::Go => "interface_type"@,
        Language::Java => "interface_declaration"@,
        _ => ""@,
    }
}

/// The node kind of an enum, per language; empty when absent.
pub open spec fn enum_kind(lang: Language) -> Seq<char> {
    match lang {
        Language::TypeScript => "enum_declaration"@,
        Language::Rust => "enum_item"@,
        Language::Java => "enum_declaration"@,
        _ => ""@,
    }
}

/// The node kind of a class, per language; empty when absent.
pub open spec fn class_kind(lang: Language) -> Seq<char> {
    match lang {
        Language::TypeScript => "class_declaration"@,
        Language::JavaScript => "class_declaration"@,
        Language::Python => "class_definition"@,
        Language::Java => "class_declaration"@,
        _ => ""@,
    }
}

/// The node kind of a struct, per language; empty when absent.
pub open spec fn struct_kind(lang: Language) -> Seq<char> {
    match lang {
        Language::Rust => "struct_item"@,
        Language::Go => "struct_type"@,
        _ => ""@,
    }
}

/// Kind equality where an empty name never matches.
pub open spec fn nonempty_kind_eq(kind: Seq<char>, pat: Seq<char>) -> bool {
    pat.len() > 0 && kind == pat
}

/// True when a node kind names a type declaration for the language.
pub open spec fn is_type_kind(kind: Seq<char>, lang: Language) -> bool {
    nonempty_kind_eq(kind, type_alias_kind(lang)) || nonempty_kind_eq(kind, interface_kind(lang))
        || nonempty_kind_eq(kind, enum_kind(lang)) || nonempty_kind_eq(kind, class_kind(lang))
        || nonempty_kind_eq(kind, struct_kind(lang))
}

/// True when a node kind names a class body block.
pub open spec fn is_class_body_kind(kind: Seq<char>) -> bool {
    kind == "class_body"@ || kind == "declaration_list"@ || kind == "block"@
}

/// The first direct child with a class body kind.
pub open spec fn find_class_body_child(nodes: Seq<SyntaxNode>, j: int, d: int) -> Option<int>
    decreases nodes.len() - j,
{
    if j < 0 || j >= nodes.len() || nodes[j].depth <= d {
        None
    } else if nodes[j].depth == d + 1 && is_class_body_kind(nodes[j].kind@) {
        Some(j)
    } else {
        find_class_body_child(nodes, j + 1, d)
    }
}

/// The first position at or after `j` that leaves the subtree of a node of
/// depth `d`.
pub open spec fn subtree_end_from(nodes: Seq<SyntaxNode>, j: int, d: int) -> int
    decreases nodes.len() - j,
{
    if j < 0 || j >= nodes.len() || nodes[j].depth <= d {
        j
    } else {
        subtree_end_from(nodes, j + 1, d)
    }
}

proof fn lemma_subtree_end_from_bounds(nodes: Seq<SyntaxNode>, j: int, d: int)
    requires
        0 <= j <= nodes.len(),
    ensures
        j <= subtree_end_from(nodes, j, d) <= nodes.len(),
    decreases nodes.len() - j,
{
    if !(j < 0 || j >= nodes.len() || nodes[j].depth <= d) {
        lemma_subtree_end_from_bounds(nodes, j + 1, d);
    }
}

/// The type-declaration texts collected from node `i` on: each type node's
/// span (a class truncated at its body), trimmed; the walk does not descend
/// into type declarations, and checks depth only on visited nodes.
pub open spec fn type_pieces(src: Seq<u8>, nodes: Seq<SyntaxNode>, lang: Language, i: int) -> Option<
    Seq<Seq<u8>>,
>
    decreases nodes.len() - i,
    via type_pieces_decreases
{
    if i < 0 || i >= nodes.len() {
        Some(Seq::empty())
    } else if nodes[i].depth > MAX_AST_DEPTH {
        None
    } else if is_type_kind(nodes[i].kind@, lang) {
        let rest = type_pieces(src, nodes, lang, subtree_end_from(nodes, i + 1, nodes[i].depth as int));
        let start = nodes[i].start;
        let end0 = if nonempty_kind_eq(nodes[i].kind@, class_kind(lang)) {
            match find_class_body_child(nodes, i + 1, nodes[i].depth as int) {
                Some(cb) => nodes[cb].start,
                None => nodes[i].end,
            }
        } else {
            nodes[i].end
        };
        if end0 < start || end0 > src.len() {
            rest
        } else if !is_char_boundary(src, start as int) || !is_char_boundary(src, end0 as int) {
            None
        } else {
            let piece = trimmed_sub(src, start as int, end0 as int);
            if piece.len() == 0 {
                rest
            } else {
                match rest {
                    Some(rs) => Some(seq![piece] + rs),
                    None => None,
                }
            }
        }
    } else {
        type_pieces(src, nodes, lang, i + 1)
    }
}

#[via_fn]
proof fn type_pieces_decreases(src: Seq<u8>, nodes: Seq<SyntaxNode>, lang: Language, i: int) {
    if 0 <= i < nodes.len() {
        lemma_subtree_end_from_bounds(nodes, i + 1, nodes[i].depth as int);
    }
}

/// What types mode emits for a CST code language: the collected type
/// declarations joined by blank lines, failing on a too-deep visited node,
/// a boundary violation, or too many declarations.
pub open spec fn types_output(src: Seq<u8>, nodes: Seq<SyntaxNode>, lang: Language) -> Option<
    Seq<u8>,
> {
    match type_pieces(src, nodes, lang, 0) {
        Some(ps) => if ps.len() > MAX_TYPE_DEFS {
            None
        } else {
            Some(join_with(ps, encode_utf8("\n\n"@)))
        },
        None => None,
    }
}

/// Node kinds that mark type declarations for one language.
pub struct TypeNodeTypes {
    /// The kind of a type alias, or empty.
    pub type_alias: &'static str,
    /// The kind of an interface or trait, or empty.
    pub interface: &'static str,
    /// The kind of an enum, or empty.
    pub enum_def: &'static str,
    /// The kind of a class, or empty.
    pub class_decl: &'static str,
    /// The kind of a struct, or empty.
    pub struct_def: &'static str,
}

/// The type node kinds of a language; none for the data-backed languages.
pub fn get_type_node_types(language: Language) -> (r: Option<TypeNodeTypes>)
    ensures
        r is Some <==> is_cst_language(language),
        r is Some ==> {
            let t = r->Some_0;
            t.type_alias@ == type_alias_kind(language) && t.interface@ == interface_kind(language)
                && t.enum_def@ == enum_kind(language) && t.class_decl@ == class_kind(language)
                && t.struct_def@ == struct_kind(language)
        },
{
    match language {
        Language::TypeScript => Some(
            TypeNodeTypes {
                type_alias: "type_alias_declaration",
                interface: "interface_declaration",
                enum_def: "enum_declaration",
                class_decl: "class_declaration",
                struct_def: "",
            },
        ),
        Language::JavaScript => Some(
            TypeNodeTypes {
                type_alias: "",
                interface: "",
                enum_def: "",
                class_decl: "class_declaration",
                struct_def: "",
            },
        ),
        Language::Python => Some(
            TypeNodeTypes {
                type_alias: "type_alias_statement",
                interface: "",
                enum_def: "",
                class_decl: "class_definition",
                struct_def: "",
            },
        ),
        Language::Rust => Some(
            TypeNodeTypes {
                type_alias: "type_item",
                interface: "trait_item",
                enum_def: "enum_item",
                class_decl: "",
                struct_def: "struct_item",
            },
        ),
        Language::Go => Some(
            TypeNodeTypes {
                type_alias: "type_declaration",
                interface: "interface_type",
                enum_def: "",
                class_decl: "",
                struct_def: "struct_type",
            },
        ),
        Language::Java => Some(
            TypeNodeTypes {
                type_alias: "",
                interface: "interface_declaration",
                enum_def: "enum_declaration",
                class_decl: "class_declaration",
                struct_def: "",
            },
        ),
        Language::Markdown => Some(
            TypeNodeTypes {
                type_alias: "",
                interface: "",
                enum_def: "",
                class_decl: "",
                struct_def: "",
            },
        ),
        Language::Json | Language::Yaml => None,
    }
}

fn nonempty_kind_eq_exec(kind: &str, pat: &'static str) -> (r: bool)
    ensures
        r == nonempty_kind_eq(kind@, pat@),
{
    !pat.is_empty() && str_eq(kind, pat)
}

/// True when a node kind names a type declaration; empty names never match.
pub fn is_type_node(kind: &str, node_types: &TypeNodeTypes) -> (r: bool)
    ensures
        r == (nonempty_kind_eq(kind@, node_types.type_alias@) || nonempty_kind_eq(
            kind@,
            node_types.interface@,
        ) || nonempty_kind_eq(kind@, node_types.enum_def@) || nonempty_kind_eq(
            kind@,
            node_types.class_decl@,
        ) || nonempty_kind_eq(kind@, node_types.struct_def@)),
{
    nonempty_kind_eq_exec(kind, node_types.type_alias) || nonempty_kind_eq_exec(
        kind,
        node_types.interface,
    ) || nonempty_kind_eq_exec(kind, node_types.enum_def) || nonempty_kind_eq_exec(
        kind,
        node_types.class_decl,
    ) || nonempty_kind_eq_exec(kind, node_types.struct_def)
}

/// The first direct child of the node at `i` that is a class body.
fn find_class_body(tree: &SyntaxTree, i: usize) -> (r: Option<usize>)
    requires
        i < tree.nodes@.len(),
    ensures
        match r {
            Some(b) => find_class_body_child(tree.nodes@, i + 1, tree.nodes@[i as int].depth as int)
                == Some(b as int) && b < tree.nodes@.len(),
            None => find_class_body_child(tree.nodes@, i + 1, tree.nodes@[i as int].depth as int)
                is None,
        },
{
    let n = tree.nodes.len();
    let d = tree.nodes[i].depth;
    let mut j = i + 1;
    while j < n && tree.nodes[j].depth > d && !(tree.nodes[j].depth == d + 1 && (str_eq(
        tree.nodes[j].kind.as_str(),
        "class_body",
    ) || str_eq(tree.nodes[j].kind.as_str(), "declaration_list") || str_eq(
        tree.nodes[j].kind.as_str(),
        "block",
    )))
        invariant
            n == tree.nodes@.len(),
            i < n,
            d == tree.nodes@[i as int].depth,
            i + 1 <= j,
            find_class_body_child(tree.nodes@, i + 1, d as int) == find_class_body_child(
                tree.nodes@,
                j as int,
                d as int,
            ),
        decreases n - j,
    {
        j += 1;
    }
    if j < n && tree.nodes[j].depth > d {
        Some(j)
    } else {
        None
    }
}

/// The first position at or after `j` that leaves the subtree of the node
/// at `i`.
fn subtree_end(tree: &SyntaxTree, i: usize) -> (r: usize)
    requires
        i < tree.nodes@.len(),
    ensures
        r == subtree_end_from(tree.nodes@, i + 1, tree.nodes@[i as int].depth as int),
        i + 1 <= r <= tree.nodes@.len(),
{
    let n = tree.nodes.len();
    let d = tree.nodes[i].depth;
    let mut j = i + 1;
    while j < n && tree.nodes[j].depth > d
        invariant
            n == tree.nodes@.len(),
            i < n,
            d == tree.nodes@[i as int].depth,
            i + 1 <= j <= n,
            subtree_end_from(tree.nodes@, i + 1, d as int) == subtree_end_from(
                tree.nodes@,
                j as int,
                d as int,
            ),
        decreases n - j,
    {
        j += 1;
    }
    j
}

/// Transform to types only: each type declaration's trimmed span, classes
/// truncated at their body, joined by blank lines; for documents, extract
/// all headings.
pub(crate) fn transform_types(
    source: &str,
    tree: &SyntaxTree,
    language: Language,
    _config: &TransformConfig,
) -> (r: Result<String, SkimError>)
    ensures
        language == Language::Markdown ==> (match r {
            Ok(out) => md_output(source.spec_bytes(), tree.nodes@, 1, 6) == Some(
                encode_utf8(out@),
            ),
            Err(e) => md_output(source.spec_bytes(), tree.nodes@, 1, 6) is None && e matches
                SkimError::ParseError(_),
        }),
        !is_cst_language(language) ==> (r is Err && r->Err_0 matches SkimError::ParseError(_)),
        (is_cst_language(language) && language != Language::Markdown) ==> (match r {
            Ok(out) => types_output(source.spec_bytes(), tree.nodes@, language) == Some(
                encode_utf8(out@),
            ),
            Err(e) => types_output(source.spec_bytes(), tree.nodes@, language) is None && e matches
                SkimError::ParseError(_),
        }),
{
    match language {
        Language::Markdown => {
            return extract_markdown_headers(source, tree, 1, 6);
        },
        _ => {},
    }

    let node_types = match get_type_node_types(language) {
        Some(t) => t,
        None => {
            let mut m = String::new();
            m.append("Language ");
            m.append(language.name());
            m.append(" does not support tree-sitter type transformation");
            return Err(SkimError::ParseError(m));
        },
    };

    let ghost src = source.spec_bytes();
    let ghost nodes = tree.nodes@;
    let ghost sep = encode_utf8("\n\n"@);
    let n = tree.nodes.len();
    let sb = source.as_bytes();
    let src_len = sb.len();
    proof {
        assert(src == encode_utf8(source@));
        assert(valid_utf8(src));
    }

    let mut out = String::new();
    let mut count: usize = 0;
    let ghost mut pieces: Seq<Seq<u8>> = Seq::empty();
    let mut i: usize = 0;
    proof {
        assert(pieces + type_pieces(src, nodes, language, 0)->Some_0 =~= type_pieces(
            src,
            nodes,
            language,
            0,
        )->Some_0);
    }
    while i < n
        invariant
            nodes == tree.nodes@,
            src == source.spec_bytes(),
            src == encode_utf8(source@),
            valid_utf8(src),
            sb@ == src,
            src_len == src.len(),
            sep == encode_utf8("\n\n"@),
            node_types.type_alias@ == type_alias_kind(language),
            node_types.interface@ == interface_kind(language),
            node_types.enum_def@ == enum_kind(language),
            node_types.class_decl@ == class_kind(language),
            node_types.struct_def@ == struct_kind(language),
            is_cst_language(language),
            language != Language::Markdown,
            n == nodes.len(),
            0 <= i <= n,
            count == pieces.len(),
            count <= MAX_TYPE_DEFS,
            encode_utf8(out@) == join_with(pieces, sep),
            (match type_pieces(src, nodes, language, i as int) {
                Some(rest) => type_pieces(src, nodes, language, 0) == Some(pieces + rest),
                None => type_pieces(src, nodes, language, 0) is None,
            }),
        decreases n - i,
    {
        if tree.nodes[i].depth > MAX_AST_DEPTH {
            let mut m = String::new();
            m.append("Maximum AST depth exceeded: ");
            m.append(usize_to_string(MAX_AST_DEPTH).as_str());
            m.append(" (possible malicious input)");
            return Err(SkimError::ParseError(m));
        }
        if is_type_node(tree.nodes[i].kind.as_str(), &node_types) {
            let nxt = subtree_end(tree, i);
            let start = tree.nodes[i].start;
            let is_class = nonempty_kind_eq_exec(tree.nodes[i].kind.as_str(), node_types.class_decl);
            let end0 = if is_class {
                match find_class_body(tree, i) {
                    Some(cb) => tree.nodes[cb].start,
                    None => tree.nodes[i].end,
                }
            } else {
                tree.nodes[i].end
            };
            if end0 < start || end0 > src_len {
                // An inverted or overlong span is skipped.
            } else if !source.is_char_boundary(start) || !source.is_char_boundary(end0) {
                let mut m = String::new();
                m.append("Invalid UTF-8 boundary at type definition range [");
                m.append(usize_to_string(start).as_str());
                m.append(", ");
                m.append(usize_to_string(end0).as_str());
                m.append(")");
                return Err(SkimError::ParseError(m));
            } else {
                let (ts, te) = trim_span(sb, start, end0);
                proof {
                    lemma_trimmed_range_bounds(src, start as int, end0 as int);
                }
                if ts == te {
                    proof {
                        assert(trimmed_sub(src, start as int, end0 as int).len() == 0);
                    }
                } else {
                    proof {
                        lemma_trim_start_boundary(src, start as int, end0 as int);
                        lemma_trim_end_boundary(
                            src,
                            trimmed_range(src, start as int, end0 as int).0,
                            end0 as int,
                        );
                    }
                    let ghost out0 = out@;
                    let ghost piece = trimmed_sub(src, start as int, end0 as int);
                    if count > 0 {
                        out.append("\n\n");
                    }
                    let text = slice_range(source, ts, te);
                    out.append(text);
                    proof {
                        assert(text.spec_bytes() == piece);
                        if pieces.len() == 0 {
                            lemma_encode_utf8_concat(out0, text@);
                            assert(out0 =~= Seq::<char>::empty());
                            assert(encode_utf8(out@) =~= piece);
                        } else {
                            lemma_encode_utf8_concat(out0, "\n\n"@);
                            lemma_encode_utf8_concat(out0 + "\n\n"@, text@);
                            assert(out@ =~= (out0 + "\n\n"@) + text@);
                            assert(encode_utf8(out@) =~= join_with(pieces, sep) + sep + piece);
                        }
                        lemma_join_with_snoc(pieces, sep, piece);
                        assert(encode_utf8(out@) == join_with(pieces.push(piece), sep));
                        assert(piece.len() > 0);
                        match type_pieces(src, nodes, language, nxt as int) {
                            Some(rs) => {
                                assert(pieces + (seq![piece] + rs) =~= pieces.push(piece) + rs);
                            },
                            None => {},
                        }
                        pieces = pieces.push(piece);
                    }
                    count += 1;
                    if count > MAX_TYPE_DEFS {
                        proof {
                            match type_pieces(src, nodes, language, nxt as int) {
                                Some(rs) => {
                                    assert(type_pieces(src, nodes, language, 0)->Some_0.len()
                                        >= pieces.len());
                                },
                                None => {},
                            }
                        }
                        let mut m = String::new();
                        m.append("Too many type definitions: ");
                        m.append(usize_to_string(count).as_str());
                        m.append(" (max: ");
                        m.append(usize_to_string(MAX_TYPE_DEFS).as_str());
                        m.append("). Possible malicious input.");
                        return Err(SkimError::ParseError(m));
                    }
                }
            }
            i = nxt;
        } else {
            i += 1;
        }
    }
    proof {
        assert(type_pieces(src, nodes, language, n as int) == Some(Seq::<Seq<u8>>::empty()));
        assert(pieces + Seq::<Seq<u8>>::empty() =~= pieces);
        assert(type_pieces(src, nodes, language, 0) == Some(pieces));
    }
    Ok(out)
}

} // verus!
