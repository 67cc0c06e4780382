//! Signatures mode: emit the textual prefix of each callable up to its
//! body, trimmed, one per line.  For documents, emit all headings.

use vstd::prelude::*;
use vstd::utf8::{encode_utf8, valid_utf8, is_char_boundary};
use vstd::string::{StringSliceAdditionalSpecFns, StringExecFns};
use crate::parser::{SyntaxNode, SyntaxTree};
use crate::text::{str_eq, slice_range, usize_to_string, trim_span, trimmed_range, trimmed_sub,
    lemma_trimmed_range_bounds, lemma_trim_start_boundary, lemma_trim_end_boundary,
    lemma_encode_utf8_concat, join_with, lemma_join_with_snoc};
use crate::types::{Language, SkimError, TransformConfig};
use crate::transform::{MAX_AST_DEPTH, MAX_SIGNATURES, depth_exceeded, fn_kind, method_kind,
    NodeTypes, get_node_types_for_language, is_body_kind};
use crate::transform::structure::{extract_markdown_headers, md_output};

verus! {

broadcast use vstd::utf8::group_utf8_lib;

/// True when a node kind names a callable whose signature is emitted.
pub open spec fn is_signature_kind(kind: Seq<char>, lang: Language) -> bool {
    kind == fn_kind(lang) || kind == method_kind(lang) || kind == "arrow_function"@ || kind
        == "function_expression"@ || kind == "method_declaration"@
}

/// True when a node kind names a block that ends a signature.
pub open spec fn is_sig_body_kind(kind: Seq<char>) -> bool {
    is_body_kind(kind) || kind == "body"@
}

/// The first direct child that is a body block, for the signature cut.
pub open spec fn find_sig_body(nodes: Seq<SyntaxNode>, j: int, d: int) -> Option<int>
    decreases nodes.len() - j,
{
    if j < 0 || j >= nodes.len() || nodes[j].depth <= d {
        None
    } else if nodes[j].depth == d + 1 && is_sig_body_kind(nodes[j].kind@) {
        Some(j)
    } else {
        find_sig_body(nodes, j + 1, d)
    }
}

/// The signatures collected from node `i` on: each callable's span up to
/// its body (its whole span when it has none), trimmed; empty results and
/// inverted or overlong spans are skipped; a span off a character boundary
/// fails.
pub open spec fn sig_pieces(src: Seq<u8>, nodes: Seq<SyntaxNode>, lang: Language, i: int) -> Option<
    Seq<Seq<u8>>,
>
    decreases nodes.len() - i,
{
    if i < 0 || i >= nodes.len() {
        Some(Seq::empty())
    } else {
        let rest = sig_pieces(src, nodes, lang, i + 1);
        if is_signature_kind(nodes[i].kind@, lang) {
            let start = nodes[i].start;
            let end_pos = match find_sig_body(nodes, i + 1, nodes[i].depth as int) {
                Some(b) => nodes[b].start,
                None => nodes[i].end,
            };
            if end_pos < start || end_pos > src.len() {
                rest
            } else if !is_char_boundary(src, start as int) || !is_char_boundary(
                src,
                end_pos as int,
            ) {
                None
            } else {
                let piece = trimmed_sub(src, start as int, end_pos as int);
                if piece.len() == 0 {
                    rest
                } else {
                    match rest {
                        Some(rs) => Some(seq![piece] + rs),
                        None => None,
                    }
                }
            }
        } else {
            rest
        }
    }
}

/// What signatures mode emits for a CST language: the collected signatures
/// joined by newlines, failing on a too-deep tree, a boundary violation, or
/// too many signatures.
pub open spec fn signatures_output(src: Seq<u8>, nodes: Seq<SyntaxNode>, lang: Language) -> Option<
    Seq<u8>,
> {
    if depth_exceeded(nodes) {
        None
    } else {
        match sig_pieces(src, nodes, lang, 0) {
            Some(ps) => if ps.len() > MAX_SIGNATURES {
                None
            } else {
                Some(join_with(ps, encode_utf8("\n"@)))
            },
            None => None,
        }
    }
}

/// True when a node kind names a block that ends a signature.
fn is_sig_body_kind_exec(kind: &str) -> (r: bool)
    ensures
        r == is_sig_body_kind(kind@),
{
    crate::transform::is_body_kind_exec(kind) || str_eq(kind, "body")
}

/// True when a node kind names a callable whose signature is emitted.
pub fn is_signature_node(kind: &str, node_types: &NodeTypes) -> (r: bool)
    ensures
        r == (kind@ == node_types.function@ || kind@ == node_types.method@ || kind@
            == "arrow_function"@ || kind@ == "function_expression"@ || kind@
            == "method_declaration"@),
{
    str_eq(kind, node_types.function) || str_eq(kind, node_types.method) || str_eq(
        kind,
        "arrow_function",
    ) || str_eq(kind, "function_expression") || str_eq(kind, "method_declaration")
}

/// The first direct child of the node at `i` that ends its signature.
fn find_body_for_signature(tree: &SyntaxTree, i: usize) -> (r: Option<usize>)
    requires
        i < tree.nodes@.len(),
    ensures
        match r {
            Some(b) => find_sig_body(tree.nodes@, i + 1, tree.nodes@[i as int].depth as int)
                == Some(b as int) && b < tree.nodes@.len(),
            None => find_sig_body(tree.nodes@, i + 1, tree.nodes@[i as int].depth as int) is None,
        },
{
    let n = tree.nodes.len();
    let d = tree.nodes[i].depth;
    let mut j = i + 1;
    while j < n && tree.nodes[j].depth > d && !(tree.nodes[j].depth == d + 1
        && is_sig_body_kind_exec(tree.nodes[j].kind.as_str()))
        invariant
            n == tree.nodes@.len(),
            i < n,
            d == tree.nodes@[i as int].depth,
            i + 1 <= j,
            find_sig_body(tree.nodes@, i + 1, d as int) == find_sig_body(
                tree.nodes@,
                j as int,
                d as int,
            ),
        decreases n - j,
    {
        j += 1;
    }
    if j < n && tree.nodes[j].depth > d {
        Some(j)
    } else {
        None
    }
}

/// Transform to signatures only: one trimmed callable signature per line;
/// for documents, extract all headings.
pub(crate) fn transform_signatures(
    source: &str,
    tree: &SyntaxTree,
    language: Language,
    _config: &TransformConfig,
) -> (r: Result<String, SkimError>)
    ensures
        language == Language::Markdown ==> (match r {
            Ok(out) => md_output(source.spec_bytes(), tree.nodes@, 1, 6) == Some(
                encode_utf8(out@),
            ),
            Err(e) => md_output(source.spec_bytes(), tree.nodes@, 1, 6) is None && e matches
                SkimError::ParseError(_),
        }),
        language != Language::Markdown ==> (match r {
            Ok(out) => signatures_output(source.spec_bytes(), tree.nodes@, language) == Some(
                encode_utf8(out@),
            ),
            Err(e) => signatures_output(source.spec_bytes(), tree.nodes@, language) is None
                && e matches SkimError::ParseError(_),
        }),
{
    match language {
        Language::Markdown => {
            return extract_markdown_headers(source, tree, 1, 6);
        },
        _ => {},
    }

    let node_types = get_node_types_for_language(language);
    let ghost src = source.spec_bytes();
    let ghost nodes = tree.nodes@;
    let ghost nl = encode_utf8("\n"@);
    let n = tree.nodes.len();
    let sb = source.as_bytes();
    let src_len = sb.len();
    proof {
        assert(src == encode_utf8(source@));
        assert(valid_utf8(src));
    }

    let mut out = String::new();
    let mut count: usize = 0;
    let ghost mut pieces: Seq<Seq<u8>> = Seq::empty();
    let mut i: usize = 0;
    proof {
        assert(pieces + sig_pieces(src, nodes, language, 0)->Some_0 =~= sig_pieces(
            src,
            nodes,
            language,
            0,
        )->Some_0);
    }
    while i < n
        invariant
            nodes == tree.nodes@,
            src == source.spec_bytes(),
            src == encode_utf8(source@),
            valid_utf8(src),
            sb@ == src,
            src_len == src.len(),
            nl == encode_utf8("\n"@),
            node_types.function@ == fn_kind(language),
            node_types.method@ == method_kind(language),
            language != Language::Markdown,
            n == nodes.len(),
            0 <= i <= n,
            forall|k: int| 0 <= k < i ==> (#[trigger] nodes[k].depth) <= MAX_AST_DEPTH,
            count == pieces.len(),
            count <= MAX_SIGNATURES,
            encode_utf8(out@) == join_with(pieces, nl),
            (match sig_pieces(src, nodes, language, i as int) {
                Some(rest) => sig_pieces(src, nodes, language, 0) == Some(pieces + rest),
                None => sig_pieces(src, nodes, language, 0) is None,
            }),
        decreases n - i,
    {
        if tree.nodes[i].depth > MAX_AST_DEPTH {
            proof {
                assert(depth_exceeded(nodes));
            }
            let mut m = String::new();
            m.append("Maximum AST depth exceeded: ");
            m.append(usize_to_string(MAX_AST_DEPTH).as_str());
            m.append(" (possible malicious input)");
            return Err(SkimError::ParseError(m));
        }
        if is_signature_node(tree.nodes[i].kind.as_str(), &node_types) {
            let start = tree.nodes[i].start;
            let end_pos = match find_body_for_signature(tree, i) {
                Some(b) => tree.nodes[b].start,
                None => tree.nodes[i].end,
            };
            if end_pos < start || end_pos > src_len {
                proof {
                    assert(sig_pieces(src, nodes, language, i as int) == sig_pieces(
                        src,
                        nodes,
                        language,
                        i + 1,
                    ));
                }
            } else if !source.is_char_boundary(start) || !source.is_char_boundary(end_pos) {
                let mut m = String::new();
                m.append("Invalid UTF-8 boundary at signature range [");
                m.append(usize_to_string(start).as_str());
                m.append(", ");
                m.append(usize_to_string(end_pos).as_str());
                m.append(")");
                return Err(SkimError::ParseError(m));
            } else {
                let (ts, te) = trim_span(sb, start, end_pos);
                proof {
                    lemma_trimmed_range_bounds(src, start as int, end_pos as int);
                }
                if ts == te {
                    proof {
                        assert(trimmed_sub(src, start as int, end_pos as int).len() == 0);
                        assert(sig_pieces(src, nodes, language, i as int) == sig_pieces(
                            src,
                            nodes,
                            language,
                            i + 1,
                        ));
                    }
                } else {
                    proof {
                        lemma_trim_start_boundary(src, start as int, end_pos as int);
                        lemma_trim_end_boundary(
                            src,
                            trimmed_range(src, start as int, end_pos as int).0,
                            end_pos as int,
                        );
                    }
                    let ghost out0 = out@;
                    let ghost piece = trimmed_sub(src, start as int, end_pos as int);
                    if count > 0 {
                        out.append("\n");
                    }
                    let text = slice_range(source, ts, te);
                    out.append(text);
                    proof {
                        assert(text.spec_bytes() == piece);
                        if pieces.len() == 0 {
                            lemma_encode_utf8_concat(out0, text@);
                            assert(out0 =~= Seq::<char>::empty());
                            assert(encode_utf8(out@) =~= piece);
                        } else {
                            lemma_encode_utf8_concat(out0, "\n"@);
                            lemma_encode_utf8_concat(out0 + "\n"@, text@);
                            assert(out@ =~= (out0 + "\n"@) + text@);
                            assert(encode_utf8(out@) =~= join_with(pieces, nl) + nl + piece);
                        }
                        lemma_join_with_snoc(pieces, nl, piece);
                        assert(encode_utf8(out@) == join_with(pieces.push(piece), nl));
                        assert(piece.len() > 0);
                        assert(sig_pieces(src, nodes, language, i as int) == (match sig_pieces(
                            src,
                            nodes,
                            language,
                            i + 1,
                        ) {
                            Some(rs) => Some(seq![piece] + rs),
                            None => None::<Seq<Seq<u8>>>,
                        }));
                        match sig_pieces(src, nodes, language, i + 1) {
                            Some(rs) => {
                                assert(pieces + (seq![piece] + rs) =~= pieces.push(piece) + rs);
                            },
                            None => {},
                        }
                        pieces = pieces.push(piece);
                    }
                    count += 1;
                    if count > MAX_SIGNATURES {
                        proof {
                            match sig_pieces(src, nodes, language, i + 1) {
                                Some(rs) => {
                                    assert(sig_pieces(src, nodes, language, 0)->Some_0.len()
                                        >= pieces.len());
                                },
                                None => {},
                            }
                        }
                        let mut m = String::new();
                        m.append("Too many signatures: ");
                        m.append(usize_to_string(count).as_str());
                        m.append(" (max: ");
                        m.append(usize_to_string(MAX_SIGNATURES).as_str());
                        m.append("). Possible malicious input.");
                        return Err(SkimError::ParseError(m));
                    }
                }
            }
        } else {
            proof {
                assert(sig_pieces(src, nodes, language, i as int) == sig_pieces(
                    src,
                    nodes,
                    language,
                    i + 1,
                ));
            }
        }
        i += 1;
    }
    proof {
        assert(sig_pieces(src, nodes, language, n as int) == Some(Seq::<Seq<u8>>::empty()));
        assert(pieces + Seq::<Seq<u8>>::empty() =~= pieces);
        assert(sig_pieces(src, nodes, language, 0) == Some(pieces));
        assert(!depth_exceeded(nodes));
    }
    Ok(out)
}

} // verus!
