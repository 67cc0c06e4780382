//! Structure mode: strip every callable body, keep all surrounding text.
//!
//! For CST languages the walk records one replacement per callable body and
//! hands them to the splice engine; nested bodies are dropped there.  For
//! documents it extracts level-bounded headings.

use vstd::prelude::*;
use vstd::utf8::{encode_utf8, valid_utf8, is_char_boundary};
use vstd::string::{StringSliceAdditionalSpecFns, StringExecFns};
use crate::parser::{SyntaxNode, SyntaxTree};
use crate::splice::{Edit, splice, splice_spec};
use crate::text::{str_eq, slice_range, usize_to_string, chars_vec, chars_range_to_string,
    lemma_encode_utf8_concat, join_with, lemma_join_with_snoc};
use crate::types::{Language, SkimError, TransformConfig};
use crate::transform::{MAX_AST_DEPTH, MAX_AST_NODES, MAX_MARKDOWN_HEADERS, BODY_PLACEHOLDER,
    depth_exceeded, matches_function_kind, is_body_kind, get_node_types_for_language,
    matches_function_node, is_body_kind_exec};

verus! {

broadcast use vstd::utf8::group_utf8_lib;

// ============================================================================
// CST path
// ============================================================================

/// The first direct child with a body kind, scanning the preorder list from
/// `j` through the subtree of a node of depth `d`.
pub open spec fn find_body_child(nodes: Seq<SyntaxNode>, j: int, d: int) -> Option<int>
    decreases nodes.len() - j,
{
    if j < 0 || j >= nodes.len() || nodes[j].depth <= d {
        None
    } else if nodes[j].depth == d + 1 && is_body_kind(nodes[j].kind@) {
        Some(j)
    } else {
        find_body_child(nodes, j + 1, d)
    }
}

/// The body replacements collected by the walk from node `i` on: one edit
/// per callable whose first body child exists.
pub open spec fn body_edits(nodes: Seq<SyntaxNode>, lang: Language, i: int) -> Seq<Edit>
    decreases nodes.len() - i,
{
    if i < 0 || i >= nodes.len() {
        Seq::empty()
    } else {
        let rest = body_edits(nodes, lang, i + 1);
        if matches_function_kind(nodes[i].kind@, lang) {
            match find_body_child(nodes, i + 1, nodes[i].depth as int) {
                Some(b) => seq![
                    Edit {
                        start: nodes[b].start,
                        end: nodes[b].end,
                        replacement: BODY_PLACEHOLDER,
                    },
                ] + rest,
                None => rest,
            }
        } else {
            rest
        }
    }
}

/// What structure mode emits for a CST language: fails on a too-deep tree or
/// too many replacements, otherwise splices the collected body edits.
pub open spec fn structure_output(src: Seq<u8>, nodes: Seq<SyntaxNode>, lang: Language) -> Option<
    Seq<u8>,
> {
    if depth_exceeded(nodes) {
        None
    } else if body_edits(nodes, lang, 0).len() > MAX_AST_NODES {
        None
    } else {
        splice_spec(src, body_edits(nodes, lang, 0))
    }
}

/// The first direct child of the node at `i` that is a body block.
fn find_body_node(tree: &SyntaxTree, i: usize) -> (r: Option<usize>)
    requires
        i < tree.nodes@.len(),
    ensures
        match r {
            Some(b) => find_body_child(tree.nodes@, i + 1, tree.nodes@[i as int].depth as int)
                == Some(b as int) && b < tree.nodes@.len(),
            None => find_body_child(tree.nodes@, i + 1, tree.nodes@[i as int].depth as int)
                is None,
        },
{
    let n = tree.nodes.len();
    let d = tree.nodes[i].depth;
    let mut j = i + 1;
    while j < n && tree.nodes[j].depth > d && !(tree.nodes[j].depth == d + 1 && is_body_kind_exec(
        tree.nodes[j].kind.as_str(),
    ))
        invariant
            n == tree.nodes@.len(),
            i < n,
            d == tree.nodes@[i as int].depth,
            i + 1 <= j,
            find_body_child(tree.nodes@, i + 1, d as int) == find_body_child(
                tree.nodes@,
                j as int,
                d as int,
            ),
        decreases n - j,
    {
        j += 1;
    }
    if j < n && tree.nodes[j].depth > d {
        Some(j)
    } else {
        None
    }
}

/// Transform to structure only: callable bodies become placeholders; for
/// documents, extract the headings of levels one through three.
pub(crate) fn transform_structure(
    source: &str,
    tree: &SyntaxTree,
    language: Language,
    _config: &TransformConfig,
) -> (r: Result<String, SkimError>)
    ensures
        language == Language::Markdown ==> (match r {
            Ok(out) => md_output(source.spec_bytes(), tree.nodes@, 1, 3) == Some(
                encode_utf8(out@),
            ),
            Err(e) => md_output(source.spec_bytes(), tree.nodes@, 1, 3) is None && e matches
                SkimError::ParseError(_),
        }),
        language != Language::Markdown ==> (match r {
            Ok(out) => structure_output(source.spec_bytes(), tree.nodes@, language) == Some(
                encode_utf8(out@),
            ),
            Err(e) => structure_output(source.spec_bytes(), tree.nodes@, language) is None
                && e matches SkimError::ParseError(_),
        }),
{
    match language {
        Language::Markdown => {
            return extract_markdown_headers(source, tree, 1, 3);
        },
        _ => {},
    }

    let node_types = get_node_types_for_language(language);
    let ghost nodes = tree.nodes@;
    let n = tree.nodes.len();

    let mut edits: Vec<Edit> = Vec::new();
    let mut i: usize = 0;
    proof {
        assert(edits@ + body_edits(nodes, language, 0) =~= body_edits(nodes, language, 0));
    }
    while i < n
        invariant
            nodes == tree.nodes@,
            n == nodes.len(),
            node_types.function@ == crate::transform::fn_kind(language),
            node_types.method@ == crate::transform::method_kind(language),
            0 <= i <= n,
            forall|k: int| 0 <= k < i ==> (#[trigger] nodes[k].depth) <= MAX_AST_DEPTH,
            body_edits(nodes, language, 0) == edits@ + body_edits(nodes, language, i as int),
        decreases n - i,
    {
        if tree.nodes[i].depth > MAX_AST_DEPTH {
            proof {
                assert(depth_exceeded(nodes));
            }
            let mut m = String::new();
            m.append("Maximum AST depth exceeded: ");
            m.append(usize_to_string(MAX_AST_DEPTH).as_str());
            m.append(" (possible malicious input with deeply nested functions)");
            return Err(SkimError::ParseError(m));
        }
        let ghost edits0 = edits@;
        if matches_function_node(tree.nodes[i].kind.as_str(), &node_types) {
            match find_body_node(tree, i) {
                Some(b) => {
                    edits.push(
                        Edit {
                            start: tree.nodes[b].start,
                            end: tree.nodes[b].end,
                            replacement: BODY_PLACEHOLDER,
                        },
                    );
                    proof {
                        let e = Edit {
                            start: nodes[b as int].start,
                            end: nodes[b as int].end,
                            replacement: BODY_PLACEHOLDER,
                        };
                        assert(body_edits(nodes, language, i as int) == seq![e] + body_edits(
                            nodes,
                            language,
                            i + 1,
                        ));
                        assert(edits0 + (seq![e] + body_edits(nodes, language, i + 1))
                            =~= edits@ + body_edits(nodes, language, i + 1));
                    }
                },
                None => {
                    proof {
                        assert(body_edits(nodes, language, i as int) == body_edits(
                            nodes,
                            language,
                            i + 1,
                        ));
                    }
                },
            }
        } else {
            proof {
                assert(body_edits(nodes, language, i as int) == body_edits(
                    nodes,
                    language,
                    i + 1,
                ));
            }
        }
        i += 1;
    }
    proof {
        assert(body_edits(nodes, language, n as int) =~= Seq::<Edit>::empty());
        assert(edits@ + body_edits(nodes, language, n as int) =~= edits@);
        assert(edits@ == body_edits(nodes, language, 0));
        assert(!depth_exceeded(nodes));
    }

    if edits.len() > MAX_AST_NODES {
        let mut m = String::new();
        m.append("Too many AST nodes: ");
        m.append(usize_to_string(edits.len()).as_str());
        m.append(" (max: ");
        m.append(usize_to_string(MAX_AST_NODES).as_str());
        m.append("). Possible malicious input.");
        return Err(SkimError::ParseError(m));
    }

    splice(source, &edits)
}

// ============================================================================
// Laws of the structure transform
// ============================================================================

/// Every collected edit replaces its body with the placeholder.
proof fn lemma_body_edits_placeholder(nodes: Seq<SyntaxNode>, lang: Language, i: int)
    ensures
        forall|j: int|
            0 <= j < body_edits(nodes, lang, i).len() ==> (#[trigger] body_edits(
                nodes,
                lang,
                i,
            )[j]).replacement == BODY_PLACEHOLDER,
    decreases nodes.len() - i,
{
    if i < 0 || i >= nodes.len() {
    } else {
        lemma_body_edits_placeholder(nodes, lang, i + 1);
        let rest = body_edits(nodes, lang, i + 1);
        if matches_function_kind(nodes[i].kind@, lang) && find_body_child(
            nodes,
            i + 1,
            nodes[i].depth as int,
        ) is Some {
            let all = body_edits(nodes, lang, i);
            assert forall|j: int| 0 <= j < all.len() implies (#[trigger] all[j]).replacement
                == BODY_PLACEHOLDER by {
                if j > 0 {
                    assert(all[j] == rest[j - 1]);
                }
            }
        }
    }
}

/// The placeholder is fourteen ASCII characters, so at most twenty bytes.
proof fn lemma_placeholder_len()
    ensures
        encode_utf8(BODY_PLACEHOLDER@).len() == 14,
{
    reveal_strlit(" { /* ... */ }");
    assert(vstd::utf8::is_ascii_chars(BODY_PLACEHOLDER@));
}

/// Byte bound: a successful structure rendering is at most twenty bytes
/// per collected callable body longer than the source.
pub proof fn lemma_structure_byte_bound(
    src: Seq<u8>,
    nodes: Seq<SyntaxNode>,
    lang: Language,
    out: Seq<u8>,
)
    requires
        structure_output(src, nodes, lang) == Some(out),
    ensures
        out.len() <= src.len() + 20 * body_edits(nodes, lang, 0).len(),
{
    lemma_body_edits_placeholder(nodes, lang, 0);
    lemma_placeholder_len();
    let edits = body_edits(nodes, lang, 0);
    assert forall|j: int| 0 <= j < edits.len() implies encode_utf8(
        (#[trigger] edits[j]).replacement@,
    ).len() <= 20 by {
        assert(edits[j].replacement == BODY_PLACEHOLDER);
    }
    crate::splice::lemma_splice_byte_bound(src, edits, out, 20);
}

/// Body-freedom, one half: when at least one callable body was collected,
/// the rendering carries the placeholder text.
pub proof fn lemma_structure_emits_placeholder(
    src: Seq<u8>,
    nodes: Seq<SyntaxNode>,
    lang: Language,
    out: Seq<u8>,
)
    requires
        structure_output(src, nodes, lang) == Some(out),
        body_edits(nodes, lang, 0).len() > 0,
    ensures
        exists|a: Seq<u8>, b: Seq<u8>| out == a + encode_utf8(BODY_PLACEHOLDER@) + b,
{
    let edits = body_edits(nodes, lang, 0);
    lemma_body_edits_placeholder(nodes, lang, 0);
    crate::splice::lemma_splice_emits_first_replacement(src, edits, out);
    crate::splice::lemma_sort_edits_pointwise(
        edits,
        |e: crate::splice::Edit| e.replacement == BODY_PLACEHOLDER,
    );
    crate::splice::lemma_sort_edits_len(edits);
    let rest = choose|rest: Seq<u8>|
        out == src.subrange(0, crate::splice::sort_edits(edits)[0].start as int) + encode_utf8(
            crate::splice::sort_edits(edits)[0].replacement@,
        ) + rest;
    let a = src.subrange(0, crate::splice::sort_edits(edits)[0].start as int);
    assert(out == a + encode_utf8(BODY_PLACEHOLDER@) + rest);
}

/// Monotonicity, one half: when every collected body spans at least the
/// placeholder's bytes, the structure rendering is no longer than the
/// source.
pub proof fn lemma_structure_no_growth(
    src: Seq<u8>,
    nodes: Seq<SyntaxNode>,
    lang: Language,
    out: Seq<u8>,
)
    requires
        structure_output(src, nodes, lang) == Some(out),
        forall|j: int|
            0 <= j < body_edits(nodes, lang, 0).len() ==> {
                let e = #[trigger] body_edits(nodes, lang, 0)[j];
                e.end < e.start || e.end - e.start >= 14
            },
    ensures
        out.len() <= src.len(),
{
    lemma_body_edits_placeholder(nodes, lang, 0);
    lemma_placeholder_len();
    let edits = body_edits(nodes, lang, 0);
    assert forall|j: int|
        0 <= j < edits.len() implies ((#[trigger] edits[j]).end < edits[j].start || encode_utf8(
        edits[j].replacement@,
    ).len() <= edits[j].end - edits[j].start) by {
        assert(edits[j].replacement == BODY_PLACEHOLDER);
    }
    crate::splice::lemma_splice_shrinks(src, edits, out);
}

// ============================================================================
// Document path
// ============================================================================

/// True when a node kind names an ATX heading marker: it starts with
/// `atx_h` and ends with `_marker`.
pub open spec fn is_atx_marker_kind(k: Seq<char>) -> bool {
    k.len() >= 7 && k.subrange(0, 5) == "atx_h"@ && k.subrange(k.len() - 7, k.len() as int)
        == "_marker"@
}

/// The first direct child with an ATX marker kind.
pub open spec fn find_atx_marker(nodes: Seq<SyntaxNode>, j: int, d: int) -> Option<int>
    decreases nodes.len() - j,
{
    if j < 0 || j >= nodes.len() || nodes[j].depth <= d {
        None
    } else if nodes[j].depth == d + 1 && is_atx_marker_kind(nodes[j].kind@) {
        Some(j)
    } else {
        find_atx_marker(nodes, j + 1, d)
    }
}

/// True when a node kind names a setext underline.
pub open spec fn is_setext_underline_kind(k: Seq<char>) -> bool {
    k == "setext_h1_underline"@ || k == "setext_h2_underline"@
}

/// The first direct child with a setext underline kind.
pub open spec fn find_setext_underline(nodes: Seq<SyntaxNode>, j: int, d: int) -> Option<int>
    decreases nodes.len() - j,
{
    if j < 0 || j >= nodes.len() || nodes[j].depth <= d {
        None
    } else if nodes[j].depth == d + 1 && is_setext_underline_kind(nodes[j].kind@) {
        Some(j)
    } else {
        find_setext_underline(nodes, j + 1, d)
    }
}

/// The first decimal digit in a kind name, as a value.
pub open spec fn first_digit(k: Seq<char>, j: int) -> Option<int>
    decreases k.len() - j,
{
    if j < 0 || j >= k.len() {
        None
    } else if 48 <= k[j] as u32 && k[j] as u32 <= 57 {
        Some(k[j] as u32 - 48)
    } else {
        first_digit(k, j + 1)
    }
}

/// The heading level the node at `i` contributes: the digit of an ATX
/// marker child (one when the marker kind has no digit), one or two for a
/// setext underline child (one when none is found), nothing for an ATX
/// heading without a marker child or for any other node.
pub open spec fn heading_level_at(nodes: Seq<SyntaxNode>, i: int) -> Option<int> {
    if nodes[i].kind@ == "atx_heading"@ {
        match find_atx_marker(nodes, i + 1, nodes[i].depth as int) {
            Some(m) => match first_digit(nodes[m].kind@, 0) {
                Some(d) => Some(d),
                None => Some(1),
            },
            None => None,
        }
    } else if nodes[i].kind@ == "setext_heading"@ {
        match find_setext_underline(nodes, i + 1, nodes[i].depth as int) {
            Some(u) => Some(
                if nodes[u].kind@ == "setext_h1_underline"@ {
                    1int
                } else {
                    2int
                },
            ),
            None => Some(1),
        }
    } else {
        None
    }
}

/// The heading texts collected from node `i` on, for levels in `[lo, hi]`:
/// `None` when a heading span is invalid or off a character boundary.
pub open spec fn md_pieces(
    src: Seq<u8>,
    nodes: Seq<SyntaxNode>,
    lo: int,
    hi: int,
    i: int,
) -> Option<Seq<Seq<u8>>>
    decreases nodes.len() - i,
{
    if i < 0 || i >= nodes.len() {
        Some(Seq::empty())
    } else {
        let rest = md_pieces(src, nodes, lo, hi, i + 1);
        match heading_level_at(nodes, i) {
            Some(lv) => {
                if lo <= lv <= hi {
                    let e = nodes[i];
                    if e.start <= e.end && e.end <= src.len() && is_char_boundary(
                        src,
                        e.start as int,
                    ) && is_char_boundary(src, e.end as int) {
                        match rest {
                            Some(rs) => Some(
                                seq![src.subrange(e.start as int, e.end as int)] + rs,
                            ),
                            None => None,
                        }
                    } else {
                        None
                    }
                } else {
                    rest
                }
            },
            None => rest,
        }
    }
}

/// What the document path emits: the in-range headings joined by newlines,
/// failing on a too-deep tree, a bad span, or too many headings.
pub open spec fn md_output(src: Seq<u8>, nodes: Seq<SyntaxNode>, lo: int, hi: int) -> Option<
    Seq<u8>,
> {
    if depth_exceeded(nodes) {
        None
    } else {
        match md_pieces(src, nodes, lo, hi, 0) {
            Some(ps) => if ps.len() > MAX_MARKDOWN_HEADERS {
                None
            } else {
                Some(join_with(ps, encode_utf8("\n"@)))
            },
            None => None,
        }
    }
}

/// True when a node kind names an ATX heading marker.
fn is_atx_marker_exec(kind: &str) -> (r: bool)
    ensures
        r == is_atx_marker_kind(kind@),
{
    let v = chars_vec(kind);
    if v.len() < 7 {
        return false;
    }
    let pre = chars_range_to_string(&v, 0, 5);
    let suf = chars_range_to_string(&v, v.len() - 7, v.len());
    str_eq(pre.as_str(), "atx_h") && str_eq(suf.as_str(), "_marker")
}

/// The value of the first decimal digit in a kind name.
fn first_digit_exec(kind: &str) -> (r: Option<usize>)
    ensures
        match r {
            Some(d) => first_digit(kind@, 0) == Some(d as int),
            None => first_digit(kind@, 0) is None,
        },
{
    let v = chars_vec(kind);
    let n = v.len();
    let mut j: usize = 0;
    while j < n
        invariant
            v@ == kind@,
            n == v@.len(),
            0 <= j <= n,
            first_digit(kind@, 0) == first_digit(kind@, j as int),
        decreases n - j,
    {
        let c = v[j] as u32;
        if 48 <= c && c <= 57 {
            return Some((c - 48) as usize);
        }
        j += 1;
    }
    None
}

/// The heading level contributed by the node at `i`, if any.
fn heading_level_exec(tree: &SyntaxTree, i: usize) -> (r: Option<usize>)
    requires
        i < tree.nodes@.len(),
    ensures
        match r {
            Some(lv) => heading_level_at(tree.nodes@, i as int) == Some(lv as int),
            None => heading_level_at(tree.nodes@, i as int) is None,
        },
{
    let n = tree.nodes.len();
    let d = tree.nodes[i].depth;
    if str_eq(tree.nodes[i].kind.as_str(), "atx_heading") {
        let mut j = i + 1;
        while j < n && tree.nodes[j].depth > d && !(tree.nodes[j].depth == d + 1
            && is_atx_marker_exec(tree.nodes[j].kind.as_str()))
            invariant
                n == tree.nodes@.len(),
                i < n,
                d == tree.nodes@[i as int].depth,
                i + 1 <= j,
                find_atx_marker(tree.nodes@, i + 1, d as int) == find_atx_marker(
                    tree.nodes@,
                    j as int,
                    d as int,
                ),
            decreases n - j,
        {
            j += 1;
        }
        if j < n && tree.nodes[j].depth > d {
            match first_digit_exec(tree.nodes[j].kind.as_str()) {
                Some(dv) => Some(dv),
                None => Some(1),
            }
        } else {
            None
        }
    } else if str_eq(tree.nodes[i].kind.as_str(), "setext_heading") {
        let mut j = i + 1;
        while j < n && tree.nodes[j].depth > d && !(tree.nodes[j].depth == d + 1 && (str_eq(
            tree.nodes[j].kind.as_str(),
            "setext_h1_underline",
        ) || str_eq(tree.nodes[j].kind.as_str(), "setext_h2_underline")))
            invariant
                n == tree.nodes@.len(),
                i < n,
                d == tree.nodes@[i as int].depth,
                i + 1 <= j,
                find_setext_underline(tree.nodes@, i + 1, d as int) == find_setext_underline(
                    tree.nodes@,
                    j as int,
                    d as int,
                ),
            decreases n - j,
        {
            j += 1;
        }
        if j < n && tree.nodes[j].depth > d {
            if str_eq(tree.nodes[j].kind.as_str(), "setext_h1_underline") {
                Some(1)
            } else {
                Some(2)
            }
        } else {
            Some(1)
        }
    } else {
        None
    }
}

/// Extract the document headings whose level lies in `[min_level, max_level]`,
/// joined by newlines; the rest of the document is discarded.
pub(crate) fn extract_markdown_headers(
    source: &str,
    tree: &SyntaxTree,
    min_level: usize,
    max_level: usize,
) -> (r: Result<String, SkimError>)
    ensures
        match r {
            Ok(out) => md_output(
                source.spec_bytes(),
                tree.nodes@,
                min_level as int,
                max_level as int,
            ) == Some(encode_utf8(out@)),
            Err(e) => md_output(
                source.spec_bytes(),
                tree.nodes@,
                min_level as int,
                max_level as int,
            ) is None && e matches SkimError::ParseError(_),
        },
{
    let ghost src = source.spec_bytes();
    let ghost nodes = tree.nodes@;
    let ghost lo = min_level as int;
    let ghost hi = max_level as int;
    let ghost nl = encode_utf8("\n"@);
    let n = tree.nodes.len();
    let src_len = source.as_bytes().len();
    proof {
        assert(src == encode_utf8(source@));
        assert(valid_utf8(src));
    }

    let mut out = String::new();
    let mut count: usize = 0;
    let ghost mut pieces: Seq<Seq<u8>> = Seq::empty();
    let mut i: usize = 0;
    proof {
        assert(pieces + md_pieces(src, nodes, lo, hi, 0)->Some_0 =~= md_pieces(
            src,
            nodes,
            lo,
            hi,
            0,
        )->Some_0);
    }
    while i < n
        invariant
            nodes == tree.nodes@,
            src == source.spec_bytes(),
            src == encode_utf8(source@),
            valid_utf8(src),
            src_len == src.len(),
            nl == encode_utf8("\n"@),
            lo == min_level as int,
            hi == max_level as int,
            n == nodes.len(),
            0 <= i <= n,
            forall|k: int| 0 <= k < i ==> (#[trigger] nodes[k].depth) <= MAX_AST_DEPTH,
            count == pieces.len(),
            count <= MAX_MARKDOWN_HEADERS,
            encode_utf8(out@) == join_with(pieces, nl),
            (match md_pieces(src, nodes, lo, hi, i as int) {
                Some(rest) => md_pieces(src, nodes, lo, hi, 0) == Some(pieces + rest),
                None => md_pieces(src, nodes, lo, hi, 0) is None,
            }),
        decreases n - i,
    {
        if tree.nodes[i].depth > MAX_AST_DEPTH {
            proof {
                assert(depth_exceeded(nodes));
            }
            let mut m = String::new();
            m.append("Maximum markdown depth exceeded: ");
            m.append(usize_to_string(MAX_AST_DEPTH).as_str());
            m.append(" (possible malicious input)");
            return Err(SkimError::ParseError(m));
        }
        match heading_level_exec(tree, i) {
            Some(lv) => {
                if min_level <= lv && lv <= max_level {
                    let start = tree.nodes[i].start;
                    let end = tree.nodes[i].end;
                    if !(start <= end && end <= src_len && source.is_char_boundary(start)
                        && source.is_char_boundary(end)) {
                        let mut m = String::new();
                        m.append("UTF-8 error in header at range [");
                        m.append(usize_to_string(start).as_str());
                        m.append(", ");
                        m.append(usize_to_string(end).as_str());
                        m.append(")");
                        return Err(SkimError::ParseError(m));
                    }
                    let ghost out0 = out@;
                    let ghost piece = src.subrange(start as int, end as int);
                    if count > 0 {
                        out.append("\n");
                    }
                    let text = slice_range(source, start, end);
                    out.append(text);
                    proof {
                        if pieces.len() == 0 {
                            lemma_encode_utf8_concat(out0, text@);
                            assert(out0 =~= Seq::<char>::empty());
                            assert(encode_utf8(out@) =~= piece);
                        } else {
                            lemma_encode_utf8_concat(out0, "\n"@);
                            lemma_encode_utf8_concat(out0 + "\n"@, text@);
                            assert(out@ =~= (out0 + "\n"@) + text@);
                            assert(encode_utf8(out@) =~= join_with(pieces, nl) + nl + piece);
                        }
                        lemma_join_with_snoc(pieces, nl, piece);
                        assert(encode_utf8(out@) == join_with(pieces.push(piece), nl));
                        let rest = md_pieces(src, nodes, lo, hi, i as int)->Some_0;
                        assert(md_pieces(src, nodes, lo, hi, i as int) == (match md_pieces(
                            src,
                            nodes,
                            lo,
                            hi,
                            i + 1,
                        ) {
                            Some(rs) => Some(seq![piece] + rs),
                            None => None::<Seq<Seq<u8>>>,
                        }));
                        match md_pieces(src, nodes, lo, hi, i + 1) {
                            Some(rs) => {
                                assert(pieces + (seq![piece] + rs) =~= pieces.push(piece) + rs);
                            },
                            None => {},
                        }
                        pieces = pieces.push(piece);
                    }
                    count += 1;
                    if count > MAX_MARKDOWN_HEADERS {
                        proof {
                            match md_pieces(src, nodes, lo, hi, i + 1) {
                                Some(rs) => {
                                    assert(md_pieces(src, nodes, lo, hi, 0)->Some_0.len()
                                        >= pieces.len());
                                },
                                None => {},
                            }
                        }
                        let mut m = String::new();
                        m.append("Too many markdown headers: ");
                        m.append(usize_to_string(count).as_str());
                        m.append(" (max: ");
                        m.append(usize_to_string(MAX_MARKDOWN_HEADERS).as_str());
                        m.append("). Possible malicious input.");
                        return Err(SkimError::ParseError(m));
                    }
                } else {
                    proof {
                        assert(md_pieces(src, nodes, lo, hi, i as int) == md_pieces(
                            src,
                            nodes,
                            lo,
                            hi,
                            i + 1,
                        ));
                    }
                }
            },
            None => {
                proof {
                    assert(md_pieces(src, nodes, lo, hi, i as int) == md_pieces(
                        src,
                        nodes,
                        lo,
                        hi,
                        i + 1,
                    ));
                }
            },
        }
        i += 1;
    }
    proof {
        assert(md_pieces(src, nodes, lo, hi, n as int) == Some(Seq::<Seq<u8>>::empty()));
        assert(pieces + Seq::<Seq<u8>>::empty() =~= pieces);
        assert(md_pieces(src, nodes, lo, hi, 0) == Some(pieces));
        assert(!depth_exceeded(nodes));
    }
    Ok(out)
}

} // verus!
