//! The YAML key extractor: split a multi-document stream at document
//! markers, parse each document as a YAML value, and emit a nested
//! indented key skeleton with document separators preserved.
//!
//! The per-document parse is an outside collaborator; it hands each
//! value's shape back as a flat preorder list of nodes, and both the
//! document splitting and the rendering are verified.

use vstd::prelude::*;
use vstd::string::StringExecFns;
use serde_yaml::Value;
use serde_yaml::Value::{Mapping, Sequence};
use crate::text::{usize_to_string, chars_vec, chars_range_to_string, trim_chars, trim_chars_range,
    is_blank, is_blank_str, join_with, lemma_join_with_snoc};
use crate::types::SkimError;

verus! {

/// Maximum nesting depth of rendered mappings.
pub const MAX_YAML_DEPTH: usize = 500;

/// Maximum total number of mapping keys across all documents.
pub const MAX_YAML_KEYS: usize = 10000;

/// The shape of one YAML value.
#[derive(Debug, Clone, Copy, PartialEq, Eq, Structural)]
pub enum YamlKind {
    /// A mapping; its entries follow as children.
    Mapping,
    /// A sequence; its elements follow as children.
    Sequence,
    /// A scalar or tagged value.
    Leaf,
}

/// One YAML value in the flat preorder rendering of a document.
///
/// An entry of a mapping carries its key when the key is a string;
/// entries with non-string keys, sequence elements and the root carry
/// none.  `depth` counts ancestors.
#[derive(Debug, Clone)]
pub struct YamlNode {
    /// Number of ancestors.
    pub depth: usize,
    /// The entry's key, for string-keyed children of a mapping.
    pub key: Option<String>,
    /// The value's shape.
    pub kind: YamlKind,
}

/// Whether a text parses as one YAML document.
pub uninterp spec fn yaml_is_valid(doc: Seq<char>) -> bool;

/// The shape of the YAML value a document parses to, as preorder nodes.
pub uninterp spec fn yaml_doc_of(doc: Seq<char>) -> Seq<YamlNode>;

#[verifier::external_type_specification]
#[verifier::external_body]
pub struct ExYamlValue(Value);

/// The contents of a parsed YAML value, as a flat preorder node list:
/// each value's shape and depth, mapping entries in the parser's order
/// carrying their key when it is a string.
pub uninterp spec fn yaml_nodes(v: Value) -> Seq<YamlNode>;

/// Relies on `serde_yaml::from_str`: `Ok` exactly when the input is one
/// valid YAML document (anchors resolved by the parser); the error case
/// carries the parser's message.
#[verifier::external_body]
fn parse_yaml_value(doc: &str) -> (r: Result<Value, String>)
    ensures
        r is Ok <==> yaml_is_valid(doc@),
        r matches Ok(v) ==> yaml_nodes(v) == yaml_doc_of(doc@),
{
    serde_yaml::from_str(doc).map_err(|e| e.to_string())
}

/// Relies on the shape of `serde_yaml::Value`: hands the value's contents
/// out as the flat preorder node list.
#[verifier::external_body]
fn flatten_yaml(v: Value) -> (r: Vec<YamlNode>)
    ensures
        r@ == yaml_nodes(v),
{
    let mut out = Vec::new();
    let mut stack = vec![(0usize, None, v)];
    while let Some((depth, key, val)) = stack.pop() {
        let kind = match &val { Mapping(_) => YamlKind::Mapping, Sequence(_) => YamlKind::Sequence, _ => YamlKind::Leaf };
        out.push(YamlNode { depth, key, kind });
        match val {
            Mapping(m) => stack.extend(Vec::from_iter(m).into_iter().rev().map(|(k, w)| (depth + 1, k.as_str().map(String::from), w))),
            Sequence(a) => stack.extend(a.into_iter().rev().map(|w| (depth + 1, None, w))),
            _ => {},
        }
    }
    out
}

// ============================================================================
// Document splitting
// ============================================================================

/// The position of the first newline at or after `from`, or the length.
pub open spec fn find_nl(s: Seq<char>, from: int) -> int
    decreases s.len() - from,
{
    if from < 0 || from >= s.len() {
        s.len() as int
    } else if s[from] == '\n' {
        from
    } else {
        find_nl(s, from + 1)
    }
}

proof fn lemma_find_nl_bounds(s: Seq<char>, from: int)
    requires
        0 <= from <= s.len(),
    ensures
        from <= find_nl(s, from) <= s.len(),
    decreases s.len() - from,
{
    if from < s.len() && s[from] != '\n' {
        lemma_find_nl_bounds(s, from + 1);
    }
}

/// A line with one trailing carriage return removed.
pub open spec fn strip_cr(line: Seq<char>) -> Seq<char> {
    if line.len() > 0 && line.last() == '\r' {
        line.drop_last()
    } else {
        line
    }
}

/// True when a line's trimmed content is the document-start marker.
pub open spec fn is_start_marker(line: Seq<char>) -> bool {
    trim_chars(line) == "---"@
}

/// True when a line's trimmed content is the document-end marker.
pub open spec fn is_end_marker(line: Seq<char>) -> bool {
    trim_chars(line) == "..."@
}

/// The collected documents, scanning the source line by line from `pos`
/// with the buffered document `cur`: a start marker closes a non-blank
/// buffer and opens a document; an end marker closes the buffer and
/// leaves document state; other lines open a document when non-blank and
/// are buffered verbatim while one is active.
pub open spec fn split_from(
    s: Seq<char>,
    pos: int,
    cur: Seq<char>,
    in_doc: bool,
    acc: Seq<Seq<char>>,
) -> Seq<Seq<char>>
    decreases s.len() - pos,
    via split_from_decreases
{
    if pos < 0 || pos >= s.len() {
        if !is_blank(cur) {
            acc.push(cur)
        } else {
            acc
        }
    } else {
        let k = find_nl(s, pos);
        let line = if k < s.len() {
            strip_cr(s.subrange(pos, k))
        } else {
            s.subrange(pos, k)
        };
        let nxt = if k >= s.len() {
            s.len() as int
        } else {
            k + 1
        };
        if is_start_marker(line) {
            if in_doc && !is_blank(cur) {
                split_from(s, nxt, Seq::empty(), true, acc.push(cur))
            } else {
                split_from(s, nxt, cur, true, acc)
            }
        } else if is_end_marker(line) {
            if !is_blank(cur) {
                split_from(s, nxt, Seq::empty(), false, acc.push(cur))
            } else {
                split_from(s, nxt, cur, false, acc)
            }
        } else {
            if in_doc || !is_blank(line) {
                let cur2 = if cur.len() == 0 {
                    line
                } else {
                    cur + "\n"@ + line
                };
                split_from(s, nxt, cur2, true, acc)
            } else {
                split_from(s, nxt, cur, in_doc, acc)
            }
        }
    }
}

#[via_fn]
proof fn split_from_decreases(
    s: Seq<char>,
    pos: int,
    cur: Seq<char>,
    in_doc: bool,
    acc: Seq<Seq<char>>,
) {
    if 0 <= pos < s.len() {
        lemma_find_nl_bounds(s, pos);
    }
}

/// The documents of a YAML stream; the whole source stands as one
/// document when none are collected.
pub open spec fn split_yaml_docs(source: Seq<char>) -> Seq<Seq<char>> {
    let docs = split_from(source, 0, Seq::empty(), false, Seq::empty());
    if docs.len() == 0 {
        seq![source]
    } else {
        docs
    }
}

/// Split YAML source into its documents at `---` and `...` marker lines.
///
/// Content lines are preserved verbatim; blank-only buffers are dropped;
/// when nothing is collected the whole source is one document.
pub fn split_yaml_documents(source: &str) -> (r: Vec<String>)
    ensures
        r@.map_values(|d: String| d@) == split_yaml_docs(source@),
{
    let v = chars_vec(source);
    let n = v.len();
    let mut docs: Vec<String> = Vec::new();
    let mut cur = String::new();
    let mut in_doc = false;
    let mut pos: usize = 0;
    let ghost target = split_from(source@, 0, Seq::empty(), false, Seq::empty());
    proof {
        assert(docs@.map_values(|d: String| d@) =~= Seq::<Seq<char>>::empty());
    }
    while pos < n
        invariant
            v@ == source@,
            n == v@.len(),
            0 <= pos <= n,
            target == split_from(
                source@,
                pos as int,
                cur@,
                in_doc,
                docs@.map_values(|d: String| d@),
            ),
        decreases n - pos,
    {
        let ghost acc0 = docs@.map_values(|d: String| d@);
        // Find the end of the line.
        let mut k = pos;
        while k < n && v[k] != '\n'
            invariant
                v@ == source@,
                n == v@.len(),
                pos <= k <= n,
                find_nl(source@, pos as int) == find_nl(source@, k as int),
                forall|q: int| pos <= q < k ==> v@[q] != '\n',
            decreases n - k,
        {
            k += 1;
        }
        proof {
            assert(find_nl(source@, k as int) == k);
        }
        let le = if k < n && k > pos && v[k - 1] == '\r' {
            k - 1
        } else {
            k
        };
        let ghost line = if k < n {
            strip_cr(source@.subrange(pos as int, k as int))
        } else {
            source@.subrange(pos as int, k as int)
        };
        proof {
            if k < n && k > pos && v@[k - 1] == '\r' {
                assert(source@.subrange(pos as int, k as int).last() == v@[k - 1]);
                assert(source@.subrange(pos as int, k as int).drop_last() =~= source@.subrange(
                    pos as int,
                    le as int,
                ));
            }
            assert(line =~= source@.subrange(pos as int, le as int));
        }

        // Classify the line.
        let (a, b) = trim_chars_range(&v, pos, le);
        proof {
            assert(v@.subrange(pos as int, le as int) =~= source@.subrange(pos as int, le as int));
        }
        let is_start = b - a == 3 && v[a] == '-' && v[a + 1] == '-' && v[a + 2] == '-';
        let is_end = b - a == 3 && v[a] == '.' && v[a + 1] == '.' && v[a + 2] == '.';
        proof {
            reveal_strlit("---");
            reveal_strlit("...");
            let t = trim_chars(line);
            assert(t == v@.subrange(a as int, b as int));
            if is_start {
                assert(t.len() == 3 && t[0] == '-' && t[1] == '-' && t[2] == '-');
                assert(t =~= "---"@);
            } else {
                if t == "---"@ {
                    assert(t.len() == 3 && t[0] == '-' && t[1] == '-' && t[2] == '-');
                }
            }
            if is_end {
                assert(t.len() == 3 && t[0] == '.' && t[1] == '.' && t[2] == '.');
                assert(t =~= "..."@);
            } else {
                if t == "..."@ {
                    assert(t.len() == 3 && t[0] == '.' && t[1] == '.' && t[2] == '.');
                }
            }
        }

        if is_start {
            if in_doc && !is_blank_str(cur.as_str()) {
                docs.push(cur);
                cur = String::new();
                proof {
                    assert(docs@.map_values(|d: String| d@) =~= acc0.push(
                        docs@[docs@.len() - 1]@,
                    ));
                }
            }
            in_doc = true;
        } else if is_end {
            if !is_blank_str(cur.as_str()) {
                docs.push(cur);
                cur = String::new();
                proof {
                    assert(docs@.map_values(|d: String| d@) =~= acc0.push(
                        docs@[docs@.len() - 1]@,
                    ));
                }
            }
            in_doc = false;
        } else {
            // The trimmed range is empty exactly when the line is blank.
            let line_blank = a == b;
            proof {
                crate::text::lemma_trim_chars_empty_iff(line);
            }
            if in_doc || !line_blank {
                if !cur.as_str().is_empty() {
                    cur.append("\n");
                }
                let piece = chars_range_to_string(&v, pos, le);
                let ghost cur0 = cur@;
                cur.append(piece.as_str());
                proof {
                    if cur0.len() == 0 {
                        assert(cur@ =~= line);
                    }
                }
                in_doc = true;
            }
        }
        pos = if k >= n {
            n
        } else {
            k + 1
        };
    }

    if !is_blank_str(cur.as_str()) {
        let ghost acc0 = docs@.map_values(|d: String| d@);
        docs.push(cur);
        proof {
            assert(docs@.map_values(|d: String| d@) =~= acc0.push(docs@[docs@.len() - 1]@));
        }
    }
    if docs.len() == 0 {
        docs.push(source.to_owned());
        proof {
            assert(docs@.map_values(|d: String| d@) =~= seq![source@]);
        }
    }
    docs
}

// ============================================================================
// Per-document rendering
// ============================================================================

/// The end of the subtree of the node at `j`, which has depth `d`.
pub open spec fn ysubtree_end(nodes: Seq<YamlNode>, j: int, d: int) -> int
    decreases nodes.len() - j,
{
    if j < 0 || j >= nodes.len() {
        j
    } else if j + 1 >= nodes.len() || nodes[j + 1].depth <= d {
        j + 1
    } else {
        ysubtree_end(nodes, j + 1, d)
    }
}

proof fn lemma_ysubtree_end_bounds(nodes: Seq<YamlNode>, j: int, d: int)
    requires
        0 <= j < nodes.len(),
    ensures
        j < ysubtree_end(nodes, j, d) <= nodes.len(),
    decreases nodes.len() - j,
{
    if !(j + 1 >= nodes.len() || nodes[j + 1].depth <= d) {
        lemma_ysubtree_end_bounds(nodes, j + 1, d);
    }
}

/// The number of direct children of a node of depth `d`, scanning from `j`.
pub open spec fn ychild_count(nodes: Seq<YamlNode>, j: int, d: int) -> int
    decreases nodes.len() - j,
    via ychild_count_decreases
{
    if j < 0 || j >= nodes.len() || nodes[j].depth <= d {
        0
    } else if nodes[j].depth == d + 1 {
        1 + ychild_count(nodes, ysubtree_end(nodes, j, d + 1), d)
    } else {
        ychild_count(nodes, j + 1, d)
    }
}

#[via_fn]
proof fn ychild_count_decreases(nodes: Seq<YamlNode>, j: int, d: int) {
    if 0 <= j < nodes.len() && nodes[j].depth > d && nodes[j].depth == d + 1 {
        lemma_ysubtree_end_bounds(nodes, j, d + 1);
    }
}

/// Two spaces of indent per level.
pub open spec fn yindent_str(d: int) -> Seq<char>
    decreases d,
{
    if d <= 0 {
        Seq::empty()
    } else {
        yindent_str(d - 1) + "  "@
    }
}

/// The skeleton of the value at `i`: `None` on a depth or key-count
/// failure, otherwise the text and the updated key count.
pub open spec fn yrender_value(nodes: Seq<YamlNode>, i: int, rd: int, kc: int) -> Option<
    (Seq<char>, int),
>
    decreases nodes.len() - i, 3int,
{
    if i < 0 || i >= nodes.len() {
        Some((Seq::empty(), kc))
    } else if rd > MAX_YAML_DEPTH {
        None
    } else {
        match nodes[i].kind {
            YamlKind::Mapping => yrender_mapping(nodes, i, rd, kc),
            YamlKind::Sequence => yrender_sequence(nodes, i, rd, kc),
            YamlKind::Leaf => Some((Seq::empty(), kc)),
        }
    }
}

/// The skeleton of a top-level sequence: its first element's skeleton when
/// that is a mapping, `[]` otherwise.
pub open spec fn yrender_sequence(nodes: Seq<YamlNode>, i: int, rd: int, kc: int) -> Option<
    (Seq<char>, int),
>
    decreases nodes.len() - i, 2int,
{
    if 0 <= i && i + 1 < nodes.len() && nodes[i + 1].depth == nodes[i].depth + 1 {
        if nodes[i + 1].kind is Mapping {
            yrender_value(nodes, i + 1, rd, kc)
        } else {
            Some(("[]"@, kc))
        }
    } else {
        Some(("[]"@, kc))
    }
}

/// The skeleton of the mapping at `i`: `{}` when empty; otherwise one
/// indented line per string-keyed entry, each with its value suffix;
/// entries with non-string keys are skipped but counted.
pub open spec fn yrender_mapping(nodes: Seq<YamlNode>, i: int, rd: int, kc: int) -> Option<
    (Seq<char>, int),
>
    decreases nodes.len() - i, 0int,
{
    if !(0 <= i < nodes.len()) {
        Some((Seq::empty(), kc))
    } else if i + 1 >= nodes.len() || nodes[i + 1].depth <= nodes[i].depth {
        Some(("{}"@, kc))
    } else {
        let cnt = ychild_count(nodes, i + 1, nodes[i].depth as int);
        if kc + cnt > MAX_YAML_KEYS {
            None
        } else {
            match yrender_entries(nodes, i + 1, nodes[i].depth as int, rd, kc + cnt) {
                Some((pieces, kc2)) => Some((join_with(pieces, "\n"@), kc2)),
                None => None,
            }
        }
    }
}

/// The entry lines of a mapping whose children start at `j`: each
/// string-keyed entry is the indented key followed by its value suffix;
/// other entries yield no line.
pub open spec fn yrender_entries(nodes: Seq<YamlNode>, j: int, d: int, rd: int, kc: int) -> Option<
    (Seq<Seq<char>>, int),
>
    decreases nodes.len() - j, 2int,
    via yrender_entries_decreases
{
    if j < 0 || j >= nodes.len() || nodes[j].depth <= d {
        Some((Seq::empty(), kc))
    } else if nodes[j].depth == d + 1 {
        match nodes[j].key {
            Some(k) => {
                match yformat_value(nodes, j, rd + 1, kc) {
                    Some((sfx, kc2)) => {
                        let piece = yindent_str(rd) + k@ + sfx;
                        match yrender_entries(nodes, ysubtree_end(nodes, j, d + 1), d, rd, kc2) {
                            Some((rest, kc3)) => Some((seq![piece] + rest, kc3)),
                            None => None,
                        }
                    },
                    None => None,
                }
            },
            None => yrender_entries(nodes, ysubtree_end(nodes, j, d + 1), d, rd, kc),
        }
    } else {
        yrender_entries(nodes, j + 1, d, rd, kc)
    }
}

#[via_fn]
proof fn yrender_entries_decreases(nodes: Seq<YamlNode>, j: int, d: int, rd: int, kc: int) {
    if 0 <= j < nodes.len() && nodes[j].depth > d && nodes[j].depth == d + 1 {
        lemma_ysubtree_end_bounds(nodes, j, d + 1);
    }
}

/// The suffix after a key, per the entry's value: a mapping whose
/// rendering is neither empty nor `{}` brings `:` and the rendering on
/// the following lines; a sequence of mappings likewise; anything else
/// brings nothing.
pub open spec fn yformat_value(nodes: Seq<YamlNode>, j: int, rd: int, kc: int) -> Option<
    (Seq<char>, int),
>
    decreases nodes.len() - j, 1int,
{
    if !(0 <= j < nodes.len()) {
        Some((Seq::empty(), kc))
    } else {
        match nodes[j].kind {
            YamlKind::Mapping => {
                if rd > MAX_YAML_DEPTH {
                    None
                } else {
                    match yrender_mapping(nodes, j, rd, kc) {
                        Some((s, kc2)) => {
                            if s.len() == 0 || s == "{}"@ {
                                Some((Seq::empty(), kc2))
                            } else {
                                Some((":\n"@ + s, kc2))
                            }
                        },
                        None => None,
                    }
                }
            },
            YamlKind::Sequence => {
                if j + 1 < nodes.len() && nodes[j + 1].depth == nodes[j].depth + 1 && nodes[j
                    + 1].kind is Mapping {
                    match yrender_value(nodes, j + 1, rd, kc) {
                        Some((s, kc2)) => {
                            if s.len() == 0 {
                                Some((Seq::empty(), kc2))
                            } else {
                                Some((":\n"@ + s, kc2))
                            }
                        },
                        None => None,
                    }
                } else {
                    Some((Seq::empty(), kc))
                }
            },
            YamlKind::Leaf => Some((Seq::empty(), kc)),
        }
    }
}

/// What rendering one document yields: the skeleton text and its key
/// count, or nothing when the document does not parse or a bound fails.
pub open spec fn yaml_doc_render(doc: Seq<char>) -> Option<(Seq<char>, int)> {
    if !yaml_is_valid(doc) {
        None
    } else {
        let nodes = yaml_doc_of(doc);
        if nodes.len() == 0 {
            Some((Seq::empty(), 0))
        } else {
            yrender_value(nodes, 0, 0, 0)
        }
    }
}

/// The non-empty renderings of the documents from `di` on, with `total`
/// keys already counted: `None` when a document fails or the cumulative
/// key count passes its bound.
pub open spec fn yaml_multi(docs: Seq<Seq<char>>, di: int, total: int) -> Option<Seq<Seq<char>>>
    decreases docs.len() - di,
{
    if di < 0 || di >= docs.len() {
        Some(Seq::empty())
    } else if is_blank(docs[di]) {
        yaml_multi(docs, di + 1, total)
    } else {
        match yaml_doc_render(docs[di]) {
            Some((s, kc)) => {
                if total + kc > MAX_YAML_KEYS {
                    None
                } else {
                    match yaml_multi(docs, di + 1, total + kc) {
                        Some(rest) => Some(
                            if s.len() > 0 {
                                seq![s] + rest
                            } else {
                                rest
                            },
                        ),
                        None => None,
                    }
                }
            },
            None => None,
        }
    }
}

/// What the YAML extractor emits for a source text: a single document's
/// skeleton, or the non-empty per-document skeletons joined by separator
/// lines.
pub open spec fn yaml_output(source: Seq<char>) -> Option<Seq<char>> {
    let docs = split_yaml_docs(source);
    if docs.len() == 1 {
        match yaml_doc_render(docs[0]) {
            Some((s, _)) => Some(s),
            None => None,
        }
    } else {
        match yaml_multi(docs, 0, 0) {
            Some(rs) => Some(join_with(rs, "\n---\n"@)),
            None => None,
        }
    }
}

fn yaml_keys_error() -> (e: SkimError)
    ensures
        e matches SkimError::ParseError(_),
{
    let mut m = String::new();
    m.append("YAML key count exceeded: ");
    m.append(usize_to_string(MAX_YAML_KEYS).as_str());
    m.append(" (max: ");
    m.append(usize_to_string(MAX_YAML_KEYS).as_str());
    m.append("). Possible malicious input.");
    SkimError::ParseError(m)
}

fn yaml_depth_error() -> (e: SkimError)
    ensures
        e matches SkimError::ParseError(_),
{
    let mut m = String::new();
    m.append("YAML nesting depth exceeded: ");
    m.append(usize_to_string(MAX_YAML_DEPTH).as_str());
    m.append(" (max: ");
    m.append(usize_to_string(MAX_YAML_DEPTH).as_str());
    m.append("). Possible malicious input.");
    SkimError::ParseError(m)
}

/// Two spaces of indent per level.
fn ymake_indent(d: usize) -> (s: String)
    ensures
        s@ == yindent_str(d as int),
{
    let mut s = String::new();
    let mut k: usize = 0;
    while k < d
        invariant
            0 <= k <= d,
            s@ == yindent_str(k as int),
        decreases d - k,
    {
        s.append("  ");
        k += 1;
    }
    s
}

/// The end of the subtree of the node at `j`.
fn ysubtree_end_exec(nodes: &Vec<YamlNode>, j: usize, d: usize) -> (r: usize)
    requires
        j < nodes@.len(),
    ensures
        r == ysubtree_end(nodes@, j as int, d as int),
        j < r <= nodes@.len(),
{
    proof {
        lemma_ysubtree_end_bounds(nodes@, j as int, d as int);
    }
    let n = nodes.len();
    let mut k = j;
    while k + 1 < n && nodes[k + 1].depth > d
        invariant
            n == nodes@.len(),
            j <= k < n,
            ysubtree_end(nodes@, j as int, d as int) == ysubtree_end(nodes@, k as int, d as int),
        decreases n - k,
    {
        k += 1;
    }
    k + 1
}

proof fn lemma_ychild_count_nonneg(nodes: Seq<YamlNode>, j: int, d: int)
    ensures
        ychild_count(nodes, j, d) >= 0,
    decreases nodes.len() - j,
{
    if !(j < 0 || j >= nodes.len() || nodes[j].depth <= d) {
        if nodes[j].depth == d + 1 {
            if 0 <= j < nodes.len() {
                lemma_ysubtree_end_bounds(nodes, j, d + 1);
            }
            lemma_ychild_count_nonneg(nodes, ysubtree_end(nodes, j, d + 1), d);
        } else {
            lemma_ychild_count_nonneg(nodes, j + 1, d);
        }
    }
}

/// The number of direct children of a node of depth `d`, from `j` on.
fn ychild_count_exec(nodes: &Vec<YamlNode>, j: usize, d: usize) -> (r: Option<usize>)
    ensures
        match r {
            Some(c) => ychild_count(nodes@, j as int, d as int) == c as int,
            None => ychild_count(nodes@, j as int, d as int) > MAX_YAML_KEYS,
        },
{
    let n = nodes.len();
    let mut k = j;
    let mut c: usize = 0;
    while k < n && nodes[k].depth > d
        invariant
            n == nodes@.len(),
            j <= k,
            c <= MAX_YAML_KEYS,
            ychild_count(nodes@, j as int, d as int) == c + ychild_count(
                nodes@,
                k as int,
                d as int,
            ),
        decreases n - k,
    {
        if nodes[k].depth == d + 1 {
            if c == MAX_YAML_KEYS {
                proof {
                    lemma_ychild_count_nonneg(
                        nodes@,
                        ysubtree_end(nodes@, k as int, d + 1),
                        d as int,
                    );
                }
                return None;
            }
            c += 1;
            k = ysubtree_end_exec(nodes, k, d + 1);
        } else {
            k += 1;
        }
    }
    Some(c)
}

fn yrender_value_exec(nodes: &Vec<YamlNode>, i: usize, rd: usize, kc: usize) -> (r: Result<
    (String, usize),
    SkimError,
>)
    ensures
        match r {
            Ok((s, kc2)) => yrender_value(nodes@, i as int, rd as int, kc as int) == Some(
                (s@, kc2 as int),
            ),
            Err(e) => yrender_value(nodes@, i as int, rd as int, kc as int) is None && e matches
                SkimError::ParseError(_),
        },
    decreases nodes@.len() - i, 3int,
{
    if i >= nodes.len() {
        Ok((String::new(), kc))
    } else if rd > MAX_YAML_DEPTH {
        Err(yaml_depth_error())
    } else {
        match nodes[i].kind {
            YamlKind::Mapping => yrender_mapping_exec(nodes, i, rd, kc),
            YamlKind::Sequence => yrender_sequence_exec(nodes, i, rd, kc),
            YamlKind::Leaf => Ok((String::new(), kc)),
        }
    }
}

fn yrender_sequence_exec(nodes: &Vec<YamlNode>, i: usize, rd: usize, kc: usize) -> (r: Result<
    (String, usize),
    SkimError,
>)
    requires
        i < nodes@.len(),
    ensures
        match r {
            Ok((s, kc2)) => yrender_sequence(nodes@, i as int, rd as int, kc as int) == Some(
                (s@, kc2 as int),
            ),
            Err(e) => yrender_sequence(nodes@, i as int, rd as int, kc as int) is None && e matches
                SkimError::ParseError(_),
        },
    decreases nodes@.len() - i, 2int,
{
    let n = nodes.len();
    if i < n - 1 && nodes[i + 1].depth > nodes[i].depth && nodes[i + 1].depth - 1
        == nodes[i].depth {
        if matches!(nodes[i + 1].kind, YamlKind::Mapping) {
            yrender_value_exec(nodes, i + 1, rd, kc)
        } else {
            proof {
                assert(!(nodes@[i + 1].kind is Mapping));
            }
            let mut s = String::new();
            s.append("[]");
            Ok((s, kc))
        }
    } else {
        let mut s = String::new();
        s.append("[]");
        Ok((s, kc))
    }
}

fn yrender_mapping_exec(nodes: &Vec<YamlNode>, i: usize, rd: usize, kc: usize) -> (r: Result<
    (String, usize),
    SkimError,
>)
    requires
        i < nodes@.len(),
        rd <= MAX_YAML_DEPTH,
    ensures
        match r {
            Ok((s, kc2)) => yrender_mapping(nodes@, i as int, rd as int, kc as int) == Some(
                (s@, kc2 as int),
            ),
            Err(e) => yrender_mapping(nodes@, i as int, rd as int, kc as int) is None && e matches
                SkimError::ParseError(_),
        },
    decreases nodes@.len() - i, 0int,
{
    let n = nodes.len();
    if i >= n - 1 || nodes[i + 1].depth <= nodes[i].depth {
        let mut s = String::new();
        s.append("{}");
        return Ok((s, kc));
    }
    let d = nodes[i].depth;
    let cnt = match ychild_count_exec(nodes, i + 1, d) {
        Some(c) => c,
        None => {
            proof {
                lemma_ychild_count_nonneg(nodes@, i + 1, d as int);
            }
            return Err(yaml_keys_error());
        },
    };
    if cnt > MAX_YAML_KEYS || kc > MAX_YAML_KEYS - cnt {
        return Err(yaml_keys_error());
    }
    match yrender_entries_exec(nodes, i + 1, d, rd, kc + cnt) {
        Ok((pieces, ghost_pieces, kc2)) => {
            let mut s = String::new();
            let m = pieces.len();
            let mut t: usize = 0;
            while t < m
                invariant
                    m == pieces@.len(),
                    ghost_pieces@.len() == m,
                    forall|q: int| 0 <= q < m ==> pieces@[q]@ == ghost_pieces@[q],
                    0 <= t <= m,
                    s@ == join_with(ghost_pieces@.take(t as int), "\n"@),
                decreases m - t,
            {
                if t > 0 {
                    s.append("\n");
                }
                s.append(pieces[t].as_str());
                proof {
                    lemma_join_with_snoc(
                        ghost_pieces@.take(t as int),
                        "\n"@,
                        ghost_pieces@[t as int],
                    );
                    assert(ghost_pieces@.take(t as int).push(ghost_pieces@[t as int])
                        =~= ghost_pieces@.take(t + 1));
                }
                t += 1;
            }
            proof {
                assert(ghost_pieces@.take(m as int) =~= ghost_pieces@);
            }
            Ok((s, kc2))
        },
        Err(e) => Err(e),
    }
}

fn yrender_entries_exec(nodes: &Vec<YamlNode>, j: usize, d: usize, rd: usize, kc: usize) -> (r:
    Result<(Vec<String>, Ghost<Seq<Seq<char>>>, usize), SkimError>)
    requires
        rd <= MAX_YAML_DEPTH,
    ensures
        match r {
            Ok((ps, gs, kc2)) => yrender_entries(nodes@, j as int, d as int, rd as int, kc as int)
                == Some((gs@, kc2 as int)) && ps@.len() == gs@.len() && (forall|q: int|
                0 <= q < ps@.len() ==> ps@[q]@ == gs@[q]),
            Err(e) => yrender_entries(nodes@, j as int, d as int, rd as int, kc as int) is None
                && e matches SkimError::ParseError(_),
        },
    decreases nodes@.len() - j, 2int,
{
    if j >= nodes.len() || nodes[j].depth <= d {
        return Ok((Vec::new(), Ghost(Seq::empty()), kc));
    }
    if nodes[j].depth == d + 1 {
        let has_key = nodes[j].key.is_some();
        if has_key {
            match yformat_value_exec(nodes, j, rd + 1, kc) {
                Ok((sfx, kc2)) => {
                    let mut piece = ymake_indent(rd);
                    // The key is present on this branch.
                    match &nodes[j].key {
                        Some(k) => {
                            piece.append(k.as_str());
                        },
                        None => {
                            proof {
                                assert(false);
                            }
                        },
                    }
                    piece.append(sfx.as_str());
                    let nxt = ysubtree_end_exec(nodes, j, d + 1);
                    match yrender_entries_exec(nodes, nxt, d, rd, kc2) {
                        Ok((rest, grest, kc3)) => {
                            let mut ps: Vec<String> = Vec::new();
                            let ghost gpiece = piece@;
                            ps.push(piece);
                            let mut t: usize = 0;
                            let m = rest.len();
                            while t < m
                                invariant
                                    m == rest@.len(),
                                    ps@.len() == t + 1,
                                    ps@[0]@ == gpiece,
                                    forall|q: int| 0 <= q < t ==> ps@[q + 1]@ == rest@[q]@,
                                    0 <= t <= m,
                                decreases m - t,
                            {
                                let mut one = String::new();
                                one.append(rest[t].as_str());
                                ps.push(one);
                                t += 1;
                            }
                            let ghost gs = seq![gpiece] + grest@;
                            proof {
                                assert(ps@.len() == gs.len());
                                assert forall|q: int| 0 <= q < ps@.len() implies ps@[q]@ == gs[q]
                                by {
                                    if q == 0 {
                                    } else {
                                        assert(ps@[q]@ == rest@[q - 1]@);
                                        assert(gs[q] == grest@[q - 1]);
                                    }
                                }
                            }
                            Ok((ps, Ghost(gs), kc3))
                        },
                        Err(e) => Err(e),
                    }
                },
                Err(e) => Err(e),
            }
        } else {
            let nxt = ysubtree_end_exec(nodes, j, d + 1);
            yrender_entries_exec(nodes, nxt, d, rd, kc)
        }
    } else {
        yrender_entries_exec(nodes, j + 1, d, rd, kc)
    }
}

fn yformat_value_exec(nodes: &Vec<YamlNode>, j: usize, rd: usize, kc: usize) -> (r: Result<
    (String, usize),
    SkimError,
>)
    requires
        j < nodes@.len(),
        rd <= MAX_YAML_DEPTH + 1,
    ensures
        match r {
            Ok((s, kc2)) => yformat_value(nodes@, j as int, rd as int, kc as int) == Some(
                (s@, kc2 as int),
            ),
            Err(e) => yformat_value(nodes@, j as int, rd as int, kc as int) is None && e matches
                SkimError::ParseError(_),
        },
    decreases nodes@.len() - j, 1int,
{
    match nodes[j].kind {
        YamlKind::Mapping => {
            if rd > MAX_YAML_DEPTH {
                return Err(yaml_depth_error());
            }
            match yrender_mapping_exec(nodes, j, rd, kc) {
                Ok((s, kc2)) => {
                    let suppressed = s.as_str().is_empty() || crate::text::str_eq(
                        s.as_str(),
                        "{}",
                    );
                    if suppressed {
                        Ok((String::new(), kc2))
                    } else {
                        let mut out = String::new();
                        out.append(":\n");
                        out.append(s.as_str());
                        Ok((out, kc2))
                    }
                },
                Err(e) => Err(e),
            }
        },
        YamlKind::Sequence => {
            let n = nodes.len();
            if j < n - 1 && nodes[j + 1].depth > nodes[j].depth && nodes[j + 1].depth - 1
                == nodes[j].depth && matches!(nodes[j + 1].kind, YamlKind::Mapping) {
                match yrender_value_exec(nodes, j + 1, rd, kc) {
                    Ok((s, kc2)) => {
                        if s.as_str().is_empty() {
                            Ok((String::new(), kc2))
                        } else {
                            let mut out = String::new();
                            out.append(":\n");
                            out.append(s.as_str());
                            Ok((out, kc2))
                        }
                    },
                    Err(e) => Err(e),
                }
            } else {
                proof {
                    if j + 1 < nodes@.len() && nodes@[j + 1].depth == nodes@[j as int].depth + 1 {
                        assert(!(nodes@[j + 1].kind is Mapping));
                    }
                }
                Ok((String::new(), kc))
            }
        },
        YamlKind::Leaf => Ok((String::new(), kc)),
    }
}

/// Render one document's skeleton, with its key count.
fn transform_single_document(doc: &str) -> (r: Result<(String, usize), SkimError>)
    ensures
        match r {
            Ok((s, kc)) => yaml_doc_render(doc@) == Some((s@, kc as int)),
            Err(e) => yaml_doc_render(doc@) is None && e matches SkimError::ParseError(_),
        },
{
    let v = match parse_yaml_value(doc) {
        Ok(v) => v,
        Err(msg) => {
            let mut m = String::new();
            m.append("Invalid YAML: ");
            m.append(msg.as_str());
            return Err(SkimError::ParseError(m));
        },
    };
    let nodes = flatten_yaml(v);
    if nodes.len() == 0 {
        return Ok((String::new(), 0));
    }
    yrender_value_exec(&nodes, 0, 0, 0)
}

/// Transform YAML source to its key skeleton, documents separated by
/// `---` lines.
///
/// Every transformation mode yields this same skeleton for YAML.
pub fn transform_yaml(source: &str) -> (r: Result<String, SkimError>)
    ensures
        r is Ok <==> yaml_output(source@) is Some,
        r matches Ok(out) ==> yaml_output(source@) == Some(out@),
        r is Err ==> r->Err_0 matches SkimError::ParseError(_),
{
    let docs = split_yaml_documents(source);
    let ghost gdocs = split_yaml_docs(source@);
    proof {
        assert(gdocs.len() == docs@.len());
        assert(forall|q: int| 0 <= q < docs@.len() ==> gdocs[q] == #[trigger] docs@[q]@);
    }
    if docs.len() == 1 {
        match transform_single_document(docs[0].as_str()) {
            Ok((s, _)) => {
                return Ok(s);
            },
            Err(e) => {
                return Err(e);
            },
        }
    }
    let nd = docs.len();
    let mut out = String::new();
    let mut emitted: usize = 0;
    let ghost mut pieces: Seq<Seq<char>> = Seq::empty();
    let mut total: usize = 0;
    let mut di: usize = 0;
    proof {
        assert(pieces + yaml_multi(gdocs, 0, 0)->Some_0 =~= yaml_multi(gdocs, 0, 0)->Some_0);
    }
    while di < nd
        invariant
            nd == docs@.len(),
            gdocs == split_yaml_docs(source@),
            gdocs.len() == docs@.len(),
            forall|q: int| 0 <= q < docs@.len() ==> gdocs[q] == #[trigger] docs@[q]@,
            nd != 1,
            0 <= di <= nd,
            total <= MAX_YAML_KEYS,
            emitted <= di,
            emitted == pieces.len(),
            out@ == join_with(pieces, "\n---\n"@),
            (match yaml_multi(gdocs, di as int, total as int) {
                Some(rest) => yaml_multi(gdocs, 0, 0) == Some(pieces + rest),
                None => yaml_multi(gdocs, 0, 0) is None,
            }),
        decreases nd - di,
    {
        if is_blank_str(docs[di].as_str()) {
            di += 1;
            continue;
        }
        let (s, kc) = match transform_single_document(docs[di].as_str()) {
            Ok(p) => p,
            Err(e) => {
                return Err(e);
            },
        };
        if kc > MAX_YAML_KEYS || total > MAX_YAML_KEYS - kc {
            return Err(yaml_keys_error());
        }
        total += kc;
        if !s.as_str().is_empty() {
            let ghost out0 = out@;
            if emitted > 0 {
                out.append("\n---\n");
            }
            out.append(s.as_str());
            proof {
                lemma_join_with_snoc(pieces, "\n---\n"@, s@);
                if pieces.len() == 0 {
                    assert(out@ =~= s@);
                } else {
                    assert(out@ =~= join_with(pieces, "\n---\n"@) + "\n---\n"@ + s@);
                }
                match yaml_multi(gdocs, di + 1, total as int) {
                    Some(rest) => {
                        assert(pieces + (seq![s@] + rest) =~= pieces.push(s@) + rest);
                    },
                    None => {},
                }
                pieces = pieces.push(s@);
            }
            emitted += 1;
        }
        di += 1;
    }
    proof {
        assert(yaml_multi(gdocs, nd as int, total as int) == Some(Seq::<Seq<char>>::empty()));
        assert(pieces + Seq::<Seq<char>>::empty() =~= pieces);
        assert(yaml_multi(gdocs, 0, 0) == Some(pieces));
    }
    Ok(out)
}


// ============================================================================
// The separator law
// ============================================================================

/// The number of lines equal to the document separator `---`, scanning
/// from `pos`.
pub open spec fn marker_line_count_from(s: Seq<char>, pos: int) -> int
    decreases s.len() - pos,
    via marker_line_count_decreases
{
    if pos < 0 || pos >= s.len() {
        0
    } else {
        let k = find_nl(s, pos);
        let line = if k < s.len() {
            strip_cr(s.subrange(pos, k))
        } else {
            s.subrange(pos, k)
        };
        let nxt = if k >= s.len() {
            s.len() as int
        } else {
            k + 1
        };
        (if line == "---"@ {
            1int
        } else {
            0int
        }) + marker_line_count_from(s, nxt)
    }
}

#[via_fn]
proof fn marker_line_count_decreases(s: Seq<char>, pos: int) {
    if 0 <= pos < s.len() {
        lemma_find_nl_bounds(s, pos);
    }
}

/// The number of lines of a text equal to the document separator.
pub open spec fn marker_line_count(s: Seq<char>) -> int {
    marker_line_count_from(s, 0)
}

proof fn lemma_find_nl_found(s: Seq<char>, pos: int)
    requires
        0 <= pos <= s.len(),
    ensures
        find_nl(s, pos) < s.len() ==> s[find_nl(s, pos)] == '\n',
    decreases s.len() - pos,
{
    if pos < s.len() && s[pos] != '\n' {
        lemma_find_nl_found(s, pos + 1);
    }
}

proof fn lemma_find_nl_concat(a: Seq<char>, b: Seq<char>, pos: int)
    requires
        0 <= pos <= a.len(),
    ensures
        find_nl(a + seq!['\n'] + b, pos) == if find_nl(a, pos) == a.len() {
            a.len() as int
        } else {
            find_nl(a, pos)
        },
    decreases a.len() - pos,
{
    let c = a + seq!['\n'] + b;
    if pos == a.len() {
        assert(c[pos] == '\n');
    } else {
        assert(c[pos] == a[pos]);
        if a[pos] != '\n' {
            lemma_find_nl_concat(a, b, pos + 1);
        }
    }
}

proof fn lemma_find_nl_shift(a: Seq<char>, b: Seq<char>, p: int)
    requires
        a.len() + 1 <= p <= a.len() + 1 + b.len(),
    ensures
        find_nl(a + seq!['\n'] + b, p) == find_nl(b, p - a.len() - 1) + a.len() + 1,
    decreases a.len() + 1 + b.len() - p,
{
    let c = a + seq!['\n'] + b;
    let q = p - a.len() - 1;
    if p >= c.len() {
        assert(q >= b.len());
    } else {
        assert(c[p] == b[q]);
        if b[q] != '\n' {
            lemma_find_nl_shift(a, b, p + 1);
        }
    }
}

proof fn lemma_marker_count_shift(a: Seq<char>, b: Seq<char>, p: int)
    requires
        a.len() + 1 <= p <= a.len() + 1 + b.len(),
    ensures
        marker_line_count_from(a + seq!['\n'] + b, p) == marker_line_count_from(
            b,
            p - a.len() - 1,
        ),
    decreases a.len() + 1 + b.len() - p,
{
    let c = a + seq!['\n'] + b;
    let q = p - a.len() - 1;
    if p >= c.len() {
        assert(q >= b.len());
    } else {
        lemma_find_nl_shift(a, b, p);
        let k = find_nl(c, p);
        let kb = find_nl(b, q);
        assert(k == kb + a.len() + 1);
        lemma_find_nl_bounds(b, q);
        assert(c.subrange(p, k) =~= b.subrange(q, kb));
        assert(k < c.len() <==> kb < b.len());
        lemma_marker_count_shift(a, b, if k >= c.len() { c.len() as int } else { k + 1 });
    }
}

proof fn lemma_marker_count_concat(a: Seq<char>, b: Seq<char>, pos: int)
    requires
        a.len() > 0,
        a.last() != '\n',
        a.last() != '\r',
        0 <= pos < a.len(),
    ensures
        marker_line_count_from(a + seq!['\n'] + b, pos) == marker_line_count_from(a, pos)
            + marker_line_count_from(b, 0),
    decreases a.len() - pos,
{
    let c = a + seq!['\n'] + b;
    let ka = find_nl(a, pos);
    lemma_find_nl_bounds(a, pos);
    lemma_find_nl_concat(a, b, pos);
    if ka < a.len() {
        // The line ends inside `a` in both texts.
        let k = find_nl(c, pos);
        assert(k == ka);
        assert(c.subrange(pos, k) =~= a.subrange(pos, ka));
        assert(k < c.len());
        lemma_find_nl_found(a, pos);
        if ka + 1 < a.len() {
            lemma_marker_count_concat(a, b, ka + 1);
        } else {
            // The newline would be the last character of `a`, which the
            // hypothesis rules out.
            assert(ka == a.len() - 1);
            assert(a[a.len() - 1] == '\n');
            assert(false);
        }
    } else {
        // The rest of `a` is its final line; in the joined text it is
        // terminated by the inserted newline.
        let k = find_nl(c, pos);
        assert(k == a.len());
        assert(k < c.len());
        let line_c = strip_cr(c.subrange(pos, k));
        let line_a = a.subrange(pos, ka);
        assert(c.subrange(pos, k) =~= line_a);
        assert(line_a.len() > 0 ==> line_a.last() == a.last());
        assert(line_c == line_a);
        assert(marker_line_count_from(a, a.len() as int) == 0);
        assert(marker_line_count_from(a, pos) == (if line_a == "---"@ {
            1int
        } else {
            0int
        }) + marker_line_count_from(a, a.len() as int));
        lemma_marker_count_shift(a, b, a.len() as int + 1);
    }
}

/// A lone separator line counts once.
proof fn lemma_marker_count_of_marker()
    ensures
        marker_line_count("---"@) == 1,
{
    reveal_strlit("---");
    let s = "---"@;
    assert(s.len() == 3);
    assert(s[0] == '-' && s[1] == '-' && s[2] == '-');
    assert(find_nl(s, 0) == 3) by {
        reveal_with_fuel(find_nl, 5);
    }
    assert(s.subrange(0, 3) =~= s);
    assert(marker_line_count_from(s, 3) == 0);
}

/// Multi-document separator preservation: joining one or more renderings
/// with the separator yields exactly one separator line between each
/// adjacent pair, when no rendering is empty, none ends in a newline or
/// carriage return, and none contains a separator line of its own.
///
/// A rendering can contain a separator line of its own only when a
/// mapping key is itself the marker text.
pub proof fn lemma_yaml_separator_lines(rs: Seq<Seq<char>>)
    requires
        rs.len() >= 1,
        forall|i: int|
            0 <= i < rs.len() ==> {
                let r = #[trigger] rs[i];
                r.len() > 0 && r.last() != '\n' && r.last() != '\r' && marker_line_count(r) == 0
            },
    ensures
        marker_line_count(join_with(rs, "\n---\n"@)) == rs.len() - 1,
    decreases rs.len(),
{
    reveal_strlit("---");
    reveal_strlit("\n---\n");
    if rs.len() == 1 {
        assert(join_with(rs, "\n---\n"@) == rs[0]);
    } else {
        let rest = rs.drop_first();
        assert(forall|i: int|
            0 <= i < rest.len() ==> {
                let r = #[trigger] rest[i];
                r.len() > 0 && r.last() != '\n' && r.last() != '\r' && marker_line_count(r) == 0
            });
        lemma_yaml_separator_lines(rest);
        let j = join_with(rest, "\n---\n"@);
        let r0 = rs[0];
        // The separator splits as a newline, a marker line, and a newline.
        let x = "---"@ + seq!['\n'] + j;
        assert(join_with(rs, "\n---\n"@) =~= r0 + seq!['\n'] + x);
        // Count across the first newline.
        lemma_marker_count_concat(r0, x, 0);
        // Count across the second newline: the marker line plus the rest.
        lemma_marker_count_of_marker();
        assert("---"@.len() == 3 && "---"@[0] == '-' && "---"@[1] == '-' && "---"@[2] == '-');
        lemma_marker_count_concat("---"@, j, 0);
    }
}

} // verus!
