//! The JSON key extractor: parse the source as a single JSON value and
//! render a nested key-only skeleton.
//!
//! The parse is an outside collaborator; it hands the value's shape back as
//! a flat preorder list of nodes, and the rendering over that list is
//! verified.

use vstd::prelude::*;
use vstd::string::StringExecFns;
use serde_json::Value;
use serde_json::Value::{Array, Object};
use crate::text::{usize_to_string, join_with, lemma_join_with_snoc};
use crate::types::SkimError;

verus! {

/// Maximum nesting depth of rendered objects.
pub const MAX_JSON_DEPTH: usize = 500;

/// Maximum total number of object keys rendered.
pub const MAX_JSON_KEYS: usize = 10000;

/// The shape of one JSON value.
#[derive(Debug, Clone, Copy, PartialEq, Eq, Structural)]
pub enum JsonKind {
    /// An object; its members follow as children.
    Object,
    /// An array; its elements follow as children.
    Array,
    /// A string, number, boolean or null.
    Leaf,
}

/// One JSON value in the flat preorder rendering of a document.
///
/// A member of an object carries its key; array elements and the root
/// carry none.  `depth` counts ancestors, as in a syntax tree.
#[derive(Debug, Clone)]
pub struct JsonNode {
    /// Number of ancestors.
    pub depth: usize,
    /// The member key, for children of an object.
    pub key: Option<String>,
    /// The value's shape.
    pub kind: JsonKind,
}

/// Whether a text parses as a single JSON document.
pub uninterp spec fn json_is_valid(source: Seq<char>) -> bool;

/// The shape of the JSON document a text parses to, as preorder nodes.
pub uninterp spec fn json_doc_of(source: Seq<char>) -> Seq<JsonNode>;

#[verifier::external_type_specification]
#[verifier::external_body]
pub struct ExJsonValue(Value);

/// The contents of a parsed JSON value, as a flat preorder node list:
/// each value's shape and depth, object members carrying their keys in
/// the parser's iteration order.
pub uninterp spec fn json_nodes(v: Value) -> Seq<JsonNode>;

/// Relies on `serde_json::from_str`: `Ok` exactly when the input is a
/// single valid JSON document; the error case carries the parser's
/// message.
#[verifier::external_body]
fn parse_json_value(source: &str) -> (r: Result<Value, String>)
    ensures
        r is Ok <==> json_is_valid(source@),
        r matches Ok(v) ==> json_nodes(v) == json_doc_of(source@),
{
    serde_json::from_str(source).map_err(|e| e.to_string())
}

/// Relies on the shape of `serde_json::Value`: hands the value's contents
/// out as the flat preorder node list.
#[verifier::external_body]
fn flatten_json(v: Value) -> (r: Vec<JsonNode>)
    ensures
        r@ == json_nodes(v),
{
    let mut out = Vec::new();
    let mut stack = vec![(0usize, None, v)];
    while let Some((depth, key, val)) = stack.pop() {
        let kind = match &val { Object(_) => JsonKind::Object, Array(_) => JsonKind::Array, _ => JsonKind::Leaf };
        out.push(JsonNode { depth, key, kind });
        match val {
            Object(m) => stack.extend(m.into_iter().rev().map(|(k, w)| (depth + 1, Some(k), w))),
            Array(a) => stack.extend(a.into_iter().rev().map(|w| (depth + 1, None, w))),
            _ => {},
        }
    }
    out
}

/// Two spaces of indent per level.
pub open spec fn indent_str(d: int) -> Seq<char>
    decreases d,
{
    if d <= 0 {
        Seq::empty()
    } else {
        indent_str(d - 1) + "  "@
    }
}

/// The number of direct children of a node of depth `d`, scanning from `j`.
pub open spec fn jchild_count(nodes: Seq<JsonNode>, j: int, d: int) -> int
    decreases nodes.len() - j,
    via jchild_count_decreases
{
    if j < 0 || j >= nodes.len() || nodes[j].depth <= d {
        0
    } else if nodes[j].depth == d + 1 {
        1 + jchild_count(nodes, jsubtree_end(nodes, j, d + 1), d)
    } else {
        jchild_count(nodes, j + 1, d)
    }
}

/// The end of the subtree of the node at `j`, which has depth `d`.
pub open spec fn jsubtree_end(nodes: Seq<JsonNode>, j: int, d: int) -> int
    decreases nodes.len() - j,
{
    if j < 0 || j >= nodes.len() {
        j
    } else if j + 1 >= nodes.len() || nodes[j + 1].depth <= d {
        j + 1
    } else {
        jsubtree_end(nodes, j + 1, d)
    }
}

proof fn lemma_jsubtree_end_bounds(nodes: Seq<JsonNode>, j: int, d: int)
    requires
        0 <= j < nodes.len(),
    ensures
        j < jsubtree_end(nodes, j, d) <= nodes.len(),
    decreases nodes.len() - j,
{
    if !(j + 1 >= nodes.len() || nodes[j + 1].depth <= d) {
        lemma_jsubtree_end_bounds(nodes, j + 1, d);
    }
}

#[via_fn]
proof fn jchild_count_decreases(nodes: Seq<JsonNode>, j: int, d: int) {
    if 0 <= j < nodes.len() && nodes[j].depth > d && nodes[j].depth == d + 1 {
        lemma_jsubtree_end_bounds(nodes, j, d + 1);
    }
}

/// The skeleton of the value at `i` (an object or array at the root of a
/// rendering step): `None` on a depth or key-count failure, otherwise the
/// text and the updated key count.
pub open spec fn jrender_value(nodes: Seq<JsonNode>, i: int, rd: int, kc: int) -> Option<
    (Seq<char>, int),
>
    decreases nodes.len() - i, 3int,
{
    if i < 0 || i >= nodes.len() {
        Some((Seq::empty(), kc))
    } else if rd > MAX_JSON_DEPTH {
        None
    } else {
        match nodes[i].kind {
            JsonKind::Object => jrender_object(nodes, i, rd, kc),
            JsonKind::Array => jrender_array(nodes, i, rd, kc),
            JsonKind::Leaf => Some((Seq::empty(), kc)),
        }
    }
}

/// The skeleton of a top-level array: its first element's skeleton when
/// that is an object, `[]` otherwise.
pub open spec fn jrender_array(nodes: Seq<JsonNode>, i: int, rd: int, kc: int) -> Option<
    (Seq<char>, int),
>
    decreases nodes.len() - i, 2int,
{
    if 0 <= i && i + 1 < nodes.len() && nodes[i + 1].depth == nodes[i].depth + 1 {
        if nodes[i + 1].kind is Object {
            jrender_value(nodes, i + 1, rd, kc)
        } else {
            Some(("[]"@, kc))
        }
    } else {
        Some(("[]"@, kc))
    }
}

/// The skeleton of the object at `i`: `{}` when empty; otherwise its keys,
/// one per line, each with its value suffix, the whole wrapped in braces.
pub open spec fn jrender_object(nodes: Seq<JsonNode>, i: int, rd: int, kc: int) -> Option<
    (Seq<char>, int),
>
    decreases nodes.len() - i, 0int,
{
    if !(0 <= i < nodes.len()) {
        Some((Seq::empty(), kc))
    } else if i + 1 >= nodes.len() || nodes[i + 1].depth <= nodes[i].depth {
        Some(("{}"@, kc))
    } else {
        let cnt = jchild_count(nodes, i + 1, nodes[i].depth as int);
        if kc + cnt > MAX_JSON_KEYS {
            None
        } else {
            match jrender_members(nodes, i + 1, nodes[i].depth as int, rd, kc + cnt) {
                Some((pieces, kc2)) => Some(
                    (
                        "{\n"@ + join_with(pieces, ",\n"@) + "\n"@ + indent_str(rd) + "}"@,
                        kc2,
                    ),
                ),
                None => None,
            }
        }
    }
}

/// The member lines of an object whose children start at `j`: each is the
/// indented key followed by its value suffix.
pub open spec fn jrender_members(nodes: Seq<JsonNode>, j: int, d: int, rd: int, kc: int) -> Option<
    (Seq<Seq<char>>, int),
>
    decreases nodes.len() - j, 2int,
    via jrender_members_decreases
{
    if j < 0 || j >= nodes.len() || nodes[j].depth <= d {
        Some((Seq::empty(), kc))
    } else if nodes[j].depth == d + 1 {
        match jformat_value(nodes, j, rd + 1, kc) {
            Some((sfx, kc2)) => {
                let key = match nodes[j].key {
                    Some(k) => k@,
                    None => Seq::empty(),
                };
                let piece = indent_str(rd + 1) + key + sfx;
                match jrender_members(nodes, jsubtree_end(nodes, j, d + 1), d, rd, kc2) {
                    Some((rest, kc3)) => Some((seq![piece] + rest, kc3)),
                    None => None,
                }
            },
            None => None,
        }
    } else {
        jrender_members(nodes, j + 1, d, rd, kc)
    }
}

#[via_fn]
proof fn jrender_members_decreases(nodes: Seq<JsonNode>, j: int, d: int, rd: int, kc: int) {
    if 0 <= j < nodes.len() && nodes[j].depth > d && nodes[j].depth == d + 1 {
        lemma_jsubtree_end_bounds(nodes, j, d + 1);
    }
}

/// The suffix after a key, per the member's value: an object brings `: `
/// and its skeleton; an array of objects brings `: ` and the first
/// object's skeleton; anything else brings nothing.
pub open spec fn jformat_value(nodes: Seq<JsonNode>, j: int, rd: int, kc: int) -> Option<
    (Seq<char>, int),
>
    decreases nodes.len() - j, 1int,
{
    if !(0 <= j < nodes.len()) {
        Some((Seq::empty(), kc))
    } else {
        match nodes[j].kind {
            JsonKind::Object => {
                if rd > MAX_JSON_DEPTH {
                    None
                } else {
                    match jrender_object(nodes, j, rd, kc) {
                        Some((s, kc2)) => Some((": "@ + s, kc2)),
                        None => None,
                    }
                }
            },
            JsonKind::Array => {
                if j + 1 < nodes.len() && nodes[j + 1].depth == nodes[j].depth + 1 && nodes[j
                    + 1].kind is Object {
                    match jrender_value(nodes, j + 1, rd, kc) {
                        Some((s, kc2)) => Some((": "@ + s, kc2)),
                        None => None,
                    }
                } else {
                    Some((Seq::empty(), kc))
                }
            },
            JsonKind::Leaf => Some((Seq::empty(), kc)),
        }
    }
}

/// What the JSON extractor emits for a source text.
pub open spec fn json_output(source: Seq<char>) -> Option<Seq<char>> {
    if !json_is_valid(source) {
        None
    } else {
        let nodes = json_doc_of(source);
        if nodes.len() == 0 {
            Some(Seq::empty())
        } else {
            match jrender_value(nodes, 0, 0, 0) {
                Some((s, _)) => Some(s),
                None => None,
            }
        }
    }
}

/// Two spaces of indent per level.
fn make_indent(d: usize) -> (s: String)
    ensures
        s@ == indent_str(d as int),
{
    let mut s = String::new();
    let mut k: usize = 0;
    while k < d
        invariant
            0 <= k <= d,
            s@ == indent_str(k as int),
        decreases d - k,
    {
        s.append("  ");
        k += 1;
    }
    s
}

/// The end of the subtree of the node at `j`.
fn jsubtree_end_exec(nodes: &Vec<JsonNode>, j: usize, d: usize) -> (r: usize)
    requires
        j < nodes@.len(),
    ensures
        r == jsubtree_end(nodes@, j as int, d as int),
        j < r <= nodes@.len(),
{
    proof {
        lemma_jsubtree_end_bounds(nodes@, j as int, d as int);
    }
    let n = nodes.len();
    let mut k = j;
    while k + 1 < n && nodes[k + 1].depth > d
        invariant
            n == nodes@.len(),
            j <= k < n,
            jsubtree_end(nodes@, j as int, d as int) == jsubtree_end(nodes@, k as int, d as int),
        decreases n - k,
    {
        k += 1;
    }
    k + 1
}

/// The number of direct children of a node of depth `d`, from `j` on.
fn jchild_count_exec(nodes: &Vec<JsonNode>, j: usize, d: usize) -> (r: Option<usize>)
    ensures
        match r {
            Some(c) => jchild_count(nodes@, j as int, d as int) == c as int,
            None => jchild_count(nodes@, j as int, d as int) > MAX_JSON_KEYS,
        },
{
    let n = nodes.len();
    let mut k = j;
    let mut c: usize = 0;
    while k < n && nodes[k].depth > d
        invariant
            n == nodes@.len(),
            j <= k,
            c <= MAX_JSON_KEYS,
            jchild_count(nodes@, j as int, d as int) == c + jchild_count(
                nodes@,
                k as int,
                d as int,
            ),
        decreases n - k,
    {
        if nodes[k].depth == d + 1 {
            if c == MAX_JSON_KEYS {
                proof {
                    lemma_jchild_count_nonneg(
                        nodes@,
                        jsubtree_end(nodes@, k as int, d + 1),
                        d as int,
                    );
                }
                return None;
            }
            c += 1;
            k = jsubtree_end_exec(nodes, k, d + 1);
        } else {
            k += 1;
        }
    }
    Some(c)
}

proof fn lemma_jchild_count_nonneg(nodes: Seq<JsonNode>, j: int, d: int)
    ensures
        jchild_count(nodes, j, d) >= 0,
    decreases nodes.len() - j,
{
    if !(j < 0 || j >= nodes.len() || nodes[j].depth <= d) {
        if nodes[j].depth == d + 1 {
            if 0 <= j < nodes.len() {
                lemma_jsubtree_end_bounds(nodes, j, d + 1);
            }
            lemma_jchild_count_nonneg(nodes, jsubtree_end(nodes, j, d + 1), d);
        } else {
            lemma_jchild_count_nonneg(nodes, j + 1, d);
        }
    }
}

fn json_depth_error() -> (e: SkimError)
    ensures
        e matches SkimError::ParseError(_),
{
    let mut m = String::new();
    m.append("JSON nesting depth exceeded: ");
    m.append(usize_to_string(MAX_JSON_DEPTH).as_str());
    m.append(" (max: ");
    m.append(usize_to_string(MAX_JSON_DEPTH).as_str());
    m.append("). Possible malicious input.");
    SkimError::ParseError(m)
}

fn json_keys_error() -> (e: SkimError)
    ensures
        e matches SkimError::ParseError(_),
{
    let mut m = String::new();
    m.append("JSON key count exceeded: ");
    m.append(usize_to_string(MAX_JSON_KEYS).as_str());
    m.append(" (max: ");
    m.append(usize_to_string(MAX_JSON_KEYS).as_str());
    m.append("). Possible malicious input.");
    SkimError::ParseError(m)
}

fn jrender_value_exec(nodes: &Vec<JsonNode>, i: usize, rd: usize, kc: usize) -> (r: Result<
    (String, usize),
    SkimError,
>)
    ensures
        match r {
            Ok((s, kc2)) => jrender_value(nodes@, i as int, rd as int, kc as int) == Some(
                (s@, kc2 as int),
            ),
            Err(e) => jrender_value(nodes@, i as int, rd as int, kc as int) is None && e matches
                SkimError::ParseError(_),
        },
    decreases nodes@.len() - i, 3int,
{
    if i >= nodes.len() {
        Ok((String::new(), kc))
    } else if rd > MAX_JSON_DEPTH {
        Err(json_depth_error())
    } else {
        match nodes[i].kind {
            JsonKind::Object => jrender_object_exec(nodes, i, rd, kc),
            JsonKind::Array => jrender_array_exec(nodes, i, rd, kc),
            JsonKind::Leaf => Ok((String::new(), kc)),
        }
    }
}

fn jrender_array_exec(nodes: &Vec<JsonNode>, i: usize, rd: usize, kc: usize) -> (r: Result<
    (String, usize),
    SkimError,
>)
    requires
        i < nodes@.len(),
    ensures
        match r {
            Ok((s, kc2)) => jrender_array(nodes@, i as int, rd as int, kc as int) == Some(
                (s@, kc2 as int),
            ),
            Err(e) => jrender_array(nodes@, i as int, rd as int, kc as int) is None && e matches
                SkimError::ParseError(_),
        },
    decreases nodes@.len() - i, 2int,
{
    let n = nodes.len();
    if i < n - 1 && nodes[i + 1].depth > nodes[i].depth && nodes[i + 1].depth - 1 == nodes[i].depth {
        if matches!(nodes[i + 1].kind, JsonKind::Object) {
            jrender_value_exec(nodes, i + 1, rd, kc)
        } else {
            proof {
                assert(!(nodes@[i + 1].kind is Object));
            }
            let mut s = String::new();
            s.append("[]");
            Ok((s, kc))
        }
    } else {
        let mut s = String::new();
        s.append("[]");
        Ok((s, kc))
    }
}

fn jrender_object_exec(nodes: &Vec<JsonNode>, i: usize, rd: usize, kc: usize) -> (r: Result<
    (String, usize),
    SkimError,
>)
    requires
        i < nodes@.len(),
        rd <= MAX_JSON_DEPTH,
    ensures
        match r {
            Ok((s, kc2)) => jrender_object(nodes@, i as int, rd as int, kc as int) == Some(
                (s@, kc2 as int),
            ),
            Err(e) => jrender_object(nodes@, i as int, rd as int, kc as int) is None && e matches
                SkimError::ParseError(_),
        },
    decreases nodes@.len() - i, 0int,
{
    let n = nodes.len();
    if i >= n - 1 || nodes[i + 1].depth <= nodes[i].depth {
        let mut s = String::new();
        s.append("{}");
        return Ok((s, kc));
    }
    let d = nodes[i].depth;
    let cnt = match jchild_count_exec(nodes, i + 1, d) {
        Some(c) => c,
        None => {
            proof {
                lemma_jchild_count_nonneg(nodes@, i + 1, d as int);
            }
            return Err(json_keys_error());
        },
    };
    if cnt > MAX_JSON_KEYS || kc > MAX_JSON_KEYS - cnt {
        return Err(json_keys_error());
    }
    match jrender_members_exec(nodes, i + 1, d, rd, kc + cnt) {
        Ok((pieces, ghost_pieces, kc2)) => {
            let mut s = String::new();
            s.append("{\n");
            let m = pieces.len();
            let mut t: usize = 0;
            while t < m
                invariant
                    m == pieces@.len(),
                    ghost_pieces@.len() == m,
                    forall|q: int| 0 <= q < m ==> pieces@[q]@ == ghost_pieces@[q],
                    0 <= t <= m,
                    s@ == "{\n"@ + join_with(ghost_pieces@.take(t as int), ",\n"@) + (if t > 0 {
                        Seq::<char>::empty()
                    } else {
                        Seq::<char>::empty()
                    }),
                decreases m - t,
            {
                if t > 0 {
                    s.append(",\n");
                }
                s.append(pieces[t].as_str());
                proof {
                    lemma_join_with_snoc(ghost_pieces@.take(t as int), ",\n"@, ghost_pieces@[t as int]);
                    assert(ghost_pieces@.take(t as int).push(ghost_pieces@[t as int])
                        =~= ghost_pieces@.take(t + 1));
                }
                t += 1;
            }
            proof {
                assert(ghost_pieces@.take(m as int) =~= ghost_pieces@);
            }
            s.append("\n");
            s.append(make_indent(rd).as_str());
            s.append("}");
            proof {
                assert(s@ == "{\n"@ + join_with(ghost_pieces@, ",\n"@) + "\n"@ + indent_str(
                    rd as int,
                ) + "}"@);
            }
            Ok((s, kc2))
        },
        Err(e) => Err(e),
    }
}

fn jrender_members_exec(nodes: &Vec<JsonNode>, j: usize, d: usize, rd: usize, kc: usize) -> (r:
    Result<(Vec<String>, Ghost<Seq<Seq<char>>>, usize), SkimError>)
    requires
        rd <= MAX_JSON_DEPTH,
    ensures
        match r {
            Ok((ps, gs, kc2)) => jrender_members(nodes@, j as int, d as int, rd as int, kc as int)
                == Some((gs@, kc2 as int)) && ps@.len() == gs@.len() && (forall|q: int|
                0 <= q < ps@.len() ==> ps@[q]@ == gs@[q]),
            Err(e) => jrender_members(nodes@, j as int, d as int, rd as int, kc as int) is None
                && e matches SkimError::ParseError(_),
        },
    decreases nodes@.len() - j, 2int,
{
    if j >= nodes.len() || nodes[j].depth <= d {
        return Ok((Vec::new(), Ghost(Seq::empty()), kc));
    }
    if nodes[j].depth == d + 1 {
        match jformat_value_exec(nodes, j, rd + 1, kc) {
            Ok((sfx, kc2)) => {
                let mut piece = make_indent(rd + 1);
                match &nodes[j].key {
                    Some(k) => {
                        piece.append(k.as_str());
                    },
                    None => {},
                }
                piece.append(sfx.as_str());
                let nxt = jsubtree_end_exec(nodes, j, d + 1);
                match jrender_members_exec(nodes, nxt, d, rd, kc2) {
                    Ok((rest, grest, kc3)) => {
                        let mut ps: Vec<String> = Vec::new();
                        let ghost gpiece = piece@;
                        ps.push(piece);
                        let mut t: usize = 0;
                        let m = rest.len();
                        while t < m
                            invariant
                                m == rest@.len(),
                                ps@.len() == t + 1,
                                ps@[0]@ == gpiece,
                                forall|q: int| 0 <= q < t ==> ps@[q + 1]@ == rest@[q]@,
                                0 <= t <= m,
                            decreases m - t,
                        {
                            let mut one = String::new();
                            one.append(rest[t].as_str());
                            ps.push(one);
                            t += 1;
                        }
                        let ghost gs = seq![gpiece] + grest@;
                        proof {
                            assert(ps@.len() == gs.len());
                            assert forall|q: int| 0 <= q < ps@.len() implies ps@[q]@ == gs[q] by {
                                if q == 0 {
                                } else {
                                    assert(ps@[q]@ == rest@[q - 1]@);
                                    assert(gs[q] == grest@[q - 1]);
                                }
                            }
                        }
                        Ok((ps, Ghost(gs), kc3))
                    },
                    Err(e) => Err(e),
                }
            },
            Err(e) => Err(e),
        }
    } else {
        jrender_members_exec(nodes, j + 1, d, rd, kc)
    }
}

fn jformat_value_exec(nodes: &Vec<JsonNode>, j: usize, rd: usize, kc: usize) -> (r: Result<
    (String, usize),
    SkimError,
>)
    requires
        j < nodes@.len(),
        rd <= MAX_JSON_DEPTH + 1,
    ensures
        match r {
            Ok((s, kc2)) => jformat_value(nodes@, j as int, rd as int, kc as int) == Some(
                (s@, kc2 as int),
            ),
            Err(e) => jformat_value(nodes@, j as int, rd as int, kc as int) is None && e matches
                SkimError::ParseError(_),
        },
    decreases nodes@.len() - j, 1int,
{
    match nodes[j].kind {
        JsonKind::Object => {
            if rd > MAX_JSON_DEPTH {
                return Err(json_depth_error());
            }
            match jrender_object_exec(nodes, j, rd, kc) {
                Ok((s, kc2)) => {
                    let mut out = String::new();
                    out.append(": ");
                    out.append(s.as_str());
                    Ok((out, kc2))
                },
                Err(e) => Err(e),
            }
        },
        JsonKind::Array => {
            let n = nodes.len();
            if j < n - 1 && nodes[j + 1].depth > nodes[j].depth && nodes[j + 1].depth - 1
                == nodes[j].depth && matches!(nodes[j + 1].kind, JsonKind::Object) {
                match jrender_value_exec(nodes, j + 1, rd, kc) {
                    Ok((s, kc2)) => {
                        let mut out = String::new();
                        out.append(": ");
                        out.append(s.as_str());
                        Ok((out, kc2))
                    },
                    Err(e) => Err(e),
                }
            } else {
                proof {
                    if j + 1 < nodes@.len() && nodes@[j + 1].depth == nodes@[j as int].depth + 1 {
                        assert(!(nodes@[j + 1].kind is Object));
                    }
                }
                Ok((String::new(), kc))
            }
        },
        JsonKind::Leaf => Ok((String::new(), kc)),
    }
}

/// Transform JSON source to its key skeleton.
///
/// Every transformation mode yields this same skeleton for JSON.
pub fn transform_json(source: &str) -> (r: Result<String, SkimError>)
    ensures
        r is Ok <==> json_output(source@) is Some,
        r matches Ok(out) ==> json_output(source@) == Some(out@),
        r is Err ==> r->Err_0 matches SkimError::ParseError(_),
{
    let v = match parse_json_value(source) {
        Ok(v) => v,
        Err(msg) => {
            let mut m = String::new();
            m.append("Invalid JSON: ");
            m.append(msg.as_str());
            return Err(SkimError::ParseError(m));
        },
    };
    let nodes = flatten_json(v);
    if nodes.len() == 0 {
        return Ok(String::new());
    }
    match jrender_value_exec(&nodes, 0, 0, 0) {
        Ok((s, _)) => Ok(s),
        Err(e) => Err(e),
    }
}

} // verus!
