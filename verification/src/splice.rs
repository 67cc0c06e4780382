//! The byte-splice engine.
//!
//! Given the original source and a collection of byte-range edits, emit the
//! edited source: ranges are sorted by start, ranges nested inside an
//! already-replaced range are dropped, and every kept range must fall on
//! UTF-8 character boundaries.  The engine is language-agnostic.

use vstd::prelude::*;
use vstd::utf8::{encode_utf8, valid_utf8, is_char_boundary};
use vstd::string::{StringSliceAdditionalSpecFns, StringExecFns};
use crate::text::{slice_range, usize_to_string, lemma_encode_utf8_concat};
use crate::types::SkimError;

verus! {

broadcast use vstd::utf8::group_utf8_lib;

/// One edit: replace the byte range `[start, end)` with a static text.
///
/// Replacement sets hold only offsets and static-text replacements, so the
/// replacement is a borrowed static string.
#[derive(Debug, Clone, Copy)]
pub struct Edit {
    /// First byte replaced.
    pub start: usize,
    /// One past the last byte replaced.
    pub end: usize,
    /// Text that stands in for the range.
    pub replacement: &'static str,
}

/// Ordering of edits: by start byte, then by end byte.
pub open spec fn edit_le(a: Edit, b: Edit) -> bool {
    a.start < b.start || (a.start == b.start && a.end <= b.end)
}

/// An edit inserted into a sorted sequence, after any equal entries.
pub open spec fn insert_edit(s: Seq<Edit>, e: Edit) -> Seq<Edit>
    decreases s.len(),
{
    if s.len() == 0 {
        seq![e]
    } else if edit_le(s.last(), e) {
        s.push(e)
    } else {
        insert_edit(s.drop_last(), e).push(s.last())
    }
}

/// The edits sorted ascending by `(start, end)`; equal keys keep their order.
pub open spec fn sort_edits(s: Seq<Edit>) -> Seq<Edit>
    decreases s.len(),
{
    if s.len() == 0 {
        Seq::empty()
    } else {
        insert_edit(sort_edits(s.drop_last()), s.last())
    }
}

/// The spliced bytes for the already-sorted edits from index `i` on, with the
/// cursor at byte `last`: `None` when a range is invalid or off a character
/// boundary, otherwise the emitted bytes.
///
/// An edit that starts before the cursor is nested inside an already-applied
/// replacement and is dropped; this is how nested callables are handled.
pub open spec fn apply_edits(src: Seq<u8>, edits: Seq<Edit>, i: int, last: int) -> Option<Seq<u8>>
    decreases edits.len() - i,
{
    if i < 0 || i >= edits.len() {
        if is_char_boundary(src, last) {
            Some(src.subrange(last, src.len() as int))
        } else {
            None
        }
    } else {
        let e = edits[i];
        if e.end < e.start || e.end > src.len() {
            None
        } else if e.start < last {
            apply_edits(src, edits, i + 1, last)
        } else if !is_char_boundary(src, e.start as int) || !is_char_boundary(
            src,
            e.end as int,
        ) {
            None
        } else {
            match apply_edits(src, edits, i + 1, e.end as int) {
                Some(rest) => Some(
                    src.subrange(last, e.start as int) + encode_utf8(e.replacement@) + rest,
                ),
                None => None,
            }
        }
    }
}

/// What the splice engine emits: the edits are sorted, then applied in order.
pub open spec fn splice_spec(src: Seq<u8>, edits: Seq<Edit>) -> Option<Seq<u8>> {
    apply_edits(src, sort_edits(edits), 0, 0)
}

/// Total replacement bytes of the edits from index `i` on.
pub open spec fn repl_len_sum(edits: Seq<Edit>, i: int) -> int
    decreases edits.len() - i,
{
    if i < 0 || i >= edits.len() {
        0
    } else {
        encode_utf8(edits[i].replacement@).len() + repl_len_sum(edits, i + 1)
    }
}

proof fn lemma_insert_edit_len(s: Seq<Edit>, e: Edit)
    ensures
        insert_edit(s, e).len() == s.len() + 1,
    decreases s.len(),
{
    if s.len() == 0 {
    } else if edit_le(s.last(), e) {
    } else {
        lemma_insert_edit_len(s.drop_last(), e);
    }
}

/// Sorting keeps the number of edits.
pub proof fn lemma_sort_edits_len(s: Seq<Edit>)
    ensures
        sort_edits(s).len() == s.len(),
    decreases s.len(),
{
    if s.len() > 0 {
        lemma_sort_edits_len(s.drop_last());
        lemma_insert_edit_len(sort_edits(s.drop_last()), s.last());
    }
}

proof fn lemma_insert_edit_pointwise(s: Seq<Edit>, e: Edit, p: spec_fn(Edit) -> bool)
    requires
        forall|j: int| 0 <= j < s.len() ==> p(#[trigger] s[j]),
        p(e),
    ensures
        forall|j: int| 0 <= j < insert_edit(s, e).len() ==> p(#[trigger] insert_edit(s, e)[j]),
    decreases s.len(),
{
    if s.len() == 0 {
        assert(insert_edit(s, e)[0] == e);
    } else if edit_le(s.last(), e) {
        assert forall|j: int| 0 <= j < insert_edit(s, e).len() implies p(
            #[trigger] insert_edit(s, e)[j],
        ) by {
            if j < s.len() {
                assert(insert_edit(s, e)[j] == s[j]);
            } else {
                assert(insert_edit(s, e)[j] == e);
            }
        }
    } else {
        assert(forall|j: int| 0 <= j < s.drop_last().len() ==> p(#[trigger] s.drop_last()[j]));
        lemma_insert_edit_pointwise(s.drop_last(), e, p);
        let inner = insert_edit(s.drop_last(), e);
        assert forall|j: int| 0 <= j < insert_edit(s, e).len() implies p(
            #[trigger] insert_edit(s, e)[j],
        ) by {
            if j < inner.len() {
                assert(insert_edit(s, e)[j] == inner[j]);
            } else {
                assert(insert_edit(s, e)[j] == s.last());
            }
        }
    }
}

/// A property of every edit survives sorting.
pub proof fn lemma_sort_edits_pointwise(s: Seq<Edit>, p: spec_fn(Edit) -> bool)
    requires
        forall|j: int| 0 <= j < s.len() ==> p(#[trigger] s[j]),
    ensures
        forall|j: int| 0 <= j < sort_edits(s).len() ==> p(#[trigger] sort_edits(s)[j]),
    decreases s.len(),
{
    if s.len() > 0 {
        assert(forall|j: int| 0 <= j < s.drop_last().len() ==> p(#[trigger] s.drop_last()[j]));
        lemma_sort_edits_pointwise(s.drop_last(), p);
        lemma_insert_edit_pointwise(sort_edits(s.drop_last()), s.last(), p);
    }
}

proof fn lemma_repl_len_sum_bound(edits: Seq<Edit>, i: int, k: int)
    requires
        0 <= i <= edits.len(),
        k >= 0,
        forall|j: int| 0 <= j < edits.len() ==> encode_utf8(#[trigger] edits[j].replacement@).len()
            <= k,
    ensures
        repl_len_sum(edits, i) <= k * (edits.len() - i),
    decreases edits.len() - i,
{
    if i < edits.len() {
        lemma_repl_len_sum_bound(edits, i + 1, k);
        assert(k + k * (edits.len() - i - 1) == k * (edits.len() - i)) by (nonlinear_arith);
    }
}

proof fn lemma_apply_edits_len(src: Seq<u8>, edits: Seq<Edit>, i: int, last: int, out: Seq<u8>)
    requires
        0 <= last <= src.len(),
        apply_edits(src, edits, i, last) == Some(out),
    ensures
        out.len() <= src.len() - last + repl_len_sum(edits, i),
    decreases edits.len() - i,
{
    if i < 0 || i >= edits.len() {
    } else {
        let e = edits[i];
        if e.end < e.start || e.end > src.len() {
        } else if e.start < last {
            lemma_apply_edits_len(src, edits, i + 1, last, out);
            assert(repl_len_sum(edits, i) >= repl_len_sum(edits, i + 1));
        } else if !is_char_boundary(src, e.start as int) || !is_char_boundary(src, e.end as int) {
        } else {
            let rest = apply_edits(src, edits, i + 1, e.end as int)->Some_0;
            lemma_apply_edits_len(src, edits, i + 1, e.end as int, rest);
        }
    }
}

/// Byte bound: when every replacement is at most `k` bytes, the spliced
/// output is at most `k` bytes per edit longer than the source.
pub proof fn lemma_splice_byte_bound(src: Seq<u8>, edits: Seq<Edit>, out: Seq<u8>, k: int)
    requires
        k >= 0,
        splice_spec(src, edits) == Some(out),
        forall|j: int| 0 <= j < edits.len() ==> encode_utf8(#[trigger] edits[j].replacement@).len()
            <= k,
    ensures
        out.len() <= src.len() + k * edits.len(),
{
    let se = sort_edits(edits);
    lemma_sort_edits_len(edits);
    lemma_sort_edits_pointwise(edits, |e: Edit| encode_utf8(e.replacement@).len() <= k);
    lemma_apply_edits_len(src, se, 0, 0, out);
    lemma_repl_len_sum_bound(se, 0, k);
}

proof fn lemma_apply_edits_shrink(src: Seq<u8>, edits: Seq<Edit>, i: int, last: int, out: Seq<u8>)
    requires
        0 <= last <= src.len(),
        apply_edits(src, edits, i, last) == Some(out),
        forall|j: int| 0 <= j < edits.len() ==> (#[trigger] edits[j].end) < edits[j].start
            || encode_utf8(edits[j].replacement@).len() <= edits[j].end - edits[j].start,
    ensures
        out.len() <= src.len() - last,
    decreases edits.len() - i,
{
    if i < 0 || i >= edits.len() {
    } else {
        let e = edits[i];
        if e.end < e.start || e.end > src.len() {
        } else if e.start < last {
            lemma_apply_edits_shrink(src, edits, i + 1, last, out);
        } else if !is_char_boundary(src, e.start as int) || !is_char_boundary(src, e.end as int) {
        } else {
            let rest = apply_edits(src, edits, i + 1, e.end as int)->Some_0;
            lemma_apply_edits_shrink(src, edits, i + 1, e.end as int, rest);
        }
    }
}

/// Monotonicity: when every replacement fits within the range it replaces,
/// the spliced output is no longer than the source.
pub proof fn lemma_splice_shrinks(src: Seq<u8>, edits: Seq<Edit>, out: Seq<u8>)
    requires
        splice_spec(src, edits) == Some(out),
        forall|j: int| 0 <= j < edits.len() ==> (#[trigger] edits[j].end) < edits[j].start
            || encode_utf8(edits[j].replacement@).len() <= edits[j].end - edits[j].start,
    ensures
        out.len() <= src.len(),
{
    lemma_sort_edits_pointwise(
        edits,
        |e: Edit| e.end < e.start || encode_utf8(e.replacement@).len() <= e.end - e.start,
    );
    lemma_apply_edits_shrink(src, sort_edits(edits), 0, 0, out);
}

/// Body-freedom, one half: a successful splice with at least one edit emits
/// the first sorted edit's replacement text, right after the source prefix
/// that precedes its range.
pub proof fn lemma_splice_emits_first_replacement(src: Seq<u8>, edits: Seq<Edit>, out: Seq<u8>)
    requires
        splice_spec(src, edits) == Some(out),
        edits.len() > 0,
    ensures
        exists|rest: Seq<u8>|
            out == src.subrange(0, sort_edits(edits)[0].start as int) + encode_utf8(
                sort_edits(edits)[0].replacement@,
            ) + rest,
{
    let se = sort_edits(edits);
    lemma_sort_edits_len(edits);
    let e = se[0];
    assert(!(e.start < 0));
    let rest = apply_edits(src, se, 1, e.end as int)->Some_0;
    assert(out == src.subrange(0, e.start as int) + encode_utf8(e.replacement@) + rest);
}

fn edit_le_exec(a: &Edit, b: &Edit) -> (r: bool)
    ensures
        r == edit_le(*a, *b),
{
    a.start < b.start || (a.start == b.start && a.end <= b.end)
}

/// Sort the edits ascending by `(start, end)`, keeping equal keys in order.
fn sort_edits_exec(edits: &Vec<Edit>) -> (r: Vec<Edit>)
    ensures
        r@ == sort_edits(edits@),
{
    let n = edits.len();
    let mut out: Vec<Edit> = Vec::new();
    let mut i: usize = 0;
    proof {
        assert(edits@.take(0) =~= Seq::<Edit>::empty());
    }
    while i < n
        invariant
            n == edits@.len(),
            0 <= i <= n,
            out@ == sort_edits(edits@.take(i as int)),
        decreases n - i,
    {
        let e = edits[i];
        let ghost entry = out@;
        let mut pos: usize = out.len();
        proof {
            assert(entry.take(pos as int) =~= entry);
            assert(entry.skip(pos as int) =~= Seq::<Edit>::empty());
            assert(insert_edit(entry, e) =~= insert_edit(entry.take(pos as int), e) + entry.skip(
                pos as int,
            ));
        }
        while pos > 0 && !edit_le_exec(&out[pos - 1], &e)
            invariant
                out@ == entry,
                0 <= pos <= entry.len(),
                insert_edit(entry, e) == insert_edit(entry.take(pos as int), e) + entry.skip(
                    pos as int,
                ),
            decreases pos,
        {
            proof {
                let p = entry.take(pos as int);
                assert(p.last() == entry[pos - 1]);
                assert(p.drop_last() =~= entry.take(pos - 1));
                assert(insert_edit(p, e) == insert_edit(entry.take(pos - 1), e).push(
                    entry[pos - 1],
                ));
                assert(insert_edit(entry.take(pos - 1), e).push(entry[pos - 1]) + entry.skip(
                    pos as int,
                ) =~= insert_edit(entry.take(pos - 1), e) + entry.skip(pos - 1));
            }
            pos -= 1;
        }
        proof {
            if pos == 0 {
                assert(entry.take(0) =~= Seq::<Edit>::empty());
                assert(insert_edit(entry.take(0), e) =~= seq![e]);
            } else {
                assert(edit_le(entry.take(pos as int).last(), e));
                assert(insert_edit(entry.take(pos as int), e) == entry.take(pos as int).push(e));
            }
        }
        out.insert(pos, e);
        proof {
            assert(out@ =~= insert_edit(entry, e));
            assert(edits@.take(i + 1).drop_last() =~= edits@.take(i as int));
            assert(edits@.take(i + 1).last() == edits@[i as int]);
        }
        i += 1;
    }
    proof {
        assert(edits@.take(n as int) =~= edits@);
    }
    out
}

/// Emit the source with the given replacements applied.
///
/// Mirrors the splice algorithm exactly: invalid ranges fail, nested ranges
/// are dropped, kept ranges must fall on character boundaries.
pub fn splice(source: &str, edits: &Vec<Edit>) -> (r: Result<String, SkimError>)
    ensures
        match r {
            Ok(out) => splice_spec(source.spec_bytes(), edits@) == Some(encode_utf8(out@)),
            Err(e) => splice_spec(source.spec_bytes(), edits@) is None && e matches
                SkimError::ParseError(_),
        },
{
    let ghost src = source.spec_bytes();
    let se = sort_edits_exec(edits);
    let n = se.len();
    let src_len = source.as_bytes().len();
    proof {
        assert(src == encode_utf8(source@));
        assert(valid_utf8(src));
        assert(is_char_boundary(src, 0));
    }

    let mut out = String::new();
    let mut last: usize = 0;
    let mut i: usize = 0;
    while i < n
        invariant
            n == se@.len(),
            se@ == sort_edits(edits@),
            src == source.spec_bytes(),
            src == encode_utf8(source@),
            valid_utf8(src),
            src_len == src.len(),
            0 <= i <= n,
            last <= src.len(),
            is_char_boundary(src, last as int),
            apply_edits(src, se@, 0, 0) == (match apply_edits(src, se@, i as int, last as int) {
                Some(rest) => Some(encode_utf8(out@) + rest),
                None => None,
            }),
        decreases n - i,
    {
        let e = se[i];
        if e.end < e.start {
            let mut m = String::new();
            m.append("Invalid AST range: start=");
            m.append(usize_to_string(e.start).as_str());
            m.append(" end=");
            m.append(usize_to_string(e.end).as_str());
            return Err(SkimError::ParseError(m));
        }
        if e.end > src_len {
            let mut m = String::new();
            m.append("AST range exceeds source length: end=");
            m.append(usize_to_string(e.end).as_str());
            m.append(" len=");
            m.append(usize_to_string(src_len).as_str());
            return Err(SkimError::ParseError(m));
        }
        if e.start < last {
            // Nested inside an already-applied replacement: drop it.
            i += 1;
            continue;
        }
        if !source.is_char_boundary(e.start) || !source.is_char_boundary(e.end) {
            let mut m = String::new();
            m.append("Invalid UTF-8 boundary at range [");
            m.append(usize_to_string(e.start).as_str());
            m.append(", ");
            m.append(usize_to_string(e.end).as_str());
            m.append(")");
            return Err(SkimError::ParseError(m));
        }
        let ghost out0 = out@;
        let piece = slice_range(source, last, e.start);
        out.append(piece);
        out.append(e.replacement);
        proof {
            lemma_encode_utf8_concat(out0, piece@);
            lemma_encode_utf8_concat(out0 + piece@, e.replacement@);
            assert(encode_utf8(piece@) == src.subrange(last as int, e.start as int));
            assert((out0 + piece@) + e.replacement@ =~= out@);
            let rest0 = apply_edits(src, se@, i + 1, e.end as int);
            match rest0 {
                Some(rest) => {
                    assert(encode_utf8(out0) + (src.subrange(last as int, e.start as int)
                        + encode_utf8(e.replacement@) + rest) =~= encode_utf8(out@) + rest);
                },
                None => {},
            }
        }
        last = e.end;
        i += 1;
    }

    // Copy the remaining source.
    if !source.is_char_boundary(last) {
        let mut m = String::new();
        m.append("Invalid UTF-8 boundary at position ");
        m.append(usize_to_string(last).as_str());
        return Err(SkimError::ParseError(m));
    }
    let ghost out0 = out@;
    let piece = slice_range(source, last, src_len);
    out.append(piece);
    proof {
        lemma_encode_utf8_concat(out0, piece@);
        assert(encode_utf8(out@) =~= encode_utf8(out0) + src.subrange(last as int, src.len() as int));
    }
    Ok(out)
}

} // verus!
