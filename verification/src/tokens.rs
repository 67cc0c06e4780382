//! Token counting and reduction statistics.
//!
//! The tokenizer itself is an outside collaborator; its count is a pure
//! function of the text.  The statistics line rendered from two counts is
//! verified, with the percentage computed in tenths of a percent.

use vstd::prelude::*;
use vstd::string::StringExecFns;
use crate::text::{dec_str, digit_char, chars_vec, chars_range_to_string, usize_to_string,
    u128_to_string, push_char};
use crate::types::SkimError;

verus! {

/// The number of tokens the cl100k byte-pair encoding assigns to a text;
/// a function of the text alone.
pub uninterp spec fn cl100k_token_count(text: Seq<char>) -> nat;

/// Relies on `tiktoken_rs::cl100k_base` and
/// `CoreBPE::encode_with_special_tokens`: the number of tokens of the text
/// under the cl100k encoding, which depends on the text alone; the error
/// case carries the loader's message.
#[verifier::external_body]
fn cl100k_count(text: &str) -> (r: Result<usize, String>)
    ensures
        r matches Ok(n) ==> n == cl100k_token_count(text@),
{
    match tiktoken_rs::cl100k_base() {
        Ok(bpe) => Ok(bpe.encode_with_special_tokens(text).len()),
        Err(e) => Err(e.to_string()),
    }
}

/// Count the tokens of a text under the cl100k encoding.
pub fn count_tokens(text: &str) -> (r: Result<usize, SkimError>)
    ensures
        r matches Ok(n) ==> n == cl100k_token_count(text@),
        r is Err ==> r->Err_0 matches SkimError::ConfigError(_),
{
    match cl100k_count(text) {
        Ok(n) => Ok(n),
        Err(msg) => {
            let mut m = String::new();
            m.append("tokenizer unavailable: ");
            m.append(msg.as_str());
            Err(SkimError::ConfigError(m))
        },
    }
}

/// A decimal rendering grouped in threes with commas.
pub open spec fn group_digits(s: Seq<char>) -> Seq<char>
    decreases s.len(),
{
    if s.len() <= 3 {
        s
    } else {
        group_digits(s.take(s.len() - 3)) + ","@ + s.skip(s.len() - 3)
    }
}

fn group_digits_exec(v: &Vec<char>, hi: usize) -> (s: String)
    requires
        hi <= v@.len(),
    ensures
        s@ == group_digits(v@.take(hi as int)),
    decreases hi,
{
    if hi <= 3 {
        let s = chars_range_to_string(v, 0, hi);
        proof {
            assert(v@.subrange(0, hi as int) =~= v@.take(hi as int));
        }
        s
    } else {
        let mut s = group_digits_exec(v, hi - 3);
        s.append(",");
        let tail = chars_range_to_string(v, hi - 3, hi);
        s.append(tail.as_str());
        proof {
            assert(v@.take(hi as int).take(hi - 3) =~= v@.take(hi - 3));
            assert(v@.take(hi as int).skip(hi - 3) =~= v@.subrange(hi - 3, hi as int));
        }
        s
    }
}

/// Format a number with thousands separators.
pub fn format_number(n: usize) -> (s: String)
    ensures
        s@ == group_digits(dec_str(n as nat)),
{
    let ds = usize_to_string(n);
    let v = chars_vec(ds.as_str());
    let k = v.len();
    let s = group_digits_exec(&v, k);
    proof {
        assert(v@.take(k as int) =~= v@);
    }
    s
}

/// A quotient rounded to the nearest integer, halves away from zero.
pub open spec fn rounded_div(num: int, den: int) -> int {
    if num >= 0 {
        (2 * num + den) / (2 * den)
    } else {
        -((2 * (-num) + den) / (2 * den))
    }
}

/// The reduction from `orig` to `trans` in tenths of a percent, rounded;
/// negative when the transformed count is larger; zero when `orig` is.
pub open spec fn reduction_permille(orig: int, trans: int) -> int {
    if orig == 0 {
        0
    } else {
        rounded_div((orig - trans) * 1000, orig)
    }
}

/// A permille value rendered with one decimal place.
pub open spec fn permille_str(p: int) -> Seq<char> {
    let a = if p < 0 {
        -p
    } else {
        p
    };
    (if p < 0 {
        "-"@
    } else {
        Seq::<char>::empty()
    }) + dec_str((a / 10) as nat) + "."@ + seq![digit_char(a % 10)]
}

/// The rendered statistics line for two token counts.
pub open spec fn stats_line(orig: int, trans: int) -> Seq<char> {
    group_digits(dec_str(orig as nat)) + " tokens → "@ + group_digits(dec_str(trans as nat))
        + " tokens ("@ + permille_str(reduction_permille(orig, trans)) + "% reduction)"@
}

/// Token counts before and after a transformation.
#[derive(Debug, Clone)]
pub struct TokenStats {
    /// Token count of the input.
    pub original: usize,
    /// Token count of the output.
    pub transformed: usize,
}

impl TokenStats {
    /// Statistics from the two counts.
    pub fn new(original: usize, transformed: usize) -> (r: TokenStats)
        ensures
            r.original == original,
            r.transformed == transformed,
    {
        TokenStats { original, transformed }
    }

    /// Tokens saved by the transformation, zero when it grew.
    pub fn tokens_saved(&self) -> (r: usize)
        ensures
            r == if self.original >= self.transformed {
                self.original - self.transformed
            } else {
                0
            },
    {
        if self.original >= self.transformed {
            self.original - self.transformed
        } else {
            0
        }
    }

    /// Render the statistics line: both counts with thousands separators
    /// and the reduction as a percentage with one decimal place.
    pub fn format(&self) -> (s: String)
        ensures
            s@ == stats_line(self.original as int, self.transformed as int),
    {
        let mut s = format_number(self.original);
        s.append(" tokens → ");
        let t = format_number(self.transformed);
        s.append(t.as_str());
        s.append(" tokens (");

        // The reduction in tenths of a percent, rounded half away from zero.
        let orig = self.original as i128;
        let trans = self.transformed as i128;
        let p: i128 = if orig == 0 {
            0
        } else {
            let num: i128 = (orig - trans) * 1000;
            if num >= 0 {
                (2 * num + orig) / (2 * orig)
            } else {
                -((2 * (-num) + orig) / (2 * orig))
            }
        };
        proof {
            assert(p == reduction_permille(self.original as int, self.transformed as int));
        }
        let a: u128 = if p < 0 {
            s.append("-");
            (-p) as u128
        } else {
            p as u128
        };
        let whole = u128_to_string(a / 10);
        s.append(whole.as_str());
        s.append(".");
        let frac = digit_char_of_u128(a % 10);
        push_char(&mut s, frac);
        s.append("% reduction)");
        s
    }
}

fn digit_char_of_u128(d: u128) -> (c: char)
    requires
        d < 10,
    ensures
        c == digit_char(d as int),
{
    if d == 0 {
        '0'
    } else if d == 1 {
        '1'
    } else if d == 2 {
        '2'
    } else if d == 3 {
        '3'
    } else if d == 4 {
        '4'
    } else if d == 5 {
        '5'
    } else if d == 6 {
        '6'
    } else if d == 7 {
        '7'
    } else if d == 8 {
        '8'
    } else {
        '9'
    }
}

} // verus!
