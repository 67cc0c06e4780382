//! The pure parts of the result cache: key derivation and entry
//! validation.
//!
//! An entry is keyed by the hex SHA-256 of `canonical-path|mtime|mode`,
//! and is fresh exactly when its stored mtime and mode tag match the
//! file's current state.  Reading, writing and removing the entry files
//! is I/O and stays with the caller; cache failures are never fatal to a
//! transformation.

use vstd::prelude::*;
use vstd::string::StringExecFns;
use sha2::Digest;
use crate::text::{str_eq, dec_str, u128_to_string, push_char};
use crate::types::Mode;

verus! {

/// The SHA-256 digest of a byte sequence; a function of the bytes alone.
pub uninterp spec fn sha256_of(data: Seq<u8>) -> Seq<u8>;

/// Relies on `sha2::Sha256` through the digest interface: the 32-byte
/// SHA-256 digest of the input, a function of the input alone.
#[verifier::external_body]
fn sha256(data: &[u8]) -> (r: Vec<u8>)
    ensures
        r@ == sha256_of(data@),
        r@.len() == 32,
{
    let mut h = sha2::Sha256::new();
    h.update(data);
    h.finalize().to_vec()
}

/// The lowercase hex digit for a value below sixteen.
pub open spec fn hex_digit(d: int) -> char {
    if d == 0 {
        '0'
    } else if d == 1 {
        '1'
    } else if d == 2 {
        '2'
    } else if d == 3 {
        '3'
    } else if d == 4 {
        '4'
    } else if d == 5 {
        '5'
    } else if d == 6 {
        '6'
    } else if d == 7 {
        '7'
    } else if d == 8 {
        '8'
    } else if d == 9 {
        '9'
    } else if d == 10 {
        'a'
    } else if d == 11 {
        'b'
    } else if d == 12 {
        'c'
    } else if d == 13 {
        'd'
    } else if d == 14 {
        'e'
    } else {
        'f'
    }
}

/// The lowercase hex rendering of a byte sequence, two digits per byte.
pub open spec fn hex_str(data: Seq<u8>) -> Seq<char>
    decreases data.len(),
{
    if data.len() == 0 {
        Seq::empty()
    } else {
        hex_str(data.drop_last()) + seq![
            hex_digit(data.last() as int / 16),
            hex_digit((data.last() % 16) as int),
        ]
    }
}

fn hex_digit_exec(d: u8) -> (c: char)
    requires
        d < 16,
    ensures
        c == hex_digit(d as int),
{
    if d == 0 {
        '0'
    } else if d == 1 {
        '1'
    } else if d == 2 {
        '2'
    } else if d == 3 {
        '3'
    } else if d == 4 {
        '4'
    } else if d == 5 {
        '5'
    } else if d == 6 {
        '6'
    } else if d == 7 {
        '7'
    } else if d == 8 {
        '8'
    } else if d == 9 {
        '9'
    } else if d == 10 {
        'a'
    } else if d == 11 {
        'b'
    } else if d == 12 {
        'c'
    } else if d == 13 {
        'd'
    } else if d == 14 {
        'e'
    } else {
        'f'
    }
}

/// Render a byte vector as lowercase hex.
fn to_hex(data: &Vec<u8>) -> (s: String)
    ensures
        s@ == hex_str(data@),
{
    let n = data.len();
    let mut s = String::new();
    let mut i: usize = 0;
    proof {
        assert(data@.take(0int) =~= Seq::<u8>::empty());
    }
    while i < n
        invariant
            n == data@.len(),
            0 <= i <= n,
            s@ == hex_str(data@.take(i as int)),
        decreases n - i,
    {
        let b = data[i];
        push_char(&mut s, hex_digit_exec(b / 16));
        push_char(&mut s, hex_digit_exec(b % 16));
        proof {
            assert(data@.take(i + 1).drop_last() =~= data@.take(i as int));
            assert(data@.take(i + 1).last() == data@[i as int]);
        }
        i += 1;
    }
    proof {
        assert(data@.take(n as int) =~= data@);
    }
    s
}

/// The tag a mode carries inside a cache entry.
pub open spec fn mode_tag(mode: Mode) -> Seq<char> {
    match mode {
        Mode::Structure => "Structure"@,
        Mode::Signatures => "Signatures"@,
        Mode::Types => "Types"@,
        Mode::Full => "Full"@,
    }
}

/// The tag a mode carries inside a cache entry.
pub fn mode_tag_str(mode: Mode) -> (r: &'static str)
    ensures
        r@ == mode_tag(mode),
{
    match mode {
        Mode::Structure => "Structure",
        Mode::Signatures => "Signatures",
        Mode::Types => "Types",
        Mode::Full => "Full",
    }
}

/// The text hashed into a cache key: path, mtime and mode tag joined by
/// pipes.
pub open spec fn cache_key_input(path: Seq<char>, mtime_secs: nat, mode: Mode) -> Seq<char> {
    path + "|"@ + dec_str(mtime_secs) + "|"@ + mode_tag(mode)
}

/// The name of a cache entry for a file state: the hex SHA-256 of the
/// key input.
pub open spec fn cache_key_of(path: Seq<char>, mtime_secs: nat, mode: Mode) -> Seq<char> {
    hex_str(sha256_of(vstd::utf8::encode_utf8(cache_key_input(path, mtime_secs, mode))))
}

/// Derive the cache key for a canonical path, modification time and mode.
pub fn cache_key_hex(canonical_path: &str, mtime_secs: u64, mode: Mode) -> (r: String)
    ensures
        r@ == cache_key_of(canonical_path@, mtime_secs as nat, mode),
{
    let mut input = String::new();
    input.append(canonical_path);
    input.append("|");
    let mt = u128_to_string(mtime_secs as u128);
    input.append(mt.as_str());
    input.append("|");
    input.append(mode_tag_str(mode));
    proof {
        assert(input@ == cache_key_input(canonical_path@, mtime_secs as nat, mode));
    }
    let digest = sha256(input.as_str().as_bytes());
    to_hex(&digest)
}

/// True when a stored entry is fresh for the file's current state: its
/// recorded modification time and mode tag both match.
pub open spec fn entry_fresh(
    entry_mtime: u64,
    entry_mode: Seq<char>,
    mtime_secs: u64,
    mode: Mode,
) -> bool {
    entry_mtime == mtime_secs && entry_mode == mode_tag(mode)
}

/// Decide whether a stored entry is fresh for the file's current state.
pub fn cache_entry_is_fresh(entry_mtime: u64, entry_mode: &str, mtime_secs: u64, mode: Mode) -> (r:
    bool)
    ensures
        r == entry_fresh(entry_mtime, entry_mode@, mtime_secs, mode),
{
    entry_mtime == mtime_secs && str_eq(entry_mode, mode_tag_str(mode))
}

/// Distinct modes carry distinct tags.
proof fn lemma_mode_tag_injective(m1: Mode, m2: Mode)
    requires
        mode_tag(m1) == mode_tag(m2),
    ensures
        m1 == m2,
{
    reveal_strlit("Structure");
    reveal_strlit("Signatures");
    reveal_strlit("Types");
    reveal_strlit("Full");
    // The four tags have pairwise distinct lengths.
    assert("Structure"@.len() == 9);
    assert("Signatures"@.len() == 10);
    assert("Types"@.len() == 5);
    assert("Full"@.len() == 4);
}

/// Cache round trip: the entry written for a file state is fresh for that
/// same state, and a fresh entry pins the state down — any change of
/// modification time or mode makes the entry stale.
pub proof fn lemma_cache_entry_round_trip(mtime_secs: u64, mode: Mode, m2: u64, mode2: Mode)
    ensures
        entry_fresh(mtime_secs, mode_tag(mode), mtime_secs, mode),
        entry_fresh(mtime_secs, mode_tag(mode), m2, mode2) ==> (m2 == mtime_secs && mode2
            == mode),
{
    if entry_fresh(mtime_secs, mode_tag(mode), m2, mode2) {
        lemma_mode_tag_injective(mode, mode2);
    }
}

} // verus!
