//! Deterministic channel identifiers: a 64-bit FNV-1a hash of the UTF-8
//! bytes of `name` followed by `url`, rendered as lowercase hexadecimal.
//! The identifier is a pure function of its inputs, so repeated parses of
//! the same playlist reproduce the same identifiers; distinct inputs may
//! collide, bounded only by the hash width.
use crate::text::chars_to_string;
use vstd::prelude::*;
use vstd::string::StrSliceExecFns;
use vstd::string::StringExecFns;
use vstd::utf8::encode_utf8;

verus! {

/// FNV-1a 64-bit offset basis.
pub const FNV_OFFSET_BASIS: u64 = 0xcbf29ce484222325;

/// FNV-1a 64-bit prime.
pub const FNV_PRIME: u64 = 0x100000001b3;

/// One FNV-1a step: fold one byte into the running hash.
pub open spec fn fnv1a_step(h: u64, b: u8) -> u64 {
    vstd::wrapping::u64_specs::wrapping_mul(h ^ (b as u64), FNV_PRIME)
}

/// The FNV-1a 64-bit hash of a byte sequence.
pub open spec fn fnv1a(bytes: Seq<u8>) -> u64
    decreases bytes.len(),
{
    if bytes.len() == 0 {
        FNV_OFFSET_BASIS
    } else {
        fnv1a_step(fnv1a(bytes.drop_last()), bytes.last())
    }
}

/// The lowercase hexadecimal digit for a value below sixteen.
pub open spec fn spec_hex_digit(d: int) -> char {
    if d == 0 {
        '0'
    } else if d == 1 {
        '1'
    } else if d == 2 {
        '2'
    } else if d == 3 {
        '3'
    } else if d == 4 {
        '4'
    } else if d == 5 {
        '5'
    } else if d == 6 {
        '6'
    } else if d == 7 {
        '7'
    } else if d == 8 {
        '8'
    } else if d == 9 {
        '9'
    } else if d == 10 {
        'a'
    } else if d == 11 {
        'b'
    } else if d == 12 {
        'c'
    } else if d == 13 {
        'd'
    } else if d == 14 {
        'e'
    } else {
        'f'
    }
}

/// `c` is a lowercase hexadecimal digit.
pub open spec fn spec_is_hex_char(c: char) -> bool {
    c == '0' || c == '1' || c == '2' || c == '3' || c == '4' || c == '5' || c == '6' || c == '7'
        || c == '8' || c == '9' || c == 'a' || c == 'b' || c == 'c' || c == 'd' || c == 'e' || c
        == 'f'
}

/// The lowercase hexadecimal rendering of `n`, most significant digit
/// first, with no leading zeros (zero itself renders as one digit).
pub open spec fn spec_hex(n: int) -> Seq<char>
    decreases n,
    when n >= 0
{
    if n < 16 {
        seq![spec_hex_digit(n)]
    } else {
        spec_hex(n / 16).push(spec_hex_digit(n % 16))
    }
}

/// The identifier derived from a channel's name and url: the FNV-1a hash
/// of the UTF-8 bytes of their concatenation, in lowercase hexadecimal.
/// Opaque so that callers reason about identifiers as values; the lemmas
/// below give the facts that matter.
#[verifier::opaque]
pub open spec fn spec_id(name: Seq<char>, url: Seq<char>) -> Seq<char> {
    spec_hex(fnv1a(encode_utf8(name + url)) as int)
}

/// Sixteen raised to the power `k`.
pub open spec fn pow16(k: nat) -> int
    decreases k,
{
    if k == 0 {
        1
    } else {
        16 * pow16((k - 1) as nat)
    }
}

/// A value below `16^k` renders as at most `k` hexadecimal digits, all of
/// them lowercase hexadecimal characters.
pub proof fn lemma_hex_shape(n: int, k: nat)
    requires
        0 <= n < pow16(k),
        k >= 1,
    ensures
        1 <= spec_hex(n).len() <= k,
        forall|i: int| 0 <= i < spec_hex(n).len() ==> spec_is_hex_char(#[trigger] spec_hex(n)[i]),
    decreases k,
{
    if n < 16 {
        assert(spec_is_hex_char(spec_hex_digit(n)));
    } else {
        if k == 1 {
            assert(pow16(0nat) == 1);
            assert(pow16(1nat) == 16);
            assert(false);
        }
        assert(pow16(k) == 16 * pow16((k - 1) as nat));
        assert(n / 16 < pow16((k - 1) as nat)) by (nonlinear_arith)
            requires
                n < 16 * pow16((k - 1) as nat),
                n >= 16,
        ;
        lemma_hex_shape(n / 16, (k - 1) as nat);
        assert(spec_is_hex_char(spec_hex_digit(n % 16)));
    }
}

/// Every identifier is at most sixteen characters long and consists only
/// of lowercase hexadecimal digits.
pub proof fn lemma_id_shape(name: Seq<char>, url: Seq<char>)
    ensures
        1 <= spec_id(name, url).len() <= 16,
        forall|i: int|
            0 <= i < spec_id(name, url).len() ==> spec_is_hex_char(
                #[trigger] spec_id(name, url)[i],
            ),
{
    reveal(spec_id);
    let h = fnv1a(encode_utf8(name + url));
    reveal_with_fuel(pow16, 17);
    assert(pow16(16nat) == 0x1_0000_0000_0000_0000);
    lemma_hex_shape(h as int, 16nat);
}

/// The identifier is a pure function of the name and the url: equal
/// inputs always yield equal identifiers.
pub proof fn lemma_id_deterministic(n1: Seq<char>, u1: Seq<char>, n2: Seq<char>, u2: Seq<char>)
    requires
        n1 == n2,
        u1 == u2,
    ensures
        spec_id(n1, u1) == spec_id(n2, u2),
{
}

/// The lowercase hexadecimal digit character for `d`.
fn hex_digit_char(d: u64) -> (c: char)
    requires
        d < 16,
    ensures
        c == spec_hex_digit(d as int),
{
    if d == 0 {
        '0'
    } else if d == 1 {
        '1'
    } else if d == 2 {
        '2'
    } else if d == 3 {
        '3'
    } else if d == 4 {
        '4'
    } else if d == 5 {
        '5'
    } else if d == 6 {
        '6'
    } else if d == 7 {
        '7'
    } else if d == 8 {
        '8'
    } else if d == 9 {
        '9'
    } else if d == 10 {
        'a'
    } else if d == 11 {
        'b'
    } else if d == 12 {
        'c'
    } else if d == 13 {
        'd'
    } else if d == 14 {
        'e'
    } else {
        'f'
    }
}

/// The lowercase hexadecimal rendering of `n` as a character vector.
fn hex_chars(n: u64) -> (r: Vec<char>)
    ensures
        r@ == spec_hex(n as int),
    decreases n,
{
    if n < 16 {
        let mut r: Vec<char> = Vec::new();
        r.push(hex_digit_char(n));
        assert(r@ =~= seq![spec_hex_digit(n as int)]);
        r
    } else {
        let mut r = hex_chars(n / 16);
        r.push(hex_digit_char(n % 16));
        r
    }
}

/// The FNV-1a 64-bit hash of the given bytes.
fn fnv1a_bytes(bytes: &Vec<u8>) -> (h: u64)
    ensures
        h == fnv1a(bytes@),
{
    let mut h: u64 = FNV_OFFSET_BASIS;
    let mut i: usize = 0;
    while i < bytes.len()
        invariant
            0 <= i <= bytes@.len(),
            h == fnv1a(bytes@.take(i as int)),
        decreases bytes@.len() - i,
    {
        h = (h ^ (bytes[i] as u64)).wrapping_mul(FNV_PRIME);
        assert(bytes@.take(i + 1 as int).drop_last() =~= bytes@.take(i as int));
        assert(bytes@.take(i + 1 as int).last() == bytes@[i as int]);
        i += 1;
    }
    assert(bytes@.take(bytes@.len() as int) =~= bytes@);
    h
}

/// Derives the stable identifier for a channel: the FNV-1a 64-bit hash of
/// the UTF-8 bytes of `name` followed by `url`, rendered as lowercase
/// hexadecimal, at most sixteen characters.
pub fn generate_id(name: &str, url: &str) -> (r: String)
    ensures
        r@ == spec_id(name@, url@),
        1 <= r@.len() <= 16,
        forall|i: int| 0 <= i < r@.len() ==> spec_is_hex_char(#[trigger] r@[i]),
{
    proof {
        reveal(spec_id);
    }
    let combined = String::from_str(name).concat(url);
    let bytes = combined.as_str().as_bytes_vec();
    assert(bytes@ == encode_utf8(name@ + url@));
    let h = fnv1a_bytes(&bytes);
    let hx = hex_chars(h);
    proof {
        lemma_id_shape(name@, url@);
    }
    chars_to_string(&hx)
}

} // verus!
