//! Hexadecimal characters, validation, and the meaning of hex decoding.
use vstd::prelude::*;

verus! {

/// A hexadecimal digit, upper or lower case.
pub open spec fn is_hex_digit(c: char) -> bool {
    ('0' <= c && c <= '9') || ('a' <= c && c <= 'f') || ('A' <= c && c <= 'F')
}

/// A lowercase hexadecimal digit.
pub open spec fn is_lower_hex_digit(c: char) -> bool {
    ('0' <= c && c <= '9') || ('a' <= c && c <= 'f')
}

/// Numeric value of a hex digit.
pub open spec fn hex_digit_value(c: char) -> nat
    recommends
        is_hex_digit(c),
{
    if '0' <= c && c <= '9' {
        (c as nat - '0' as nat) as nat
    } else if 'a' <= c && c <= 'f' {
        (c as nat - 'a' as nat + 10) as nat
    } else {
        (c as nat - 'A' as nat + 10) as nat
    }
}

/// Every character of the string is a hex digit.
pub open spec fn spec_is_hex(s: Seq<char>) -> bool {
    forall|i: int| 0 <= i < s.len() ==> is_hex_digit(#[trigger] s[i])
}

/// Every character of the string is a lowercase hex digit.
pub open spec fn spec_is_lower_hex(s: Seq<char>) -> bool {
    forall|i: int| 0 <= i < s.len() ==> is_lower_hex_digit(#[trigger] s[i])
}

/// The bytes denoted by an even-length hex string: byte `i` is read
/// from the digit pair at positions `2i` and `2i + 1`.
pub open spec fn spec_hex_decode(s: Seq<char>) -> Seq<u8>
    recommends
        s.len() % 2 == 0,
        spec_is_hex(s),
{
    Seq::new((s.len() / 2) as nat, |i: int| (hex_digit_value(s[2 * i]) * 16 + hex_digit_value(s[2 * i + 1])) as u8)
}

/// Is the string an even-length hex string?
pub open spec fn spec_hex_decodable(s: Seq<char>) -> bool {
    s.len() % 2 == 0 && spec_is_hex(s)
}

/// Whether every character of `s` is a hex digit (either case).
pub fn is_hex(s: &str) -> (r: bool)
    ensures
        r == spec_is_hex(s@),
{
    let len = s.unicode_len();
    let mut i: usize = 0;
    while i < len
        invariant
            i <= len,
            len == s@.len(),
            forall|j: int| 0 <= j < i ==> is_hex_digit(#[trigger] s@[j]),
        decreases len - i,
    {
        let c = s.get_char(i);
        let ok = ('0' <= c && c <= '9') || ('a' <= c && c <= 'f') || ('A' <= c && c <= 'F');
        if !ok {
            return false;
        }
        i += 1;
    }
    true
}

/// Whether every character of `s` is a lowercase hex digit.
pub fn is_lower_hex(s: &str) -> (r: bool)
    ensures
        r == spec_is_lower_hex(s@),
{
    let len = s.unicode_len();
    let mut i: usize = 0;
    while i < len
        invariant
            i <= len,
            len == s@.len(),
            forall|j: int| 0 <= j < i ==> is_lower_hex_digit(#[trigger] s@[j]),
        decreases len - i,
    {
        let c = s.get_char(i);
        let ok = ('0' <= c && c <= '9') || ('a' <= c && c <= 'f');
        if !ok {
            return false;
        }
        i += 1;
    }
    true
}

/// Relies on `hex::decode`: decodes an even-length hex string into its
/// bytes, two digits per byte, and fails exactly on odd length or a
/// non-hex character.
#[verifier::external_body]
pub fn hex_decode(s: &str) -> (r: Option<Vec<u8>>)
    ensures
        r is Some <==> spec_hex_decodable(s@),
        r is Some ==> r->0@ == spec_hex_decode(s@),
{
    hex::decode(s).ok()
}

} // verus!

verus! {

/// The lowercase hex digit for a value below sixteen.
pub open spec fn char_of_nibble(n: int) -> char {
    if n == 0 {
        '0'
    } else if n == 1 {
        '1'
    } else if n == 2 {
        '2'
    } else if n == 3 {
        '3'
    } else if n == 4 {
        '4'
    } else if n == 5 {
        '5'
    } else if n == 6 {
        '6'
    } else if n == 7 {
        '7'
    } else if n == 8 {
        '8'
    } else if n == 9 {
        '9'
    } else if n == 10 {
        'a'
    } else if n == 11 {
        'b'
    } else if n == 12 {
        'c'
    } else if n == 13 {
        'd'
    } else if n == 14 {
        'e'
    } else {
        'f'
    }
}

/// The lowercase hex rendering of a byte string, two digits per byte.
pub open spec fn spec_hex_encode(b: Seq<u8>) -> Seq<char> {
    Seq::new(
        2 * b.len(),
        |i: int|
            if i % 2 == 0 {
                char_of_nibble(b[i / 2] as int / 16)
            } else {
                char_of_nibble(b[i / 2] as int % 16)
            },
    )
}

/// Encoding a lowercase hex digit's value gives the digit back.
proof fn lemma_nibble_of_digit(c: char)
    requires
        is_lower_hex_digit(c),
    ensures
        hex_digit_value(c) < 16,
        char_of_nibble(hex_digit_value(c) as int) == c,
{
}

/// Law: hex decoding is lossless on even-length lowercase hex strings —
/// re-encoding the decoded bytes gives the string back.
pub proof fn lemma_hex_round_trip(v: Seq<char>)
    requires
        spec_hex_decodable(v),
        spec_is_lower_hex(v),
    ensures
        spec_hex_encode(spec_hex_decode(v)) == v,
{
    let b = spec_hex_decode(v);
    let e = spec_hex_encode(b);
    assert(b.len() == v.len() / 2);
    assert forall|i: int| 0 <= i < e.len() implies e[i] == v[i] by {
        let j = i / 2;
        let hi = hex_digit_value(v[2 * j]) as int;
        let lo = hex_digit_value(v[2 * j + 1]) as int;
        lemma_nibble_of_digit(v[2 * j]);
        lemma_nibble_of_digit(v[2 * j + 1]);
        assert(b[j] == hi * 16 + lo);
        assert((hi * 16 + lo) / 16 == hi && (hi * 16 + lo) % 16 == lo) by (nonlinear_arith)
            requires
                0 <= hi < 16,
                0 <= lo < 16,
        ;
        if i % 2 == 0 {
            assert(i == 2 * j);
            assert(e[i] == char_of_nibble(b[j] as int / 16));
        } else {
            assert(i == 2 * j + 1);
            assert(e[i] == char_of_nibble(b[j] as int % 16));
        }
    }
    assert(e =~= v);
}

/// Law: on even-length lowercase hex strings, hex decoding is
/// injective: equal byte values mean equal strings.
pub proof fn lemma_hex_decode_injective(a: Seq<char>, b: Seq<char>)
    requires
        spec_hex_decodable(a),
        spec_is_lower_hex(a),
        spec_hex_decodable(b),
        spec_is_lower_hex(b),
        spec_hex_decode(a) == spec_hex_decode(b),
    ensures
        a == b,
{
    lemma_hex_round_trip(a);
    lemma_hex_round_trip(b);
}

} // verus!
