//! The standard base64 encoding (RFC 4648 alphabet, `=` padding) as a
//! mathematical function, and the decoder that the library relies on.
use base64::Engine;
use vstd::prelude::*;

verus! {

/// The character for a six-bit value `i` (`0 <= i < 64`).
pub open spec fn sextet_char(i: int) -> char {
    if i < 26 {
        ((65 + i) as u8) as char
    } else if i < 52 {
        ((71 + i) as u8) as char
    } else if i < 62 {
        ((i - 4) as u8) as char
    } else if i == 62 {
        '+'
    } else {
        '/'
    }
}

/// The six-bit value of a character of the alphabet.
pub open spec fn char_sextet(c: char) -> int {
    let n = c as int;
    if 65 <= n <= 90 {
        n - 65
    } else if 97 <= n <= 122 {
        n - 71
    } else if 48 <= n <= 57 {
        n + 4
    } else if c == '+' {
        62
    } else {
        63
    }
}

/// Four characters for three bytes.
pub open spec fn encode_triple(x0: int, x1: int, x2: int) -> Seq<char> {
    seq![
        sextet_char(x0 / 4),
        sextet_char((x0 % 4) * 16 + x1 / 16),
        sextet_char((x1 % 16) * 4 + x2 / 64),
        sextet_char(x2 % 64),
    ]
}

/// The canonical padded base64 text of a byte string.
pub open spec fn b64_encode(b: Seq<u8>) -> Seq<char>
    decreases b.len(),
{
    if b.len() == 0 {
        seq![]
    } else if b.len() == 1 {
        let x0 = b[0] as int;
        seq![sextet_char(x0 / 4), sextet_char((x0 % 4) * 16), '=', '=']
    } else if b.len() == 2 {
        let x0 = b[0] as int;
        let x1 = b[1] as int;
        seq![sextet_char(x0 / 4), sextet_char((x0 % 4) * 16 + x1 / 16), sextet_char((x1 % 16) * 4), '=']
    } else {
        encode_triple(b[0] as int, b[1] as int, b[2] as int) + b64_encode(b.subrange(3, b.len() as int))
    }
}

/// Reads bytes back out of encoded text, four characters at a time.
pub open spec fn b64_unencode(s: Seq<char>) -> Seq<u8>
    decreases s.len(),
{
    if s.len() < 4 {
        seq![]
    } else {
        let c0 = char_sextet(s[0]);
        let c1 = char_sextet(s[1]);
        let c2 = char_sextet(s[2]);
        let c3 = char_sextet(s[3]);
        let x0 = (c0 * 4 + c1 / 16) as u8;
        let x1 = ((c1 % 16) * 16 + c2 / 4) as u8;
        let x2 = ((c2 % 4) * 64 + c3) as u8;
        if s[2] == '=' {
            seq![x0]
        } else if s[3] == '=' {
            seq![x0, x1]
        } else {
            seq![x0, x1, x2] + b64_unencode(s.subrange(4, s.len() as int))
        }
    }
}

/// Whether `s` is the canonical base64 text of some byte string.
pub open spec fn is_b64_text(s: Seq<char>) -> bool {
    exists|b: Seq<u8>| b64_encode(b) == s
}

/// What decoding `s` gives: the bytes whose encoding is `s`, if there are any.
pub open spec fn b64_decode(s: Seq<char>) -> Option<Seq<u8>> {
    if is_b64_text(s) {
        Some(choose|b: Seq<u8>| b64_encode(b) == s)
    } else {
        None
    }
}

proof fn lemma_sextet_round_trip(i: int)
    requires
        0 <= i < 64,
    ensures
        char_sextet(sextet_char(i)) == i,
        sextet_char(i) != '=',
{
}

proof fn lemma_byte_split(x0: u32, x1: u32, x2: u32)
    requires
        x0 < 256,
        x1 < 256,
        x2 < 256,
    ensures
        (x0 / 4) * 4 + ((x0 % 4) * 16 + x1 / 16) / 16 == x0,
        (((x0 % 4) * 16 + x1 / 16) % 16) * 16 + ((x1 % 16) * 4 + x2 / 64) / 4 == x1,
        (((x1 % 16) * 4 + x2 / 64) % 4) * 64 + x2 % 64 == x2,
        ((x1 % 16) * 4) / 4 == x1 % 16,
        x0 / 4 < 64,
        (x0 % 4) * 16 + x1 / 16 < 64,
        (x1 % 16) * 4 + x2 / 64 < 64,
        x2 % 64 < 64,
{
    assert((x0 / 4) * 4 + ((x0 % 4) * 16 + x1 / 16) / 16 == x0) by (bit_vector)
        requires
            x0 < 256,
            x1 < 256,
    ;
    assert((((x0 % 4) * 16 + x1 / 16) % 16) * 16 + ((x1 % 16) * 4 + x2 / 64) / 4 == x1)
        by (bit_vector)
        requires
            x0 < 256,
            x1 < 256,
            x2 < 256,
    ;
    assert((((x1 % 16) * 4 + x2 / 64) % 4) * 64 + x2 % 64 == x2) by (bit_vector)
        requires
            x1 < 256,
            x2 < 256,
    ;
    assert(((x1 % 16) * 4) / 4 == x1 % 16) by (bit_vector);
    assert(x0 / 4 < 64 && (x0 % 4) * 16 + x1 / 16 < 64 && (x1 % 16) * 4 + x2 / 64 < 64
        && x2 % 64 < 64) by (bit_vector)
        requires
            x0 < 256,
            x1 < 256,
            x2 < 256,
    ;
}

/// Reading the encoding of `b` back gives `b`.
pub proof fn lemma_unencode_encode(b: Seq<u8>)
    ensures
        b64_unencode(b64_encode(b)) == b,
    decreases b.len(),
{
    let e = b64_encode(b);
    if b.len() == 0 {
    } else {
        let x0 = b[0] as u32;
        let x1 = if b.len() > 1 { b[1] as u32 } else { 0u32 };
        let x2 = if b.len() > 2 { b[2] as u32 } else { 0u32 };
        lemma_byte_split(x0, x1, x2);
        lemma_sextet_round_trip((x0 / 4) as int);
        lemma_sextet_round_trip(((x0 % 4) * 16 + x1 / 16) as int);
        lemma_sextet_round_trip(((x1 % 16) * 4 + x2 / 64) as int);
        lemma_sextet_round_trip((x2 % 64) as int);
        if b.len() == 1 {
            assert(b64_unencode(e) =~= b);
        } else if b.len() == 2 {
            assert(b64_unencode(e) =~= b);
        } else {
            let rest = b.subrange(3, b.len() as int);
            lemma_unencode_encode(rest);
            assert(e.subrange(4, e.len() as int) =~= b64_encode(rest));
            assert(b64_unencode(e) =~= b);
        }
    }
}

/// Distinct byte strings have distinct encodings.
pub proof fn lemma_encode_injective(a: Seq<u8>, b: Seq<u8>)
    requires
        b64_encode(a) == b64_encode(b),
    ensures
        a == b,
{
    lemma_unencode_encode(a);
    lemma_unencode_encode(b);
}

/// Decoding the base64 encoding of any byte string gives that byte string back.
pub proof fn lemma_decode_encode(b: Seq<u8>)
    ensures
        b64_decode(b64_encode(b)) == Some(b),
{
    let s = b64_encode(b);
    assert(is_b64_text(s));
    let c = choose|c: Seq<u8>| b64_encode(c) == s;
    lemma_encode_injective(c, b);
}

#[verifier::external_type_specification]
#[verifier::external_body]
pub struct ExDecodeError(base64::DecodeError);

/// Relies on `base64::Engine::decode` of the `STANDARD` engine: the standard
/// alphabet, `=` padding required in canonical form and no stray bits in the
/// last character, so the text is accepted exactly when it is the canonical
/// encoding of some byte string, and the result is that byte string.
#[verifier::external_body]
fn standard_decode(text: &str) -> (r: Result<Vec<u8>, base64::DecodeError>)
    ensures
        r matches Ok(v) ==> text@ == b64_encode(v@),
        r is Err ==> !is_b64_text(text@),
{
    base64::engine::general_purpose::STANDARD.decode(text)
}

/// Decodes standard padded base64 text; `None` when the text is not the
/// canonical encoding of any byte string.
pub fn decode_base64(text: &str) -> (r: Option<Vec<u8>>)
    ensures
        match r {
            Some(v) => b64_decode(text@) == Some(v@),
            None => b64_decode(text@) is None,
        },
{
    match standard_decode(text) {
        Ok(v) => {
            proof {
                lemma_decode_encode(v@);
            }
            Some(v)
        },
        Err(_) => None,
    }
}

} // verus!
