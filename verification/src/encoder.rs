//! Encoders for the wire protocol's reply shapes: simple strings, errors,
//! integers, bulk strings, arrays, and the null/empty forms.
//!
//! Every encoder's contract pins the exact byte sequence produced, stated
//! over spec-level encodings of the payload.
use vstd::prelude::*;

verus! {

/// Carriage return, the first byte of the line terminator.
pub const CR: u8 = 13;

/// Line feed, the second byte of the line terminator.
pub const LF: u8 = 10;

/// `+`, the marker byte of a simple-string reply.
pub const PLUS: u8 = 43;

/// `-`, the marker byte of an error reply.
pub const MINUS: u8 = 45;

/// `:`, the marker byte of an integer reply.
pub const COLON: u8 = 58;

/// `$`, the marker byte of a bulk-string reply.
pub const DOLLAR: u8 = 36;

/// `*`, the marker byte of an array reply.
pub const STAR: u8 = 42;

/// `0`, the lowest decimal digit byte.
pub const DIGIT_ZERO: u8 = 48;

/// `1`, the digit byte of the null-bulk length marker.
pub const DIGIT_ONE: u8 = 49;

/// The two-byte line terminator that closes every reply fragment.
pub open spec fn crlf() -> Seq<u8> {
    seq![CR, LF]
}

/// The decimal digit bytes of `n`, most significant first, no sign and no
/// leading zeros (`0` itself is the single byte `48`).
pub open spec fn dec_digits(n: nat) -> Seq<u8>
    decreases n,
{
    if n < 10 {
        seq![(DIGIT_ZERO + n) as u8]
    } else {
        dec_digits(n / 10) + seq![(DIGIT_ZERO + n % 10) as u8]
    }
}

/// The exact bytes of a simple-string reply: `+<text>` then the terminator.
pub open spec fn simple_string_bytes(s: Seq<char>) -> Seq<u8> {
    seq![PLUS] + vstd::utf8::encode_utf8(s) + crlf()
}

/// The exact bytes of an error reply: `-<text>` then the terminator.
pub open spec fn error_bytes(s: Seq<char>) -> Seq<u8> {
    seq![MINUS] + vstd::utf8::encode_utf8(s) + crlf()
}

/// The exact bytes of an integer reply whose decimal rendering is given as
/// text: `:<text>` then the terminator.
pub open spec fn integer_text_bytes(s: Seq<char>) -> Seq<u8> {
    seq![COLON] + vstd::utf8::encode_utf8(s) + crlf()
}

/// The exact bytes of an integer reply for the value `n`.
pub open spec fn integer_bytes(n: nat) -> Seq<u8> {
    seq![COLON] + dec_digits(n) + crlf()
}

/// The exact bytes of a bulk-string reply for the payload bytes `b`:
/// `$<len>`, terminator, the payload, terminator.
pub open spec fn bulk_of_bytes(b: Seq<u8>) -> Seq<u8> {
    seq![DOLLAR] + dec_digits(b.len()) + crlf() + b + crlf()
}

/// The exact bytes of a bulk-string reply for a text payload; the declared
/// length is the payload's byte count, not its character count.
pub open spec fn bulk_bytes(s: Seq<char>) -> Seq<u8> {
    bulk_of_bytes(vstd::utf8::encode_utf8(s))
}

/// The exact bytes of the null-bulk reply `$-1` plus terminator.
pub open spec fn null_bulk_bytes() -> Seq<u8> {
    seq![DOLLAR, MINUS, DIGIT_ONE, CR, LF]
}

/// The bulk-string encodings of all items, in order, concatenated.
pub open spec fn bulks_concat(items: Seq<Seq<char>>) -> Seq<u8>
    decreases items.len(),
{
    if items.len() == 0 {
        Seq::empty()
    } else {
        bulks_concat(items.drop_last()) + bulk_bytes(items.last())
    }
}

/// The exact bytes of an array reply: `*<n>`, terminator, then the `n`
/// bulk-string encodings.
pub open spec fn array_bytes(items: Seq<Seq<char>>) -> Seq<u8> {
    seq![STAR] + dec_digits(items.len()) + crlf() + bulks_concat(items)
}

/// The exact bytes of the empty-array reply `*0` plus terminator.
pub open spec fn empty_array_bytes() -> Seq<u8> {
    seq![STAR, DIGIT_ZERO, CR, LF]
}

/// Renders `n` as its decimal digit bytes, most significant first.
pub fn u64_to_dec(n: u64) -> (r: Vec<u8>)
    ensures
        r@ == dec_digits(n as nat),
    decreases n,
{
    if n < 10 {
        let mut v: Vec<u8> = Vec::new();
        v.push(DIGIT_ZERO + (n as u8));
        proof {
            assert(v@ =~= dec_digits(n as nat));
        }
        v
    } else {
        let mut v = u64_to_dec(n / 10);
        v.push(DIGIT_ZERO + ((n % 10) as u8));
        proof {
            assert(v@ =~= dec_digits(n as nat));
        }
        v
    }
}

/// Encodes a simple-string reply.
pub fn encode_resp_simple_string(s: &str) -> (r: Vec<u8>)
    ensures
        r@ == simple_string_bytes(s@),
{
    let mut encoded: Vec<u8> = Vec::new();
    encoded.push(PLUS);
    encoded.extend_from_slice(s.as_bytes());
    encoded.push(CR);
    encoded.push(LF);
    proof {
        assert(encoded@ =~= simple_string_bytes(s@));
    }
    encoded
}

/// Encodes an error reply.
pub fn encode_resp_error_string(s: &str) -> (r: Vec<u8>)
    ensures
        r@ == error_bytes(s@),
{
    let mut encoded: Vec<u8> = Vec::new();
    encoded.push(MINUS);
    encoded.extend_from_slice(s.as_bytes());
    encoded.push(CR);
    encoded.push(LF);
    proof {
        assert(encoded@ =~= error_bytes(s@));
    }
    encoded
}

/// Encodes an integer reply whose decimal rendering the caller supplies as
/// text.
pub fn encode_resp_integer(value: &str) -> (r: Vec<u8>)
    ensures
        r@ == integer_text_bytes(value@),
{
    let mut encoded: Vec<u8> = Vec::new();
    encoded.push(COLON);
    encoded.extend_from_slice(value.as_bytes());
    encoded.push(CR);
    encoded.push(LF);
    proof {
        assert(encoded@ =~= integer_text_bytes(value@));
    }
    encoded
}

/// Encodes an integer reply for a counter or length value.
pub fn encode_resp_integer_value(value: u64) -> (r: Vec<u8>)
    ensures
        r@ == integer_bytes(value as nat),
{
    let mut encoded: Vec<u8> = Vec::new();
    encoded.push(COLON);
    let digits = u64_to_dec(value);
    encoded.extend_from_slice(digits.as_slice());
    encoded.push(CR);
    encoded.push(LF);
    proof {
        assert(encoded@ =~= integer_bytes(value as nat));
    }
    encoded
}

/// Encodes a bulk-string reply; the declared length is the byte count of the
/// payload.
pub fn encode_resp_bulk_string(data: String) -> (r: Vec<u8>)
    ensures
        r@ == bulk_bytes(data@),
{
    let mut encoded: Vec<u8> = Vec::new();
    encoded.push(DOLLAR);
    let payload = data.as_str().as_bytes();
    let len = payload.len();
    let digits = u64_to_dec(len as u64);
    encoded.extend_from_slice(digits.as_slice());
    encoded.push(CR);
    encoded.push(LF);
    encoded.extend_from_slice(payload);
    encoded.push(CR);
    encoded.push(LF);
    proof {
        assert(encoded@ =~= bulk_bytes(data@));
    }
    encoded
}

/// Encodes the null-bulk reply, the reply for an absent value.
pub fn empty_bulk_string() -> (r: Vec<u8>)
    ensures
        r@ == null_bulk_bytes(),
{
    let mut encoded: Vec<u8> = Vec::new();
    encoded.push(DOLLAR);
    encoded.push(MINUS);
    encoded.push(DIGIT_ONE);
    encoded.push(CR);
    encoded.push(LF);
    proof {
        assert(encoded@ =~= null_bulk_bytes());
    }
    encoded
}

/// Encodes an array reply: the element count, then each element as a
/// bulk string, in order.
pub fn encode_resp_arrays(arr: Vec<String>) -> (r: Vec<u8>)
    ensures
        r@ == array_bytes(arr.deep_view()),
{
    let mut encoded: Vec<u8> = Vec::new();
    encoded.push(STAR);
    let digits = u64_to_dec(arr.len() as u64);
    encoded.extend_from_slice(digits.as_slice());
    encoded.push(CR);
    encoded.push(LF);
    let ghost header: Seq<u8> = encoded@;
    let mut i: usize = 0;
    while i < arr.len()
        invariant
            i <= arr.len(),
            header == seq![STAR] + dec_digits(arr.deep_view().len()) + crlf(),
            encoded@ == header + bulks_concat(arr.deep_view().take(i as int)),
        decreases arr.len() - i,
    {
        let item = encode_resp_bulk_string(arr[i].clone());
        encoded.extend_from_slice(item.as_slice());
        proof {
            let items = arr.deep_view();
            assert(items.take(i + 1 as int).drop_last() =~= items.take(i as int));
            assert(items.take(i + 1 as int).last() == items[i as int]);
            assert(encoded@ == header + bulks_concat(items.take(i + 1 as int)));
        }
        i = i + 1;
    }
    proof {
        assert(arr.deep_view().take(arr.len() as int) =~= arr.deep_view());
        assert(encoded@ =~= array_bytes(arr.deep_view()));
    }
    encoded
}

/// Encodes the empty-array reply.
pub fn encode_resp_empty_array() -> (r: Vec<u8>)
    ensures
        r@ == empty_array_bytes(),
{
    let mut encoded: Vec<u8> = Vec::new();
    encoded.push(STAR);
    encoded.push(DIGIT_ZERO);
    encoded.push(CR);
    encoded.push(LF);
    proof {
        assert(encoded@ =~= empty_array_bytes());
    }
    encoded
}

} // verus!
