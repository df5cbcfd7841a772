//! Decoders for request text: picking argument tokens out of a split
//! request line, and parsing decimal integers and range bounds.
//!
//! Integer parsing is done byte by byte and proved against `dec_value`,
//! the mathematical value of a digit string.
use vstd::prelude::*;
use vstd::string::StringSliceAdditionalSpecFns;
use crate::encoder::MINUS;

verus! {

/// A decode failure: the text is not an integer of the expected shape, or a
/// range bound falls outside what the list or the machine can address.
#[derive(Clone, Copy, Debug, PartialEq, Eq, Structural)]
pub enum DecodeError {
    /// The text is not a plain decimal integer that fits the target type.
    BadInt,
    /// A normalized range bound is negative or beyond addressable size.
    BadRange,
}

/// `b` is an ASCII decimal digit.
pub open spec fn is_digit(b: u8) -> bool {
    48 <= b <= 57
}

/// Every byte of `s` is an ASCII decimal digit.
pub open spec fn all_digits(s: Seq<u8>) -> bool {
    forall|i: int| 0 <= i < s.len() ==> is_digit(#[trigger] s[i])
}

/// The value of the digit string `s` read as a decimal number,
/// most significant digit first.
pub open spec fn dec_value(s: Seq<u8>) -> nat
    decreases s.len(),
{
    if s.len() == 0 {
        0
    } else {
        dec_value(s.drop_last()) * 10 + (s.last() - 48) as nat
    }
}

/// `s` is the text of an unsigned decimal that fits in `u64`.
pub open spec fn valid_u64_text(s: Seq<u8>) -> bool {
    s.len() > 0 && all_digits(s) && dec_value(s) <= u64::MAX
}

/// `s` is the text of a signed decimal that fits in `i64`: an optional
/// leading minus sign, then digits.
pub open spec fn valid_i64_text(s: Seq<u8>) -> bool {
    if s.len() > 0 && s[0] == MINUS {
        let mag = s.drop_first();
        mag.len() > 0 && all_digits(mag) && dec_value(mag) <= 0x8000000000000000
    } else {
        s.len() > 0 && all_digits(s) && dec_value(s) <= i64::MAX
    }
}

/// The signed value of decimal text: the magnitude's value, negated after a
/// leading minus sign.
pub open spec fn signed_value(s: Seq<u8>) -> int {
    if s.len() > 0 && s[0] == MINUS {
        -(dec_value(s.drop_first()) as int)
    } else {
        dec_value(s) as int
    }
}

/// Appending digits never decreases the value of a digit string.
proof fn lemma_dec_value_prefix(s: Seq<u8>, i: int)
    requires
        0 <= i <= s.len(),
    ensures
        dec_value(s.take(i)) <= dec_value(s),
    decreases s.len() - i,
{
    if i < s.len() {
        assert(s.take(i + 1).drop_last() =~= s.take(i));
        assert(dec_value(s.take(i + 1)) == dec_value(s.take(i)) * 10 + (s.take(i + 1).last()
            - 48) as nat);
        lemma_dec_value_prefix(s, i + 1);
        assert(s.take(s.len() as int) =~= s);
    } else {
        assert(s.take(i) =~= s);
    }
}

/// Parses the magnitude of a decimal number from digit bytes.
fn parse_digits(b: &[u8]) -> (r: Result<u64, DecodeError>)
    ensures
        r is Ok <==> valid_u64_text(b@),
        r is Ok ==> r.unwrap() as nat == dec_value(b@),
        r is Err ==> r.unwrap_err() == DecodeError::BadInt,
{
    if b.len() == 0 {
        return Err(DecodeError::BadInt);
    }
    let mut acc: u64 = 0;
    let mut i: usize = 0;
    while i < b.len()
        invariant
            i <= b@.len(),
            all_digits(b@.take(i as int)),
            acc as nat == dec_value(b@.take(i as int)),
        decreases b@.len() - i,
    {
        let d = b[i];
        if d < 48 || d > 57 {
            return Err(DecodeError::BadInt);
        }
        proof {
            assert(b@.take(i + 1).drop_last() =~= b@.take(i as int));
        }
        let shifted = match acc.checked_mul(10) {
            Some(v) => v,
            None => {
                proof {
                    lemma_dec_value_prefix(b@, i + 1);
                }
                return Err(DecodeError::BadInt);
            },
        };
        acc = match shifted.checked_add((d - 48) as u64) {
            Some(v) => v,
            None => {
                proof {
                    lemma_dec_value_prefix(b@, i + 1);
                }
                return Err(DecodeError::BadInt);
            },
        };
        i = i + 1;
    }
    proof {
        assert(b@.take(b@.len() as int) =~= b@);
    }
    Ok(acc)
}

/// Parses an unsigned decimal integer.
pub fn parse_u64(s: &str) -> (r: Result<u64, DecodeError>)
    ensures
        r is Ok <==> valid_u64_text(s.spec_bytes()),
        r is Ok ==> r.unwrap() as nat == dec_value(s.spec_bytes()),
        r is Err ==> r.unwrap_err() == DecodeError::BadInt,
{
    parse_digits(s.as_bytes())
}

/// Parses a signed decimal integer: an optional leading minus sign, then
/// digits.
pub fn parse_i64(s: &str) -> (r: Result<i64, DecodeError>)
    ensures
        r is Ok <==> valid_i64_text(s.spec_bytes()),
        r is Ok ==> r.unwrap() as int == signed_value(s.spec_bytes()),
        r is Err ==> r.unwrap_err() == DecodeError::BadInt,
{
    let b = s.as_bytes();
    if b.len() > 0 && b[0] == MINUS {
        let (_, mag) = b.split_at(1);
        proof {
            assert(mag@ =~= s.spec_bytes().drop_first());
        }
        match parse_digits(mag) {
            Ok(v) => {
                if v > 0x8000000000000000u64 {
                    Err(DecodeError::BadInt)
                } else if v == 0x8000000000000000u64 {
                    Ok(i64::MIN)
                } else {
                    Ok(-(v as i64))
                }
            },
            Err(e) => Err(e),
        }
    } else {
        match parse_digits(b) {
            Ok(v) => {
                if v > i64::MAX as u64 {
                    Err(DecodeError::BadInt)
                } else {
                    Ok(v as i64)
                }
            },
            Err(e) => Err(e),
        }
    }
}

/// The stop bound of a slice request, normalized: a negative stop counts
/// from the end, and the result is exclusive (one past the last index
/// requested).
pub open spec fn normalized_end(e: Seq<u8>, len: nat) -> int {
    if signed_value(e) < 0 {
        len + signed_value(e) + 1
    } else {
        signed_value(e) + 1
    }
}

/// Decodes the two bounds of a slice request against a list of length
/// `len`: the start must be unsigned, the stop may be negative and is then
/// taken from the end; the pair comes back as `[start, end)` indices.
pub fn decode_array_indices(s: &str, e: &str, len: usize) -> (r: Result<
    Vec<usize>,
    DecodeError,
>)
    ensures
        r is Ok <==> {
            &&& valid_u64_text(s.spec_bytes())
            &&& dec_value(s.spec_bytes()) <= usize::MAX
            &&& valid_i64_text(e.spec_bytes())
            &&& 0 <= normalized_end(e.spec_bytes(), len as nat) <= usize::MAX
        },
        r is Ok ==> {
            &&& r.unwrap()@.len() == 2
            &&& r.unwrap()@[0] as nat == dec_value(s.spec_bytes())
            &&& r.unwrap()@[1] as int == normalized_end(e.spec_bytes(), len as nat)
        },
{
    let start64 = match parse_u64(s) {
        Ok(v) => v,
        Err(_) => {
            return Err(DecodeError::BadInt);
        },
    };
    if start64 > usize::MAX as u64 {
        return Err(DecodeError::BadInt);
    }
    let start = start64 as usize;
    let endi = match parse_i64(e) {
        Ok(v) => v,
        Err(_) => {
            return Err(DecodeError::BadInt);
        },
    };
    let end: usize = if endi < 0 {
        let back: u128 = if endi == i64::MIN {
            0x8000000000000000u128
        } else {
            (-endi) as u128
        };
        // the stop counts from the end: len + endi + 1, rejected when negative
        if back > len as u128 + 1 {
            return Err(DecodeError::BadRange);
        }
        (len as u128 + 1 - back) as usize
    } else {
        if endi as u64 >= usize::MAX as u64 {
            return Err(DecodeError::BadRange);
        }
        (endi as u64 + 1) as usize
    };
    let mut decoded: Vec<usize> = Vec::new();
    decoded.push(start);
    decoded.push(end);
    Ok(decoded)
}

/// Picks the payload tokens out of a request line split on the terminator:
/// every second token, skipping the framing header.
pub fn decode_get_pure_command(cmd: Vec<&str>) -> (r: Vec<String>)
    ensures
        r.deep_view() == Seq::new(
            if cmd@.len() == 0 {
                0
            } else {
                ((cmd@.len() - 1) / 2) as nat
            },
            |j: int| cmd@[2 * j + 2]@,
        ),
{
    let mut pure_cmds: Vec<String> = Vec::new();
    let mut i: usize = 0;
    while i < cmd.len()
        invariant
            i <= cmd@.len(),
            pure_cmds.deep_view() =~= Seq::new(
                if i <= 2 {
                    0
                } else {
                    ((i - 1) / 2) as nat
                },
                |j: int| cmd@[2 * j + 2]@,
            ),
        decreases cmd@.len() - i,
    {
        let ghost prev = pure_cmds.deep_view();
        if i % 2 == 0 && i != 0 {
            pure_cmds.push(cmd[i].to_owned());
            proof {
                assert(pure_cmds.deep_view() =~= prev.push(cmd@[i as int]@));
                assert(pure_cmds.deep_view() =~= Seq::new(
                    (i / 2) as nat,
                    |j: int| cmd@[2 * j + 2]@,
                ));
            }
        }
        i = i + 1;
    }
    proof {
        let want = Seq::new(
            if cmd@.len() == 0 {
                0
            } else {
                ((cmd@.len() - 1) / 2) as nat
            },
            |j: int| cmd@[2 * j + 2]@,
        );
        assert(pure_cmds.deep_view() =~= want);
    }
    pure_cmds
}

} // verus!
