//! Text comparison helpers: exact equality of string slices, and the
//! ASCII-case-insensitive comparison used to match command names.
use vstd::prelude::*;
use vstd::string::StringSliceAdditionalSpecFns;

verus! {

/// `b` with an ASCII upper-case letter folded to lower case.
pub open spec fn lower_byte(b: u8) -> u8 {
    if 65 <= b && b <= 90 {
        (b + 32) as u8
    } else {
        b
    }
}

/// `s` with every ASCII upper-case letter folded to lower case.
pub open spec fn lower_bytes(s: Seq<u8>) -> Seq<u8> {
    Seq::new(s.len(), |i: int| lower_byte(s[i]))
}

/// The two texts are the same command name: their encodings agree once
/// ASCII letters are folded to lower case.
pub open spec fn cmd_matches(a: Seq<char>, b: Seq<char>) -> bool {
    lower_bytes(vstd::utf8::encode_utf8(a)) == lower_bytes(vstd::utf8::encode_utf8(b))
}

/// Compares two byte slices for equality.
pub fn bytes_eq(a: &[u8], b: &[u8]) -> (r: bool)
    ensures
        r == (a@ == b@),
{
    if a.len() != b.len() {
        return false;
    }
    let mut i: usize = 0;
    while i < a.len()
        invariant
            a@.len() == b@.len(),
            i <= a@.len(),
            forall|j: int| 0 <= j < i ==> a@[j] == b@[j],
        decreases a@.len() - i,
    {
        if a[i] != b[i] {
            return false;
        }
        i = i + 1;
    }
    proof {
        assert(a@ =~= b@);
    }
    true
}

/// Compares two string slices for equality.
pub fn str_eq(a: &str, b: &str) -> (r: bool)
    ensures
        r == (a@ == b@),
{
    let r = bytes_eq(a.as_bytes(), b.as_bytes());
    proof {
        if a.spec_bytes() == b.spec_bytes() {
            vstd::utf8::encode_utf8_decode_utf8(a@);
            vstd::utf8::encode_utf8_decode_utf8(b@);
        }
    }
    r
}

/// Compares two string slices as command names, ignoring ASCII case.
pub fn eq_ignore_ascii_case(a: &str, b: &str) -> (r: bool)
    ensures
        r == cmd_matches(a@, b@),
{
    let ab = a.as_bytes();
    let bb = b.as_bytes();
    proof {
        assert(ab@ == vstd::utf8::encode_utf8(a@));
        assert(bb@ == vstd::utf8::encode_utf8(b@));
    }
    if ab.len() != bb.len() {
        proof {
            assert(lower_bytes(ab@).len() != lower_bytes(bb@).len());
        }
        return false;
    }
    let mut i: usize = 0;
    while i < ab.len()
        invariant
            ab@ == vstd::utf8::encode_utf8(a@),
            bb@ == vstd::utf8::encode_utf8(b@),
            ab@.len() == bb@.len(),
            i <= ab@.len(),
            forall|j: int| 0 <= j < i ==> lower_byte(ab@[j]) == lower_byte(bb@[j]),
        decreases ab@.len() - i,
    {
        let x = ab[i];
        let y = bb[i];
        let xf = if 65 <= x && x <= 90 {
            x + 32
        } else {
            x
        };
        let yf = if 65 <= y && y <= 90 {
            y + 32
        } else {
            y
        };
        if xf != yf {
            proof {
                assert(lower_byte(ab@[i as int]) != lower_byte(bb@[i as int]));
                assert(lower_bytes(ab@)[i as int] == lower_byte(ab@[i as int]));
                assert(lower_bytes(bb@)[i as int] == lower_byte(bb@[i as int]));
                assert(lower_bytes(ab@) != lower_bytes(bb@));
                assert(!cmd_matches(a@, b@));
            }
            return false;
        }
        i = i + 1;
    }
    proof {
        assert(lower_bytes(ab@) =~= lower_bytes(bb@));
    }
    true
}

} // verus!
