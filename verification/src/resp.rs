//! The request parser: reassembles one array-framed request out of a byte
//! stream. A request is `*<argc>` terminator, then `argc` bulk strings,
//! each `$<len>` terminator, payload, terminator.
//!
//! The grammar is stated once, as a deterministic spec-level parser, and
//! the executable parser is proved to return exactly its result. Trailing
//! bytes (the start of the next request) are left for the next attempt.
use vstd::prelude::*;
use crate::encoder::{CR, LF, DOLLAR, STAR};
use crate::decoder::is_digit;

verus! {

/// The largest value accepted for a count or length field.
pub const MAX_FIELD: u64 = 0xFFFFFFFF;

/// The outcome of reading a decimal field terminated by the line
/// terminator.
pub enum SpecNum {
    /// The value and the position just past the terminator.
    Found(nat, int),
    /// The buffer ends before the field is complete.
    More,
    /// The field is malformed: no digits, a stray byte, or a value over the
    /// accepted bound.
    Bad,
}

/// The outcome of parsing one bulk string.
pub enum SpecBulk {
    /// The payload and the position just past its terminator.
    Found(Seq<u8>, int),
    /// The buffer ends before the bulk string is complete.
    More,
    /// The bulk string is malformed.
    Bad,
}

/// The outcome of parsing a run of bulk strings.
pub enum SpecArgs {
    /// The payloads and the position just past the last one.
    Found(Seq<Seq<u8>>, int),
    /// The buffer ends before the run is complete.
    More,
    /// Some bulk string in the run is malformed.
    Bad,
}

/// The outcome of parsing one whole request.
pub enum SpecParse {
    /// The argument vector and the number of bytes the request occupied.
    Complete(Seq<Seq<u8>>, int),
    /// The buffer holds only a prefix of a request.
    Incomplete,
    /// The buffer cannot start a request.
    Malformed,
}

/// Reads a decimal field at `p` with accumulated value `acc` over `nd`
/// digits so far, up to and including the line terminator.
pub open spec fn spec_read_num(b: Seq<u8>, p: int, acc: nat, nd: nat) -> SpecNum
    decreases b.len() - p,
{
    if p < 0 || p >= b.len() {
        SpecNum::More
    } else if is_digit(b[p]) {
        if acc * 10 + (b[p] - 48) > MAX_FIELD {
            SpecNum::Bad
        } else {
            spec_read_num(b, p + 1, acc * 10 + (b[p] - 48) as nat, nd + 1)
        }
    } else if b[p] == CR {
        if nd == 0 {
            SpecNum::Bad
        } else if p + 1 >= b.len() {
            SpecNum::More
        } else if b[p + 1] == LF {
            SpecNum::Found(acc, p + 2)
        } else {
            SpecNum::Bad
        }
    } else {
        SpecNum::Bad
    }
}

/// Parses one bulk string at `p`: marker, length field, payload of exactly
/// that many bytes, terminator.
pub open spec fn spec_parse_bulk(b: Seq<u8>, p: int) -> SpecBulk {
    if p < 0 || p >= b.len() {
        SpecBulk::More
    } else if b[p] != DOLLAR {
        SpecBulk::Bad
    } else {
        match spec_read_num(b, p + 1, 0, 0) {
            SpecNum::More => SpecBulk::More,
            SpecNum::Bad => SpecBulk::Bad,
            SpecNum::Found(len, q) => {
                if q + len + 2 > b.len() {
                    SpecBulk::More
                } else if b[q + len] == CR && b[q + len + 1] == LF {
                    SpecBulk::Found(b.subrange(q, q + len), q + len + 2)
                } else {
                    SpecBulk::Bad
                }
            },
        }
    }
}

/// Parses `n` bulk strings starting at `p`.
pub open spec fn spec_parse_args(b: Seq<u8>, p: int, n: nat) -> SpecArgs
    decreases n,
{
    if n == 0 {
        SpecArgs::Found(Seq::empty(), p)
    } else {
        match spec_parse_bulk(b, p) {
            SpecBulk::More => SpecArgs::More,
            SpecBulk::Bad => SpecArgs::Bad,
            SpecBulk::Found(a, q) => {
                match spec_parse_args(b, q, (n - 1) as nat) {
                    SpecArgs::More => SpecArgs::More,
                    SpecArgs::Bad => SpecArgs::Bad,
                    SpecArgs::Found(rest, r) => SpecArgs::Found(seq![a] + rest, r),
                }
            },
        }
    }
}

/// Parses one whole request at the head of the buffer.
pub open spec fn spec_parse_request(b: Seq<u8>) -> SpecParse {
    if b.len() == 0 {
        SpecParse::Incomplete
    } else if b[0] != STAR {
        SpecParse::Malformed
    } else {
        match spec_read_num(b, 1, 0, 0) {
            SpecNum::More => SpecParse::Incomplete,
            SpecNum::Bad => SpecParse::Malformed,
            SpecNum::Found(argc, p) => {
                match spec_parse_args(b, p, argc) {
                    SpecArgs::More => SpecParse::Incomplete,
                    SpecArgs::Bad => SpecParse::Malformed,
                    SpecArgs::Found(args, q) => SpecParse::Complete(args, q),
                }
            },
        }
    }
}

/// The outcome of a parse attempt on a byte buffer.
pub enum ParseOutcome {
    /// One whole request: its argument vector and the byte count it
    /// occupied at the head of the buffer.
    Complete(Vec<Vec<u8>>, usize),
    /// The buffer holds only a prefix of a request; read more bytes.
    Incomplete,
    /// The buffer cannot start a request; the session must end.
    Malformed,
}

enum NumOutcome {
    Found(u64, usize),
    More,
    Bad,
}

/// Reads one decimal field and its terminator, starting at `p`.
fn read_num(b: &[u8], p: usize) -> (r: NumOutcome)
    requires
        p <= b@.len(),
    ensures
        match r {
            NumOutcome::Found(v, q) => spec_read_num(b@, p as int, 0, 0) == SpecNum::Found(
                v as nat,
                q as int,
            ) && q <= b@.len(),
            NumOutcome::More => spec_read_num(b@, p as int, 0, 0) is More,
            NumOutcome::Bad => spec_read_num(b@, p as int, 0, 0) is Bad,
        },
{
    let mut acc: u64 = 0;
    let mut seen = false;
    let ghost mut nd: nat = 0;
    let mut i = p;
    while i < b.len()
        invariant
            p <= i <= b@.len(),
            acc <= MAX_FIELD,
            seen <==> nd != 0,
            spec_read_num(b@, p as int, 0, 0) == spec_read_num(b@, i as int, acc as nat, nd),
        decreases b@.len() - i,
    {
        let c = b[i];
        if c >= 48 && c <= 57 {
            let grown = acc * 10 + ((c - 48) as u64);
            if grown > MAX_FIELD {
                return NumOutcome::Bad;
            }
            acc = grown;
            seen = true;
            proof {
                nd = nd + 1;
            }
            i = i + 1;
        } else if c == CR {
            if !seen {
                return NumOutcome::Bad;
            }
            if i + 1 >= b.len() {
                return NumOutcome::More;
            }
            if b[i + 1] == LF {
                return NumOutcome::Found(acc, i + 2);
            }
            return NumOutcome::Bad;
        } else {
            return NumOutcome::Bad;
        }
    }
    NumOutcome::More
}

/// Parses one whole request at the head of the buffer, leaving any
/// trailing bytes untouched.
pub fn parse_request(b: &[u8]) -> (r: ParseOutcome)
    ensures
        match r {
            ParseOutcome::Complete(args, used) => spec_parse_request(b@) == SpecParse::Complete(
                args.deep_view(),
                used as int,
            ) && used <= b@.len(),
            ParseOutcome::Incomplete => spec_parse_request(b@) is Incomplete,
            ParseOutcome::Malformed => spec_parse_request(b@) is Malformed,
        },
{
    if b.len() == 0 {
        return ParseOutcome::Incomplete;
    }
    if b[0] != STAR {
        return ParseOutcome::Malformed;
    }
    let (argc, mut pos) = match read_num(b, 1) {
        NumOutcome::Found(v, q) => (v, q),
        NumOutcome::More => {
            return ParseOutcome::Incomplete;
        },
        NumOutcome::Bad => {
            return ParseOutcome::Malformed;
        },
    };
    let mut args: Vec<Vec<u8>> = Vec::new();
    let mut parsed: u64 = 0;
    while parsed < argc
        invariant
            parsed <= argc,
            pos <= b@.len(),
            args@.len() == parsed,
            ({
                let whole = spec_parse_args(b@, pos as int, (argc - parsed) as nat);
                match spec_parse_request(b@) {
                    SpecParse::Complete(all, used) => whole matches SpecArgs::Found(rest, r)
                        && all == args.deep_view() + rest && used == r,
                    SpecParse::Incomplete => whole is More,
                    SpecParse::Malformed => whole is Bad,
                }
            }),
        decreases argc - parsed,
    {
        let ghost n_left = (argc - parsed) as nat;
        if pos >= b.len() {
            return ParseOutcome::Incomplete;
        }
        if b[pos] != DOLLAR {
            return ParseOutcome::Malformed;
        }
        let (len, q) = match read_num(b, pos + 1) {
            NumOutcome::Found(v, q) => (v, q),
            NumOutcome::More => {
                return ParseOutcome::Incomplete;
            },
            NumOutcome::Bad => {
                return ParseOutcome::Malformed;
            },
        };
        if (q as u128) + (len as u128) + 2 > b.len() as u128 {
            return ParseOutcome::Incomplete;
        }
        let payload_end = q + (len as usize);
        if !(b[payload_end] == CR && b[payload_end + 1] == LF) {
            return ParseOutcome::Malformed;
        }
        let payload = vstd::slice::slice_subrange(b, q, payload_end);
        let arg = vstd::slice::slice_to_vec(payload);
        let ghost args_prev = args.deep_view();
        args.push(arg);
        proof {
            assert(args.deep_view() =~~= args_prev.push(b@.subrange(q as int, q + len)));
            match spec_parse_args(b@, payload_end + 2, (n_left - 1) as nat) {
                SpecArgs::Found(rest, r) => {
                    assert(args_prev + (seq![b@.subrange(q as int, q + len)] + rest)
                        =~= args.deep_view() + rest);
                },
                _ => {},
            }
        }
        pos = payload_end + 2;
        parsed = parsed + 1;
    }
    proof {
        assert(spec_parse_args(b@, pos as int, 0) == SpecArgs::Found(
            Seq::<Seq<u8>>::empty(),
            pos as int,
        ));
        match spec_parse_request(b@) {
            SpecParse::Complete(all, used) => {
                assert(all =~= args.deep_view() + Seq::<Seq<u8>>::empty());
            },
            _ => {},
        }
    }
    ParseOutcome::Complete(args, pos)
}

} // verus!
