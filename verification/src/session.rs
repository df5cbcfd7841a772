//! One step of a session: parse one request at the head of the read
//! buffer, apply it to the store, and say what the connection loop should
//! do next. The caller reads bytes into the buffer, hands every step the
//! clock, writes the reply, and closes on abort.
use vstd::prelude::*;
use crate::resp::{parse_request, spec_parse_request, SpecParse, ParseOutcome};
use crate::commands::{dispatch, spec_dispatch};
use crate::encoder::error_bytes;
use crate::storage::Storage;
use vstd::utf8::{valid_utf8, decode_utf8};

verus! {

/// What the connection loop should do after one parse attempt.
pub enum SessionStep {
    /// One request was consumed; write this reply and try the next one.
    Reply(Vec<u8>),
    /// The buffer holds no whole request yet; read more bytes.
    NeedMore,
    /// The buffer cannot start a request; write this error reply and close
    /// the session.
    Abort(Vec<u8>),
}

/// Every argument is valid UTF-8.
pub open spec fn args_valid_utf8(args: Seq<Seq<u8>>) -> bool {
    forall|i: int| 0 <= i < args.len() ==> valid_utf8(#[trigger] args[i])
}

/// The arguments decoded from bytes to text.
pub open spec fn decoded_args(args: Seq<Seq<u8>>) -> Seq<Seq<char>> {
    Seq::new(args.len(), |i: int| decode_utf8(args[i]))
}

/// The error reply written before a session is closed on a framing error.
pub open spec fn framing_error_bytes() -> Seq<u8> {
    error_bytes("Error in parsing cmd length"@)
}

/// Relies on String::from_utf8_lossy: bytes that are valid UTF-8 decode to
/// exactly their text (invalid bytes are replaced, which the contract
/// leaves open).
#[verifier::external_body]
fn lossy_string(b: &Vec<u8>) -> (r: String)
    ensures
        valid_utf8(b@) ==> r@ == decode_utf8(b@),
{
    String::from_utf8_lossy(b.as_slice()).into_owned()
}

/// Drops the first `used` bytes of the buffer.
fn drain_front(buf: &mut Vec<u8>, used: usize)
    requires
        used <= old(buf)@.len(),
    ensures
        final(buf)@ == old(buf)@.skip(used as int),
{
    let rest = vstd::slice::slice_subrange(buf.as_slice(), used, buf.len());
    let next = vstd::slice::slice_to_vec(rest);
    *buf = next;
}

/// Parses one request at the head of the buffer; on a whole request,
/// consumes its bytes, applies the command, and returns the reply. The
/// request's transition is exact whenever its arguments are valid UTF-8;
/// the command table itself treats keys and values as text.
pub fn session_step(store: &mut Storage, buf: &mut Vec<u8>, now_ms: u64) -> (r: SessionStep)
    requires
        old(store).wf(),
    ensures
        final(store).wf(),
        ({
            let m = old(store)@;
            let b = old(buf)@;
            match spec_parse_request(b) {
                SpecParse::Incomplete => r is NeedMore && final(store)@ == m && final(buf)@ == b,
                SpecParse::Malformed => {
                    &&& match r {
                        SessionStep::Abort(e) => e@ == framing_error_bytes(),
                        _ => false,
                    }
                    &&& final(store)@ == m
                    &&& final(buf)@ == b
                },
                SpecParse::Complete(args, used) => {
                    &&& final(buf)@ == b.skip(used)
                    &&& (args_valid_utf8(args) ==> {
                        let d = spec_dispatch(m, decoded_args(args), now_ms);
                        &&& final(store)@ == d.0
                        &&& match r {
                            SessionStep::Reply(reply) => reply@ == d.1,
                            _ => false,
                        }
                    })
                    &&& (!args_valid_utf8(args) ==> r is Reply)
                },
            }
        }),
{
    let outcome = parse_request(buf.as_slice());
    match outcome {
        ParseOutcome::Incomplete => SessionStep::NeedMore,
        ParseOutcome::Malformed => SessionStep::Abort(
            crate::encoder::encode_resp_error_string("Error in parsing cmd length"),
        ),
        ParseOutcome::Complete(args, used) => {
            let ghost args_dv = args.deep_view();
            let mut pure_cmd: Vec<String> = Vec::new();
            let mut i: usize = 0;
            while i < args.len()
                invariant
                    i <= args@.len(),
                    args_dv == args.deep_view(),
                    pure_cmd@.len() == i,
                    forall|j: int|
                        0 <= j < i ==> valid_utf8(args_dv[j]) ==> (
                        #[trigger] pure_cmd.deep_view()[j]) == decode_utf8(args_dv[j]),
                decreases args@.len() - i,
            {
                let s = lossy_string(&args[i]);
                let ghost prev = pure_cmd.deep_view();
                pure_cmd.push(s);
                proof {
                    assert(args_dv[i as int] =~= args@[i as int]@);
                    assert(pure_cmd.deep_view() =~= prev.push(s@));
                }
                i = i + 1;
            }
            drain_front(buf, used);
            let reply = dispatch(store, &pure_cmd, now_ms);
            proof {
                if args_valid_utf8(args_dv) {
                    assert(pure_cmd.deep_view() =~= decoded_args(args_dv));
                }
            }
            SessionStep::Reply(reply)
        },
    }
}

} // verus!
