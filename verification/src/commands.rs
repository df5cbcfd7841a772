//! Command handlers: each takes the store, the parsed argument vector
//! (command name first) and the clock, applies one keyspace operation, and
//! returns the wire-encoded reply.
//!
//! Each command's meaning is stated once as a spec-level transition from
//! store map and arguments to new map and reply bytes; the handlers are
//! proved to implement exactly those transitions, and the dispatcher to
//! route to them by ASCII-case-insensitive command name.
use vstd::prelude::*;
use vstd::string::StringSliceAdditionalSpecFns;
use crate::encoder::{
    simple_string_bytes, error_bytes, integer_bytes, bulk_bytes, null_bulk_bytes,
    encode_resp_simple_string, encode_resp_error_string, encode_resp_integer_value,
    encode_resp_bulk_string, empty_bulk_string,
};
use crate::storage::{
    Storage, RecordModel, ValueModel, StorageError, live, sat_add, spec_delete,
};
use crate::decoder::{valid_u64_text, dec_value};
use crate::text::cmd_matches;

pub mod array;
pub mod hash;
pub mod queue;

verus! {

/// The error reply for an operation against a key holding another value
/// shape.
pub open spec fn wrong_type_bytes() -> Seq<u8> {
    error_bytes("WRONGTYPE Operation against a key holding the wrong kind of value"@)
}

/// Encodes the wrong-type error reply.
pub fn wrong_type_reply() -> (r: Vec<u8>)
    ensures
        r@ == wrong_type_bytes(),
{
    encode_resp_error_string("WRONGTYPE Operation against a key holding the wrong kind of value")
}

/// Clones an argument vector so a keyspace operation can own it.
pub fn clone_args(v: &Vec<String>) -> (r: Vec<String>)
    ensures
        r@.len() == v@.len(),
        r.deep_view() == v.deep_view(),
{
    let mut out: Vec<String> = Vec::new();
    let mut j: usize = 0;
    while j < v.len()
        invariant
            j <= v@.len(),
            out@.len() == j,
            out.deep_view() =~= v.deep_view().take(j as int),
        decreases v@.len() - j,
    {
        let ghost prev = out.deep_view();
        out.push(v[j].clone());
        proof {
            assert(out.deep_view() =~= prev.push(v.deep_view()[j as int]));
            assert(out.deep_view() =~= v.deep_view().take(j + 1));
        }
        j = j + 1;
    }
    proof {
        assert(out.deep_view() =~= v.deep_view());
    }
    out
}

/// The reply to a liveness check.
pub open spec fn spec_ping() -> Seq<u8> {
    simple_string_bytes("PONG"@)
}

/// The reply to an echo request: the argument back as a bulk string, or a
/// bad-args error.
pub open spec fn spec_echo(cmd: Seq<Seq<char>>) -> Seq<u8> {
    if cmd.len() < 2 {
        error_bytes("Invalid args for ECHO"@)
    } else {
        bulk_bytes(cmd[1])
    }
}

/// The transition of a store write `[name, key, value]` or
/// `[name, key, value, px-token, millis]`: the key is bound to the text,
/// with a deadline when the expiry modifier is given; anything else about
/// the argument vector is a bad-args error.
pub open spec fn spec_set(
    m: Map<Seq<char>, RecordModel>,
    cmd: Seq<Seq<char>>,
    now: u64,
) -> (Map<Seq<char>, RecordModel>, Seq<u8>) {
    if cmd.len() < 3 {
        (m, error_bytes("Invalid args for SET"@))
    } else if cmd.len() == 3 {
        (
            m.insert(cmd[1], RecordModel { expire_at: None, value: ValueModel::Str(cmd[2]) }),
            simple_string_bytes("OK"@),
        )
    } else if cmd.len() == 5 {
        if cmd_matches(cmd[3], "px"@) && valid_u64_text(vstd::utf8::encode_utf8(cmd[4])) {
            (
                m.insert(
                    cmd[1],
                    RecordModel {
                        expire_at: Some(
                            sat_add(now, dec_value(vstd::utf8::encode_utf8(cmd[4])) as u64),
                        ),
                        value: ValueModel::Str(cmd[2]),
                    },
                ),
                simple_string_bytes("OK"@),
            )
        } else {
            (m, error_bytes("Invalid args for SET"@))
        }
    } else {
        (m, error_bytes("Invalid args for SET"@))
    }
}

/// The transition of a store read `[name, key]`: the value as a bulk
/// string; an absent or expired key reads as the null bulk; another value
/// shape is a wrong-type error.
pub open spec fn spec_get(
    m: Map<Seq<char>, RecordModel>,
    cmd: Seq<Seq<char>>,
    now: u64,
) -> (Map<Seq<char>, RecordModel>, Seq<u8>) {
    if cmd.len() < 2 {
        (m, error_bytes("Invalid args for GET"@))
    } else {
        let k = cmd[1];
        if !live(m, k, now) {
            (m.remove(k), null_bulk_bytes())
        } else {
            match m[k].value {
                ValueModel::Str(s) => (m, bulk_bytes(s)),
                _ => (m, wrong_type_bytes()),
            }
        }
    }
}

/// The transition of a deletion `[name, key, ...]`: every named key is
/// removed and the reply counts those that were live.
pub open spec fn spec_del(
    m: Map<Seq<char>, RecordModel>,
    cmd: Seq<Seq<char>>,
    now: u64,
) -> (Map<Seq<char>, RecordModel>, Seq<u8>) {
    if cmd.len() < 2 {
        (m, error_bytes("Invalid args for DEL"@))
    } else {
        let d = spec_delete(m, cmd.skip(1), now);
        (d.0, integer_bytes(d.1))
    }
}

/// The reply to an unrecognised command.
pub open spec fn spec_undefined() -> Seq<u8> {
    error_bytes("Command not recognised"@)
}

/// Replies to a liveness check.
pub fn ping() -> (r: Vec<u8>)
    ensures
        r@ == spec_ping(),
{
    encode_resp_simple_string("PONG")
}

/// Replies with the request's own argument.
pub fn echo(pure_cmd: &Vec<String>) -> (r: Vec<u8>)
    ensures
        r@ == spec_echo(pure_cmd.deep_view()),
{
    if pure_cmd.len() < 2 {
        encode_resp_error_string("Invalid args for ECHO")
    } else {
        encode_resp_bulk_string(pure_cmd[1].clone())
    }
}

/// Binds a key to a text value, with a millisecond expiry when the
/// modifier is given.
pub fn set(store: &mut Storage, pure_cmd: &Vec<String>, now_ms: u64) -> (r: Vec<u8>)
    requires
        old(store).wf(),
    ensures
        final(store).wf(),
        final(store)@ == spec_set(old(store)@, pure_cmd.deep_view(), now_ms).0,
        r@ == spec_set(old(store)@, pure_cmd.deep_view(), now_ms).1,
{
    if pure_cmd.len() < 3 {
        encode_resp_error_string("Invalid args for SET")
    } else if pure_cmd.len() == 3 {
        store.set_string(pure_cmd[1].clone(), pure_cmd[2].clone());
        encode_resp_simple_string("OK")
    } else if pure_cmd.len() == 5 {
        if crate::text::eq_ignore_ascii_case(pure_cmd[3].as_str(), "px") {
            match crate::decoder::parse_u64(pure_cmd[4].as_str()) {
                Ok(millis) => {
                    store.set_string_px(
                        pure_cmd[1].clone(),
                        pure_cmd[2].clone(),
                        millis,
                        now_ms,
                    );
                    encode_resp_simple_string("OK")
                },
                Err(_) => encode_resp_error_string("Invalid args for SET"),
            }
        } else {
            encode_resp_error_string("Invalid args for SET")
        }
    } else {
        encode_resp_error_string("Invalid args for SET")
    }
}

/// Reads a key's text value as a bulk string.
pub fn get(store: &mut Storage, pure_cmd: &Vec<String>, now_ms: u64) -> (r: Vec<u8>)
    requires
        old(store).wf(),
    ensures
        final(store).wf(),
        final(store)@ == spec_get(old(store)@, pure_cmd.deep_view(), now_ms).0,
        r@ == spec_get(old(store)@, pure_cmd.deep_view(), now_ms).1,
{
    if pure_cmd.len() < 2 {
        return encode_resp_error_string("Invalid args for GET");
    }
    match store.get_string(pure_cmd[1].as_str(), now_ms) {
        Ok(encoded) => encoded,
        Err(StorageError::BadType) => wrong_type_reply(),
        Err(_) => empty_bulk_string(),
    }
}

/// Removes keys and reports how many were live.
pub fn del(store: &mut Storage, pure_cmd: &Vec<String>, now_ms: u64) -> (r: Vec<u8>)
    requires
        old(store).wf(),
    ensures
        final(store).wf(),
        final(store)@ == spec_del(old(store)@, pure_cmd.deep_view(), now_ms).0,
        r@ == spec_del(old(store)@, pure_cmd.deep_view(), now_ms).1,
{
    if pure_cmd.len() < 2 {
        return encode_resp_error_string("Invalid args for DEL");
    }
    let mut keys: Vec<String> = Vec::new();
    let mut j: usize = 1;
    while j < pure_cmd.len()
        invariant
            1 <= j <= pure_cmd@.len(),
            keys.deep_view() =~= pure_cmd.deep_view().subrange(1, j as int),
        decreases pure_cmd@.len() - j,
    {
        let ghost prev = keys.deep_view();
        keys.push(pure_cmd[j].clone());
        proof {
            assert(keys.deep_view() =~= prev.push(pure_cmd.deep_view()[j as int]));
            assert(keys.deep_view() =~= pure_cmd.deep_view().subrange(1, j + 1));
        }
        j = j + 1;
    }
    proof {
        assert(keys.deep_view() =~= pure_cmd.deep_view().skip(1));
    }
    let n = store.delete(keys, now_ms);
    let count = n as u64;
    encode_resp_integer_value(count)
}

/// Replies to an unrecognised command.
pub fn undefined() -> (r: Vec<u8>)
    ensures
        r@ == spec_undefined(),
{
    encode_resp_error_string("Command not recognised")
}

/// The transition of one whole command: the argument vector is routed by
/// its first entry, compared ASCII-case-insensitively against the command
/// table, and the selected command's transition is applied; an empty
/// vector or an unknown name leaves the store alone and replies with the
/// unknown-command error.
pub open spec fn spec_dispatch(
    m: Map<Seq<char>, RecordModel>,
    cmd: Seq<Seq<char>>,
    now: u64,
) -> (Map<Seq<char>, RecordModel>, Seq<u8>) {
    if cmd.len() == 0 {
        (m, spec_undefined())
    } else {
        let name = cmd[0];
        if cmd_matches(name, "ping"@) {
            (m, spec_ping())
        } else if cmd_matches(name, "echo"@) {
            (m, spec_echo(cmd))
        } else if cmd_matches(name, "set"@) {
            spec_set(m, cmd, now)
        } else if cmd_matches(name, "get"@) {
            spec_get(m, cmd, now)
        } else if cmd_matches(name, "del"@) {
            spec_del(m, cmd, now)
        } else if cmd_matches(name, "lpush"@) || cmd_matches(name, "rpush"@) {
            crate::commands::array::spec_push(m, cmd, now)
        } else if cmd_matches(name, "lrange"@) {
            crate::commands::array::spec_lrange(m, cmd, now)
        } else if cmd_matches(name, "llen"@) {
            crate::commands::array::spec_llen(m, cmd, now)
        } else if cmd_matches(name, "lpop"@) {
            crate::commands::array::spec_lpop(m, cmd, now)
        } else if cmd_matches(name, "lindex"@) {
            crate::commands::array::spec_lindex(m, cmd, now)
        } else if cmd_matches(name, "lrem"@) {
            crate::commands::array::spec_lrem(m, cmd, now)
        } else if cmd_matches(name, "lset"@) {
            crate::commands::array::spec_lset(m, cmd, now)
        } else if cmd_matches(name, "hset"@) {
            crate::commands::hash::spec_hset(m, cmd, now)
        } else if cmd_matches(name, "qadd"@) {
            crate::commands::queue::spec_qadd(m, cmd, now)
        } else if cmd_matches(name, "qpop"@) {
            crate::commands::queue::spec_qpop(m, cmd, now)
        } else if cmd_matches(name, "qlen"@) {
            crate::commands::queue::spec_qlen(m, cmd, now)
        } else {
            (m, spec_undefined())
        }
    }
}

/// Routes one parsed command to its handler and returns the reply.
pub fn dispatch(store: &mut Storage, pure_cmd: &Vec<String>, now_ms: u64) -> (r: Vec<u8>)
    requires
        old(store).wf(),
    ensures
        final(store).wf(),
        final(store)@ == spec_dispatch(old(store)@, pure_cmd.deep_view(), now_ms).0,
        r@ == spec_dispatch(old(store)@, pure_cmd.deep_view(), now_ms).1,
{
    if pure_cmd.len() == 0 {
        return undefined();
    }
    let name = pure_cmd[0].as_str();
    if crate::text::eq_ignore_ascii_case(name, "ping") {
        ping()
    } else if crate::text::eq_ignore_ascii_case(name, "echo") {
        echo(pure_cmd)
    } else if crate::text::eq_ignore_ascii_case(name, "set") {
        set(store, pure_cmd, now_ms)
    } else if crate::text::eq_ignore_ascii_case(name, "get") {
        get(store, pure_cmd, now_ms)
    } else if crate::text::eq_ignore_ascii_case(name, "del") {
        del(store, pure_cmd, now_ms)
    } else if crate::text::eq_ignore_ascii_case(name, "lpush")
        || crate::text::eq_ignore_ascii_case(name, "rpush") {
        crate::commands::array::push(store, pure_cmd, now_ms)
    } else if crate::text::eq_ignore_ascii_case(name, "lrange") {
        crate::commands::array::lrange(store, pure_cmd, now_ms)
    } else if crate::text::eq_ignore_ascii_case(name, "llen") {
        crate::commands::array::llen(store, pure_cmd, now_ms)
    } else if crate::text::eq_ignore_ascii_case(name, "lpop") {
        crate::commands::array::lpop(store, pure_cmd, now_ms)
    } else if crate::text::eq_ignore_ascii_case(name, "lindex") {
        crate::commands::array::lindex(store, pure_cmd, now_ms)
    } else if crate::text::eq_ignore_ascii_case(name, "lrem") {
        crate::commands::array::lrem(store, pure_cmd, now_ms)
    } else if crate::text::eq_ignore_ascii_case(name, "lset") {
        crate::commands::array::lset(store, pure_cmd, now_ms)
    } else if crate::text::eq_ignore_ascii_case(name, "hset") {
        crate::commands::hash::hash_set(store, pure_cmd, now_ms)
    } else if crate::text::eq_ignore_ascii_case(name, "qadd") {
        crate::commands::queue::queue_add(store, pure_cmd, now_ms)
    } else if crate::text::eq_ignore_ascii_case(name, "qpop") {
        crate::commands::queue::dequeue(store, pure_cmd, now_ms)
    } else if crate::text::eq_ignore_ascii_case(name, "qlen") {
        crate::commands::queue::qlen(store, pure_cmd, now_ms)
    } else {
        undefined()
    }
}

} // verus!
