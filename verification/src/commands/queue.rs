//! Queue command handlers: append at the tail, dequeue from the head, and
//! length.
use vstd::prelude::*;
use crate::encoder::{
    simple_string_bytes, error_bytes, integer_bytes, bulk_bytes, null_bulk_bytes,
    encode_resp_simple_string, encode_resp_error_string, encode_resp_integer_value,
    encode_resp_bulk_string, empty_bulk_string,
};
use crate::storage::{Storage, RecordModel, ValueModel, StorageError, live};
use crate::commands::{wrong_type_bytes, wrong_type_reply, clone_args};

verus! {

/// The transition of an append `[name, key, item, ...]`: the items join
/// the queue's tail in order; an absent key gets a fresh queue.
pub open spec fn spec_qadd(
    m: Map<Seq<char>, RecordModel>,
    cmd: Seq<Seq<char>>,
    now: u64,
) -> (Map<Seq<char>, RecordModel>, Seq<u8>) {
    if cmd.len() < 3 {
        (m, error_bytes("wrong number of arguments for 'qadd' command"@))
    } else {
        let k = cmd[1];
        let items = cmd.skip(2);
        if !live(m, k, now) {
            (
                m.insert(k, RecordModel { expire_at: None, value: ValueModel::Queue(items) }),
                simple_string_bytes("OK"@),
            )
        } else {
            match m[k].value {
                ValueModel::Queue(q) => (
                    m.insert(
                        k,
                        RecordModel {
                            expire_at: m[k].expire_at,
                            value: ValueModel::Queue(q + items),
                        },
                    ),
                    simple_string_bytes("OK"@),
                ),
                _ => (m, wrong_type_bytes()),
            }
        }
    }
}

/// The transition of a dequeue `[name, key]`: the head leaves the queue
/// and comes back as a bulk string; an absent key or an empty queue reads
/// as the null bulk, and the empty queue's record is removed.
pub open spec fn spec_qpop(
    m: Map<Seq<char>, RecordModel>,
    cmd: Seq<Seq<char>>,
    now: u64,
) -> (Map<Seq<char>, RecordModel>, Seq<u8>) {
    if cmd.len() < 2 {
        (m, error_bytes("wrong number of arguments for 'qpop' command"@))
    } else {
        let k = cmd[1];
        if !live(m, k, now) {
            (m.remove(k), null_bulk_bytes())
        } else {
            match m[k].value {
                ValueModel::Queue(q) => {
                    if q.len() == 0 {
                        (m.remove(k), null_bulk_bytes())
                    } else {
                        (
                            m.insert(
                                k,
                                RecordModel {
                                    expire_at: m[k].expire_at,
                                    value: ValueModel::Queue(q.drop_first()),
                                },
                            ),
                            bulk_bytes(q[0]),
                        )
                    }
                },
                _ => (m, wrong_type_bytes()),
            }
        }
    }
}

/// The transition of a length read `[name, key]`: the queue's length, zero
/// for an absent key.
pub open spec fn spec_qlen(
    m: Map<Seq<char>, RecordModel>,
    cmd: Seq<Seq<char>>,
    now: u64,
) -> (Map<Seq<char>, RecordModel>, Seq<u8>) {
    if cmd.len() < 2 {
        (m, error_bytes("wrong number of arguments for 'qlen' command"@))
    } else {
        let k = cmd[1];
        if !live(m, k, now) {
            (m.remove(k), integer_bytes(0))
        } else {
            match m[k].value {
                ValueModel::Queue(q) => (m, integer_bytes(q.len())),
                _ => (m, wrong_type_bytes()),
            }
        }
    }
}

/// Appends items to a queue, creating it if absent.
pub fn queue_add(store: &mut Storage, pure_cmd: &Vec<String>, now_ms: u64) -> (r: Vec<u8>)
    requires
        old(store).wf(),
    ensures
        final(store).wf(),
        final(store)@ == spec_qadd(old(store)@, pure_cmd.deep_view(), now_ms).0,
        r@ == spec_qadd(old(store)@, pure_cmd.deep_view(), now_ms).1,
{
    let owned = clone_args(pure_cmd);
    match store.queue_add(owned, now_ms) {
        Ok(()) => encode_resp_simple_string("OK"),
        Err(StorageError::BadCommand) => encode_resp_error_string(
            "wrong number of arguments for 'qadd' command",
        ),
        Err(_) => wrong_type_reply(),
    }
}

/// Removes and returns the head of a queue.
pub fn dequeue(store: &mut Storage, pure_cmd: &Vec<String>, now_ms: u64) -> (r: Vec<u8>)
    requires
        old(store).wf(),
    ensures
        final(store).wf(),
        final(store)@ == spec_qpop(old(store)@, pure_cmd.deep_view(), now_ms).0,
        r@ == spec_qpop(old(store)@, pure_cmd.deep_view(), now_ms).1,
{
    let owned = clone_args(pure_cmd);
    match store.dequeue(owned, now_ms) {
        Ok(s) => encode_resp_bulk_string(s),
        Err(StorageError::BadCommand) => encode_resp_error_string(
            "wrong number of arguments for 'qpop' command",
        ),
        Err(StorageError::BadType) => wrong_type_reply(),
        Err(_) => empty_bulk_string(),
    }
}

/// Reports a queue's length, zero for an absent key.
pub fn qlen(store: &mut Storage, pure_cmd: &Vec<String>, now_ms: u64) -> (r: Vec<u8>)
    requires
        old(store).wf(),
    ensures
        final(store).wf(),
        final(store)@ == spec_qlen(old(store)@, pure_cmd.deep_view(), now_ms).0,
        r@ == spec_qlen(old(store)@, pure_cmd.deep_view(), now_ms).1,
{
    let owned = clone_args(pure_cmd);
    match store.qlen(owned, now_ms) {
        Ok(n) => encode_resp_integer_value(n as u64),
        Err(StorageError::BadCommand) => encode_resp_error_string(
            "wrong number of arguments for 'qlen' command",
        ),
        Err(StorageError::BadType) => wrong_type_reply(),
        Err(_) => encode_resp_integer_value(0),
    }
}

} // verus!
