//! List command handlers: push at either end, slice, length, pop,
//! index, count-signed removal, and in-place overwrite.
use vstd::prelude::*;
use crate::encoder::{
    simple_string_bytes, error_bytes, integer_bytes, bulk_bytes, null_bulk_bytes,
    empty_array_bytes, array_bytes, encode_resp_simple_string, encode_resp_error_string,
    encode_resp_integer_value, encode_resp_bulk_string, encode_resp_arrays, empty_bulk_string,
    encode_resp_empty_array,
};
use crate::storage::{
    Storage, RecordModel, ValueModel, StorageError, live, eff_index, remove_fwd, remove_bwd,
};
use crate::decoder::{
    valid_u64_text, valid_i64_text, dec_value, signed_value, normalized_end,
};
use crate::text::cmd_matches;
use crate::commands::{wrong_type_bytes, wrong_type_reply, clone_args};
use vstd::string::StringExecFns;

verus! {

/// The transition of a push `[name, key, item, ...]`: items go to the
/// list's tail for the `rpush` name and one by one to its head otherwise;
/// an absent key gets a fresh list, and the reply is the new length.
pub open spec fn spec_push(
    m: Map<Seq<char>, RecordModel>,
    cmd: Seq<Seq<char>>,
    now: u64,
) -> (Map<Seq<char>, RecordModel>, Seq<u8>) {
    if cmd.len() < 3 {
        (m, error_bytes("Invalid args for "@ + cmd[0]))
    } else {
        let k = cmd[1];
        let items = cmd.skip(2);
        let rp = cmd_matches(cmd[0], "rpush"@);
        if !live(m, k, now) {
            (
                m.insert(
                    k,
                    RecordModel {
                        expire_at: None,
                        value: ValueModel::List(
                            if rp {
                                items
                            } else {
                                items.reverse()
                            },
                        ),
                    },
                ),
                integer_bytes(items.len()),
            )
        } else {
            match m[k].value {
                ValueModel::List(l) => (
                    m.insert(
                        k,
                        RecordModel {
                            expire_at: m[k].expire_at,
                            value: ValueModel::List(
                                if rp {
                                    l + items
                                } else {
                                    items.reverse() + l
                                },
                            ),
                        },
                    ),
                    integer_bytes(l.len() + items.len()),
                ),
                _ => (m, wrong_type_bytes()),
            }
        }
    }
}

/// The transition of a slice read `[name, key, start, stop]`: the elements
/// with indices in `[start, stop]` inclusive, the stop normalized from the
/// end when negative and clamped to the list; an absent key or an empty
/// range reads as the empty array.
pub open spec fn spec_lrange(
    m: Map<Seq<char>, RecordModel>,
    cmd: Seq<Seq<char>>,
    now: u64,
) -> (Map<Seq<char>, RecordModel>, Seq<u8>) {
    if cmd.len() < 4 {
        (m, error_bytes("Invalid args for lrange"@))
    } else {
        let k = cmd[1];
        if !live(m, k, now) {
            (m.remove(k), empty_array_bytes())
        } else {
            match m[k].value {
                ValueModel::List(l) => {
                    let sb = vstd::utf8::encode_utf8(cmd[2]);
                    let eb = vstd::utf8::encode_utf8(cmd[3]);
                    if valid_u64_text(sb) && dec_value(sb) <= usize::MAX && valid_i64_text(eb)
                        && 0 <= normalized_end(eb, l.len()) <= usize::MAX {
                        let b0 = dec_value(sb) as int;
                        let b1 = normalized_end(eb, l.len());
                        let hi = if b1 > l.len() {
                            l.len() as int
                        } else {
                            b1
                        };
                        if b0 > hi {
                            (m, empty_array_bytes())
                        } else {
                            (m, array_bytes(l.subrange(b0, hi)))
                        }
                    } else {
                        (m, error_bytes("Invalid range"@))
                    }
                },
                _ => (m, wrong_type_bytes()),
            }
        }
    }
}

/// The transition of a length read `[name, key]`: the list's length, zero
/// for an absent key.
pub open spec fn spec_llen(
    m: Map<Seq<char>, RecordModel>,
    cmd: Seq<Seq<char>>,
    now: u64,
) -> (Map<Seq<char>, RecordModel>, Seq<u8>) {
    if cmd.len() != 2 {
        (m, error_bytes("Invalid args for 'llen'"@))
    } else {
        let k = cmd[1];
        if !live(m, k, now) {
            (m.remove(k), integer_bytes(0))
        } else {
            match m[k].value {
                ValueModel::List(l) => (m, integer_bytes(l.len())),
                _ => (m, wrong_type_bytes()),
            }
        }
    }
}

/// The transition of a pop `[name, key]` or `[name, key, count]`: without
/// a count, one element from the tail as a bulk string (null on an empty
/// or absent list, the empty list staying in place); with a count, up to
/// that many tail elements as an array, in removal order.
pub open spec fn spec_lpop(
    m: Map<Seq<char>, RecordModel>,
    cmd: Seq<Seq<char>>,
    now: u64,
) -> (Map<Seq<char>, RecordModel>, Seq<u8>) {
    if cmd.len() < 2 {
        (m, error_bytes("Invalid args for lpop"@))
    } else {
        let k = cmd[1];
        if !live(m, k, now) {
            (m.remove(k), null_bulk_bytes())
        } else {
            match m[k].value {
                ValueModel::List(l) => {
                    if cmd.len() == 2 {
                        if l.len() == 0 {
                            (m, null_bulk_bytes())
                        } else {
                            (
                                m.insert(
                                    k,
                                    RecordModel {
                                        expire_at: m[k].expire_at,
                                        value: ValueModel::List(l.drop_last()),
                                    },
                                ),
                                bulk_bytes(l.last()),
                            )
                        }
                    } else {
                        let t = vstd::utf8::encode_utf8(cmd[2]);
                        if valid_u64_text(t) {
                            let n = if dec_value(t) > l.len() {
                                l.len()
                            } else {
                                dec_value(t)
                            };
                            (
                                m.insert(
                                    k,
                                    RecordModel {
                                        expire_at: m[k].expire_at,
                                        value: ValueModel::List(l.take(l.len() - n)),
                                    },
                                ),
                                array_bytes(l.skip(l.len() - n).reverse()),
                            )
                        } else {
                            (m, error_bytes("Invalid args for lpop"@))
                        }
                    }
                },
                _ => (m, wrong_type_bytes()),
            }
        }
    }
}

/// The transition of an index read `[name, key, index]`: the element at
/// the index, a negative index counting from the end; outside the list it
/// reads as the null bulk, never an error.
pub open spec fn spec_lindex(
    m: Map<Seq<char>, RecordModel>,
    cmd: Seq<Seq<char>>,
    now: u64,
) -> (Map<Seq<char>, RecordModel>, Seq<u8>) {
    if cmd.len() != 3 {
        (m, error_bytes("Invalid args for LINDEX"@))
    } else if !valid_i64_text(vstd::utf8::encode_utf8(cmd[2])) {
        (m, error_bytes("Invalid args for LINDEX"@))
    } else {
        let k = cmd[1];
        if !live(m, k, now) {
            (m.remove(k), null_bulk_bytes())
        } else {
            match m[k].value {
                ValueModel::List(l) => {
                    let e = eff_index(signed_value(vstd::utf8::encode_utf8(cmd[2])), l.len());
                    if 0 <= e < l.len() {
                        (m, bulk_bytes(l[e]))
                    } else {
                        (m, null_bulk_bytes())
                    }
                },
                _ => (m, wrong_type_bytes()),
            }
        }
    }
}

/// The transition of a removal `[name, key, count, element]`: occurrences
/// of the element leave the list, up to the count from the head when
/// positive, up to its magnitude from the tail when negative, all when
/// zero; the reply counts the removed.
pub open spec fn spec_lrem(
    m: Map<Seq<char>, RecordModel>,
    cmd: Seq<Seq<char>>,
    now: u64,
) -> (Map<Seq<char>, RecordModel>, Seq<u8>) {
    if cmd.len() != 4 {
        (m, error_bytes("Invalid arguments for 'lrem'"@))
    } else if !valid_i64_text(vstd::utf8::encode_utf8(cmd[2])) {
        (m, error_bytes("Invalid arguments for 'lrem'"@))
    } else {
        let k = cmd[1];
        if !live(m, k, now) {
            (m.remove(k), null_bulk_bytes())
        } else {
            match m[k].value {
                ValueModel::List(l) => {
                    let c = signed_value(vstd::utf8::encode_utf8(cmd[2]));
                    let kept = if c == 0 {
                        remove_fwd(l, cmd[3], l.len())
                    } else if c > 0 {
                        remove_fwd(l, cmd[3], c as nat)
                    } else {
                        remove_bwd(l, cmd[3], (-c) as nat)
                    };
                    (
                        m.insert(
                            k,
                            RecordModel {
                                expire_at: m[k].expire_at,
                                value: ValueModel::List(kept),
                            },
                        ),
                        integer_bytes((l.len() - kept.len()) as nat),
                    )
                },
                _ => (m, wrong_type_bytes()),
            }
        }
    }
}

/// The transition of an overwrite `[name, key, index, element]`: the
/// element at the index is replaced, a negative index counting from the
/// end; outside the list nothing changes and the reply is the out-of-range
/// error.
pub open spec fn spec_lset(
    m: Map<Seq<char>, RecordModel>,
    cmd: Seq<Seq<char>>,
    now: u64,
) -> (Map<Seq<char>, RecordModel>, Seq<u8>) {
    if cmd.len() < 4 {
        (m, error_bytes("Invalid arguments for 'lset'"@))
    } else if !valid_i64_text(vstd::utf8::encode_utf8(cmd[2])) {
        (m, error_bytes("Invalid arguments for 'lset'"@))
    } else {
        let k = cmd[1];
        if !live(m, k, now) {
            (m.remove(k), empty_array_bytes())
        } else {
            match m[k].value {
                ValueModel::List(l) => {
                    let e = eff_index(signed_value(vstd::utf8::encode_utf8(cmd[2])), l.len());
                    if 0 <= e < l.len() {
                        (
                            m.insert(
                                k,
                                RecordModel {
                                    expire_at: m[k].expire_at,
                                    value: ValueModel::List(l.update(e, cmd[3])),
                                },
                            ),
                            simple_string_bytes("OK"@),
                        )
                    } else {
                        (m, error_bytes("index out of range"@))
                    }
                },
                _ => (m, wrong_type_bytes()),
            }
        }
    }
}

/// Pushes items onto a list at either end and reports its new length.
pub fn push(store: &mut Storage, pure_cmd: &Vec<String>, now_ms: u64) -> (r: Vec<u8>)
    requires
        old(store).wf(),
        pure_cmd@.len() >= 1,
    ensures
        final(store).wf(),
        final(store)@ == spec_push(old(store)@, pure_cmd.deep_view(), now_ms).0,
        r@ == spec_push(old(store)@, pure_cmd.deep_view(), now_ms).1,
{
    if pure_cmd.len() < 3 {
        let mut msg = String::from_str("Invalid args for ");
        msg.append(pure_cmd[0].as_str());
        return encode_resp_error_string(msg.as_str());
    }
    let mut items: Vec<String> = Vec::new();
    let mut j: usize = 2;
    while j < pure_cmd.len()
        invariant
            2 <= j <= pure_cmd@.len(),
            items.deep_view() =~= pure_cmd.deep_view().subrange(2, j as int),
        decreases pure_cmd@.len() - j,
    {
        let ghost prev = items.deep_view();
        items.push(pure_cmd[j].clone());
        proof {
            assert(items.deep_view() =~= prev.push(pure_cmd.deep_view()[j as int]));
            assert(items.deep_view() =~= pure_cmd.deep_view().subrange(2, j + 1));
        }
        j = j + 1;
    }
    proof {
        assert(items.deep_view() =~= pure_cmd.deep_view().skip(2));
    }
    let rp = crate::text::eq_ignore_ascii_case(pure_cmd[0].as_str(), "rpush");
    let token = if rp {
        "rpush"
    } else {
        "lpush"
    };
    proof {
        reveal_strlit("rpush");
        reveal_strlit("lpush");
        assert("lpush"@ != "rpush"@);
    }
    match store.set_array(pure_cmd[1].clone(), items, token, now_ms) {
        Ok(len) => encode_resp_integer_value(len as u64),
        Err(_) => wrong_type_reply(),
    }
}

/// Reads a slice of a list as an array reply.
pub fn lrange(store: &mut Storage, pure_cmd: &Vec<String>, now_ms: u64) -> (r: Vec<u8>)
    requires
        old(store).wf(),
    ensures
        final(store).wf(),
        final(store)@ == spec_lrange(old(store)@, pure_cmd.deep_view(), now_ms).0,
        r@ == spec_lrange(old(store)@, pure_cmd.deep_view(), now_ms).1,
{
    if pure_cmd.len() < 4 {
        return encode_resp_error_string("Invalid args for lrange");
    }
    let len = match store.get_array_len(pure_cmd[1].as_str(), now_ms) {
        Ok(v) => v,
        Err(StorageError::BadType) => {
            return wrong_type_reply();
        },
        Err(_) => {
            return encode_resp_empty_array();
        },
    };
    let bound = match crate::decoder::decode_array_indices(
        pure_cmd[2].as_str(),
        pure_cmd[3].as_str(),
        len,
    ) {
        Ok(b) => b,
        Err(_) => {
            return encode_resp_error_string("Invalid range");
        },
    };
    let b0 = bound[0];
    let b1 = bound[1];
    let hi = if b1 > len {
        len
    } else {
        b1
    };
    if b0 > hi {
        return encode_resp_empty_array();
    }
    let mut clamped: Vec<usize> = Vec::new();
    clamped.push(b0);
    clamped.push(hi);
    match store.get_array(pure_cmd[1].as_str(), clamped, now_ms) {
        Ok(arr) => encode_resp_arrays(arr),
        Err(_) => {
            proof {
                assert(false);
            }
            encode_resp_empty_array()
        },
    }
}

/// Reports a list's length, zero for an absent key.
pub fn llen(store: &mut Storage, pure_cmd: &Vec<String>, now_ms: u64) -> (r: Vec<u8>)
    requires
        old(store).wf(),
    ensures
        final(store).wf(),
        final(store)@ == spec_llen(old(store)@, pure_cmd.deep_view(), now_ms).0,
        r@ == spec_llen(old(store)@, pure_cmd.deep_view(), now_ms).1,
{
    if pure_cmd.len() != 2 {
        return encode_resp_error_string("Invalid args for 'llen'");
    }
    match store.get_array_len(pure_cmd[1].as_str(), now_ms) {
        Ok(len) => encode_resp_integer_value(len as u64),
        Err(StorageError::BadType) => wrong_type_reply(),
        Err(_) => encode_resp_integer_value(0),
    }
}

/// Pops one element, or a counted batch, from a list's tail.
pub fn lpop(store: &mut Storage, pure_cmd: &Vec<String>, now_ms: u64) -> (r: Vec<u8>)
    requires
        old(store).wf(),
    ensures
        final(store).wf(),
        final(store)@ == spec_lpop(old(store)@, pure_cmd.deep_view(), now_ms).0,
        r@ == spec_lpop(old(store)@, pure_cmd.deep_view(), now_ms).1,
{
    if pure_cmd.len() < 2 {
        return encode_resp_error_string("Invalid args for lpop");
    }
    let owned = clone_args(pure_cmd);
    match store.pop_array(owned, now_ms) {
        Ok(crate::storage::PopReply::Single(s)) => encode_resp_bulk_string(s),
        Ok(crate::storage::PopReply::Many(v)) => encode_resp_arrays(v),
        Err(StorageError::BadType) => wrong_type_reply(),
        Err(StorageError::BadCommand) => encode_resp_error_string("Invalid args for lpop"),
        Err(_) => empty_bulk_string(),
    }
}

/// Reads the list element at an index, null when outside the list.
pub fn lindex(store: &mut Storage, pure_cmd: &Vec<String>, now_ms: u64) -> (r: Vec<u8>)
    requires
        old(store).wf(),
    ensures
        final(store).wf(),
        final(store)@ == spec_lindex(old(store)@, pure_cmd.deep_view(), now_ms).0,
        r@ == spec_lindex(old(store)@, pure_cmd.deep_view(), now_ms).1,
{
    if pure_cmd.len() != 3 {
        return encode_resp_error_string("Invalid args for LINDEX");
    }
    let index = match crate::decoder::parse_i64(pure_cmd[2].as_str()) {
        Ok(v) => v,
        Err(_) => {
            return encode_resp_error_string("Invalid args for LINDEX");
        },
    };
    match store.array_get(pure_cmd[1].as_str(), index, now_ms) {
        Ok(s) => encode_resp_bulk_string(s),
        Err(StorageError::BadType) => wrong_type_reply(),
        Err(_) => empty_bulk_string(),
    }
}

/// Removes occurrences of an element from a list and reports the count.
pub fn lrem(store: &mut Storage, pure_cmd: &Vec<String>, now_ms: u64) -> (r: Vec<u8>)
    requires
        old(store).wf(),
    ensures
        final(store).wf(),
        final(store)@ == spec_lrem(old(store)@, pure_cmd.deep_view(), now_ms).0,
        r@ == spec_lrem(old(store)@, pure_cmd.deep_view(), now_ms).1,
{
    if pure_cmd.len() != 4 {
        return encode_resp_error_string("Invalid arguments for 'lrem'");
    }
    let count = match crate::decoder::parse_i64(pure_cmd[2].as_str()) {
        Ok(v) => v,
        Err(_) => {
            return encode_resp_error_string("Invalid arguments for 'lrem'");
        },
    };
    match store.remove_array(pure_cmd[1].as_str(), count, pure_cmd[3].clone(), now_ms) {
        Ok(n) => encode_resp_integer_value(n as u64),
        Err(StorageError::BadType) => wrong_type_reply(),
        Err(_) => empty_bulk_string(),
    }
}

/// Overwrites the list element at an index, erring when outside the list.
pub fn lset(store: &mut Storage, pure_cmd: &Vec<String>, now_ms: u64) -> (r: Vec<u8>)
    requires
        old(store).wf(),
    ensures
        final(store).wf(),
        final(store)@ == spec_lset(old(store)@, pure_cmd.deep_view(), now_ms).0,
        r@ == spec_lset(old(store)@, pure_cmd.deep_view(), now_ms).1,
{
    if pure_cmd.len() < 4 {
        return encode_resp_error_string("Invalid arguments for 'lset'");
    }
    let index = match crate::decoder::parse_i64(pure_cmd[2].as_str()) {
        Ok(v) => v,
        Err(_) => {
            return encode_resp_error_string("Invalid arguments for 'lset'");
        },
    };
    match store.array_set(pure_cmd[1].as_str(), index, pure_cmd[3].clone(), now_ms) {
        Ok(()) => encode_resp_simple_string("OK"),
        Err(StorageError::BadType) => wrong_type_reply(),
        Err(StorageError::OutOfRange) => encode_resp_error_string("index out of range"),
        Err(_) => encode_resp_empty_array(),
    }
}

} // verus!
