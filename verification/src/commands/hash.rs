//! Hash command handler: writing field/value pairs.
use vstd::prelude::*;
use crate::encoder::{
    error_bytes, integer_bytes, encode_resp_error_string, encode_resp_integer_value,
};
use crate::storage::{
    Storage, RecordModel, ValueModel, StorageError, live, cmd_pairs, insert_pairs,
};
use crate::commands::{wrong_type_bytes, wrong_type_reply, clone_args};

verus! {

/// The transition of a pair write `[name, key, f1, v1, ...]`: the pairs go
/// into the hash at the key in order, overwriting existing fields; an
/// absent key gets a fresh hash; the reply counts the pairs written. An
/// odd argument count is a bad-args error.
pub open spec fn spec_hset(
    m: Map<Seq<char>, RecordModel>,
    cmd: Seq<Seq<char>>,
    now: u64,
) -> (Map<Seq<char>, RecordModel>, Seq<u8>) {
    if cmd.len() < 2 || cmd.len() % 2 != 0 {
        (m, error_bytes("wrong number of arguments for 'hset' command"@))
    } else {
        let k = cmd[1];
        let ps = cmd_pairs(cmd);
        if !live(m, k, now) {
            (
                m.insert(
                    k,
                    RecordModel {
                        expire_at: None,
                        value: ValueModel::Hash(
                            insert_pairs(Map::<Seq<char>, Seq<char>>::empty(), ps),
                        ),
                    },
                ),
                integer_bytes(ps.len()),
            )
        } else {
            match m[k].value {
                ValueModel::Hash(h) => (
                    m.insert(
                        k,
                        RecordModel {
                            expire_at: m[k].expire_at,
                            value: ValueModel::Hash(insert_pairs(h, ps)),
                        },
                    ),
                    integer_bytes(ps.len()),
                ),
                _ => (m, wrong_type_bytes()),
            }
        }
    }
}

/// Writes field/value pairs into a hash and reports how many were written.
pub fn hash_set(store: &mut Storage, pure_cmd: &Vec<String>, now_ms: u64) -> (r: Vec<u8>)
    requires
        old(store).wf(),
    ensures
        final(store).wf(),
        final(store)@ == spec_hset(old(store)@, pure_cmd.deep_view(), now_ms).0,
        r@ == spec_hset(old(store)@, pure_cmd.deep_view(), now_ms).1,
{
    if pure_cmd.len() < 2 || pure_cmd.len() % 2 != 0 {
        return encode_resp_error_string("wrong number of arguments for 'hset' command");
    }
    let owned = clone_args(pure_cmd);
    match store.hash_set(owned, now_ms) {
        Ok(n) => encode_resp_integer_value(n as u64),
        Err(StorageError::BadType) => wrong_type_reply(),
        Err(_) => {
            proof {
                assert(false);
            }
            encode_resp_error_string("wrong number of arguments for 'hset' command")
        },
    }
}

} // verus!
