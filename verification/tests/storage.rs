use respkv::storage::{PopReply, Storage, StorageError};

fn s(x: &str) -> String {
    String::from(x)
}

#[test]
fn set_then_get_returns_the_value() {
    let mut st = Storage::new();
    st.set_string(s("foo"), s("bar"));
    assert_eq!(st.get_string("foo", 0), Ok(b"$3\r\nbar\r\n".to_vec()));
}

#[test]
fn get_of_absent_key_is_not_found() {
    let mut st = Storage::new();
    assert_eq!(st.get_string("nope", 0), Err(StorageError::NotFound));
}

#[test]
fn set_replaces_variant_and_expiry() {
    let mut st = Storage::new();
    st.set_string_px(s("k"), s("old"), 10, 0);
    st.set_string(s("k"), s("new"));
    // the rebind cleared the deadline: the value survives any clock
    assert_eq!(st.get_string("k", 1_000_000), Ok(b"$3\r\nnew\r\n".to_vec()));
}

#[test]
fn px_deadline_is_exclusive() {
    let mut st = Storage::new();
    st.set_string_px(s("k"), s("v"), 50, 0);
    // at exactly the deadline the record is still live
    assert_eq!(st.get_string("k", 50), Ok(b"$1\r\nv\r\n".to_vec()));
    // strictly after it the record reads as absent and is removed
    assert_eq!(st.get_string("k", 51), Err(StorageError::NotFound));
    assert_eq!(st.get_string("k", 0), Err(StorageError::NotFound));
}

#[test]
fn ex_deadline_counts_seconds() {
    let mut st = Storage::new();
    st.set_string_ex(s("k"), s("v"), 2, 0);
    assert_eq!(st.get_string("k", 2000), Ok(b"$1\r\nv\r\n".to_vec()));
    assert_eq!(st.get_string("k", 2001), Err(StorageError::NotFound));
}

#[test]
fn delete_counts_only_live_records() {
    let mut st = Storage::new();
    st.set_string(s("a"), s("1"));
    st.set_string_px(s("b"), s("2"), 10, 0);
    assert_eq!(st.delete(vec![s("a"), s("b"), s("c"), s("a")], 100), 1);
    assert_eq!(st.get_string("a", 100), Err(StorageError::NotFound));
}

#[test]
fn rpush_appends_and_lpush_prepends() {
    let mut st = Storage::new();
    assert_eq!(st.set_array(s("L"), vec![s("a"), s("b"), s("c")], "rpush", 0), Ok(3));
    assert_eq!(st.set_array(s("L"), vec![s("z")], "lpush", 0), Ok(4));
    assert_eq!(
        st.get_array("L", vec![0, 4], 0),
        Ok(vec![s("z"), s("a"), s("b"), s("c")])
    );
}

#[test]
fn lpush_on_a_fresh_key_inserts_one_by_one_at_the_head() {
    let mut st = Storage::new();
    assert_eq!(st.set_array(s("L"), vec![s("a"), s("b"), s("c")], "lpush", 0), Ok(3));
    assert_eq!(st.get_array("L", vec![0, 3], 0), Ok(vec![s("c"), s("b"), s("a")]));
}

#[test]
fn get_array_rejects_bad_bounds() {
    let mut st = Storage::new();
    st.set_array(s("L"), vec![s("a"), s("b")], "rpush", 0).unwrap();
    assert_eq!(st.get_array("L", vec![2, 1], 0), Err(StorageError::BadCommand));
    assert_eq!(st.get_array("L", vec![0, 3], 0), Err(StorageError::BadCommand));
    assert_eq!(st.get_array("L", vec![1, 1], 0), Ok(vec![]));
}

#[test]
fn array_len_reports_and_absent_is_not_found() {
    let mut st = Storage::new();
    assert_eq!(st.get_array_len("L", 0), Err(StorageError::NotFound));
    st.set_array(s("L"), vec![s("a")], "rpush", 0).unwrap();
    assert_eq!(st.get_array_len("L", 0), Ok(1));
}

#[test]
fn pop_takes_from_the_tail() {
    let mut st = Storage::new();
    st.set_array(s("L"), vec![s("a"), s("b"), s("c")], "rpush", 0).unwrap();
    match st.pop_array(vec![s("lpop"), s("L")], 0) {
        Ok(PopReply::Single(v)) => assert_eq!(v, s("c")),
        _ => panic!("expected a single element"),
    }
    match st.pop_array(vec![s("lpop"), s("L"), s("5")], 0) {
        Ok(PopReply::Many(v)) => assert_eq!(v, vec![s("b"), s("a")]),
        _ => panic!("expected a batch"),
    }
}

#[test]
fn pop_with_zero_count_is_an_empty_batch() {
    let mut st = Storage::new();
    st.set_array(s("L"), vec![s("a")], "rpush", 0).unwrap();
    match st.pop_array(vec![s("lpop"), s("L"), s("0")], 0) {
        Ok(PopReply::Many(v)) => assert!(v.is_empty()),
        _ => panic!("expected an empty batch"),
    }
}

#[test]
fn pop_of_empty_list_leaves_the_record() {
    let mut st = Storage::new();
    st.set_array(s("L"), vec![s("a")], "rpush", 0).unwrap();
    match st.pop_array(vec![s("lpop"), s("L")], 0) {
        Ok(PopReply::Single(_)) => {},
        _ => panic!("expected a single element"),
    }
    assert!(matches!(
        st.pop_array(vec![s("lpop"), s("L")], 0),
        Err(StorageError::NotFound)
    ));
    // the emptied list is still a list record, not an absent key
    assert_eq!(st.get_array_len("L", 0), Ok(0));
}

#[test]
fn remove_array_respects_the_count_sign() {
    let mut st = Storage::new();
    let items = vec![s("1"), s("2"), s("2"), s("3"), s("2")];
    st.set_array(s("k"), items.clone(), "rpush", 0).unwrap();
    assert_eq!(st.remove_array("k", -1, s("2"), 0), Ok(1));
    assert_eq!(
        st.get_array("k", vec![0, 4], 0),
        Ok(vec![s("1"), s("2"), s("2"), s("3")])
    );
    st.set_array(s("f"), items.clone(), "rpush", 0).unwrap();
    assert_eq!(st.remove_array("f", 2, s("2"), 0), Ok(2));
    assert_eq!(st.get_array("f", vec![0, 3], 0), Ok(vec![s("1"), s("3"), s("2")]));
    st.set_array(s("z"), items, "rpush", 0).unwrap();
    assert_eq!(st.remove_array("z", 0, s("2"), 0), Ok(3));
    assert_eq!(st.get_array("z", vec![0, 2], 0), Ok(vec![s("1"), s("3")]));
}

#[test]
fn array_get_normalizes_negative_indices() {
    let mut st = Storage::new();
    st.set_array(s("L"), vec![s("a"), s("b"), s("c")], "rpush", 0).unwrap();
    assert_eq!(st.array_get("L", -1, 0), Ok(s("c")));
    assert_eq!(st.array_get("L", -3, 0), Ok(s("a")));
    assert_eq!(st.array_get("L", 1, 0), Ok(s("b")));
    assert_eq!(st.array_get("L", 3, 0), Err(StorageError::NotFound));
    assert_eq!(st.array_get("L", -4, 0), Err(StorageError::NotFound));
}

#[test]
fn array_set_errs_outside_the_list_without_mutating() {
    let mut st = Storage::new();
    st.set_array(s("L"), vec![s("a"), s("b"), s("c")], "rpush", 0).unwrap();
    assert_eq!(st.array_set("L", -1, s("C"), 0), Ok(()));
    assert_eq!(st.array_set("L", 99, s("X"), 0), Err(StorageError::OutOfRange));
    assert_eq!(st.array_set("L", -4, s("X"), 0), Err(StorageError::OutOfRange));
    assert_eq!(st.get_array("L", vec![0, 3], 0), Ok(vec![s("a"), s("b"), s("C")]));
}

#[test]
fn queue_is_first_in_first_out() {
    let mut st = Storage::new();
    assert_eq!(st.queue_add(vec![s("qadd"), s("q"), s("a"), s("b")], 0), Ok(()));
    assert_eq!(st.queue_add(vec![s("qadd"), s("q"), s("c")], 0), Ok(()));
    assert_eq!(st.qlen(vec![s("qlen"), s("q")], 0), Ok(3));
    assert_eq!(st.dequeue(vec![s("qpop"), s("q")], 0), Ok(s("a")));
    assert_eq!(st.dequeue(vec![s("qpop"), s("q")], 0), Ok(s("b")));
    assert_eq!(st.dequeue(vec![s("qpop"), s("q")], 0), Ok(s("c")));
}

#[test]
fn dequeue_of_empty_queue_removes_the_record() {
    let mut st = Storage::new();
    st.queue_add(vec![s("qadd"), s("q"), s("a")], 0).unwrap();
    st.dequeue(vec![s("qpop"), s("q")], 0).unwrap();
    assert_eq!(st.dequeue(vec![s("qpop"), s("q")], 0), Err(StorageError::OutOfRange));
    // the record is gone now, so the next look sees an absent key
    assert_eq!(st.qlen(vec![s("qlen"), s("q")], 0), Err(StorageError::NotFound));
}

#[test]
fn queue_arity_is_checked_first() {
    let mut st = Storage::new();
    assert_eq!(st.queue_add(vec![s("qadd"), s("q")], 0), Err(StorageError::BadCommand));
    assert_eq!(st.dequeue(vec![s("qpop")], 0), Err(StorageError::BadCommand));
    assert_eq!(st.qlen(vec![s("qlen")], 0), Err(StorageError::BadCommand));
}

#[test]
fn hash_set_counts_pairs_written() {
    let mut st = Storage::new();
    assert_eq!(
        st.hash_set(vec![s("hset"), s("h"), s("f1"), s("v1"), s("f2"), s("v2")], 0),
        Ok(2)
    );
    // rewriting an existing field still counts one per pair
    assert_eq!(st.hash_set(vec![s("hset"), s("h"), s("f1"), s("v9")], 0), Ok(1));
    // an odd trailing field is rejected
    assert_eq!(
        st.hash_set(vec![s("hset"), s("h"), s("f3")], 0),
        Err(StorageError::BadCommand)
    );
}

#[test]
fn wrong_type_never_mutates() {
    let mut st = Storage::new();
    st.set_string(s("k"), s("v"));
    assert_eq!(
        st.set_array(s("k"), vec![s("a")], "rpush", 0),
        Err(StorageError::BadType)
    );
    assert_eq!(st.get_array("k", vec![0, 0], 0), Err(StorageError::BadType));
    assert_eq!(st.get_array_len("k", 0), Err(StorageError::BadType));
    assert!(matches!(
        st.pop_array(vec![s("lpop"), s("k")], 0),
        Err(StorageError::BadType)
    ));
    assert_eq!(st.remove_array("k", 0, s("x"), 0), Err(StorageError::BadType));
    assert_eq!(st.array_get("k", 0, 0), Err(StorageError::BadType));
    assert_eq!(st.array_set("k", 0, s("x"), 0), Err(StorageError::BadType));
    assert_eq!(
        st.queue_add(vec![s("qadd"), s("k"), s("a")], 0),
        Err(StorageError::BadType)
    );
    assert_eq!(st.dequeue(vec![s("qpop"), s("k")], 0), Err(StorageError::BadType));
    assert_eq!(st.qlen(vec![s("qlen"), s("k")], 0), Err(StorageError::BadType));
    assert_eq!(
        st.hash_set(vec![s("hset"), s("k"), s("f"), s("v")], 0),
        Err(StorageError::BadType)
    );
    // the value is untouched by all of the failures above
    assert_eq!(st.get_string("k", 0), Ok(b"$1\r\nv\r\n".to_vec()));
    // and the mismatch in the other direction fails the string read
    let mut st2 = Storage::new();
    st2.set_array(s("L"), vec![s("a")], "rpush", 0).unwrap();
    assert_eq!(st2.get_string("L", 0), Err(StorageError::BadType));
}

#[test]
fn expired_key_is_absent_for_every_operation() {
    let mut st = Storage::new();
    st.set_string_px(s("k"), s("v"), 10, 0);
    // after expiry a push sees an absent key and creates a fresh list
    assert_eq!(st.set_array(s("k"), vec![s("a")], "rpush", 100), Ok(1));
    assert_eq!(st.get_array_len("k", 100), Ok(1));
}

#[test]
fn many_pushes_accumulate_length() {
    let mut st = Storage::new();
    let clients = 4;
    let per_client = 25;
    for _ in 0..clients {
        for _ in 0..per_client {
            st.set_array(s("k"), vec![s("x")], "rpush", 0).unwrap();
        }
    }
    assert_eq!(st.get_array_len("k", 0), Ok(clients * per_client));
}
