//! The typed keyspace: a map from text keys to value records, where a record
//! is one of four payload shapes plus an optional expiry deadline.
//!
//! The store's view is a mathematical map from key text to record models.
//! Time enters every operation as a caller-supplied millisecond clock value,
//! and expiry is lazy: an operation that observes a record whose deadline
//! has passed removes it and treats the key as absent.
use vstd::prelude::*;

verus! {

/// The model of a stored payload: one of the four value shapes.
pub enum ValueModel {
    /// A text value.
    Str(Seq<char>),
    /// An ordered, random-access sequence.
    List(Seq<Seq<char>>),
    /// A field-to-value mapping.
    Hash(Map<Seq<char>, Seq<char>>),
    /// A first-in-first-out queue.
    Queue(Seq<Seq<char>>),
}

/// The model of a record: its payload and its optional expiry deadline, an
/// absolute millisecond instant.
pub struct RecordModel {
    /// The deadline after which the record counts as absent; `None` never
    /// expires.
    pub expire_at: Option<u64>,
    /// The payload.
    pub value: ValueModel,
}

/// A record's deadline has passed at clock value `now`.
pub open spec fn expired_at(rec: RecordModel, now: u64) -> bool {
    rec.expire_at is Some && rec.expire_at.unwrap() < now
}

/// The key is present and its record has not expired at `now`.
pub open spec fn live(m: Map<Seq<char>, RecordModel>, k: Seq<char>, now: u64) -> bool {
    m.contains_key(k) && !expired_at(m[k], now)
}

/// `a + b`, stopping at the largest representable value.
pub open spec fn sat_add(a: u64, b: u64) -> u64 {
    if a + b > u64::MAX {
        u64::MAX
    } else {
        (a + b) as u64
    }
}

/// `a * b`, stopping at the largest representable value.
pub open spec fn sat_mul(a: u64, b: u64) -> u64 {
    if a * b > u64::MAX {
        u64::MAX
    } else {
        (a * b) as u64
    }
}

/// A failure of a keyspace operation.
#[derive(Clone, Copy, Debug, PartialEq, Eq, Structural)]
pub enum StorageError {
    /// The key is absent (or expired, which a client cannot tell apart).
    NotFound,
    /// The key holds a value of another shape than the operation expects.
    BadType,
    /// The arguments are malformed: wrong arity or an unparseable number.
    BadCommand,
    /// A list index is outside the list.
    OutOfRange,
}

/// The reply of a pop operation: one element, or a batch.
pub enum PopReply {
    /// The single element removed by a pop without a count.
    Single(String),
    /// The elements removed by a pop with a count, in removal order.
    Many(Vec<String>),
}

enum Value {
    Str(String),
    List(Vec<String>),
    Hash(Vec<(String, String)>),
    Queue(Vec<String>),
}

struct Unit {
    expireat: Option<u64>,
    value: Value,
}

struct Entry {
    key: String,
    unit: Unit,
}

/// The keyspace: unique text keys, each bound to one record.
pub struct Storage {
    entries: Vec<Entry>,
}

/// The map modeled by a field/value association sequence; a later pair with
/// the same field overrides an earlier one.
spec fn hash_model(s: Seq<(String, String)>) -> Map<Seq<char>, Seq<char>>
    decreases s.len(),
{
    if s.len() == 0 {
        Map::empty()
    } else {
        hash_model(s.drop_last()).insert(s.last().0@, s.last().1@)
    }
}

/// The fields of the association sequence are pairwise distinct.
spec fn hash_keys_unique(s: Seq<(String, String)>) -> bool {
    forall|i: int, j: int|
        0 <= i < j < s.len() ==> (#[trigger] s[i].0@) != (#[trigger] s[j].0@)
}

impl Value {
    spec fn view(&self) -> ValueModel {
        match self {
            Value::Str(s) => ValueModel::Str(s@),
            Value::List(v) => ValueModel::List(v.deep_view()),
            Value::Hash(h) => ValueModel::Hash(hash_model(h@)),
            Value::Queue(q) => ValueModel::Queue(q.deep_view()),
        }
    }

    spec fn wf(&self) -> bool {
        match self {
            Value::Hash(h) => hash_keys_unique(h@),
            _ => true,
        }
    }
}

impl Unit {
    spec fn view(&self) -> RecordModel {
        RecordModel { expire_at: self.expireat, value: self.value.view() }
    }
}

/// The map modeled by the entry sequence; a later entry with the same key
/// overrides an earlier one.
spec fn entries_map(s: Seq<Entry>) -> Map<Seq<char>, RecordModel>
    decreases s.len(),
{
    if s.len() == 0 {
        Map::empty()
    } else {
        entries_map(s.drop_last()).insert(s.last().key@, s.last().unit.view())
    }
}

/// The keys of the entry sequence are pairwise distinct.
spec fn keys_unique(s: Seq<Entry>) -> bool {
    forall|i: int, j: int|
        0 <= i < j < s.len() ==> (#[trigger] s[i].key@) != (#[trigger] s[j].key@)
}

/// The modeled map contains every key that appears in the sequence.
proof fn lemma_entries_map_index(s: Seq<Entry>, i: int)
    requires
        keys_unique(s),
        0 <= i < s.len(),
    ensures
        entries_map(s).contains_key(s[i].key@),
        entries_map(s)[s[i].key@] == s[i].unit.view(),
    decreases s.len(),
{
    if i < s.len() - 1 {
        lemma_entries_map_index(s.drop_last(), i);
    }
}

/// A key that appears in no entry is absent from the modeled map.
proof fn lemma_entries_map_absent(s: Seq<Entry>, k: Seq<char>)
    requires
        forall|i: int| 0 <= i < s.len() ==> (#[trigger] s[i].key@) != k,
    ensures
        !entries_map(s).contains_key(k),
    decreases s.len(),
{
    if s.len() > 0 {
        lemma_entries_map_absent(s.drop_last(), k);
    }
}

/// Removing the entry at `i` removes exactly its key from the modeled map.
proof fn lemma_entries_map_remove(s: Seq<Entry>, i: int)
    requires
        keys_unique(s),
        0 <= i < s.len(),
    ensures
        entries_map(s.remove(i)) == entries_map(s).remove(s[i].key@),
        keys_unique(s.remove(i)),
        forall|j: int|
            0 <= j < s.remove(i).len() ==> (#[trigger] s.remove(i)[j].key@) != s[i].key@,
    decreases s.len(),
{
    let k = s[i].key@;
    assert(forall|j: int|
        0 <= j < s.remove(i).len() ==> (#[trigger] s.remove(i)[j].key@) != k);
    if i == s.len() - 1 {
        assert(s.remove(i) =~= s.drop_last());
        lemma_entries_map_absent(s.drop_last(), k);
        assert(entries_map(s.drop_last()) =~= entries_map(s.drop_last()).insert(
            k,
            s[i].unit.view(),
        ).remove(k));
    } else {
        lemma_entries_map_remove(s.drop_last(), i);
        assert(s.remove(i).drop_last() =~= s.drop_last().remove(i));
        assert(s.remove(i).last() == s.last());
        assert(entries_map(s.remove(i)) == entries_map(s.drop_last().remove(i)).insert(
            s.last().key@,
            s.last().unit.view(),
        ));
        assert(entries_map(s.drop_last()).remove(k).insert(s.last().key@, s.last().unit.view())
            =~= entries_map(s.drop_last()).insert(s.last().key@, s.last().unit.view()).remove(k));
    }
}

/// Appending an entry with a fresh key inserts exactly that binding.
proof fn lemma_entries_map_push(s: Seq<Entry>, e: Entry)
    requires
        keys_unique(s),
        forall|i: int| 0 <= i < s.len() ==> (#[trigger] s[i].key@) != e.key@,
    ensures
        entries_map(s.push(e)) == entries_map(s).insert(e.key@, e.unit.view()),
        keys_unique(s.push(e)),
{
    assert(s.push(e).drop_last() =~= s);
    assert(s.push(e).last() == e);
}

impl View for Storage {
    type V = Map<Seq<char>, RecordModel>;

    closed spec fn view(&self) -> Map<Seq<char>, RecordModel> {
        entries_map(self.entries@)
    }
}

impl Storage {
    /// The store's internal invariant: keys are unique and every hash
    /// payload has unique fields.
    pub closed spec fn wf(&self) -> bool {
        keys_unique(self.entries@) && forall|i: int|
            0 <= i < self.entries@.len() ==> (#[trigger] self.entries@[i].unit.value).wf()
    }

    /// Creates an empty store.
    pub fn new() -> (r: Self)
        ensures
            r.wf(),
            r@ == Map::<Seq<char>, RecordModel>::empty(),
    {
        Storage { entries: Vec::new() }
    }

    /// Finds the position of a key's entry, if any.
    fn find_index(&self, key: &String) -> (r: Option<usize>)
        requires
            self.wf(),
        ensures
            match r {
                Some(i) => {
                    &&& i < self.entries@.len()
                    &&& self.entries@[i as int].key@ == key@
                    &&& self@.contains_key(key@)
                    &&& self@[key@] == self.entries@[i as int].unit.view()
                },
                None => !self@.contains_key(key@),
            },
    {
        let mut i: usize = 0;
        while i < self.entries.len()
            invariant
                self.wf(),
                i <= self.entries@.len(),
                forall|j: int| 0 <= j < i ==> (#[trigger] self.entries@[j].key@) != key@,
            decreases self.entries@.len() - i,
        {
            if self.entries[i].key == *key {
                proof {
                    lemma_entries_map_index(self.entries@, i as int);
                }
                return Some(i);
            }
            i = i + 1;
        }
        proof {
            lemma_entries_map_absent(self.entries@, key@);
        }
        None
    }

    /// Removes and returns the entry at position `i`; the modeled map loses
    /// that key.
    fn take_at(&mut self, i: usize) -> (e: Entry)
        requires
            old(self).wf(),
            i < old(self).entries@.len(),
        ensures
            final(self).wf(),
            e == old(self).entries@[i as int],
            final(self)@ == old(self)@.remove(old(self).entries@[i as int].key@),
            forall|j: int|
                0 <= j < final(self).entries@.len()
                    ==> (#[trigger] final(self).entries@[j].key@)
                    != old(self).entries@[i as int].key@,
    {
        proof {
            lemma_entries_map_remove(self.entries@, i as int);
        }
        self.entries.remove(i)
    }

    /// Finds a key's entry, first collecting it if its deadline has passed:
    /// `Some` points at a live entry, `None` means the key is now absent.
    fn probe(&mut self, key: &String, now_ms: u64) -> (r: Option<usize>)
        requires
            old(self).wf(),
        ensures
            final(self).wf(),
            match r {
                Some(i) => {
                    &&& final(self)@ == old(self)@
                    &&& final(self).entries@ == old(self).entries@
                    &&& i < final(self).entries@.len()
                    &&& final(self).entries@[i as int].key@ == key@
                    &&& live(old(self)@, key@, now_ms)
                    &&& old(self)@[key@] == final(self).entries@[i as int].unit.view()
                },
                None => {
                    &&& !live(old(self)@, key@, now_ms)
                    &&& final(self)@ == old(self)@.remove(key@)
                    &&& forall|j: int|
                        0 <= j < final(self).entries@.len()
                            ==> (#[trigger] final(self).entries@[j].key@) != key@
                },
            },
    {
        match self.find_index(key) {
            Some(i) => {
                let expired = match self.entries[i].unit.expireat {
                    Some(t) => t < now_ms,
                    None => false,
                };
                if expired {
                    let _ = self.take_at(i);
                    None
                } else {
                    Some(i)
                }
            },
            None => {
                proof {
                    assert(old(self)@.remove(key@) =~= old(self)@);
                    assert forall|j: int|
                        0 <= j < self.entries@.len() implies (#[trigger] self.entries@[j].key@)
                        != key@ by {
                        if self.entries@[j].key@ == key@ {
                            lemma_entries_map_index(self.entries@, j);
                        }
                    }
                }
                None
            },
        }
    }

    /// Appends an entry whose key no current entry holds; the modeled map
    /// gains that binding.
    fn push_entry(&mut self, e: Entry)
        requires
            old(self).wf(),
            e.unit.value.wf(),
            forall|j: int|
                0 <= j < old(self).entries@.len()
                    ==> (#[trigger] old(self).entries@[j].key@) != e.key@,
        ensures
            final(self).wf(),
            final(self)@ == old(self)@.insert(e.key@, e.unit.view()),
    {
        proof {
            lemma_entries_map_push(self.entries@, e);
        }
        self.entries.push(e);
    }

    /// Binds `key` to a fresh record, replacing any existing binding.
    fn bind(&mut self, key: String, unit: Unit)
        requires
            old(self).wf(),
            unit.value.wf(),
        ensures
            final(self).wf(),
            final(self)@ == old(self)@.insert(key@, unit.view()),
    {
        let ghost m0 = self@;
        match self.find_index(&key) {
            Some(i) => {
                let _ = self.take_at(i);
                proof {
                    assert(m0.remove(key@).insert(key@, unit.view()) =~= m0.insert(
                        key@,
                        unit.view(),
                    ));
                }
                self.push_entry(Entry { key, unit });
            },
            None => {
                proof {
                    assert forall|j: int|
                        0 <= j < self.entries@.len() implies (#[trigger] self.entries@[j].key@)
                        != key@ by {
                        if self.entries@[j].key@ == key@ {
                            lemma_entries_map_index(self.entries@, j);
                        }
                    }
                }
                self.push_entry(Entry { key, unit });
            },
        }
    }

    /// Binds `key` to the given text with no expiry, replacing any prior
    /// record, variant and deadline alike.
    pub fn set_string(&mut self, key: String, value: String)
        requires
            old(self).wf(),
        ensures
            final(self).wf(),
            final(self)@ == old(self)@.insert(
                key@,
                RecordModel { expire_at: None, value: ValueModel::Str(value@) },
            ),
    {
        self.bind(key, Unit { expireat: None, value: Value::Str(value) });
    }

    /// Binds `key` to the given text, expiring `time` milliseconds after
    /// `now_ms` (stopping at the largest representable instant).
    pub fn set_string_px(&mut self, key: String, value: String, time: u64, now_ms: u64)
        requires
            old(self).wf(),
        ensures
            final(self).wf(),
            final(self)@ == old(self)@.insert(
                key@,
                RecordModel {
                    expire_at: Some(sat_add(now_ms, time)),
                    value: ValueModel::Str(value@),
                },
            ),
    {
        let deadline = match now_ms.checked_add(time) {
            Some(v) => v,
            None => u64::MAX,
        };
        self.bind(key, Unit { expireat: Some(deadline), value: Value::Str(value) });
    }

    /// Binds `key` to the given text, expiring `time` seconds after
    /// `now_ms` (stopping at the largest representable instant).
    pub fn set_string_ex(&mut self, key: String, value: String, time: u64, now_ms: u64)
        requires
            old(self).wf(),
        ensures
            final(self).wf(),
            final(self)@ == old(self)@.insert(
                key@,
                RecordModel {
                    expire_at: Some(sat_add(now_ms, sat_mul(time, 1000))),
                    value: ValueModel::Str(value@),
                },
            ),
    {
        let millis = match time.checked_mul(1000) {
            Some(v) => v,
            None => u64::MAX,
        };
        let deadline = match now_ms.checked_add(millis) {
            Some(v) => v,
            None => u64::MAX,
        };
        self.bind(key, Unit { expireat: Some(deadline), value: Value::Str(value) });
    }

    /// Reads the text value at `key`, already framed as a bulk string.
    /// An expired record is removed and reported as absent; a live record of
    /// another shape is a wrong-type failure and is left untouched.
    pub fn get_string(&mut self, key: &str, now_ms: u64) -> (r: Result<Vec<u8>, StorageError>)
        requires
            old(self).wf(),
        ensures
            final(self).wf(),
            ({
                let m = old(self)@;
                let k = key@;
                if !m.contains_key(k) {
                    r == Err::<Vec<u8>, StorageError>(StorageError::NotFound) && final(self)@ == m
                } else if expired_at(m[k], now_ms) {
                    r == Err::<Vec<u8>, StorageError>(StorageError::NotFound) && final(self)@
                        == m.remove(k)
                } else {
                    final(self)@ == m && match m[k].value {
                        ValueModel::Str(s) => r is Ok && r.unwrap()@
                            == crate::encoder::bulk_bytes(s),
                        _ => r == Err::<Vec<u8>, StorageError>(StorageError::BadType),
                    }
                }
            }),
    {
        let key_owned = key.to_owned();
        match self.find_index(&key_owned) {
            Some(i) => {
                let expired = match self.entries[i].unit.expireat {
                    Some(t) => t < now_ms,
                    None => false,
                };
                if expired {
                    let _ = self.take_at(i);
                    Err(StorageError::NotFound)
                } else {
                    match &self.entries[i].unit.value {
                        Value::Str(s) => Ok(crate::encoder::encode_resp_bulk_string(s.clone())),
                        _ => Err(StorageError::BadType),
                    }
                }
            },
            None => Err(StorageError::NotFound),
        }
    }

    /// Removes the given keys in order; the count is the number of live
    /// records among them (an expired record is collected but not counted,
    /// and a key named twice counts at most once).
    pub fn delete(&mut self, keys: Vec<String>, now_ms: u64) -> (r: usize)
        requires
            old(self).wf(),
        ensures
            final(self).wf(),
            final(self)@ == spec_delete(old(self)@, keys.deep_view(), now_ms).0,
            r as nat == spec_delete(old(self)@, keys.deep_view(), now_ms).1,
    {
        let ghost m0 = self@;
        let ghost dv = keys.deep_view();
        let mut count: usize = 0;
        let mut i: usize = 0;
        while i < keys.len()
            invariant
                self.wf(),
                i <= keys@.len(),
                dv == keys.deep_view(),
                count <= i,
                self@ == spec_delete(m0, dv.take(i as int), now_ms).0,
                count as nat == spec_delete(m0, dv.take(i as int), now_ms).1,
            decreases keys@.len() - i,
        {
            proof {
                assert(dv.take(i + 1).drop_last() =~= dv.take(i as int));
                assert(dv.take(i + 1).last() == dv[i as int]);
                assert(dv[i as int] == keys@[i as int]@);
            }
            match self.probe(&keys[i], now_ms) {
                Some(j) => {
                    let _ = self.take_at(j);
                    count = count + 1;
                },
                None => {},
            }
            i = i + 1;
        }
        proof {
            assert(dv.take(keys@.len() as int) =~= dv);
        }
        count
    }

    /// Pushes items onto the list at `key`: at the tail for the `rpush`
    /// token, one by one at the head otherwise; an absent key gets a fresh
    /// list. The result is the list's new length.
    pub fn set_array(&mut self, key: String, arr: Vec<String>, cmd: &str, now_ms: u64) -> (r:
        Result<usize, StorageError>)
        requires
            old(self).wf(),
        ensures
            final(self).wf(),
            ({
                let m = old(self)@;
                let k = key@;
                let items = arr.deep_view();
                let rp = cmd@ == "rpush"@;
                if !live(m, k, now_ms) {
                    &&& final(self)@ == m.insert(
                        k,
                        RecordModel {
                            expire_at: None,
                            value: ValueModel::List(
                                if rp {
                                    items
                                } else {
                                    items.reverse()
                                },
                            ),
                        },
                    )
                    &&& r == Ok::<usize, StorageError>(arr@.len() as usize)
                    &&& arr@.len() <= usize::MAX
                } else {
                    match m[k].value {
                        ValueModel::List(l) => {
                            &&& final(self)@ == m.insert(
                                k,
                                RecordModel {
                                    expire_at: m[k].expire_at,
                                    value: ValueModel::List(
                                        if rp {
                                            l + items
                                        } else {
                                            items.reverse() + l
                                        },
                                    ),
                                },
                            )
                            &&& r == Ok::<usize, StorageError>(
                                (l.len() + items.len()) as usize,
                            )
                            &&& l.len() + items.len() <= usize::MAX
                        },
                        _ => r == Err::<usize, StorageError>(StorageError::BadType)
                            && final(self)@ == m,
                    }
                }
            }),
    {
        let ghost m = self@;
        let ghost k = key@;
        let rp = crate::text::str_eq(cmd, "rpush");
        match self.probe(&key, now_ms) {
            None => {
                let items = if rp {
                    arr
                } else {
                    reversed(arr)
                };
                let n = items.len();
                let ghost rec = RecordModel {
                    expire_at: None,
                    value: ValueModel::List(items.deep_view()),
                };
                self.push_entry(Entry { key, unit: Unit { expireat: None, value: Value::List(items) } });
                proof {
                    assert(m.remove(k).insert(k, rec) =~= m.insert(k, rec));
                }
                Ok(n)
            },
            Some(i) => {
                match &self.entries[i].unit.value {
                    Value::List(_) => {},
                    _ => {
                        return Err(StorageError::BadType);
                    },
                }
                let e = self.take_at(i);
                let Entry { key: ekey, unit: eunit } = e;
                let Unit { expireat: eexp, value: eval } = eunit;
                match eval {
                    Value::List(l) => {
                        let ghost l0 = l.deep_view();
                        let ghost items0 = arr.deep_view();
                        let newl: Vec<String> = if rp {
                            let mut grown = l;
                            let mut items = arr;
                            grown.append(&mut items);
                            proof {
                                assert(grown.deep_view() =~= l0 + items0);
                            }
                            grown
                        } else {
                            let mut grown = reversed(arr);
                            let mut tail = l;
                            grown.append(&mut tail);
                            proof {
                                assert(grown.deep_view() =~= items0.reverse() + l0);
                            }
                            grown
                        };
                        let n = newl.len();
                        let ghost rec = RecordModel {
                            expire_at: eexp,
                            value: ValueModel::List(newl.deep_view()),
                        };
                        self.push_entry(
                            Entry { key: ekey, unit: Unit { expireat: eexp, value: Value::List(newl) } },
                        );
                        proof {
                            assert(m.remove(k).insert(k, rec) =~= m.insert(k, rec));
                        }
                        Ok(n)
                    },
                    _ => {
                        proof {
                            assert(false);
                        }
                        Err(StorageError::BadType)
                    },
                }
            },
        }
    }

    /// Reads the elements of the list at `key` with indices in
    /// `[bound[0], bound[1])`.
    pub fn get_array(&mut self, key: &str, bound: Vec<usize>, now_ms: u64) -> (r: Result<
        Vec<String>,
        StorageError,
    >)
        requires
            old(self).wf(),
            bound@.len() == 2,
        ensures
            final(self).wf(),
            ({
                let m = old(self)@;
                let k = key@;
                if !live(m, k, now_ms) {
                    r == Err::<Vec<String>, StorageError>(StorageError::NotFound) && final(self)@
                        == m.remove(k)
                } else {
                    final(self)@ == m && match m[k].value {
                        ValueModel::List(l) => {
                            if bound@[0] <= bound@[1] <= l.len() {
                                r is Ok && r.unwrap().deep_view() == l.subrange(
                                    bound@[0] as int,
                                    bound@[1] as int,
                                )
                            } else {
                                r == Err::<Vec<String>, StorageError>(StorageError::BadCommand)
                            }
                        },
                        _ => r == Err::<Vec<String>, StorageError>(StorageError::BadType),
                    }
                }
            }),
    {
        let key_owned = key.to_owned();
        match self.probe(&key_owned, now_ms) {
            None => Err(StorageError::NotFound),
            Some(i) => {
                match &self.entries[i].unit.value {
                    Value::List(l) => {
                        let b0 = bound[0];
                        let b1 = bound[1];
                        if b1 < b0 || b1 > l.len() {
                            return Err(StorageError::BadCommand);
                        }
                        let mut out: Vec<String> = Vec::new();
                        let mut j = b0;
                        while j < b1
                            invariant
                                b0 <= j <= b1 <= l@.len(),
                                out.deep_view() =~= l.deep_view().subrange(b0 as int, j as int),
                            decreases b1 - j,
                        {
                            let ghost prev = out.deep_view();
                            out.push(l[j].clone());
                            proof {
                                assert(out.deep_view() =~= prev.push(l.deep_view()[j as int]));
                                assert(out.deep_view() =~= l.deep_view().subrange(
                                    b0 as int,
                                    j + 1,
                                ));
                            }
                            j = j + 1;
                        }
                        Ok(out)
                    },
                    _ => Err(StorageError::BadType),
                }
            },
        }
    }

    /// Pops elements from the tail of the list at `key`: without a count
    /// argument, one element (null if the list is empty, the list record
    /// staying in place); with a count argument, up to that many, in the
    /// order they were removed.
    pub fn pop_array(&mut self, cmd: Vec<String>, now_ms: u64) -> (r: Result<
        PopReply,
        StorageError,
    >)
        requires
            old(self).wf(),
            cmd@.len() >= 2,
        ensures
            final(self).wf(),
            ({
                let m = old(self)@;
                let k = cmd@[1]@;
                if !live(m, k, now_ms) {
                    r == Err::<PopReply, StorageError>(StorageError::NotFound) && final(self)@
                        == m.remove(k)
                } else {
                    match m[k].value {
                        ValueModel::List(l) => {
                            if cmd@.len() == 2 {
                                if l.len() == 0 {
                                    r == Err::<PopReply, StorageError>(StorageError::NotFound)
                                        && final(self)@ == m
                                } else {
                                    &&& r is Ok
                                    &&& match r.unwrap() {
                                        PopReply::Single(s) => s@ == l.last(),
                                        _ => false,
                                    }
                                    &&& final(self)@ == m.insert(
                                        k,
                                        RecordModel {
                                            expire_at: m[k].expire_at,
                                            value: ValueModel::List(l.drop_last()),
                                        },
                                    )
                                }
                            } else {
                                let txt = vstd::utf8::encode_utf8(cmd@[2]@);
                                if !crate::decoder::valid_u64_text(txt) {
                                    r == Err::<PopReply, StorageError>(StorageError::BadCommand)
                                        && final(self)@ == m
                                } else {
                                    let n = if crate::decoder::dec_value(txt) > l.len() {
                                        l.len()
                                    } else {
                                        crate::decoder::dec_value(txt)
                                    };
                                    &&& r is Ok
                                    &&& match r.unwrap() {
                                        PopReply::Many(v) => v.deep_view() == l.skip(
                                            l.len() - n,
                                        ).reverse(),
                                        _ => false,
                                    }
                                    &&& final(self)@ == m.insert(
                                        k,
                                        RecordModel {
                                            expire_at: m[k].expire_at,
                                            value: ValueModel::List(l.take(l.len() - n)),
                                        },
                                    )
                                }
                            }
                        },
                        _ => r == Err::<PopReply, StorageError>(StorageError::BadType) && final(self)@ == m,
                    }
                }
            }),
    {
        let ghost m = self@;
        let kstr = cmd[1].clone();
        let ghost k = kstr@;
        match self.probe(&kstr, now_ms) {
            None => Err(StorageError::NotFound),
            Some(i) => {
                let list_len = match &self.entries[i].unit.value {
                    Value::List(l) => l.len(),
                    _ => {
                        return Err(StorageError::BadType);
                    },
                };
                if cmd.len() == 2 {
                    if list_len == 0 {
                        return Err(StorageError::NotFound);
                    }
                    let e = self.take_at(i);
                    let Entry { key: ekey, unit: eunit } = e;
                    let Unit { expireat: eexp, value: eval } = eunit;
                    match eval {
                        Value::List(l) => {
                            let ghost l0 = l.deep_view();
                            let mut l = l;
                            let x = match l.pop() {
                                Some(x) => x,
                                None => {
                                    proof {
                                        assert(false);
                                    }
                                    return Err(StorageError::NotFound);
                                },
                            };
                            proof {
                                assert(x@ == l0.last());
                                assert(l.deep_view() =~= l0.drop_last());
                            }
                            let ghost rec = RecordModel {
                                expire_at: eexp,
                                value: ValueModel::List(l.deep_view()),
                            };
                            self.push_entry(
                                Entry {
                                    key: ekey,
                                    unit: Unit { expireat: eexp, value: Value::List(l) },
                                },
                            );
                            proof {
                                assert(m.remove(k).insert(k, rec) =~= m.insert(k, rec));
                            }
                            Ok(PopReply::Single(x))
                        },
                        _ => {
                            proof {
                                assert(false);
                            }
                            Err(StorageError::BadType)
                        },
                    }
                } else {
                    let n64 = match crate::decoder::parse_u64(cmd[2].as_str()) {
                        Ok(v) => v,
                        Err(_) => {
                            return Err(StorageError::BadCommand);
                        },
                    };
                    let n = if n64 > list_len as u64 {
                        list_len
                    } else {
                        n64 as usize
                    };
                    let e = self.take_at(i);
                    let Entry { key: ekey, unit: eunit } = e;
                    let Unit { expireat: eexp, value: eval } = eunit;
                    match eval {
                        Value::List(l) => {
                            let ghost l0 = l.deep_view();
                            let mut l = l;
                            let mut out: Vec<String> = Vec::new();
                            let mut t: usize = 0;
                            proof {
                                assert(l0.skip(l0.len() as int) =~= Seq::<Seq<char>>::empty());
                                assert(l.deep_view() =~= l0.take(l0.len() as int));
                            }
                            while t < n
                                invariant
                                    t <= n <= l0.len(),
                                    l@.len() == l0.len() - t,
                                    l.deep_view() =~= l0.take((l0.len() - t) as int),
                                    out.deep_view() =~= l0.skip((l0.len() - t) as int).reverse(),
                                decreases n - t,
                            {
                                let ghost rem = (l0.len() - t) as int;
                                let ghost dv_old = l.deep_view();
                                let x = match l.pop() {
                                    Some(x) => x,
                                    None => {
                                        proof {
                                            assert(false);
                                        }
                                        return Err(StorageError::BadCommand);
                                    },
                                };
                                proof {
                                    assert(dv_old[rem - 1] == x@);
                                    assert(x@ == l0[rem - 1]);
                                    assert(l.deep_view() =~= l0.take(rem - 1));
                                }
                                let ghost out_prev = out.deep_view();
                                out.push(x);
                                proof {
                                    assert(out.deep_view() =~= out_prev.push(x@));
                                    assert(out.deep_view() =~= l0.skip(rem - 1).reverse());
                                }
                                t = t + 1;
                            }
                            let ghost rec = RecordModel {
                                expire_at: eexp,
                                value: ValueModel::List(l.deep_view()),
                            };
                            self.push_entry(
                                Entry {
                                    key: ekey,
                                    unit: Unit { expireat: eexp, value: Value::List(l) },
                                },
                            );
                            proof {
                                assert(m.remove(k).insert(k, rec) =~= m.insert(k, rec));
                            }
                            Ok(PopReply::Many(out))
                        },
                        _ => {
                            proof {
                                assert(false);
                            }
                            Err(StorageError::BadType)
                        },
                    }
                }
            },
        }
    }

    /// Removes occurrences of `element` from the list at `key`: up to
    /// `count` scanning head to tail when positive, up to `|count|` scanning
    /// tail to head when negative, all of them when zero. The result is the
    /// number removed.
    pub fn remove_array(&mut self, key: &str, count: i64, element: String, now_ms: u64) -> (r:
        Result<usize, StorageError>)
        requires
            old(self).wf(),
        ensures
            final(self).wf(),
            ({
                let m = old(self)@;
                let k = key@;
                if !live(m, k, now_ms) {
                    r == Err::<usize, StorageError>(StorageError::NotFound) && final(self)@
                        == m.remove(k)
                } else {
                    match m[k].value {
                        ValueModel::List(l) => {
                            let kept = if count == 0 {
                                remove_fwd(l, element@, l.len())
                            } else if count > 0 {
                                remove_fwd(l, element@, count as nat)
                            } else {
                                remove_bwd(l, element@, (-(count as int)) as nat)
                            };
                            &&& final(self)@ == m.insert(
                                k,
                                RecordModel {
                                    expire_at: m[k].expire_at,
                                    value: ValueModel::List(kept),
                                },
                            )
                            &&& r is Ok
                            &&& r.unwrap() as int == l.len() - kept.len()
                        },
                        _ => r == Err::<usize, StorageError>(StorageError::BadType) && final(self)@ == m,
                    }
                }
            }),
    {
        let ghost m = self@;
        let key_owned = key.to_owned();
        let ghost k = key_owned@;
        match self.probe(&key_owned, now_ms) {
            None => Err(StorageError::NotFound),
            Some(i) => {
                match &self.entries[i].unit.value {
                    Value::List(_) => {},
                    _ => {
                        return Err(StorageError::BadType);
                    },
                }
                let e = self.take_at(i);
                let Entry { key: ekey, unit: eunit } = e;
                let Unit { expireat: eexp, value: eval } = eunit;
                match eval {
                    Value::List(l) => {
                        let ghost l0 = l.deep_view();
                        let l_len = l.len();
                        let kept: Vec<String> = if count == 0 {
                            let kept = remove_matches_fwd(l, &element, l_len);
                            proof {
                                lemma_remove_fwd_len(l0, element@, l_len as nat);
                                assert(kept@.len() <= l_len);
                            }
                            kept
                        } else if count > 0 {
                            let budget = if count as u64 > l_len as u64 {
                                l_len
                            } else {
                                count as usize
                            };
                            let kept = remove_matches_fwd(l, &element, budget);
                            proof {
                                if count as u64 > l_len as u64 {
                                    lemma_remove_all(l0, element@, budget as nat);
                                    lemma_remove_all(l0, element@, count as nat);
                                }
                                lemma_remove_fwd_len(l0, element@, budget as nat);
                                assert(kept@.len() <= l_len);
                            }
                            kept
                        } else {
                            let mag: u64 = if count == i64::MIN {
                                9223372036854775808u64
                            } else {
                                (-count) as u64
                            };
                            let budget = if mag > l_len as u64 {
                                l_len
                            } else {
                                mag as usize
                            };
                            let rev = reversed(l);
                            let kept_rev = remove_matches_fwd(rev, &element, budget);
                            let kept = reversed(kept_rev);
                            proof {
                                assert(l0.reverse().len() == l0.len());
                                if mag > l_len as u64 {
                                    lemma_remove_all(l0.reverse(), element@, budget as nat);
                                    lemma_remove_all(l0.reverse(), element@, mag as nat);
                                }
                                lemma_remove_fwd_len(l0.reverse(), element@, budget as nat);
                                assert(kept.deep_view() == kept_rev.deep_view().reverse());
                                assert(kept.deep_view().len() == kept_rev.deep_view().len());
                                assert(kept@.len() <= l_len);
                            }
                            kept
                        };
                        let removed = l_len - kept.len();
                        let ghost rec = RecordModel {
                            expire_at: eexp,
                            value: ValueModel::List(kept.deep_view()),
                        };
                        self.push_entry(
                            Entry {
                                key: ekey,
                                unit: Unit { expireat: eexp, value: Value::List(kept) },
                            },
                        );
                        proof {
                            assert(m.remove(k).insert(k, rec) =~= m.insert(k, rec));
                        }
                        Ok(removed)
                    },
                    _ => {
                        proof {
                            assert(false);
                        }
                        Err(StorageError::BadType)
                    },
                }
            },
        }
    }

    /// Reads the list element at `index`; a negative index counts from the
    /// end, and an index outside the list reads as absent.
    pub fn array_get(&mut self, key: &str, index: i64, now_ms: u64) -> (r: Result<
        String,
        StorageError,
    >)
        requires
            old(self).wf(),
        ensures
            final(self).wf(),
            ({
                let m = old(self)@;
                let k = key@;
                if !live(m, k, now_ms) {
                    r == Err::<String, StorageError>(StorageError::NotFound) && final(self)@
                        == m.remove(k)
                } else {
                    final(self)@ == m && match m[k].value {
                        ValueModel::List(l) => {
                            let e = eff_index(index as int, l.len());
                            if 0 <= e < l.len() {
                                r is Ok && r.unwrap()@ == l[e]
                            } else {
                                r == Err::<String, StorageError>(StorageError::NotFound)
                            }
                        },
                        _ => r == Err::<String, StorageError>(StorageError::BadType),
                    }
                }
            }),
    {
        let key_owned = key.to_owned();
        match self.probe(&key_owned, now_ms) {
            None => Err(StorageError::NotFound),
            Some(i) => {
                match &self.entries[i].unit.value {
                    Value::List(l) => {
                        let eff: i128 = if index < 0 {
                            index as i128 + l.len() as i128
                        } else {
                            index as i128
                        };
                        if eff < 0 || eff >= l.len() as i128 {
                            Err(StorageError::NotFound)
                        } else {
                            let x = l[eff as usize].clone();
                            proof {
                                assert(x@ == l.deep_view()[eff as int]);
                            }
                            Ok(x)
                        }
                    },
                    _ => Err(StorageError::BadType),
                }
            },
        }
    }

    /// Overwrites the list element at `index`; a negative index counts from
    /// the end, and an index outside the list is an out-of-range failure
    /// that changes nothing.
    pub fn array_set(&mut self, key: &str, index: i64, element: String, now_ms: u64) -> (r:
        Result<(), StorageError>)
        requires
            old(self).wf(),
        ensures
            final(self).wf(),
            ({
                let m = old(self)@;
                let k = key@;
                if !live(m, k, now_ms) {
                    r == Err::<(), StorageError>(StorageError::NotFound) && final(self)@
                        == m.remove(k)
                } else {
                    match m[k].value {
                        ValueModel::List(l) => {
                            let e = eff_index(index as int, l.len());
                            if 0 <= e < l.len() {
                                &&& r == Ok::<(), StorageError>(())
                                &&& final(self)@ == m.insert(
                                    k,
                                    RecordModel {
                                        expire_at: m[k].expire_at,
                                        value: ValueModel::List(l.update(e, element@)),
                                    },
                                )
                            } else {
                                r == Err::<(), StorageError>(StorageError::OutOfRange) && final(self)@ == m
                            }
                        },
                        _ => r == Err::<(), StorageError>(StorageError::BadType) && final(self)@
                            == m,
                    }
                }
            }),
    {
        let ghost m = self@;
        let key_owned = key.to_owned();
        let ghost k = key_owned@;
        match self.probe(&key_owned, now_ms) {
            None => Err(StorageError::NotFound),
            Some(i) => {
                let in_range: Option<usize> = match &self.entries[i].unit.value {
                    Value::List(l) => {
                        let eff: i128 = if index < 0 {
                            index as i128 + l.len() as i128
                        } else {
                            index as i128
                        };
                        if eff < 0 || eff >= l.len() as i128 {
                            return Err(StorageError::OutOfRange);
                        }
                        Some(eff as usize)
                    },
                    _ => None,
                };
                let pos = match in_range {
                    Some(p) => p,
                    None => {
                        return Err(StorageError::BadType);
                    },
                };
                let e = self.take_at(i);
                let Entry { key: ekey, unit: eunit } = e;
                let Unit { expireat: eexp, value: eval } = eunit;
                match eval {
                    Value::List(l) => {
                        let ghost l0 = l.deep_view();
                        let mut l = l;
                        l[pos] = element;
                        proof {
                            assert(l.deep_view() =~= l0.update(
                                pos as int,
                                l@[pos as int].deep_view(),
                            ));
                        }
                        let ghost rec = RecordModel {
                            expire_at: eexp,
                            value: ValueModel::List(l.deep_view()),
                        };
                        self.push_entry(
                            Entry {
                                key: ekey,
                                unit: Unit { expireat: eexp, value: Value::List(l) },
                            },
                        );
                        proof {
                            assert(m.remove(k).insert(k, rec) =~= m.insert(k, rec));
                        }
                        Ok(())
                    },
                    _ => {
                        proof {
                            assert(false);
                        }
                        Err(StorageError::BadType)
                    },
                }
            },
        }
    }

    /// Appends the items of `[name, key, item, ...]` to the queue at the
    /// key, creating the queue if the key is absent.
    pub fn queue_add(&mut self, cmd: Vec<String>, now_ms: u64) -> (r: Result<(), StorageError>)
        requires
            old(self).wf(),
        ensures
            final(self).wf(),
            ({
                let m = old(self)@;
                if cmd@.len() < 3 {
                    r == Err::<(), StorageError>(StorageError::BadCommand) && final(self)@ == m
                } else {
                    let k = cmd@[1]@;
                    let items = cmd.deep_view().skip(2);
                    if !live(m, k, now_ms) {
                        &&& final(self)@ == m.insert(
                            k,
                            RecordModel { expire_at: None, value: ValueModel::Queue(items) },
                        )
                        &&& r == Ok::<(), StorageError>(())
                    } else {
                        match m[k].value {
                            ValueModel::Queue(q) => {
                                &&& final(self)@ == m.insert(
                                    k,
                                    RecordModel {
                                        expire_at: m[k].expire_at,
                                        value: ValueModel::Queue(q + items),
                                    },
                                )
                                &&& r == Ok::<(), StorageError>(())
                            },
                            _ => r == Err::<(), StorageError>(StorageError::BadType)
                                && final(self)@ == m,
                        }
                    }
                }
            }),
    {
        if cmd.len() < 3 {
            return Err(StorageError::BadCommand);
        }
        let ghost m = self@;
        let kstr = cmd[1].clone();
        let ghost k = kstr@;
        let mut items: Vec<String> = Vec::new();
        let mut j: usize = 2;
        while j < cmd.len()
            invariant
                2 <= j <= cmd@.len(),
                items.deep_view() =~= cmd.deep_view().subrange(2, j as int),
            decreases cmd@.len() - j,
        {
            let ghost prev = items.deep_view();
            items.push(cmd[j].clone());
            proof {
                assert(items.deep_view() =~= prev.push(cmd.deep_view()[j as int]));
                assert(items.deep_view() =~= cmd.deep_view().subrange(2, j + 1));
            }
            j = j + 1;
        }
        proof {
            assert(items.deep_view() =~= cmd.deep_view().skip(2));
        }
        match self.probe(&kstr, now_ms) {
            None => {
                let ghost rec = RecordModel {
                    expire_at: None,
                    value: ValueModel::Queue(items.deep_view()),
                };
                self.push_entry(
                    Entry { key: kstr, unit: Unit { expireat: None, value: Value::Queue(items) } },
                );
                proof {
                    assert(m.remove(k).insert(k, rec) =~= m.insert(k, rec));
                }
                Ok(())
            },
            Some(i) => {
                match &self.entries[i].unit.value {
                    Value::Queue(_) => {},
                    _ => {
                        return Err(StorageError::BadType);
                    },
                }
                let e = self.take_at(i);
                let Entry { key: ekey, unit: eunit } = e;
                let Unit { expireat: eexp, value: eval } = eunit;
                match eval {
                    Value::Queue(q) => {
                        let ghost q0 = q.deep_view();
                        let mut q = q;
                        let mut items = items;
                        q.append(&mut items);
                        proof {
                            assert(q.deep_view() =~= q0 + cmd.deep_view().skip(2));
                        }
                        let ghost rec = RecordModel {
                            expire_at: eexp,
                            value: ValueModel::Queue(q.deep_view()),
                        };
                        self.push_entry(
                            Entry {
                                key: ekey,
                                unit: Unit { expireat: eexp, value: Value::Queue(q) },
                            },
                        );
                        proof {
                            assert(m.remove(k).insert(k, rec) =~= m.insert(k, rec));
                        }
                        Ok(())
                    },
                    _ => {
                        proof {
                            assert(false);
                        }
                        Err(StorageError::BadType)
                    },
                }
            },
        }
    }

    /// Removes and returns the head of the queue named by `[name, key]`;
    /// an empty queue's record is removed and the reply is a not-found
    /// style failure.
    pub fn dequeue(&mut self, cmd: Vec<String>, now_ms: u64) -> (r: Result<String, StorageError>)
        requires
            old(self).wf(),
        ensures
            final(self).wf(),
            ({
                let m = old(self)@;
                if cmd@.len() < 2 {
                    r == Err::<String, StorageError>(StorageError::BadCommand) && final(self)@
                        == m
                } else {
                    let k = cmd@[1]@;
                    if !live(m, k, now_ms) {
                        r == Err::<String, StorageError>(StorageError::NotFound) && final(self)@
                            == m.remove(k)
                    } else {
                        match m[k].value {
                            ValueModel::Queue(q) => {
                                if q.len() == 0 {
                                    r == Err::<String, StorageError>(StorageError::OutOfRange)
                                        && final(self)@ == m.remove(k)
                                } else {
                                    &&& r is Ok
                                    &&& r.unwrap()@ == q[0]
                                    &&& final(self)@ == m.insert(
                                        k,
                                        RecordModel {
                                            expire_at: m[k].expire_at,
                                            value: ValueModel::Queue(q.drop_first()),
                                        },
                                    )
                                }
                            },
                            _ => r == Err::<String, StorageError>(StorageError::BadType)
                                && final(self)@ == m,
                        }
                    }
                }
            }),
    {
        if cmd.len() < 2 {
            return Err(StorageError::BadCommand);
        }
        let ghost m = self@;
        let kstr = cmd[1].clone();
        let ghost k = kstr@;
        match self.probe(&kstr, now_ms) {
            None => Err(StorageError::NotFound),
            Some(i) => {
                let qlen = match &self.entries[i].unit.value {
                    Value::Queue(q) => q.len(),
                    _ => {
                        return Err(StorageError::BadType);
                    },
                };
                if qlen == 0 {
                    let _ = self.take_at(i);
                    return Err(StorageError::OutOfRange);
                }
                let e = self.take_at(i);
                let Entry { key: ekey, unit: eunit } = e;
                let Unit { expireat: eexp, value: eval } = eunit;
                match eval {
                    Value::Queue(q) => {
                        let ghost q0 = q.deep_view();
                        let mut q = q;
                        let head = q.remove(0);
                        proof {
                            assert(head@ == q0[0]);
                            assert(q.deep_view() =~= q0.drop_first());
                        }
                        let ghost rec = RecordModel {
                            expire_at: eexp,
                            value: ValueModel::Queue(q.deep_view()),
                        };
                        self.push_entry(
                            Entry {
                                key: ekey,
                                unit: Unit { expireat: eexp, value: Value::Queue(q) },
                            },
                        );
                        proof {
                            assert(m.remove(k).insert(k, rec) =~= m.insert(k, rec));
                        }
                        Ok(head)
                    },
                    _ => {
                        proof {
                            assert(false);
                        }
                        Err(StorageError::BadType)
                    },
                }
            },
        }
    }

    /// The length of the queue named by `[name, key]`.
    pub fn qlen(&mut self, cmd: Vec<String>, now_ms: u64) -> (r: Result<usize, StorageError>)
        requires
            old(self).wf(),
        ensures
            final(self).wf(),
            ({
                let m = old(self)@;
                if cmd@.len() < 2 {
                    r == Err::<usize, StorageError>(StorageError::BadCommand) && final(self)@
                        == m
                } else {
                    let k = cmd@[1]@;
                    if !live(m, k, now_ms) {
                        r == Err::<usize, StorageError>(StorageError::NotFound) && final(self)@
                            == m.remove(k)
                    } else {
                        final(self)@ == m && match m[k].value {
                            ValueModel::Queue(q) => r == Ok::<usize, StorageError>(
                                q.len() as usize,
                            ) && q.len() <= usize::MAX,
                            _ => r == Err::<usize, StorageError>(StorageError::BadType),
                        }
                    }
                }
            }),
    {
        if cmd.len() < 2 {
            return Err(StorageError::BadCommand);
        }
        let kstr = cmd[1].clone();
        match self.probe(&kstr, now_ms) {
            None => Err(StorageError::NotFound),
            Some(i) => {
                match &self.entries[i].unit.value {
                    Value::Queue(q) => Ok(q.len()),
                    _ => Err(StorageError::BadType),
                }
            },
        }
    }

    /// Writes the field/value pairs of `[name, key, f1, v1, ...]` into the
    /// hash at the key, creating the hash if the key is absent; existing
    /// fields are overwritten. The result counts the pairs written.
    pub fn hash_set(&mut self, cmd: Vec<String>, now_ms: u64) -> (r: Result<usize, StorageError>)
        requires
            old(self).wf(),
            cmd@.len() >= 1,
        ensures
            final(self).wf(),
            ({
                let m = old(self)@;
                if cmd@.len() % 2 != 0 {
                    r == Err::<usize, StorageError>(StorageError::BadCommand) && final(self)@
                        == m
                } else {
                    let k = cmd@[1]@;
                    let ps = cmd_pairs(cmd.deep_view());
                    if !live(m, k, now_ms) {
                        &&& final(self)@ == m.insert(
                            k,
                            RecordModel {
                                expire_at: None,
                                value: ValueModel::Hash(
                                    insert_pairs(Map::<Seq<char>, Seq<char>>::empty(), ps),
                                ),
                            },
                        )
                        &&& r is Ok
                        &&& r.unwrap() as int == ps.len()
                    } else {
                        match m[k].value {
                            ValueModel::Hash(h) => {
                                &&& final(self)@ == m.insert(
                                    k,
                                    RecordModel {
                                        expire_at: m[k].expire_at,
                                        value: ValueModel::Hash(insert_pairs(h, ps)),
                                    },
                                )
                                &&& r is Ok
                                &&& r.unwrap() as int == ps.len()
                            },
                            _ => r == Err::<usize, StorageError>(StorageError::BadType)
                                && final(self)@ == m,
                        }
                    }
                }
            }),
    {
        if cmd.len() % 2 != 0 {
            return Err(StorageError::BadCommand);
        }
        let ghost m = self@;
        let kstr = cmd[1].clone();
        let ghost k = kstr@;
        match self.probe(&kstr, now_ms) {
            None => {
                let hv: Vec<(String, String)> = Vec::new();
                let hv = hash_put_pairs(hv, &cmd);
                let n = (cmd.len() - 2) / 2;
                let ghost rec = RecordModel {
                    expire_at: None,
                    value: ValueModel::Hash(hash_model(hv@)),
                };
                self.push_entry(
                    Entry { key: kstr, unit: Unit { expireat: None, value: Value::Hash(hv) } },
                );
                proof {
                    assert(m.remove(k).insert(k, rec) =~= m.insert(k, rec));
                }
                Ok(n)
            },
            Some(i) => {
                match &self.entries[i].unit.value {
                    Value::Hash(_) => {},
                    _ => {
                        return Err(StorageError::BadType);
                    },
                }
                let e = self.take_at(i);
                let Entry { key: ekey, unit: eunit } = e;
                let Unit { expireat: eexp, value: eval } = eunit;
                match eval {
                    Value::Hash(hv) => {
                        let hv = hash_put_pairs(hv, &cmd);
                        let n = (cmd.len() - 2) / 2;
                        let ghost rec = RecordModel {
                            expire_at: eexp,
                            value: ValueModel::Hash(hash_model(hv@)),
                        };
                        self.push_entry(
                            Entry {
                                key: ekey,
                                unit: Unit { expireat: eexp, value: Value::Hash(hv) },
                            },
                        );
                        proof {
                            assert(m.remove(k).insert(k, rec) =~= m.insert(k, rec));
                        }
                        Ok(n)
                    },
                    _ => {
                        proof {
                            assert(false);
                        }
                        Err(StorageError::BadType)
                    },
                }
            },
        }
    }

    /// The length of the list at `key`.
    pub fn get_array_len(&mut self, key: &str, now_ms: u64) -> (r: Result<usize, StorageError>)
        requires
            old(self).wf(),
        ensures
            final(self).wf(),
            ({
                let m = old(self)@;
                let k = key@;
                if !live(m, k, now_ms) {
                    r == Err::<usize, StorageError>(StorageError::NotFound) && final(self)@
                        == m.remove(k)
                } else {
                    final(self)@ == m && match m[k].value {
                        ValueModel::List(l) => r == Ok::<usize, StorageError>(l.len() as usize)
                            && l.len() <= usize::MAX,
                        _ => r == Err::<usize, StorageError>(StorageError::BadType),
                    }
                }
            }),
    {
        let key_owned = key.to_owned();
        match self.probe(&key_owned, now_ms) {
            None => Err(StorageError::NotFound),
            Some(i) => {
                match &self.entries[i].unit.value {
                    Value::List(l) => Ok(l.len()),
                    _ => Err(StorageError::BadType),
                }
            },
        }
    }
}

/// A list index normalized: a negative index counts from the end.
pub open spec fn eff_index(i: int, len: nat) -> int {
    if i < 0 {
        len + i
    } else {
        i
    }
}

/// `s` with up to `n` elements equal to `x` removed, scanning front to
/// back; the order of the remaining elements is kept.
pub open spec fn remove_fwd(s: Seq<Seq<char>>, x: Seq<char>, n: nat) -> Seq<Seq<char>>
    decreases s.len(),
{
    if s.len() == 0 {
        s
    } else if s[0] == x && n > 0 {
        remove_fwd(s.drop_first(), x, (n - 1) as nat)
    } else {
        seq![s[0]] + remove_fwd(s.drop_first(), x, n)
    }
}

/// `s` with up to `n` elements equal to `x` removed, scanning back to
/// front; the order of the remaining elements is kept.
pub open spec fn remove_bwd(s: Seq<Seq<char>>, x: Seq<char>, n: nat) -> Seq<Seq<char>> {
    remove_fwd(s.reverse(), x, n).reverse()
}

/// The number of elements of `s` equal to `x`.
pub open spec fn count_matches(s: Seq<Seq<char>>, x: Seq<char>) -> nat
    decreases s.len(),
{
    if s.len() == 0 {
        0
    } else {
        count_matches(s.drop_first(), x) + if s[0] == x {
            1nat
        } else {
            0nat
        }
    }
}

/// With a removal budget of the whole length, a front-to-back scan removes
/// every occurrence: what remains holds no occurrence of `x`, its length
/// drops by exactly the occurrence count, and the rest keep their order.
pub proof fn lemma_remove_all(s: Seq<Seq<char>>, x: Seq<char>, n: nat)
    requires
        n >= s.len(),
    ensures
        remove_fwd(s, x, n) == remove_fwd(s, x, s.len()),
        remove_fwd(s, x, s.len()).len() + count_matches(s, x) == s.len(),
        forall|i: int|
            0 <= i < remove_fwd(s, x, s.len()).len() ==> remove_fwd(s, x, s.len())[i] != x,
    decreases s.len(),
{
    if s.len() > 0 {
        lemma_remove_all(s.drop_first(), x, (n - 1) as nat);
        lemma_remove_all(s.drop_first(), x, n);
        lemma_remove_all(s.drop_first(), x, s.len());
        lemma_remove_all(s.drop_first(), x, s.drop_first().len());
    }
}

/// The pairs named by a command vector `[name, key, f1, v1, f2, v2, ...]`.
pub open spec fn cmd_pairs(cmd: Seq<Seq<char>>) -> Seq<(Seq<char>, Seq<char>)> {
    Seq::new(
        if cmd.len() < 2 {
            0
        } else {
            ((cmd.len() - 2) / 2) as nat
        },
        |i: int| (cmd[2 * i + 2], cmd[2 * i + 3]),
    )
}

/// The field map after writing the given pairs in order; a later pair for
/// the same field overrides an earlier one.
pub open spec fn insert_pairs(
    h: Map<Seq<char>, Seq<char>>,
    ps: Seq<(Seq<char>, Seq<char>)>,
) -> Map<Seq<char>, Seq<char>>
    decreases ps.len(),
{
    if ps.len() == 0 {
        h
    } else {
        insert_pairs(h, ps.drop_last()).insert(ps.last().0, ps.last().1)
    }
}

/// The modeled field map contains every field that appears in the sequence.
proof fn lemma_hash_model_index(s: Seq<(String, String)>, i: int)
    requires
        hash_keys_unique(s),
        0 <= i < s.len(),
    ensures
        hash_model(s).contains_key(s[i].0@),
        hash_model(s)[s[i].0@] == s[i].1@,
    decreases s.len(),
{
    if i < s.len() - 1 {
        lemma_hash_model_index(s.drop_last(), i);
    }
}

/// A field that appears in no pair is absent from the modeled field map.
proof fn lemma_hash_model_absent(s: Seq<(String, String)>, f: Seq<char>)
    requires
        forall|i: int| 0 <= i < s.len() ==> (#[trigger] s[i].0@) != f,
    ensures
        !hash_model(s).contains_key(f),
    decreases s.len(),
{
    if s.len() > 0 {
        lemma_hash_model_absent(s.drop_last(), f);
    }
}

/// Overwriting the pair at `j` with one for the same field updates exactly
/// that binding.
proof fn lemma_hash_model_update(s: Seq<(String, String)>, j: int, p: (String, String))
    requires
        hash_keys_unique(s),
        0 <= j < s.len(),
        p.0@ == s[j].0@,
    ensures
        hash_model(s.update(j, p)) == hash_model(s).insert(p.0@, p.1@),
        hash_keys_unique(s.update(j, p)),
    decreases s.len(),
{
    if j == s.len() - 1 {
        assert(s.update(j, p).drop_last() =~= s.drop_last());
        assert(hash_model(s.drop_last()).insert(s[j].0@, s[j].1@).insert(p.0@, p.1@)
            =~= hash_model(s.drop_last()).insert(p.0@, p.1@));
    } else {
        lemma_hash_model_update(s.drop_last(), j, p);
        assert(s.update(j, p).drop_last() =~= s.drop_last().update(j, p));
        assert(s.update(j, p).last() == s.last());
        assert(hash_model(s.drop_last()).insert(p.0@, p.1@).insert(s.last().0@, s.last().1@)
            =~= hash_model(s.drop_last()).insert(s.last().0@, s.last().1@).insert(p.0@, p.1@));
    }
}

/// Appending a pair with a fresh field inserts exactly that binding.
proof fn lemma_hash_model_push(s: Seq<(String, String)>, p: (String, String))
    requires
        hash_keys_unique(s),
        forall|i: int| 0 <= i < s.len() ==> (#[trigger] s[i].0@) != p.0@,
    ensures
        hash_model(s.push(p)) == hash_model(s).insert(p.0@, p.1@),
        hash_keys_unique(s.push(p)),
{
    assert(s.push(p).drop_last() =~= s);
    assert(s.push(p).last() == p);
}

/// Writes one field of a field/value association vector: overwrites the
/// pair holding the field, or appends a new pair.
fn hash_put(h: Vec<(String, String)>, f: String, v: String) -> (r: Vec<(String, String)>)
    requires
        hash_keys_unique(h@),
    ensures
        hash_keys_unique(r@),
        hash_model(r@) == hash_model(h@).insert(f@, v@),
{
    let mut cur = h;
    let mut i: usize = 0;
    while i < cur.len()
        invariant
            cur@ == h@,
            hash_keys_unique(cur@),
            i <= cur@.len(),
            forall|j: int| 0 <= j < i ==> (#[trigger] cur@[j].0@) != f@,
        decreases cur@.len() - i,
    {
        if cur[i].0 == f {
            proof {
                lemma_hash_model_update(cur@, i as int, (f, v));
            }
            cur[i] = (f, v);
            return cur;
        }
        i = i + 1;
    }
    proof {
        lemma_hash_model_push(cur@, (f, v));
    }
    cur.push((f, v));
    cur
}

/// The map and count that remain after removing the given keys in order:
/// each key leaves the map, counted once if it was live when its turn came.
pub open spec fn spec_delete(
    m: Map<Seq<char>, RecordModel>,
    keys: Seq<Seq<char>>,
    now: u64,
) -> (Map<Seq<char>, RecordModel>, nat)
    decreases keys.len(),
{
    if keys.len() == 0 {
        (m, 0)
    } else {
        let prev = spec_delete(m, keys.drop_last(), now);
        (
            prev.0.remove(keys.last()),
            prev.1 + if live(prev.0, keys.last(), now) {
                1nat
            } else {
                0nat
            },
        )
    }
}

/// Reverses a vector of strings.
fn reversed(v: Vec<String>) -> (r: Vec<String>)
    ensures
        r.deep_view() == v.deep_view().reverse(),
{
    let ghost v0 = v.deep_view();
    let mut src = v;
    let mut out: Vec<String> = Vec::new();
    while src.len() > 0
        invariant
            src@.len() <= v0.len(),
            src.deep_view() =~= v0.take(src@.len() as int),
            out.deep_view() =~= v0.skip(src@.len() as int).reverse(),
        decreases src@.len(),
    {
        let ghost n = src@.len() as int;
        let ghost dv_old = src.deep_view();
        let x = match src.pop() {
            Some(x) => x,
            None => {
                proof {
                    assert(false);
                }
                return out;
            },
        };
        proof {
            assert(dv_old[n - 1] == x@);
            assert(x@ == v0[n - 1]);
            assert(src.deep_view() =~= v0.take(n - 1));
        }
        let ghost out_prev = out.deep_view();
        out.push(x);
        proof {
            assert(out.deep_view() =~= out_prev.push(x@));
            assert(out.deep_view() =~= v0.skip(n - 1).reverse());
        }
    }
    proof {
        assert(out.deep_view() =~= v0.reverse());
    }
    out
}

/// A front-to-back removal scan never lengthens the sequence.
proof fn lemma_remove_fwd_len(s: Seq<Seq<char>>, x: Seq<char>, n: nat)
    ensures
        remove_fwd(s, x, n).len() <= s.len(),
    decreases s.len(),
{
    if s.len() > 0 {
        lemma_remove_fwd_len(s.drop_first(), x, n);
        if n > 0 {
            lemma_remove_fwd_len(s.drop_first(), x, (n - 1) as nat);
        }
    }
}

/// Removes up to `budget` elements equal to `x`, scanning front to back.
fn remove_matches_fwd(v: Vec<String>, x: &String, budget: usize) -> (r: Vec<String>)
    ensures
        r.deep_view() == remove_fwd(v.deep_view(), x@, budget as nat),
{
    let ghost v0 = v.deep_view();
    let mut out: Vec<String> = Vec::new();
    let mut b = budget;
    let mut i: usize = 0;
    proof {
        assert(v0.skip(0) =~= v0);
        assert(Seq::<Seq<char>>::empty() + remove_fwd(v0, x@, budget as nat) =~= remove_fwd(
            v0,
            x@,
            budget as nat,
        ));
    }
    while i < v.len()
        invariant
            i <= v@.len(),
            v0 == v.deep_view(),
            remove_fwd(v0, x@, budget as nat) == out.deep_view() + remove_fwd(
                v0.skip(i as int),
                x@,
                b as nat,
            ),
        decreases v@.len() - i,
    {
        proof {
            assert(v0.skip(i as int)[0] == v0[i as int]);
            assert(v0.skip(i as int).drop_first() =~= v0.skip(i + 1));
        }
        if b > 0 && v[i] == *x {
            b = b - 1;
        } else {
            let ghost prev = out.deep_view();
            out.push(v[i].clone());
            proof {
                assert(out.deep_view() =~= prev.push(v0[i as int]));
                assert(out.deep_view() + remove_fwd(v0.skip(i + 1), x@, b as nat) =~= prev
                    + remove_fwd(v0.skip(i as int), x@, b as nat));
            }
        }
        i = i + 1;
    }
    proof {
        assert(v0.skip(v0.len() as int) =~= Seq::<Seq<char>>::empty());
        assert(out.deep_view() + Seq::<Seq<char>>::empty() =~= out.deep_view());
    }
    out
}

/// Writes every field/value pair of `[name, key, f1, v1, ...]` into the
/// association vector, in order.
fn hash_put_pairs(h: Vec<(String, String)>, cmd: &Vec<String>) -> (r: Vec<(String, String)>)
    requires
        hash_keys_unique(h@),
        cmd@.len() >= 2,
        cmd@.len() % 2 == 0,
    ensures
        hash_keys_unique(r@),
        hash_model(r@) == insert_pairs(hash_model(h@), cmd_pairs(cmd.deep_view())),
{
    let ghost ps = cmd_pairs(cmd.deep_view());
    let n = (cmd.len() - 2) / 2;
    let mut cur = h;
    let mut p: usize = 0;
    proof {
        assert(ps.take(0) =~= Seq::<(Seq<char>, Seq<char>)>::empty());
    }
    while p < n
        invariant
            hash_keys_unique(cur@),
            cmd@.len() >= 2,
            cmd@.len() % 2 == 0,
            cmd@.len() <= usize::MAX,
            n == (cmd@.len() - 2) / 2,
            2 * n + 2 == cmd@.len(),
            p <= n,
            ps == cmd_pairs(cmd.deep_view()),
            hash_model(cur@) == insert_pairs(hash_model(h@), ps.take(p as int)),
        decreases n - p,
    {
        proof {
            assert(ps.take(p + 1).drop_last() =~= ps.take(p as int));
            assert(ps.take(p + 1).last() == ps[p as int]);
            assert(cmd.deep_view()[2 * p + 2] == cmd@[2 * p + 2]@);
            assert(cmd.deep_view()[2 * p + 3] == cmd@[2 * p + 3]@);
        }
        let f = cmd[2 * p + 2].clone();
        let v = cmd[2 * p + 3].clone();
        cur = hash_put(cur, f, v);
        p = p + 1;
    }
    proof {
        assert(ps.take(n as int) =~= ps);
    }
    cur
}

} // verus!
