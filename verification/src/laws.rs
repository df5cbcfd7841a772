//! The store's laws: properties that hold of every key, value and clock,
//! each proved from the command transitions alone.
use vstd::prelude::*;
use crate::storage::{
    RecordModel, ValueModel, live, expired_at, sat_add, spec_delete, eff_index, remove_fwd,
    count_matches, lemma_remove_all,
};
use crate::commands::{spec_set, spec_get, spec_del, wrong_type_bytes};
use crate::commands::array::{
    spec_push, spec_lrange, spec_llen, spec_lpop, spec_lindex, spec_lrem, spec_lset,
};
use crate::commands::hash::spec_hset;
use crate::commands::queue::{spec_qadd, spec_qpop, spec_qlen};
use crate::encoder::{
    bulk_bytes, null_bulk_bytes, error_bytes, integer_bytes, bulk_of_bytes, dec_digits, CR, LF,
    DOLLAR, STAR,
};
use crate::decoder::{valid_u64_text, valid_i64_text, dec_value, signed_value};
use crate::resp::{spec_read_num, spec_parse_bulk, spec_parse_args, spec_parse_request, SpecNum, SpecBulk, SpecArgs, SpecParse};
use crate::text::cmd_matches;

verus! {

/// Law: a command against a live key holding another value shape than the
/// command expects leaves the whole store unchanged — the value and its
/// expiry included — and replies with the wrong-type error.
pub proof fn lemma_wrong_type_unchanged(
    m: Map<Seq<char>, RecordModel>,
    cmd: Seq<Seq<char>>,
    now: u64,
)
    requires
        cmd.len() >= 2,
        live(m, cmd[1], now),
    ensures
        !(m[cmd[1]].value is Str) ==> spec_get(m, cmd, now) == (m, wrong_type_bytes()),
        !(m[cmd[1]].value is List) ==> {
            &&& cmd.len() >= 3 ==> spec_push(m, cmd, now) == (m, wrong_type_bytes())
            &&& cmd.len() >= 4 ==> spec_lrange(m, cmd, now) == (m, wrong_type_bytes())
            &&& cmd.len() == 2 ==> spec_llen(m, cmd, now) == (m, wrong_type_bytes())
            &&& spec_lpop(m, cmd, now) == (m, wrong_type_bytes())
            &&& cmd.len() == 3 && valid_i64_text(vstd::utf8::encode_utf8(cmd[2]))
                ==> spec_lindex(m, cmd, now) == (m, wrong_type_bytes())
            &&& cmd.len() == 4 && valid_i64_text(vstd::utf8::encode_utf8(cmd[2]))
                ==> spec_lrem(m, cmd, now) == (m, wrong_type_bytes())
            &&& cmd.len() >= 4 && valid_i64_text(vstd::utf8::encode_utf8(cmd[2]))
                ==> spec_lset(m, cmd, now) == (m, wrong_type_bytes())
        },
        !(m[cmd[1]].value is Hash) && cmd.len() % 2 == 0 ==> spec_hset(m, cmd, now) == (
            m,
            wrong_type_bytes(),
        ),
        !(m[cmd[1]].value is Queue) ==> {
            &&& cmd.len() >= 3 ==> spec_qadd(m, cmd, now) == (m, wrong_type_bytes())
            &&& spec_qpop(m, cmd, now) == (m, wrong_type_bytes())
            &&& spec_qlen(m, cmd, now) == (m, wrong_type_bytes())
        },
{
}

/// Law: a negative list index `i` resolves to `len + i`; an index that
/// falls outside the list never mutates — the read replies null and the
/// overwrite replies the out-of-range error.
pub proof fn lemma_negative_index(
    m: Map<Seq<char>, RecordModel>,
    cmd: Seq<Seq<char>>,
    now: u64,
)
    requires
        cmd.len() >= 3,
        valid_i64_text(vstd::utf8::encode_utf8(cmd[2])),
        live(m, cmd[1], now),
        m[cmd[1]].value is List,
    ensures
        ({
            let i = signed_value(vstd::utf8::encode_utf8(cmd[2]));
            let l = m[cmd[1]].value->List_0;
            &&& (i < 0 ==> eff_index(i, l.len()) == l.len() + i)
            &&& (i >= 0 ==> eff_index(i, l.len()) == i)
            &&& (!(0 <= eff_index(i, l.len()) < l.len()) ==> {
                &&& cmd.len() == 3 ==> spec_lindex(m, cmd, now) == (m, null_bulk_bytes())
                &&& cmd.len() >= 4 ==> spec_lset(m, cmd, now) == (
                    m,
                    error_bytes("index out of range"@),
                )
            })
        }),
{
}

/// Law: binding a key to a text value and immediately reading it back
/// yields exactly that value as a bulk string, with the store unchanged by
/// the read.
pub proof fn lemma_set_then_get(
    m: Map<Seq<char>, RecordModel>,
    setc: Seq<Seq<char>>,
    getc: Seq<Seq<char>>,
    now: u64,
)
    requires
        setc.len() == 3,
        getc.len() == 2,
        getc[1] == setc[1],
    ensures
        spec_get(spec_set(m, setc, now).0, getc, now).1 == bulk_bytes(setc[2]),
        spec_get(spec_set(m, setc, now).0, getc, now).0 == spec_set(m, setc, now).0,
{
}

/// Law: after strictly more wall progress than the given expiry, a read
/// replies null and removes the record, and a deletion counts it as
/// already gone.
pub proof fn lemma_px_expiry(
    m: Map<Seq<char>, RecordModel>,
    setc: Seq<Seq<char>>,
    getc: Seq<Seq<char>>,
    delc: Seq<Seq<char>>,
    now0: u64,
    now: u64,
)
    requires
        setc.len() == 5,
        cmd_matches(setc[3], "px"@),
        valid_u64_text(vstd::utf8::encode_utf8(setc[4])),
        getc.len() == 2,
        getc[1] == setc[1],
        delc.len() == 2,
        delc[1] == setc[1],
        now > sat_add(now0, dec_value(vstd::utf8::encode_utf8(setc[4])) as u64),
    ensures
        spec_get(spec_set(m, setc, now0).0, getc, now) == (
            spec_set(m, setc, now0).0.remove(setc[1]),
            null_bulk_bytes(),
        ),
        spec_del(spec_set(m, setc, now0).0, delc, now).1 == integer_bytes(0),
{
    let m2 = spec_set(m, setc, now0).0;
    let k = setc[1];
    assert(expired_at(m2[k], now));
    let keys = delc.skip(1);
    assert(keys.len() == 1);
    assert(keys.drop_last() =~= Seq::<Seq<char>>::empty());
    assert(keys.last() == k);
    assert(spec_delete(m2, keys.drop_last(), now) == (m2, 0nat));
    assert(!live(m2, k, now));
}

/// Law: removal with count zero removes every occurrence of the element;
/// the length drops by exactly the number removed, the reply reports that
/// number, and the remaining elements keep their order (they are the
/// front-to-back scan of the survivors).
pub proof fn lemma_lrem_all_occurrences(
    m: Map<Seq<char>, RecordModel>,
    cmd: Seq<Seq<char>>,
    now: u64,
)
    requires
        cmd.len() == 4,
        valid_i64_text(vstd::utf8::encode_utf8(cmd[2])),
        signed_value(vstd::utf8::encode_utf8(cmd[2])) == 0,
        live(m, cmd[1], now),
        m[cmd[1]].value is List,
    ensures
        ({
            let l = m[cmd[1]].value->List_0;
            let x = cmd[3];
            let kept = remove_fwd(l, x, l.len());
            &&& spec_lrem(m, cmd, now).0[cmd[1]].value == ValueModel::List(kept)
            &&& spec_lrem(m, cmd, now).1 == integer_bytes(count_matches(l, x))
            &&& kept.len() + count_matches(l, x) == l.len()
            &&& forall|i: int| 0 <= i < kept.len() ==> kept[i] != x
        }),
{
    let l = m[cmd[1]].value->List_0;
    let x = cmd[3];
    lemma_remove_all(l, x, l.len());
}

/// Law: a pair write reports the number of pairs given, whether the
/// fields were new or already present.
pub proof fn lemma_hset_counts_pairs(
    m: Map<Seq<char>, RecordModel>,
    cmd: Seq<Seq<char>>,
    now: u64,
)
    requires
        cmd.len() >= 2,
        cmd.len() % 2 == 0,
        !live(m, cmd[1], now) || m[cmd[1]].value is Hash,
    ensures
        spec_hset(m, cmd, now).1 == integer_bytes(((cmd.len() - 2) / 2) as nat),
{
}

/// The store after `n` single-item tail pushes of `x` onto `k`.
pub open spec fn rpush_iter(
    m: Map<Seq<char>, RecordModel>,
    k: Seq<char>,
    x: Seq<char>,
    n: nat,
    now: u64,
) -> Map<Seq<char>, RecordModel>
    decreases n,
{
    if n == 0 {
        m
    } else {
        spec_push(rpush_iter(m, k, x, (n - 1) as nat, now), seq!["rpush"@, k, x], now).0
    }
}

/// Law: pushes commute with counting — however many clients' single-item
/// tail pushes are interleaved, after `n` of them in total the list at the
/// key holds exactly `n` more elements, and a length read reports it.
pub proof fn lemma_rpush_llen(
    m: Map<Seq<char>, RecordModel>,
    k: Seq<char>,
    x: Seq<char>,
    n: nat,
    now: u64,
)
    requires
        !live(m, k, now),
    ensures
        n > 0 ==> {
            let m2 = rpush_iter(m, k, x, n, now);
            &&& live(m2, k, now)
            &&& m2[k].value is List
            &&& m2[k].value->List_0.len() == n
            &&& spec_llen(m2, seq!["llen"@, k], now).1 == integer_bytes(n)
        },
    decreases n,
{
    if n > 0 {
        lemma_rpush_llen(m, k, x, (n - 1) as nat, now);
        let prev = rpush_iter(m, k, x, (n - 1) as nat, now);
        let cmd = seq!["rpush"@, k, x];
        assert(cmd.len() == 3);
        assert(cmd[1] == k);
        assert(cmd.skip(2) =~= seq![x]);
        if n == 1 {
            assert(!live(prev, k, now));
        }
        let m2 = rpush_iter(m, k, x, n, now);
        assert(m2 == spec_push(prev, cmd, now).0);
        let lc = seq!["llen"@, k];
        assert(lc.len() == 2);
        assert(lc[1] == k);
    }
}

/// Ten to the `n`.
pub open spec fn pow10(n: nat) -> nat
    decreases n,
{
    if n == 0 {
        1
    } else {
        10 * pow10((n - 1) as nat)
    }
}

/// A rendered decimal is at least one byte, all of them digits.
proof fn lemma_dec_digits_are_digits(n: nat)
    ensures
        dec_digits(n).len() >= 1,
        forall|i: int|
            0 <= i < dec_digits(n).len() ==> crate::decoder::is_digit(#[trigger] dec_digits(n)[i]),
    decreases n,
{
    if n >= 10 {
        lemma_dec_digits_are_digits(n / 10);
    }
}

/// Reading a rendered decimal block accumulates its value: the scan moves
/// past the block and multiplies what it had by the block's magnitude.
proof fn lemma_read_digits_gen(b: Seq<u8>, p: int, acc: nat, nd: nat, n: nat)
    requires
        0 <= p,
        p + dec_digits(n).len() <= b.len(),
        b.subrange(p, p + dec_digits(n).len()) == dec_digits(n),
        acc * pow10(dec_digits(n).len()) + n <= crate::resp::MAX_FIELD,
    ensures
        spec_read_num(b, p, acc, nd) == spec_read_num(
            b,
            p + dec_digits(n).len(),
            acc * pow10(dec_digits(n).len()) + n,
            nd + dec_digits(n).len(),
        ),
    decreases n,
{
    lemma_dec_digits_are_digits(n);
    if n < 10 {
        assert(b[p] == dec_digits(n)[0]);
        assert(b[p] == 48 + n);
        assert(pow10(0) == 1);
        assert(pow10(1) == 10);
        assert(acc * 10 + n <= crate::resp::MAX_FIELD);
    } else {
        let ds = dec_digits(n);
        let ds1 = dec_digits(n / 10);
        let dlen1 = ds1.len() as int;
        assert(ds == ds1 + seq![(48 + n % 10) as u8]);
        assert(b.subrange(p, p + dlen1) =~= ds1) by {
            assert(forall|i: int|
                0 <= i < dlen1 ==> b.subrange(p, p + ds.len())[i] == ds[i]);
        }
        assert(pow10((dlen1 + 1) as nat) == 10 * pow10(dlen1 as nat));
        assert(acc * pow10((dlen1 + 1) as nat) + n == (acc * pow10(dlen1 as nat) + n / 10) * 10
            + n % 10) by (nonlinear_arith)
            requires
                pow10((dlen1 + 1) as nat) == 10 * pow10(dlen1 as nat),
                n >= 10,
        ;
        assert(acc * pow10(dlen1 as nat) + n / 10 <= acc * pow10((dlen1 + 1) as nat) + n) by {
            assert((acc * pow10(dlen1 as nat) + n / 10) * 10 >= acc * pow10(dlen1 as nat) + n
                / 10) by (nonlinear_arith);
        }
        lemma_read_digits_gen(b, p, acc, nd, n / 10);
        let acc1 = acc * pow10(dlen1 as nat) + n / 10;
        assert(b[p + dlen1] == ds[ds.len() - 1]);
        assert(b[p + dlen1] == 48 + n % 10);
        assert(spec_read_num(b, p + dlen1, acc1, nd + dlen1 as nat) == spec_read_num(
            b,
            p + dlen1 + 1,
            acc1 * 10 + n % 10,
            nd + dlen1 as nat + 1,
        ));
    }
}

/// Parsing at a position where a bulk-string encoding stands yields its
/// payload and lands just past the encoding.
proof fn lemma_bulk_at(b: Seq<u8>, p: int, x: Seq<u8>)
    requires
        0 <= p,
        x.len() <= crate::resp::MAX_FIELD,
        p + bulk_of_bytes(x).len() <= b.len(),
        b.subrange(p, p + bulk_of_bytes(x).len()) == bulk_of_bytes(x),
    ensures
        spec_parse_bulk(b, p) == SpecBulk::Found(x, p + bulk_of_bytes(x).len()),
{
    let enc = bulk_of_bytes(x);
    let ds = dec_digits(x.len());
    let dlen = ds.len() as int;
    lemma_dec_digits_are_digits(x.len());
    assert(b[p] == DOLLAR) by {
        assert(b.subrange(p, p + enc.len())[0] == enc[0]);
    }
    assert forall|i: int| 0 <= i < dlen implies b.subrange(p + 1, p + 1 + dlen)[i] == ds[i] by {
        assert(b.subrange(p, p + enc.len())[1 + i] == enc[1 + i]);
    }
    assert(b.subrange(p + 1, p + 1 + dlen) =~= ds);
    lemma_read_digits_gen(b, p + 1, 0, 0, x.len());
    assert(0 * pow10(ds.len()) + x.len() == x.len()) by (nonlinear_arith);
    assert(b[p + 1 + dlen] == CR) by {
        assert(b.subrange(p, p + enc.len())[1 + dlen] == enc[1 + dlen]);
    }
    assert(b[p + 1 + dlen + 1] == LF) by {
        assert(b.subrange(p, p + enc.len())[1 + dlen + 1] == enc[1 + dlen + 1]);
    }
    assert(spec_read_num(b, p + 1, 0, 0) == SpecNum::Found(x.len(), p + 1 + dlen + 2));
    let q = p + 3 + dlen;
    assert(q + x.len() + 2 <= b.len());
    assert forall|i: int| 0 <= i < x.len() implies b.subrange(q, q + x.len())[i] == x[i] by {
        assert(b.subrange(p, p + enc.len())[3 + dlen + i] == enc[3 + dlen + i]);
    }
    assert(b.subrange(q, q + x.len()) =~= x);
    assert(b[q + x.len()] == CR) by {
        assert(b.subrange(p, p + enc.len())[3 + dlen + x.len()] == enc[3 + dlen + x.len()]);
    }
    assert(b[q + x.len() + 1] == LF) by {
        assert(b.subrange(p, p + enc.len())[3 + dlen + x.len() + 1] == enc[3 + dlen + x.len()
            + 1]);
    }
    assert(enc.len() == 3 + dlen + x.len() + 2);
}

/// Law: encoding any byte sequence as a bulk string and parsing the
/// result — with anything at all after it — yields that sequence back and
/// consumes exactly the encoding (for payloads up to the parser's length
/// bound).
pub proof fn lemma_bulk_round_trip(x: Seq<u8>, tail: Seq<u8>)
    requires
        x.len() <= crate::resp::MAX_FIELD,
    ensures
        spec_parse_bulk(bulk_of_bytes(x) + tail, 0) == SpecBulk::Found(
            x,
            bulk_of_bytes(x).len() as int,
        ),
{
    let enc = bulk_of_bytes(x);
    let b = enc + tail;
    assert(b.subrange(0, enc.len() as int) =~= enc);
    lemma_bulk_at(b, 0, x);
}

/// The encodings of a run of bulk strings, in order, concatenated.
pub open spec fn bulks_frames(args: Seq<Seq<u8>>) -> Seq<u8>
    decreases args.len(),
{
    if args.len() == 0 {
        Seq::empty()
    } else {
        bulk_of_bytes(args[0]) + bulks_frames(args.drop_first())
    }
}

/// The whole frame of a request carrying the given arguments: the count,
/// then each argument as a bulk string.
pub open spec fn request_frame(args: Seq<Seq<u8>>) -> Seq<u8> {
    seq![STAR] + dec_digits(args.len()) + crate::encoder::crlf() + bulks_frames(args)
}

/// Parsing a run of bulk strings where their encodings stand yields the
/// arguments and lands just past the run.
proof fn lemma_parse_args_at(b: Seq<u8>, p: int, args: Seq<Seq<u8>>)
    requires
        0 <= p,
        forall|i: int| 0 <= i < args.len() ==> (#[trigger] args[i]).len() <= crate::resp::MAX_FIELD,
        p + bulks_frames(args).len() <= b.len(),
        b.subrange(p, p + bulks_frames(args).len()) == bulks_frames(args),
    ensures
        spec_parse_args(b, p, args.len()) == SpecArgs::Found(
            args,
            p + bulks_frames(args).len(),
        ),
    decreases args.len(),
{
    if args.len() == 0 {
        assert(Seq::<Seq<u8>>::empty() =~= args);
    } else {
        let x = args[0];
        let enc0 = bulk_of_bytes(x);
        let whole = bulks_frames(args);
        let rest = bulks_frames(args.drop_first());
        assert(whole == enc0 + rest);
        assert forall|i: int|
            0 <= i < enc0.len() implies b.subrange(p, p + enc0.len())[i] == enc0[i] by {
            assert(b.subrange(p, p + whole.len())[i] == whole[i]);
        }
        assert(b.subrange(p, p + enc0.len()) =~= enc0);
        lemma_bulk_at(b, p, x);
        let q = p + enc0.len() as int;
        assert forall|i: int|
            0 <= i < rest.len() implies b.subrange(q, q + rest.len())[i] == rest[i] by {
            assert(b.subrange(p, p + whole.len())[enc0.len() + i] == whole[enc0.len() + i]);
        }
        assert(b.subrange(q, q + rest.len()) =~= rest);
        lemma_parse_args_at(b, q, args.drop_first());
        assert(seq![x] + args.drop_first() =~= args);
    }
}

/// Law: framing any argument vector as a request and parsing the result —
/// with anything at all after it — yields the arguments back and consumes
/// exactly the frame (for counts and payload lengths up to the parser's
/// bound).
pub proof fn lemma_request_round_trip(args: Seq<Seq<u8>>, tail: Seq<u8>)
    requires
        args.len() <= crate::resp::MAX_FIELD,
        forall|i: int| 0 <= i < args.len() ==> (#[trigger] args[i]).len() <= crate::resp::MAX_FIELD,
    ensures
        spec_parse_request(request_frame(args) + tail) == SpecParse::Complete(
            args,
            request_frame(args).len() as int,
        ),
{
    let fr = request_frame(args);
    let b = fr + tail;
    let ds = dec_digits(args.len());
    let dlen = ds.len() as int;
    lemma_dec_digits_are_digits(args.len());
    assert(b[0] == STAR);
    assert(b.subrange(1, 1 + dlen) =~= ds);
    lemma_read_digits_gen(b, 1, 0, 0, args.len());
    assert(0 * pow10(ds.len()) + args.len() == args.len()) by (nonlinear_arith);
    assert(b[1 + dlen] == CR);
    assert(b[1 + dlen + 1] == LF);
    assert(spec_read_num(b, 1, 0, 0) == SpecNum::Found(args.len(), 3 + dlen));
    let p = 3 + dlen;
    assert(b.subrange(p, p + bulks_frames(args).len()) =~= bulks_frames(args));
    lemma_parse_args_at(b, p, args);
    assert(fr.len() == p + bulks_frames(args).len());
}

} // verus!
