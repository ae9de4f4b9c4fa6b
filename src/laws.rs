//! Properties of the engine that relate several of its operations.
use crate::engine::{apply_op, latest_loc, log_of, parse_log, prepend, replay, KvStore};
use crate::record::{encodable, encoded, is_put_of, lemma_parse_encoded, parse_op, put_value, Op};
use vstd::prelude::*;

verus! {

/// The value the latest operation on `k` in `ops` leaves it with: the value
/// of the latest put of `k` that no later remove or put of `k` follows, or
/// `None`.
pub open spec fn latest(ops: Seq<Op>, k: Seq<char>) -> Option<Seq<char>>
    decreases ops.len(),
{
    if ops.len() == 0 {
        None
    } else if ops.last().key() == k {
        match ops.last() {
            Op::Put(_, v) => Some(v),
            Op::Remove(_) => None,
        }
    } else {
        latest(ops.drop_last(), k)
    }
}

/// After any sequence of operations, a key is bound exactly when its latest
/// operation was a put, and then to the value that put wrote.
pub proof fn law_latest_write_wins(ops: Seq<Op>, k: Seq<char>)
    ensures
        replay(ops).contains_key(k) <==> latest(ops, k) is Some,
        latest(ops, k) is Some ==> replay(ops)[k] == latest(ops, k)->0,
    decreases ops.len(),
{
    if ops.len() > 0 {
        law_latest_write_wins(ops.drop_last(), k);
    }
}

/// The records of `ops`, followed by more bytes, are read back as `ops`
/// followed by what those bytes hold.
proof fn lemma_parse_log_of(ops: Seq<Op>, rest: Seq<u8>)
    requires
        forall|i: int| 0 <= i < ops.len() ==> encodable(#[trigger] ops[i]),
    ensures
        parse_log(log_of(ops) + rest) == prepend(ops, parse_log(rest)),
    decreases ops.len(),
{
    if ops.len() == 0 {
        assert(log_of(ops) + rest =~= rest);
        if let Some(t) = parse_log(rest) {
            assert(ops + t =~= t);
        }
    } else {
        let init = ops.drop_last();
        let last = ops.last();
        assert(encodable(ops[ops.len() - 1]));
        let tail = encoded(last) + rest;
        assert(log_of(ops) + rest =~= log_of(init) + tail);
        lemma_parse_log_of(init, tail);
        lemma_parse_encoded(last, rest);
        assert(tail.subrange(encoded(last).len() as int, tail.len() as int) =~= rest);
        if let Some(t) = parse_log(rest) {
            assert(init + (seq![last] + t) =~= ops + t);
        }
    }
}

/// Reopening: the log that an engine has written replays to the operations
/// it holds, so an engine opened on those bytes serves the same bindings.
pub proof fn law_reopen(s: &KvStore)
    requires
        s.wf(),
    ensures
        parse_log(s.log()) == Some(s.ops()),
{
    lemma_parse_log_of(s.ops(), Seq::empty());
    assert(s.log() + Seq::<u8>::empty() =~= s.log());
    assert(s.ops() + Seq::<Op>::empty() =~= s.ops());
}

/// Two engines whose logs replay to the same operations serve the same bindings.
pub proof fn law_reopen_same_bindings(s: &KvStore, reopened: &KvStore)
    requires
        s.wf(),
        parse_log(s.log()) == Some(reopened.ops()),
    ensures
        reopened@ == s@,
{
    law_reopen(s);
}

/// Each entry of the index points at a put record of its key, in the log of
/// the current generation, holding the key's value.
pub proof fn law_index_points_at_records(s: &KvStore, k: Seq<char>)
    requires
        s.wf(),
        s.index().contains_key(k),
    ensures
        s.index()[k].0 == s.version(),
        s.index()[k].1 + s.index()[k].2 <= s.log().len(),
        parse_op(s.segment(s.index()[k])) == Some((Op::Put(k, s@[k]), s.index()[k].2 as nat)),
{
    assert(s.entry_ok(k));
}

/// Reading a bound key: the record its entry points at is a put of that key
/// holding its value.
pub proof fn law_read_back(s: &KvStore, k: Seq<char>)
    requires
        s.wf(),
        s@.contains_key(k),
    ensures
        s.index().contains_key(k),
        is_put_of(s.segment(s.index()[k]), k),
        put_value(s.segment(s.index()[k])) == s@[k],
{
    assert(s.entry_ok(k));
}

/// A put is read back: after putting `v` at `k`, reading `k` gives `v`.
pub proof fn law_put_then_get(s: &KvStore, t: &KvStore, k: Seq<char>, v: Seq<char>)
    requires
        s.wf(),
        t.wf(),
        t@ == apply_op(s@, Op::Put(k, v)),
    ensures
        t.index().contains_key(k),
        is_put_of(t.segment(t.index()[k]), k),
        put_value(t.segment(t.index()[k])) == v,
{
    law_read_back(t, k);
}

/// The later of two puts at one key wins.
pub proof fn law_put_twice_then_get(
    s: &KvStore,
    t: &KvStore,
    u: &KvStore,
    k: Seq<char>,
    v1: Seq<char>,
    v2: Seq<char>,
)
    requires
        s.wf(),
        t.wf(),
        u.wf(),
        t@ == apply_op(s@, Op::Put(k, v1)),
        u@ == apply_op(t@, Op::Put(k, v2)),
    ensures
        u.index().contains_key(k),
        put_value(u.segment(u.index()[k])) == v2,
{
    law_read_back(u, k);
}

/// A removed key is no longer bound: looking it up finds nothing.
pub proof fn law_put_then_remove(s: &KvStore, t: &KvStore, u: &KvStore, k: Seq<char>, v: Seq<char>)
    requires
        s.wf(),
        t.wf(),
        u.wf(),
        t@ == apply_op(s@, Op::Put(k, v)),
        u@ == apply_op(t@, Op::Remove(k)),
    ensures
        !u@.contains_key(k),
        !u.index().contains_key(k),
{
}

/// The index of a log names, for each key whose latest operation is a put,
/// the offset and length of that latest record, and no other key: the entry
/// of `k` is `(version, offset of record j, length of record j)` where `j`
/// is the last operation on `k`.
pub proof fn law_index_is_latest_record(ops: Seq<Op>, version: u64, k: Seq<char>)
    ensures
        latest_loc(ops, version).contains_key(k) <==> latest(ops, k) is Some,
        latest_loc(ops, version).contains_key(k) ==> exists|j: int|
            #![trigger ops[j]]
            {
                &&& 0 <= j < ops.len()
                &&& ops[j] == Op::Put(k, latest(ops, k)->0)
                &&& forall|j2: int| j < j2 < ops.len() ==> (#[trigger] ops[j2]).key() != k
                &&& latest_loc(ops, version)[k] == (
                    version,
                    log_of(ops.take(j)).len() as u64,
                    encoded(ops[j]).len() as u64,
                )
            },
    decreases ops.len(),
{
    if ops.len() > 0 {
        let prev = ops.drop_last();
        let last = ops.len() - 1;
        law_index_is_latest_record(prev, version, k);
        if ops.last().key() == k {
            if latest_loc(ops, version).contains_key(k) {
                assert(ops.take(last) =~= prev);
                assert(ops[last] == ops.last());
            }
        } else if latest_loc(ops, version).contains_key(k) {
            let j = choose|j: int|
                #![trigger prev[j]]
                {
                    &&& 0 <= j < prev.len()
                    &&& prev[j] == Op::Put(k, latest(prev, k)->0)
                    &&& forall|j2: int| j < j2 < prev.len() ==> (#[trigger] prev[j2]).key() != k
                    &&& latest_loc(prev, version)[k] == (
                        version,
                        log_of(prev.take(j)).len() as u64,
                        encoded(prev[j]).len() as u64,
                    )
                };
            assert(ops.take(j) =~= prev.take(j));
            assert(ops[j] == prev[j]);
            assert forall|j2: int| j < j2 < ops.len() implies (#[trigger] ops[j2]).key() != k by {
                if j2 < last {
                    assert(ops[j2] == prev[j2]);
                }
            }
        }
    }
}

} // verus!
