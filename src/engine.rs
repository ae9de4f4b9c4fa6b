//! The storage engine: an index over an append-only log of records.
//!
//! The engine is kept apart from the files it describes. It tells its caller
//! which bytes to append and where to read, and is told what was appended and
//! what was read. Its state is modelled by the sequence of operations its
//! current log holds; the bindings it serves are what those operations leave
//! when applied in order.
use crate::error::{KvStoreError, Result};
use crate::index::{
    index_entries, index_get, index_insert, index_len, index_new, index_remove, index_contents,
    Index, Location,
};
use crate::meta::{KvMeta, KvStoreMeta};
use crate::record::{
    read_value,
    decode, encodable, encode, encoded, is_put_of, lemma_parse_canonical, lemma_parse_encoded,
    parse_op, put_value, whole_record, Command, Op,
};
use vstd::prelude::*;

verus! {

/// Once this many bytes were written since the last compaction, the next
/// write compacts the log first.
pub const COMPACTION_POINT: u64 = 1000000;

/// The bytes of a log that holds `ops`, in order.
pub open spec fn log_of(ops: Seq<Op>) -> Seq<u8>
    decreases ops.len(),
{
    if ops.len() == 0 {
        Seq::empty()
    } else {
        log_of(ops.drop_last()) + encoded(ops.last())
    }
}

/// The bindings after `op` is applied to `m`.
pub open spec fn apply_op(m: Map<Seq<char>, Seq<char>>, op: Op) -> Map<Seq<char>, Seq<char>> {
    match op {
        Op::Put(k, v) => m.insert(k, v),
        Op::Remove(k) => m.remove(k),
    }
}

/// The bindings that `ops` leave when applied in order to an empty store.
pub open spec fn replay(ops: Seq<Op>) -> Map<Seq<char>, Seq<char>>
    decreases ops.len(),
{
    if ops.len() == 0 {
        Map::empty()
    } else {
        apply_op(replay(ops.drop_last()), ops.last())
    }
}

/// `a` followed by the operations in `o`, if there are any.
pub open spec fn prepend(a: Seq<Op>, o: Option<Seq<Op>>) -> Option<Seq<Op>> {
    match o {
        Some(t) => Some(a + t),
        None => None,
    }
}

/// The operations of a log, if it is a whole number of records.
pub open spec fn parse_log(s: Seq<u8>) -> Option<Seq<Op>>
    decreases s.len(),
{
    if s.len() == 0 {
        Some(Seq::empty())
    } else {
        match parse_op(s) {
            Some((op, n)) => if 0 < n <= s.len() {
                prepend(seq![op], parse_log(s.subrange(n as int, s.len() as int)))
            } else {
                None
            },
            None => None,
        }
    }
}

/// The operation of the record at the start of `b`.
pub open spec fn record_op(b: Seq<u8>) -> Op {
    match parse_op(b) {
        Some((op, _)) => op,
        None => Op::Remove(Seq::empty()),
    }
}

/// `a + b`, or `u64::MAX` where that does not fit.
pub open spec fn saturating_sum(a: u64, b: nat) -> u64 {
    if a + b <= u64::MAX {
        (a + b) as u64
    } else {
        u64::MAX
    }
}

/// The index after `op` is appended at `loc`: a put points its key at `loc`,
/// a remove drops its key.
pub open spec fn place_op(m: Map<Seq<char>, Location>, op: Op, loc: Location) -> Map<
    Seq<char>,
    Location,
> {
    match op {
        Op::Put(k, _) => m.insert(k, loc),
        Op::Remove(k) => m.remove(k),
    }
}

/// The place of each key's latest record in the log of generation `version`
/// that holds `ops`, for the keys whose latest record is a put.
pub open spec fn latest_loc(ops: Seq<Op>, version: u64) -> Map<Seq<char>, Location>
    decreases ops.len(),
{
    if ops.len() == 0 {
        Map::empty()
    } else {
        let prev = ops.drop_last();
        place_op(
            latest_loc(prev, version),
            ops.last(),
            (version, log_of(prev).len() as u64, encoded(ops.last()).len() as u64),
        )
    }
}

/// The engine's state for one database directory.
pub struct KvStore {
    meta: KvStoreMeta,
    entrypoints: Index,
    log_len: u64,
    ops: Ghost<Seq<Op>>,
}

impl View for KvStore {
    type V = Map<Seq<char>, Seq<char>>;

    open spec fn view(&self) -> Map<Seq<char>, Seq<char>> {
        replay(self.ops())
    }
}

impl KvStore {
    /// The operations that the current log holds, in order.
    pub closed spec fn ops(&self) -> Seq<Op> {
        self.ops@
    }

    /// The bytes of the current log.
    pub open spec fn log(&self) -> Seq<u8> {
        log_of(self.ops())
    }

    /// The index: each live key and the place of its latest record.
    pub closed spec fn index(&self) -> Map<Seq<char>, Location> {
        index_contents(self.entrypoints)
    }

    /// The current log generation.
    pub closed spec fn version(&self) -> u64 {
        self.meta.version
    }

    /// Bytes written since the last compaction.
    pub closed spec fn uncompact_size(&self) -> u64 {
        self.meta.uncompact_size
    }

    /// The database directory.
    pub closed spec fn db_dir(&self) -> Seq<char> {
        self.meta.db_dir@
    }

    /// The length the engine has recorded for the current log.
    pub closed spec fn log_size(&self) -> u64 {
        self.log_len
    }

    /// The bytes of the current log at `loc`.
    pub open spec fn segment(&self, loc: Location) -> Seq<u8> {
        self.log().subrange(loc.1 as int, loc.1 + loc.2)
    }

    /// The entry of `k` points at a record in the current log that binds `k`
    /// to its value.
    pub open spec fn entry_ok(&self, k: Seq<char>) -> bool {
        let loc = self.index()[k];
        &&& loc.0 == self.version()
        &&& loc.1 + loc.2 <= self.log().len()
        &&& parse_op(self.segment(loc)) == Some((Op::Put(k, self@[k]), loc.2 as nat))
    }

    /// The engine's invariant.
    pub open spec fn wf(&self) -> bool {
        &&& self.log_size() == self.log().len()
        &&& forall|i: int| 0 <= i < self.ops().len() ==> encodable(#[trigger] self.ops()[i])
        &&& self.index().dom().finite()
        &&& self.index() == latest_loc(self.ops(), self.version())
        &&& self.index().dom() == self@.dom()
        &&& forall|k: Seq<char>| #[trigger] self.index().contains_key(k) ==> self.entry_ok(k)
    }

    /// Appends `cmd`, which takes `n` bytes, to the model and the index.
    fn apply_command(&mut self, cmd: Command, n: usize)
        requires
            old(self).wf(),
            encodable(cmd@),
            encoded(cmd@).len() == n,
            old(self).log_len + n <= u64::MAX,
        ensures
            final(self).wf(),
            final(self).ops() == old(self).ops().push(cmd@),
            final(self).meta == old(self).meta,
            final(self).index() == place_op(
                old(self).index(),
                cmd@,
                (old(self).version(), old(self).log_size(), n as u64),
            ),
    {
        let ghost op = cmd@;
        let ghost old_ops = self.ops@;
        let ghost old_log = self.log();
        let ghost old_index = self.index();
        let ghost old_view = self@;
        let pos = self.log_len;
        match cmd {
            Command::Put { key, value } => {
                index_insert(&mut self.entrypoints, key, (self.meta.version, pos, n as u64));
            },
            Command::Remove { key } => {
                index_remove(&mut self.entrypoints, &key);
            },
        }
        self.log_len = pos + n as u64;
        self.ops = Ghost(self.ops@.push(op));
        proof {
            assert(self.ops@.drop_last() =~= old_ops);
            assert(self.log() == old_log + encoded(op));
            assert(self@ == apply_op(old_view, op));
            assert(self.index() =~= place_op(old_index, op, (self.meta.version, pos, n as u64)));
            assert(self.index().dom() =~= self@.dom());
            assert forall|i: int| 0 <= i < self.ops().len() implies encodable(
                #[trigger] self.ops()[i],
            ) by {
                if i < old_ops.len() {
                    assert(self.ops()[i] == old_ops[i]);
                }
            }
            assert forall|k: Seq<char>| #[trigger] self.index().contains_key(k) implies self.entry_ok(
                k,
            ) by {
                let loc = self.index()[k];
                if k == op.key() {
                    lemma_parse_encoded(op, Seq::empty());
                    assert(encoded(op) + Seq::<u8>::empty() =~= encoded(op));
                    assert(self.segment(loc) =~= encoded(op));
                } else {
                    assert(old_index.contains_key(k));
                    assert(self.segment(loc) =~= old_log.subrange(loc.1 as int, loc.1 + loc.2));
                }
            }
        }
    }

    /// Builds the engine for a directory from its meta record and the bytes
    /// of its current log, replaying the log record by record.
    pub fn open(meta: KvMeta, log: &[u8]) -> (r: Result<KvStore>)
        ensures
            match r {
                Ok(s) => {
                    &&& s.wf()
                    &&& parse_log(log@) == Some(s.ops())
                    &&& s.log() == log@
                    &&& s.version() == meta.version
                    &&& s.uncompact_size() == meta.uncompact_size
                    &&& s.db_dir() == meta.db_dir@
                },
                Err(e) => parse_log(log@) is None && e is Codec,
            },
    {
        let mut store = KvStore {
            meta: KvStoreMeta {
                uncompact_size: meta.uncompact_size,
                db_dir: meta.db_dir,
                version: meta.version,
            },
            entrypoints: index_new(),
            log_len: 0,
            ops: Ghost(Seq::empty()),
        };
        let len = log.len();
        proof {
            assert(log@.subrange(0, len as int) =~= log@);
            if let Some(t) = parse_log(log@) {
                assert(Seq::<Op>::empty() + t =~= t);
            }
            assert(store.index().dom() =~= store@.dom());
            assert(store.log() =~= log@.subrange(0, 0));
        }
        let mut pos: usize = 0;
        while pos < len
            invariant
                len == log@.len(),
                store.wf(),
                pos <= len,
                store.log_len == pos,
                store.log() == log@.subrange(0, pos as int),
                parse_log(log@) == prepend(
                    store.ops(),
                    parse_log(log@.subrange(pos as int, len as int)),
                ),
                store.meta.version == meta.version,
                store.meta.uncompact_size == meta.uncompact_size,
                store.meta.db_dir@ == meta.db_dir@,
            decreases len - pos,
        {
            let ghost sub = log@.subrange(pos as int, len as int);
            match decode(log, pos) {
                Some((cmd, n)) => {
                    proof {
                        lemma_parse_canonical(sub);
                        let rest = sub.subrange(n as int, sub.len() as int);
                        assert(rest =~= log@.subrange(pos + n, len as int));
                        let ops = store.ops();
                        if let Some(t) = parse_log(rest) {
                            assert(ops + (seq![cmd@] + t) =~= ops.push(cmd@) + t);
                        }
                        assert(sub.subrange(0, n as int) =~= log@.subrange(pos as int, pos + n));
                    }
                    let ghost before_ops = store.ops();
                    store.apply_command(cmd, n);
                    proof {
                        assert(store.ops().drop_last() =~= before_ops);
                        assert(store.log() =~= log@.subrange(0, pos + n));
                    }
                    pos = pos + n;
                },
                None => {
                    return Err(KvStoreError::Codec);
                },
            }
        }
        proof {
            assert(log@.subrange(len as int, len as int) =~= Seq::<u8>::empty());
            assert(store.ops() + Seq::<Op>::empty() =~= store.ops());
            assert(log@.subrange(0, len as int) =~= log@);
        }
        Ok(store)
    }

    /// The current log generation.
    pub fn current_version(&self) -> (r: u64)
        ensures
            r == self.version(),
    {
        self.meta.version
    }

    /// The length of the current log, as far as the engine wrote it.
    pub fn log_length(&self) -> (r: u64)
        ensures
            r == self.log_size(),
    {
        self.log_len
    }

    /// The meta record to be stored for this engine.
    pub fn current_meta(&self) -> (r: KvMeta)
        ensures
            r.version == self.version(),
            r.uncompact_size == self.uncompact_size(),
            r.db_dir@ == self.db_dir(),
    {
        self.meta.clone_to_plain_meta()
    }

    /// Records that `rec` was appended to the current log: the index and the
    /// count of written bytes follow it. Every record counts toward
    /// compaction, whether or not it supersedes an earlier one.
    pub fn apply(&mut self, rec: &[u8]) -> (r: Result<()>)
        requires
            old(self).wf(),
        ensures
            final(self).wf(),
            r is Ok <==> whole_record(rec@) && old(self).log_size() + rec@.len() <= u64::MAX,
            match r {
                Ok(()) => {
                    &&& final(self).ops() == old(self).ops().push(record_op(rec@))
                    &&& final(self)@ == apply_op(old(self)@, record_op(rec@))
                    &&& final(self).log() == old(self).log() + rec@
                    &&& final(self).uncompact_size() == saturating_sum(
                        old(self).uncompact_size(),
                        rec@.len(),
                    )
                    &&& final(self).index() == place_op(
                        old(self).index(),
                        record_op(rec@),
                        (old(self).version(), old(self).log_size(), rec@.len() as u64),
                    )
                    &&& final(self).version() == old(self).version()
                    &&& final(self).db_dir() == old(self).db_dir()
                },
                Err(e) => {
                    &&& *final(self) == *old(self)
                    &&& if whole_record(rec@) {
                        e is Io
                    } else {
                        e is Codec
                    }
                },
            },
    {
        proof {
            assert(rec@.subrange(0, rec@.len() as int) =~= rec@);
        }
        match decode(rec, 0) {
            Some((cmd, n)) => {
                if n != rec.len() {
                    return Err(KvStoreError::Codec);
                }
                if rec.len() as u64 > u64::MAX - self.log_len {
                    return Err(KvStoreError::Io("log would exceed its largest size".to_owned()));
                }
                proof {
                    lemma_parse_canonical(rec@);
                    assert(rec@.subrange(0, n as int) =~= rec@);
                }
                let ghost before = self.ops();
                self.apply_command(cmd, n);
                proof {
                    assert(self.ops().drop_last() =~= before);
                }
                let add = n as u64;
                if self.meta.uncompact_size > u64::MAX - add {
                    self.meta.uncompact_size = u64::MAX;
                } else {
                    self.meta.uncompact_size = self.meta.uncompact_size + add;
                }
                Ok(())
            },
            None => Err(KvStoreError::Codec),
        }
    }

    /// The place of the latest record of `key`, if `key` is bound.
    pub fn lookup(&self, key: &String) -> (r: Option<Location>)
        requires
            self.wf(),
        ensures
            match r {
                Some(loc) => self@.contains_key(key@) && self.index()[key@] == loc,
                None => !self@.contains_key(key@),
            },
    {
        index_get(&self.entrypoints, key)
    }

    /// The record that binds `key` to `value`, to be appended to the log.
    pub fn put_record(key: String, value: String) -> (r: Vec<u8>)
        ensures
            r@ == encoded(Op::Put(key@, value@)),
            whole_record(r@),
            record_op(r@) == Op::Put(key@, value@),
    {
        let r = encode(&Command::Put { key, value });
        proof {
            lemma_parse_canonical_of_encoded(Op::Put(key@, value@));
        }
        r
    }

    /// The record that removes `key`, to be appended to the log; fails with
    /// `KeyNotFound` where `key` is not bound.
    pub fn remove_record(&self, key: String) -> (r: Result<Vec<u8>>)
        requires
            self.wf(),
        ensures
            match r {
                Ok(b) => {
                    &&& self@.contains_key(key@)
                    &&& b@ == encoded(Op::Remove(key@))
                    &&& whole_record(b@)
                    &&& record_op(b@) == Op::Remove(key@)
                },
                Err(e) => !self@.contains_key(key@) && e is KeyNotFound,
            },
    {
        if index_get(&self.entrypoints, &key).is_none() {
            return Err(KvStoreError::KeyNotFound);
        }
        let ghost k = key@;
        let r = encode(&Command::Remove { key });
        proof {
            lemma_parse_canonical_of_encoded(Op::Remove(k));
        }
        Ok(r)
    }

    /// Whether enough was written since the last compaction to compact first.
    pub fn needs_compaction(&self) -> (r: bool)
        ensures
            r == (self.uncompact_size() >= COMPACTION_POINT),
    {
        self.meta.uncompact_size >= COMPACTION_POINT
    }

    /// The live entries of the index, each key once: what a compaction reads.
    pub fn compaction_plan(&self) -> (r: Vec<(String, Location)>)
        requires
            self.wf(),
        ensures
            r@.len() == self.index().len(),
            forall|i: int|
                #![trigger r@[i]]
                0 <= i < r@.len() ==> self.index().contains_key(r@[i].0@) && self.index()[r@[i].0@]
                    == r@[i].1,
            forall|i: int, j: int| 0 <= i < j < r@.len() ==> r@[i].0@ != r@[j].0@,
    {
        let r = index_entries(&self.entrypoints);
        assert forall|i: int| 0 <= i < r@.len() implies self.index().contains_key(r@[i].0@)
            && self.index()[r@[i].0@] == r@[i].1 by {
            assert(index_contents(self.entrypoints).contains_key(r@[i].0@));
        }
        r
    }
}

/// The put records that a compaction writes: one for each entry of `live`,
/// in order, binding its key to the value its bytes hold.
pub open spec fn compacted_ops(live: Seq<(String, Vec<u8>)>) -> Seq<Op> {
    Seq::new(live.len(), |i: int| Op::Put(live[i].0@, put_value(live[i].1@)))
}

/// A compaction that was prepared and not yet committed: the log of the next
/// generation and the index into it.
pub struct Compaction {
    entrypoints: Index,
    log: Vec<u8>,
    ops: Ghost<Seq<Op>>,
    version: u64,
}

impl Compaction {
    /// The operations of the new log, in order.
    pub closed spec fn ops(&self) -> Seq<Op> {
        self.ops@
    }

    /// The index into the new log.
    pub closed spec fn index(&self) -> Map<Seq<char>, Location> {
        index_contents(self.entrypoints)
    }

    /// The generation of the new log.
    pub closed spec fn version(&self) -> u64 {
        self.version
    }

    /// The bytes of the new log.
    pub closed spec fn log_bytes(&self) -> Seq<u8> {
        self.log@
    }

    /// The entry of `k` points at a put record of `k` in the new log that
    /// holds its value.
    pub open spec fn entry_ok(&self, k: Seq<char>) -> bool {
        let loc = self.index()[k];
        &&& loc.0 == self.version()
        &&& loc.1 + loc.2 <= self.log_bytes().len()
        &&& parse_op(self.log_bytes().subrange(loc.1 as int, loc.1 + loc.2)) == Some(
            (Op::Put(k, replay(self.ops())[k]), loc.2 as nat),
        )
    }

    /// The new log holds the new operations, and the index is that of the
    /// engine that would hold them.
    pub open spec fn wf(&self) -> bool {
        &&& self.log_bytes() == log_of(self.ops())
        &&& forall|i: int| 0 <= i < self.ops().len() ==> encodable(#[trigger] self.ops()[i])
        &&& self.index().dom().finite()
        &&& self.index() == latest_loc(self.ops(), self.version())
        &&& self.index().dom() == replay(self.ops()).dom()
        &&& forall|k: Seq<char>| #[trigger] self.index().contains_key(k) ==> self.entry_ok(k)
    }

    /// The bytes of the new log, to be written before the commit.
    pub fn log(&self) -> (r: &Vec<u8>)
        ensures
            r@ == self.log_bytes(),
    {
        &self.log
    }

    /// The generation of the new log.
    pub fn new_version(&self) -> (r: u64)
        ensures
            r == self.version(),
    {
        self.version
    }
}

impl KvStore {
    /// `live` gives, for each key of the index once, a put record of that key.
    pub open spec fn compactable(&self, live: Seq<(String, Vec<u8>)>) -> bool {
        &&& live.len() == self.index().len()
        &&& forall|i: int|
            #![trigger live[i]]
            0 <= i < live.len() ==> self.index().contains_key(live[i].0@) && is_put_of(
                live[i].1@,
                live[i].0@,
            )
        &&& forall|i: int, j: int| 0 <= i < j < live.len() ==> live[i].0@ != live[j].0@
    }

    /// `live` gives, for each key of the index once, the bytes that its entry
    /// points at: what a faithful read of the log yields.
    pub open spec fn live_records(&self, live: Seq<(String, Vec<u8>)>) -> bool {
        &&& live.len() == self.index().len()
        &&& forall|i: int|
            #![trigger live[i]]
            0 <= i < live.len() ==> self.index().contains_key(live[i].0@) && live[i].1@
                == self.segment(self.index()[live[i].0@])
        &&& forall|i: int, j: int| 0 <= i < j < live.len() ==> live[i].0@ != live[j].0@
    }

    /// Prepares a compaction: the records in `live`, read at the places that
    /// `compaction_plan` gave, become the log of the next generation, in the
    /// order given, and a new index points into it. Nothing changes until the
    /// result is committed, so the caller writes the new log first.
    #[verifier::rlimit(60)]
    pub fn prepare_compaction(&self, live: &Vec<(String, Vec<u8>)>) -> (r: Result<Compaction>)
        requires
            self.wf(),
        ensures
            r is Ok <==> self.version() < u64::MAX && self.compactable(live@),
            match r {
                Ok(c) => {
                    &&& c.wf()
                    &&& c.version() == self.version() + 1
                    &&& c.ops() == compacted_ops(live@)
                    &&& replay(c.ops()).dom() == self@.dom()
                    &&& forall|i: int|
                        #![trigger live@[i]]
                        0 <= i < live@.len() ==> replay(c.ops())[live@[i].0@] == put_value(
                            live@[i].1@,
                        )
                },
                Err(e) => if self.version() < u64::MAX {
                    e is Codec
                } else {
                    e is Io
                },
            },
            self.version() < u64::MAX && self.live_records(live@) ==> (r matches Ok(c) && replay(
                c.ops(),
            ) == self@),
    {
        proof {
            if self.live_records(live@) {
                self.lemma_live_records_compactable(live@);
            }
        }
        if self.meta.version == u64::MAX {
            return Err(KvStoreError::Io("no generation after the last".to_owned()));
        }
        let n_live = live.len();
        if n_live != index_len(&self.entrypoints) {
            return Err(KvStoreError::Codec);
        }
        let new_version = self.meta.version + 1;
        let mut new_index = index_new();
        let mut out: Vec<u8> = Vec::new();
        let ghost mut new_ops: Seq<Op> = Seq::empty();
        proof {
            assert(index_contents(new_index).dom() =~= replay(new_ops).dom());
            assert(index_contents(new_index) =~= latest_loc(new_ops, new_version));
        }
        let mut i: usize = 0;
        while i < n_live
            invariant
                self.wf(),
                n_live == live@.len(),
                n_live == self.index().len(),
                new_version == self.version() + 1,
                i <= n_live,
                new_ops.len() == i,
                out@ == log_of(new_ops),
                forall|j: int| 0 <= j < new_ops.len() ==> encodable(#[trigger] new_ops[j]),
                forall|j: int|
                    #![trigger new_ops[j]]
                    0 <= j < new_ops.len() ==> new_ops[j] == Op::Put(
                        live@[j].0@,
                        put_value(live@[j].1@),
                    ),
                index_contents(new_index) == latest_loc(new_ops, new_version),
                index_contents(new_index).dom().finite(),
                index_contents(new_index).len() == i,
                index_contents(new_index).dom() == replay(new_ops).dom(),
                forall|k: Seq<char>| #[trigger]
                    index_contents(new_index).contains_key(k) ==> self.index().contains_key(k)
                        && exists|j: int| 0 <= j < i && live@[j].0@ == k,
                forall|j: int|
                    #![trigger live@[j]]
                    0 <= j < i ==> self.index().contains_key(live@[j].0@) && is_put_of(
                        live@[j].1@,
                        live@[j].0@,
                    ) && index_contents(new_index).contains_key(live@[j].0@) && replay(
                        new_ops,
                    )[live@[j].0@] == put_value(live@[j].1@),
                forall|j1: int, j2: int| 0 <= j1 < j2 < i ==> live@[j1].0@ != live@[j2].0@,
                forall|k: Seq<char>| #[trigger]
                    index_contents(new_index).contains_key(k) ==> {
                        let loc = index_contents(new_index)[k];
                        &&& loc.0 == new_version
                        &&& loc.1 + loc.2 <= out@.len()
                        &&& parse_op(out@.subrange(loc.1 as int, loc.1 + loc.2)) == Some(
                            (Op::Put(k, replay(new_ops)[k]), loc.2 as nat),
                        )
                    },
            decreases n_live - i,
        {
            let key = &live[i].0;
            let rec = &live[i].1;
            if index_get(&self.entrypoints, key).is_none() {
                return Err(KvStoreError::Codec);
            }
            if index_get(&new_index, key).is_some() {
                proof {
                    let j = choose|j: int| 0 <= j < i && live@[j].0@ == key@;
                    assert(live@[j].0@ == live@[i as int].0@);
                }
                return Err(KvStoreError::Codec);
            }
            let value = match read_value(key, rec.as_slice()) {
                Ok(v) => v,
                Err(e) => {
                    return Err(e);
                },
            };
            let ghost op = Op::Put(key@, value@);
            let ghost old_out = out@;
            let ghost old_ops = new_ops;
            let ghost old_new_index = index_contents(new_index);
            proof {
                lemma_parse_canonical(rec@);
                assert(rec@.subrange(0, rec@.len() as int) =~= rec@);
            }
            let pos = out.len() as u64;
            let n = rec.len() as u64;
            let mut b = vstd::slice::slice_to_vec(rec.as_slice());
            out.append(&mut b);
            index_insert(&mut new_index, key.clone(), (new_version, pos, n));
            proof {
                new_ops = new_ops.push(op);
                assert(new_ops.drop_last() =~= old_ops);
                assert(out@ == log_of(new_ops));
                assert(index_contents(new_index) =~= latest_loc(new_ops, new_version));
                assert(index_contents(new_index).dom() =~= replay(new_ops).dom());
                assert forall|j: int| #![trigger new_ops[j]] 0 <= j < new_ops.len() implies new_ops[j]
                    == Op::Put(live@[j].0@, put_value(live@[j].1@)) by {
                    if j < i {
                        assert(new_ops[j] == old_ops[j]);
                    }
                }
                assert forall|k: Seq<char>| #[trigger]
                    index_contents(new_index).contains_key(k) implies self.index().contains_key(k)
                    && exists|j: int| 0 <= j < i + 1 && live@[j].0@ == k by {
                    if k != key@ {
                        assert(old_new_index.contains_key(k));
                        let j = choose|j: int| 0 <= j < i && live@[j].0@ == k;
                        assert(0 <= j < i + 1 && live@[j].0@ == k);
                    } else {
                        assert(live@[i as int].0@ == k);
                    }
                }
                assert forall|j: int|
                    #![trigger live@[j]]
                    0 <= j < i + 1 implies self.index().contains_key(live@[j].0@) && is_put_of(
                        live@[j].1@,
                        live@[j].0@,
                    ) && index_contents(new_index).contains_key(live@[j].0@) && replay(
                        new_ops,
                    )[live@[j].0@] == put_value(live@[j].1@) by {
                    if j < i {
                        assert(live@[j].0@ != live@[i as int].0@);
                    }
                }
                assert forall|k: Seq<char>| #[trigger]
                    index_contents(new_index).contains_key(k) implies {
                    let loc = index_contents(new_index)[k];
                    &&& loc.0 == new_version
                    &&& loc.1 + loc.2 <= out@.len()
                    &&& parse_op(out@.subrange(loc.1 as int, loc.1 + loc.2)) == Some(
                        (Op::Put(k, replay(new_ops)[k]), loc.2 as nat),
                    )
                } by {
                    let loc = index_contents(new_index)[k];
                    if k == key@ {
                        assert(out@.subrange(loc.1 as int, loc.1 + loc.2) =~= rec@);
                    } else {
                        assert(old_new_index.contains_key(k));
                        assert(out@.subrange(loc.1 as int, loc.1 + loc.2) =~= old_out.subrange(
                            loc.1 as int,
                            loc.1 + loc.2,
                        ));
                    }
                }
            }
            i = i + 1;
        }
        proof {
            let nd = index_contents(new_index).dom();
            let od = self.index().dom();
            assert(nd.subset_of(od));
            vstd::set_lib::lemma_subset_equality(nd, od);
            assert(self.compactable(live@));
        }
        proof {
            assert(new_ops =~= compacted_ops(live@));
            assert forall|k: Seq<char>| #[trigger] index_contents(new_index).contains_key(k)
                implies index_contents(new_index)[k].1 + index_contents(new_index)[k].2
                <= out@.len() by {}
            if self.live_records(live@) {
                assert forall|k: Seq<char>| #[trigger] replay(new_ops).contains_key(k) implies replay(
                    new_ops,
                )[k] == self@[k] by {
                    assert(index_contents(new_index).contains_key(k));
                    let j = choose|j: int| 0 <= j < i && live@[j].0@ == k;
                    assert(self.entry_ok(k));
                }
                assert(replay(new_ops) =~= self@);
            }
        }
        Ok(Compaction { entrypoints: new_index, log: out, ops: Ghost(new_ops), version: new_version })
    }

    /// Commits a prepared compaction once its log is written: the engine
    /// moves to the new generation, and the count of written bytes restarts.
    /// Returns the bytes of the new log.
    pub fn commit_compaction(&mut self, c: Compaction) -> (r: Vec<u8>)
        requires
            old(self).wf(),
            c.wf(),
            c.version() == old(self).version() + 1,
        ensures
            final(self).wf(),
            final(self).ops() == c.ops(),
            final(self).log() == c.log_bytes(),
            final(self).index() == c.index(),
            final(self).version() == c.version(),
            final(self).uncompact_size() == 0,
            final(self).db_dir() == old(self).db_dir(),
            r@ == c.log_bytes(),
    {
        let Compaction { entrypoints, log, ops, version } = c;
        self.entrypoints = entrypoints;
        self.log_len = log.len() as u64;
        self.ops = ops;
        self.meta.version = version;
        self.meta.uncompact_size = 0;
        proof {
            assert forall|k: Seq<char>| #[trigger] self.index().contains_key(k) implies self.entry_ok(
                k,
            ) by {
                assert(c.entry_ok(k));
            }
        }
        log
    }

    /// Compacts the log at once: prepares and commits. Returns the bytes of
    /// the new log.
    pub fn compact(&mut self, live: &Vec<(String, Vec<u8>)>) -> (r: Result<Vec<u8>>)
        requires
            old(self).wf(),
        ensures
            final(self).wf(),
            r is Ok <==> old(self).version() < u64::MAX && old(self).compactable(live@),
            match r {
                Ok(log) => {
                    &&& final(self).log() == log@
                    &&& final(self).ops() == compacted_ops(live@)
                    &&& final(self).version() == old(self).version() + 1
                    &&& final(self).uncompact_size() == 0
                    &&& final(self).db_dir() == old(self).db_dir()
                    &&& final(self)@.dom() == old(self)@.dom()
                    &&& forall|i: int|
                        #![trigger live@[i]]
                        0 <= i < live@.len() ==> final(self)@[live@[i].0@] == put_value(
                            live@[i].1@,
                        )
                },
                Err(e) => *final(self) == *old(self) && if old(self).version() < u64::MAX {
                    e is Codec
                } else {
                    e is Io
                },
            },
            old(self).version() < u64::MAX && old(self).live_records(live@) ==> r is Ok
                && final(self)@ == old(self)@,
    {
        match self.prepare_compaction(live) {
            Ok(c) => Ok(self.commit_compaction(c)),
            Err(e) => Err(e),
        }
    }

    /// A faithful read of the live records is a compactable one, and gives
    /// back each key's value.
    proof fn lemma_live_records_compactable(&self, live: Seq<(String, Vec<u8>)>)
        requires
            self.wf(),
            self.live_records(live),
        ensures
            self.compactable(live),
            forall|i: int|
                #![trigger live[i]]
                0 <= i < live.len() ==> put_value(live[i].1@) == self@[live[i].0@],
    {
        assert forall|i: int| #![trigger live[i]] 0 <= i < live.len() implies is_put_of(
            live[i].1@,
            live[i].0@,
        ) && put_value(live[i].1@) == self@[live[i].0@] by {
            assert(self.entry_ok(live[i].0@));
        }
    }
}

/// A record written by the engine is read back whole.
proof fn lemma_parse_canonical_of_encoded(op: Op)
    requires
        encodable(op),
    ensures
        parse_op(encoded(op)) == Some((op, encoded(op).len())),
        whole_record(encoded(op)),
        record_op(encoded(op)) == op,
{
    lemma_parse_encoded(op, Seq::empty());
    assert(encoded(op) + Seq::<u8>::empty() =~= encoded(op));
}

} // verus!
