//! The record format of the log.
//!
//! A log is a plain concatenation of records. Each record starts with a tag
//! byte, then gives the byte length of each string it carries as a
//! little-endian `u64`, then the UTF-8 bytes of those strings:
//!
//! - put:    `P` klen vlen key value
//! - remove: `R` klen key
//!
//! A record thus says where it ends, and a reader of the log recovers the
//! exact offset that follows each record.
use vstd::bytes::{
    lemma_auto_spec_u64_to_from_le_bytes, spec_u64_from_le_bytes, spec_u64_to_le_bytes,
    u64_from_le_bytes, u64_to_le_bytes,
};
use crate::error::{KvStoreError, Result};
use vstd::prelude::*;
use vstd::slice::{slice_subrange, slice_to_vec};
use vstd::string::StringSliceAdditionalSpecFns;
use vstd::utf8::{
    decode_utf8, decode_utf8_encode_utf8, encode_utf8, encode_utf8_decode_utf8,
    encode_utf8_valid_utf8, valid_utf8,
};

verus! {

/// Tag byte of a put record (`P`).
pub const PUT_TAG: u8 = 80;

/// Tag byte of a remove record (`R`).
pub const REMOVE_TAG: u8 = 82;

/// Length of the fixed part of a put record: tag and two lengths.
pub const PUT_HEADER: usize = 17;

/// Length of the fixed part of a remove record: tag and one length.
pub const REMOVE_HEADER: usize = 9;

/// What a record says, over the characters of its strings.
pub enum Op {
    Put(Seq<char>, Seq<char>),
    Remove(Seq<char>),
}

impl Op {
    pub open spec fn key(self) -> Seq<char> {
        match self {
            Op::Put(k, _) => k,
            Op::Remove(k) => k,
        }
    }
}

/// A command record of the log.
#[derive(Debug, Clone)]
pub enum Command {
    /// Binds `key` to `value`.
    Put { key: String, value: String },
    /// Removes the binding of `key`.
    Remove { key: String },
}

impl View for Command {
    type V = Op;

    open spec fn view(&self) -> Op {
        match self {
            Command::Put { key, value } => Op::Put(key@, value@),
            Command::Remove { key } => Op::Remove(key@),
        }
    }
}

/// The UTF-8 length of a string, as the eight bytes that a record holds.
pub open spec fn length_field(s: Seq<char>) -> Seq<u8> {
    spec_u64_to_le_bytes(encode_utf8(s).len() as u64)
}

/// Whether the strings of `op` are short enough for their lengths to fit a `u64`.
pub open spec fn encodable(op: Op) -> bool {
    match op {
        Op::Put(k, v) => encode_utf8(k).len() <= u64::MAX && encode_utf8(v).len() <= u64::MAX,
        Op::Remove(k) => encode_utf8(k).len() <= u64::MAX,
    }
}

/// The bytes of the record that says `op`.
pub open spec fn encoded(op: Op) -> Seq<u8> {
    match op {
        Op::Put(k, v) => seq![PUT_TAG] + length_field(k) + length_field(v) + encode_utf8(k)
            + encode_utf8(v),
        Op::Remove(k) => seq![REMOVE_TAG] + length_field(k) + encode_utf8(k),
    }
}

/// The record at the start of `s`, with its length in bytes, if `s` starts with one.
pub open spec fn parse_op(s: Seq<u8>) -> Option<(Op, nat)> {
    if s.len() >= PUT_HEADER && s[0] == PUT_TAG {
        let kl = spec_u64_from_le_bytes(s.subrange(1, 9)) as int;
        let vl = spec_u64_from_le_bytes(s.subrange(9, 17)) as int;
        if 17 + kl + vl <= s.len() {
            let kb = s.subrange(17, 17 + kl);
            let vb = s.subrange(17 + kl, 17 + kl + vl);
            if valid_utf8(kb) && valid_utf8(vb) {
                Some((Op::Put(decode_utf8(kb), decode_utf8(vb)), (17 + kl + vl) as nat))
            } else {
                None
            }
        } else {
            None
        }
    } else if s.len() >= REMOVE_HEADER && s[0] == REMOVE_TAG {
        let kl = spec_u64_from_le_bytes(s.subrange(1, 9)) as int;
        if 9 + kl <= s.len() {
            let kb = s.subrange(9, 9 + kl);
            if valid_utf8(kb) {
                Some((Op::Remove(decode_utf8(kb)), (9 + kl) as nat))
            } else {
                None
            }
        } else {
            None
        }
    } else {
        None
    }
}

/// A record is read back whole from the start of any byte string that begins with it.
pub proof fn lemma_parse_encoded(op: Op, rest: Seq<u8>)
    requires
        encodable(op),
    ensures
        parse_op(encoded(op) + rest) == Some((op, encoded(op).len())),
{
    lemma_auto_spec_u64_to_from_le_bytes();
    let s = encoded(op) + rest;
    match op {
        Op::Put(k, v) => {
            let kb = encode_utf8(k);
            let kn = kb.len() as int;
            let vb = encode_utf8(v);
            let vn = vb.len() as int;
            encode_utf8_valid_utf8(k);
            encode_utf8_valid_utf8(v);
            encode_utf8_decode_utf8(k);
            encode_utf8_decode_utf8(v);
            assert(s.subrange(1, 9) =~= length_field(k));
            assert(s.subrange(9, 17) =~= length_field(v));
            assert(s.subrange(17, 17 + kn) =~= kb);
            assert(s.subrange(17 + kn, 17 + kn + vn) =~= vb);
        },
        Op::Remove(k) => {
            let kb = encode_utf8(k);
            let kn = kb.len() as int;
            encode_utf8_valid_utf8(k);
            encode_utf8_decode_utf8(k);
            assert(s.subrange(1, 9) =~= length_field(k));
            assert(s.subrange(9, 9 + kn) =~= kb);
        },
    }
}

/// Each record has one encoding: what is parsed is exactly the encoding of what it says.
pub proof fn lemma_parse_canonical(s: Seq<u8>)
    requires
        parse_op(s) is Some,
    ensures
        ({
            let (op, n) = parse_op(s)->0;
            &&& encodable(op)
            &&& REMOVE_HEADER <= n <= s.len()
            &&& s.subrange(0, n as int) == encoded(op)
            &&& n == encoded(op).len()
        }),
{
    lemma_auto_spec_u64_to_from_le_bytes();
    let (op, n) = parse_op(s)->0;
    if s[0] == PUT_TAG {
        let kl = spec_u64_from_le_bytes(s.subrange(1, 9)) as int;
        let vl = spec_u64_from_le_bytes(s.subrange(9, 17)) as int;
        let kb = s.subrange(17, 17 + kl);
        let vb = s.subrange(17 + kl, 17 + kl + vl);
        decode_utf8_encode_utf8(kb);
        decode_utf8_encode_utf8(vb);
        assert(s.subrange(1, 9).len() == 8);
        assert(s.subrange(9, 17).len() == 8);
        assert(s.subrange(0, n as int) =~= encoded(op));
    } else {
        let kl = spec_u64_from_le_bytes(s.subrange(1, 9)) as int;
        let kb = s.subrange(9, 9 + kl);
        decode_utf8_encode_utf8(kb);
        assert(s.subrange(1, 9).len() == 8);
        assert(s.subrange(0, n as int) =~= encoded(op));
    }
}

/// Whether `b` is exactly one put record of `k`.
pub open spec fn is_put_of(b: Seq<u8>, k: Seq<char>) -> bool {
    match parse_op(b) {
        Some((Op::Put(k2, _), n)) => k2 == k && n == b.len(),
        _ => false,
    }
}

/// The value that the put record at the start of `b` holds.
pub open spec fn put_value(b: Seq<u8>) -> Seq<char> {
    match parse_op(b) {
        Some((Op::Put(_, v), _)) => v,
        _ => Seq::empty(),
    }
}

/// Whether `b` is exactly one record.
pub open spec fn whole_record(b: Seq<u8>) -> bool {
    match parse_op(b) {
        Some((_, n)) => n == b.len(),
        None => false,
    }
}

/// Relies on `String::from_utf8`: it succeeds exactly on well-formed UTF-8
/// and then holds the characters that those bytes encode.
#[verifier::external_body]
fn string_from_utf8(b: Vec<u8>) -> (r: Option<String>)
    ensures
        match r {
            Some(s) => valid_utf8(b@) && s@ == decode_utf8(b@),
            None => !valid_utf8(b@),
        },
{
    String::from_utf8(b).ok()
}

/// The UTF-8 bytes of a string.
fn string_bytes(s: &String) -> (r: Vec<u8>)
    ensures
        r@ == encode_utf8(s@),
{
    slice_to_vec(s.as_str().as_bytes())
}

/// Encodes a command as one record.
pub fn encode(cmd: &Command) -> (r: Vec<u8>)
    ensures
        r@ == encoded(cmd@),
        encodable(cmd@),
{
    match cmd {
        Command::Put { key, value } => {
            let mut kb = string_bytes(key);
            let mut vb = string_bytes(value);
            let mut kl = u64_to_le_bytes(kb.len() as u64);
            let mut vl = u64_to_le_bytes(vb.len() as u64);
            let mut out: Vec<u8> = Vec::new();
            out.push(PUT_TAG);
            out.append(&mut kl);
            out.append(&mut vl);
            out.append(&mut kb);
            out.append(&mut vb);
            assert(out@ =~= encoded(cmd@));
            out
        },
        Command::Remove { key } => {
            let mut kb = string_bytes(key);
            let mut kl = u64_to_le_bytes(kb.len() as u64);
            let mut out: Vec<u8> = Vec::new();
            out.push(REMOVE_TAG);
            out.append(&mut kl);
            out.append(&mut kb);
            assert(out@ =~= encoded(cmd@));
            out
        },
    }
}

/// The UTF-8 string held by `buf[from..to]`, if it is well-formed.
fn string_at(buf: &[u8], from: usize, to: usize) -> (r: Option<String>)
    requires
        from <= to <= buf@.len(),
    ensures
        match r {
            Some(s) => valid_utf8(buf@.subrange(from as int, to as int)) && s@ == decode_utf8(
                buf@.subrange(from as int, to as int),
            ),
            None => !valid_utf8(buf@.subrange(from as int, to as int)),
        },
{
    string_from_utf8(slice_to_vec(slice_subrange(buf, from, to)))
}

/// Decodes the record that starts at `start` in `buf`, and gives its length in bytes.
pub fn decode(buf: &[u8], start: usize) -> (r: Option<(Command, usize)>)
    requires
        start <= buf@.len(),
    ensures
        match r {
            Some((c, n)) => parse_op(buf@.subrange(start as int, buf@.len() as int)) == Some(
                (c@, n as nat),
            ),
            None => parse_op(buf@.subrange(start as int, buf@.len() as int)) is None,
        },
{
    let ghost s = buf@.subrange(start as int, buf@.len() as int);
    let rem = buf.len() - start;
    if rem < REMOVE_HEADER {
        return None;
    }
    let tag = buf[start];
    let kl = u64_from_le_bytes(slice_subrange(buf, start + 1, start + 9));
    assert(buf@.subrange(start + 1, start + 9) =~= s.subrange(1, 9));
    if tag == PUT_TAG {
        if rem < PUT_HEADER {
            return None;
        }
        let vl = u64_from_le_bytes(slice_subrange(buf, start + 9, start + 17));
        assert(buf@.subrange(start + 9, start + 17) =~= s.subrange(9, 17));
        let avail = (rem - PUT_HEADER) as u64;
        if kl > avail || vl > avail - kl {
            return None;
        }
        let kstart = start + PUT_HEADER;
        let kend = kstart + kl as usize;
        let vend = kend + vl as usize;
        assert(buf@.subrange(kstart as int, kend as int) =~= s.subrange(17, 17 + kl));
        assert(buf@.subrange(kend as int, vend as int) =~= s.subrange(17 + kl, 17 + kl + vl));
        let key = string_at(buf, kstart, kend);
        let value = string_at(buf, kend, vend);
        match (key, value) {
            (Some(key), Some(value)) => Some((Command::Put { key, value }, vend - start)),
            _ => None,
        }
    } else if tag == REMOVE_TAG {
        let avail = (rem - REMOVE_HEADER) as u64;
        if kl > avail {
            return None;
        }
        let kstart = start + REMOVE_HEADER;
        let kend = kstart + kl as usize;
        assert(buf@.subrange(kstart as int, kend as int) =~= s.subrange(9, 9 + kl));
        match string_at(buf, kstart, kend) {
            Some(key) => Some((Command::Remove { key }, kend - start)),
            None => None,
        }
    } else {
        None
    }
}

/// The value that `rec`, read from the place the index gives for `key`,
/// binds `key` to.
pub fn read_value(key: &String, rec: &[u8]) -> (r: Result<String>)
    ensures
        match r {
            Ok(v) => is_put_of(rec@, key@) && v@ == put_value(rec@),
            Err(e) => !is_put_of(rec@, key@) && e is Codec,
        },
{
    proof {
        assert(rec@.subrange(0, rec@.len() as int) =~= rec@);
    }
    match decode(rec, 0) {
        Some((Command::Put { key: k, value }, n)) => {
            if n == rec.len() && k == *key {
                Ok(value)
            } else {
                Err(KvStoreError::Codec)
            }
        },
        _ => Err(KvStoreError::Codec),
    }
}

} // verus!
