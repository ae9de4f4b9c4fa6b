//! The meta record of a database directory, and the names of its files.
use crate::error::{KvStoreError, Result};
use vstd::prelude::*;
use vstd::string::StringExecFns;

verus! {

/// The meta record as it is stored in the meta file.
#[derive(Debug, Clone)]
pub struct KvMeta {
    /// Byte count of records written since the last compaction.
    pub uncompact_size: u64,
    /// The database directory.
    pub db_dir: String,
    /// The current log generation.
    pub version: u64,
}

/// The engine's live copy of the meta record.
#[derive(Debug)]
pub struct KvStoreMeta {
    pub uncompact_size: u64,
    pub db_dir: String,
    pub version: u64,
}

impl KvStoreMeta {
    /// The meta record to be written to the meta file.
    pub fn clone_to_plain_meta(&self) -> (r: KvMeta)
        ensures
            r.uncompact_size == self.uncompact_size,
            r.db_dir@ == self.db_dir@,
            r.version == self.version,
    {
        KvMeta {
            uncompact_size: self.uncompact_size,
            db_dir: self.db_dir.clone(),
            version: self.version,
        }
    }
}

impl From<KvMeta> for KvStoreMeta {
    fn from(meta: KvMeta) -> (r: KvStoreMeta) {
        KvStoreMeta {
            uncompact_size: meta.uncompact_size,
            db_dir: meta.db_dir,
            version: meta.version,
        }
    }
}

impl vstd::std_specs::convert::FromSpecImpl<KvMeta> for KvStoreMeta {
    open spec fn obeys_from_spec() -> bool {
        true
    }

    open spec fn from_spec(meta: KvMeta) -> KvStoreMeta {
        KvStoreMeta {
            uncompact_size: meta.uncompact_size,
            db_dir: meta.db_dir,
            version: meta.version,
        }
    }
}

impl KvMeta {
    /// The meta record of a fresh directory: generation 0, nothing written.
    pub fn fresh(db_dir: String) -> (r: KvMeta)
        ensures
            r.uncompact_size == 0,
            r.version == 0,
            r.db_dir@ == db_dir@,
    {
        KvMeta { uncompact_size: 0, db_dir, version: 0 }
    }
}

/// The decimal digit `d` as a character.
pub open spec fn digit_char(d: nat) -> char {
    seq!['0', '1', '2', '3', '4', '5', '6', '7', '8', '9'][d as int]
}

/// The decimal notation of `n`, without leading zeros.
pub open spec fn decimal(n: nat) -> Seq<char>
    decreases n,
{
    if n < 10 {
        seq![digit_char(n)]
    } else {
        decimal(n / 10).push(digit_char(n % 10))
    }
}

/// Relies on `u64::to_string`: the decimal notation of the number.
#[verifier::external_body]
fn decimal_string(n: u64) -> (r: String)
    ensures
        r@ == decimal(n as nat),
{
    n.to_string()
}

/// The file name of the log of generation `version`.
pub open spec fn log_file_name(version: u64) -> Seq<char> {
    "kv."@ + decimal(version as nat) + ".log"@
}

/// The file name of the meta file.
pub open spec fn meta_file_name() -> Seq<char> {
    "kv.meta"@
}

/// The path of a file named `name` in the directory `dir`.
pub open spec fn path_in(dir: Seq<char>, name: Seq<char>) -> Seq<char> {
    dir + "/"@ + name
}

/// The path of the log of generation `version` in the directory `dir`.
pub fn get_db_path(dir: &str, version: u64) -> (r: String)
    ensures
        r@ == path_in(dir@, log_file_name(version)),
{
    let mut p = dir.to_owned();
    p.append("/");
    p.append("kv.");
    let d = decimal_string(version);
    p.append(d.as_str());
    p.append(".log");
    assert(p@ =~= path_in(dir@, log_file_name(version)));
    p
}

/// The path of the meta file in the directory `dir`.
pub fn get_meta_path(dir: &str) -> (r: String)
    ensures
        r@ == path_in(dir@, meta_file_name()),
{
    let mut p = dir.to_owned();
    p.append("/");
    p.append("kv.meta");
    assert(p@ =~= path_in(dir@, meta_file_name()));
    p
}

/// Whether a file handle cached for generation `cached` (or none yet) must
/// be opened again on generation `current` before it is used.
pub fn handle_is_stale(cached: Option<u64>, current: u64) -> (r: bool)
    ensures
        r == match cached {
            Some(g) => g < current,
            None => true,
        },
{
    match cached {
        Some(g) => g < current,
        None => true,
    }
}

/// The engine a directory is served with when none is requested.
pub open spec fn default_engine() -> Seq<char> {
    "kvs"@
}

/// The engine to serve a directory with: the one requested, or the default,
/// which must be the one recorded for the directory if there is a record.
pub fn check_engine(requested: Option<String>, recorded: Option<String>) -> (r: Result<String>)
    ensures
        ({
            let want = match requested {
                Some(e) => e@,
                None => default_engine(),
            };
            match recorded {
                Some(last) => if last@ == want {
                    r matches Ok(e) && e@ == want
                } else {
                    r matches Err(KvStoreError::EngineNotMatch)
                },
                None => r matches Ok(e) && e@ == want,
            }
        }),
{
    let want = match requested {
        Some(e) => e,
        None => "kvs".to_owned(),
    };
    match recorded {
        Some(last) => {
            if last == want {
                Ok(want)
            } else {
                Err(KvStoreError::EngineNotMatch)
            }
        },
        None => Ok(want),
    }
}

} // verus!
