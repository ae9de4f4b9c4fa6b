use vstd::prelude::*;

verus! {

/// The errors that the engine reports.
#[derive(Debug, Clone)]
pub enum KvStoreError {
    /// The database path is not an existing directory.
    PathInvalid,
    /// `remove` was called on a key that is not bound.
    KeyNotFound,
    /// The engine recorded in a directory differs from the one requested.
    EngineNotMatch,
    /// A filesystem or log I/O failure, with its description.
    Io(String),
    /// A record or meta file could not be decoded.
    Codec,
    /// A failure reported by a remote server.
    Rpc(String),
}

/// The human-readable rendering of an error.
pub open spec fn error_message(e: KvStoreError) -> Seq<char> {
    match e {
        KvStoreError::PathInvalid => "Path is not a directory"@,
        KvStoreError::KeyNotFound => "Key not found"@,
        KvStoreError::EngineNotMatch => "Engine not match"@,
        KvStoreError::Io(m) => m@,
        KvStoreError::Codec => "Record could not be decoded"@,
        KvStoreError::Rpc(m) => m@,
    }
}

impl KvStoreError {
    /// Renders the error for a user.
    pub fn message(&self) -> (r: String)
        ensures
            r@ == error_message(*self),
    {
        match self {
            KvStoreError::PathInvalid => "Path is not a directory".to_owned(),
            KvStoreError::KeyNotFound => "Key not found".to_owned(),
            KvStoreError::EngineNotMatch => "Engine not match".to_owned(),
            KvStoreError::Io(m) => m.clone(),
            KvStoreError::Codec => "Record could not be decoded".to_owned(),
            KvStoreError::Rpc(m) => m.clone(),
        }
    }
}

pub type Result<T> = core::result::Result<T, KvStoreError>;

} // verus!
