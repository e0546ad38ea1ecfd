//! The key-value store.
pub mod memory;

use vstd::prelude::*;
use crate::error::KvError;
use crate::wal::read_result;
use crate::wal::frame::{frame_bytes, lemma_scan_new_frame};
use crate::wal::writer::frame_fits;

verus! {

/// What a write-ahead change leaves: when the frame of `encoded` fits after
/// the log, the log gains it under logical offset `offset` and the data
/// becomes `data`; otherwise the change is refused with `InvalidInput` and
/// log and data stay as they were.
pub open spec fn logged_change(
    log_bytes: Seq<u8>,
    log_index: Map<u64, u64>,
    log_bytes_after: Seq<u8>,
    log_index_after: Map<u64, u64>,
    contents: Map<Seq<char>, Seq<char>>,
    contents_after: Map<Seq<char>, Seq<char>>,
    data: Map<Seq<char>, Seq<char>>,
    offset: u64,
    encoded: Seq<u8>,
    result: Result<(), KvError>,
) -> bool {
    if frame_fits(log_bytes, encoded) {
        &&& result == Ok::<(), KvError>(())
        &&& log_bytes_after == log_bytes + frame_bytes(encoded)
        &&& log_index_after == log_index.insert(offset, log_bytes.len() as u64)
        &&& contents_after == data
    } else {
        &&& result == Err::<(), KvError>(KvError::InvalidInput)
        &&& log_bytes_after == log_bytes
        &&& log_index_after == log_index
        &&& contents_after == contents
    }
}

/// A store of string values under string keys, whose changes go to a
/// write-ahead log before they reach the data.
pub trait KvStore {
    /// What the store holds: key to value.
    spec fn contents(&self) -> Map<Seq<char>, Seq<char>>;

    /// The bytes of the store's log.
    spec fn log_bytes(&self) -> Seq<u8>;

    /// The store's log index: logical offset to byte position.
    spec fn log_index(&self) -> Map<u64, u64>;

    /// The value under `key`, if there is one.
    fn get(&self, key: &str) -> (value: Option<String>)
        ensures
            match value {
                Some(v) => self.contents().contains_key(key@) && v@ == self.contents()[key@],
                None => !self.contents().contains_key(key@),
            },
    ;

    /// Stores `value` under `key`, replacing what was there, the write-ahead
    /// way: first `encoded`, the serialized entry that puts `value` under
    /// `key` at logical offset `offset`, goes to the log, then the value to
    /// the data.
    fn put(&mut self, key: &str, value: &str, offset: u64, encoded: &[u8]) -> (result: Result<
        (),
        KvError,
    >)
        ensures
            logged_change(
                old(self).log_bytes(),
                old(self).log_index(),
                final(self).log_bytes(),
                final(self).log_index(),
                old(self).contents(),
                final(self).contents(),
                old(self).contents().insert(key@, value@),
                offset,
                encoded@,
                result,
            ),
    ;

    /// Removes `key` and its value, if it is there, the write-ahead way:
    /// first `encoded`, the serialized entry that deletes `key` at logical
    /// offset `offset`, goes to the log, then the key leaves the data.
    fn delete(&mut self, key: &str, offset: u64, encoded: &[u8]) -> (result: Result<(), KvError>)
        ensures
            logged_change(
                old(self).log_bytes(),
                old(self).log_index(),
                final(self).log_bytes(),
                final(self).log_index(),
                old(self).contents(),
                final(self).contents(),
                old(self).contents().remove(key@),
                offset,
                encoded@,
                result,
            ),
    ;
}

/// A read gives back the last write: after a `put(key, value)` that went
/// through, `get(key)` finds `value`, and every other key keeps what it had.
pub proof fn law_get_after_put<S: KvStore>(before: S, after: S, key: Seq<char>, value: Seq<char>, other: Seq<char>)
    requires
        after.contents() == before.contents().insert(key, value),
    ensures
        after.contents().contains_key(key),
        after.contents()[key] == value,
        other != key ==> (after.contents().contains_key(other) == before.contents().contains_key(other)
            && after.contents()[other] == before.contents()[other]),
{
}

/// After a `delete(key)` that went through, `get(key)` finds nothing, and
/// every other key keeps what it had.
pub proof fn law_get_after_delete<S: KvStore>(before: S, after: S, key: Seq<char>, other: Seq<char>)
    requires
        after.contents() == before.contents().remove(key),
    ensures
        !after.contents().contains_key(key),
        other != key ==> (after.contents().contains_key(other) == before.contents().contains_key(other)
            && after.contents()[other] == before.contents()[other]),
{
}

/// The log holds every change that reaches the data: once a write-ahead
/// change has gone through, reading its offset from the log gives back
/// exactly its serialized entry, as the log's last frame.
pub proof fn law_change_is_logged<S: KvStore>(
    before: S,
    after: S,
    data: Map<Seq<char>, Seq<char>>,
    offset: u64,
    encoded: Seq<u8>,
)
    requires
        logged_change(
            before.log_bytes(),
            before.log_index(),
            after.log_bytes(),
            after.log_index(),
            before.contents(),
            after.contents(),
            data,
            offset,
            encoded,
            Ok(()),
        ),
    ensures
        after.contents() == data,
        read_result(after.log_bytes(), after.log_index(), offset) == Ok::<Seq<(int, Seq<u8>)>, KvError>(
            seq![(before.log_bytes().len() as int, encoded)],
        ),
{
    lemma_scan_new_frame(before.log_bytes(), encoded, true);
}

} // verus!
