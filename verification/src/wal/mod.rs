//! The write-ahead log: its entries, its frame format and the log itself.
pub mod frame;
pub mod writer;

use vstd::prelude::*;
use crate::error::KvError;
use crate::wal::frame::{FrameScan, ScanStop, spec_scan, frame_bytes};

verus! {

/// The change that a log entry records.
#[derive(Clone, Copy, Debug, PartialEq, Eq)]
pub enum Operation {
    Put,
    Delete,
}

/// One record of the log: its logical offset and the change it records.
#[derive(Clone, Debug, PartialEq, Eq)]
pub struct WalEntry {
    pub offset: u64,
    pub operation: Operation,
    pub key: String,
    pub value: String,
}

/// What a log entry stands for.
pub struct WalEntryView {
    pub offset: u64,
    pub operation: Operation,
    pub key: Seq<char>,
    pub value: Seq<char>,
}

impl View for WalEntry {
    type V = WalEntryView;

    open spec fn view(&self) -> WalEntryView {
        WalEntryView {
            offset: self.offset,
            operation: self.operation,
            key: self.key@,
            value: self.value@,
        }
    }
}

/// A log entry together with its serialized form, which is what the log stores.
#[derive(Clone, Debug, PartialEq, Eq)]
pub struct EncodedEntry {
    pub entry: WalEntry,
    pub payload: Vec<u8>,
}

/// A write-ahead log: a sequence of frames, and an index from logical offset
/// to the byte position of the frame that holds that offset's entry.
pub trait Wal {
    /// The log's bytes.
    spec fn log_bytes(&self) -> Seq<u8>;

    /// Logical offset to byte position.
    spec fn log_index(&self) -> Map<u64, u64>;

    /// Appends the frame of `payload`, the serialized entry with logical offset
    /// `offset`, and records that the entry starts where the log ended.
    fn append(&mut self, offset: u64, payload: &[u8])
        requires
            payload@.len() <= u32::MAX,
            old(self).log_bytes().len() + 8 + payload@.len() <= usize::MAX,
        ensures
            final(self).log_bytes() == old(self).log_bytes() + frame_bytes(payload@),
            final(self).log_index() == old(self).log_index().insert(
                offset,
                old(self).log_bytes().len() as u64,
            ),
    ;

    /// The frames from the entry at logical offset `offset` to the end of the
    /// log, each whole and with a matching checksum; otherwise the error that
    /// `read_result` names.
    fn read(&self, offset: u64) -> (result: Result<FrameScan, KvError>)
        ensures
            match result {
                Ok(scan) => {
                    &&& scan.stop == ScanStop::End
                    &&& read_result(self.log_bytes(), self.log_index(), offset) == Ok::<
                        Seq<(int, Seq<u8>)>,
                        KvError,
                    >(scan@.0)
                },
                Err(e) => read_result(self.log_bytes(), self.log_index(), offset) == Err::<
                    Seq<(int, Seq<u8>)>,
                    KvError,
                >(e),
            },
    ;
}

/// What reading logical offset `offset` from a log gives: the frames from
/// that entry to the end of the log; `NotFound` when the index does not know
/// the offset, `UnexpectedEof` when a frame is cut off, `InvalidData` when a
/// frame's checksum does not match its payload.
pub open spec fn read_result(bytes: Seq<u8>, index: Map<u64, u64>, offset: u64) -> Result<
    Seq<(int, Seq<u8>)>,
    KvError,
> {
    if !index.contains_key(offset) {
        Err(KvError::NotFound)
    } else {
        let scan = spec_scan(bytes, index[offset] as int, true);
        match scan.1 {
            ScanStop::End => Ok(scan.0),
            ScanStop::Truncated => Err(KvError::UnexpectedEof),
            ScanStop::ChecksumMismatch => Err(KvError::InvalidData),
        }
    }
}

} // verus!
