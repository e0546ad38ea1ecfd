//! The write-ahead log kept as the bytes of its file and an index over them.
use std::collections::HashMap;
use vstd::prelude::*;
use vstd::slice::slice_to_vec;
use crate::error::KvError;
use crate::wal::{Wal, read_result};
use crate::wal::frame::{Frame, FrameScan, ScanStop, encode_frame, frame_bytes, frames_view, lemma_scan_extend, lemma_scan_new_frame, scan_frames, scan_tiles, spec_scan};

verus! {

broadcast use vstd::std_specs::hash::group_hash_axioms;

/// The index that the frames at `positions` give when their entries have the
/// logical offsets `offsets`: a later frame of the same offset wins.
pub open spec fn index_of(positions: Seq<int>, offsets: Seq<u64>) -> Map<u64, u64>
    decreases positions.len(),
{
    if positions.len() == 0 || offsets.len() == 0 {
        Map::empty()
    } else {
        index_of(positions.drop_last(), offsets.drop_last()).insert(
            offsets.last(),
            positions.last() as u64,
        )
    }
}

/// A frame of `payload` can be written after `bytes`: its length fits the
/// header, and the log's length stays within the machine's range.
pub open spec fn frame_fits(bytes: Seq<u8>, payload: Seq<u8>) -> bool {
    payload.len() <= u32::MAX && bytes.len() + 8 + payload.len() <= usize::MAX
}

/// The log's bytes and index after appending `es` in order; an entry whose
/// frame cannot be written is passed over, as a failed append is.
pub open spec fn appended_log(bytes: Seq<u8>, index: Map<u64, u64>, es: Seq<(u64, Seq<u8>)>) -> (
    Seq<u8>,
    Map<u64, u64>,
)
    decreases es.len(),
{
    if es.len() == 0 {
        (bytes, index)
    } else {
        let prev = appended_log(bytes, index, es.drop_last());
        let (offset, payload) = es.last();
        if frame_fits(prev.0, payload) {
            (prev.0 + frame_bytes(payload), prev.1.insert(offset, prev.0.len() as u64))
        } else {
            prev
        }
    }
}

/// The log: the bytes of its file, and for each logical offset the byte
/// position of the frame that holds it.
pub struct WalLog {
    data: Vec<u8>,
    index: HashMap<u64, u64>,
}

impl WalLog {
    /// Every indexed position lies within the log's bytes.
    #[verifier::type_invariant]
    spec fn positions_in_bounds(self) -> bool {
        forall|k: u64| #[trigger] self.index@.contains_key(k) ==> self.index@[k] <= self.data@.len()
    }

    /// The log's bytes.
    pub closed spec fn bytes(&self) -> Seq<u8> {
        self.data@
    }

    /// The log's index.
    pub closed spec fn index(&self) -> Map<u64, u64> {
        self.index@
    }

    /// Maps each frame's logical offset to its byte position, in the frames' order.
    fn build_index(frames: &Vec<Frame>, offsets: &[u64]) -> (index: HashMap<u64, u64>)
        requires
            frames@.len() == offsets@.len(),
        ensures
            index@ == index_of(frames_view(frames@).map_values(|f: (int, Seq<u8>)| f.0), offsets@),
    {
        let ghost positions = frames_view(frames@).map_values(|f: (int, Seq<u8>)| f.0);
        let mut index: HashMap<u64, u64> = HashMap::new();
        let mut i: usize = 0;
        while i < frames.len()
            invariant
                i <= frames@.len() == offsets@.len(),
                positions == frames_view(frames@).map_values(|f: (int, Seq<u8>)| f.0),
                index@ == index_of(positions.subrange(0, i as int), offsets@.subrange(0, i as int)),
            decreases frames@.len() - i,
        {
            index.insert(offsets[i], frames[i].pos);
            proof {
                let p = positions.subrange(0, i + 1);
                let o = offsets@.subrange(0, i + 1);
                assert(p.drop_last() =~= positions.subrange(0, i as int));
                assert(o.drop_last() =~= offsets@.subrange(0, i as int));
            }
            i = i + 1;
        }
        assert(positions.subrange(0, i as int) =~= positions);
        assert(offsets@.subrange(0, i as int) =~= offsets@);
        index
    }

    /// Opens a log over the bytes of its file. `offsets` are the logical
    /// offsets of the entries in the file's frames, in order. The file's bytes
    /// must hold whole frames (checksums are not checked here); trailing bytes
    /// too few to hold a header are left alone.
    pub fn new(data: Vec<u8>, offsets: &[u64]) -> (result: Result<WalLog, KvError>)
        ensures
            ({
                let scan = spec_scan(data@, 0, false);
                match result {
                    Ok(log) => {
                        &&& scan.1 == ScanStop::End
                        &&& scan.0.len() == offsets@.len()
                        &&& log.bytes() == data@
                        &&& log.index() == index_of(scan.0.map_values(|f: (int, Seq<u8>)| f.0), offsets@)
                    },
                    Err(e) => {
                        ||| scan.1 == ScanStop::Truncated && e == KvError::UnexpectedEof
                        ||| scan.1 != ScanStop::Truncated && scan.0.len() != offsets@.len()
                            && e == KvError::InvalidInput
                    },
                }
            }),
    {
        let n = data.len();
        let scan = scan_frames(data.as_slice(), 0, false);
        proof {
            crate::wal::frame::lemma_unchecked_scan_never_mismatches(data@, 0);
        }
        match scan.stop {
            ScanStop::End => {},
            _ => {
                return Err(KvError::UnexpectedEof);
            },
        }
        if scan.frames.len() != offsets.len() {
            return Err(KvError::InvalidInput);
        }
        let index = Self::build_index(&scan.frames, offsets);
        proof {
            assert forall|k: u64| #[trigger] index@.contains_key(k) implies index@[k] <= data@.len() by {
                lemma_index_of_positions(frames_view(scan.frames@).map_values(|f: (int, Seq<u8>)| f.0), offsets@, k, n as int);
            }
        }
        Ok(WalLog { data, index })
    }
}

impl WalLog {
    /// The byte position of the frame that holds logical offset `offset`.
    pub fn get_byte_pos(&self, offset: u64) -> (pos: Option<&u64>)
        ensures
            match pos {
                Some(p) => self.index().contains_key(offset) && *p == self.index()[offset],
                None => !self.index().contains_key(offset),
            },
    {
        self.index.get(&offset)
    }

    /// The frames from the entry at logical offset `offset` to the end of the
    /// log, whole and with matching checksums; otherwise the error.
    pub fn get_entries(&self, offset: u64) -> (result: Result<FrameScan, KvError>)
        ensures
            match result {
                Ok(scan) => {
                    &&& scan.stop == ScanStop::End
                    &&& read_result(self.bytes(), self.index(), offset) == Ok::<
                        Seq<(int, Seq<u8>)>,
                        KvError,
                    >(scan@.0)
                },
                Err(e) => read_result(self.bytes(), self.index(), offset) == Err::<
                    Seq<(int, Seq<u8>)>,
                    KvError,
                >(e),
            },
    {
        self.read(offset)
    }

    /// A copy of the log, to fall back on when its file cannot follow it.
    pub fn snapshot(&self) -> (copy: WalLog)
        ensures
            copy.bytes() == self.bytes(),
            copy.index() == self.index(),
    {
        proof {
            use_type_invariant(self);
        }
        WalLog { data: slice_to_vec(self.data.as_slice()), index: self.index.clone() }
    }

    /// The log's bytes, as its file should hold them.
    pub fn contents(&self) -> (bytes: &[u8])
        ensures
            bytes@ == self.bytes(),
    {
        self.data.as_slice()
    }

    /// Number of bytes in the log.
    pub fn len(&self) -> (n: usize)
        ensures
            n == self.bytes().len(),
    {
        self.data.len()
    }
}

impl Wal for WalLog {
    open spec fn log_bytes(&self) -> Seq<u8> {
        self.bytes()
    }

    open spec fn log_index(&self) -> Map<u64, u64> {
        self.index()
    }

    fn append(&mut self, offset: u64, payload: &[u8]) {
        proof {
            use_type_invariant(&*self);
        }
        let byte_pos = self.data.len() as u64;
        let mut frame = encode_frame(payload);
        let mut index: HashMap<u64, u64> = HashMap::new();
        std::mem::swap(&mut index, &mut self.index);
        let mut data: Vec<u8> = Vec::new();
        std::mem::swap(&mut data, &mut self.data);
        data.append(&mut frame);
        index.insert(offset, byte_pos);
        self.data = data;
        self.index = index;
    }

    fn read(&self, offset: u64) -> (result: Result<FrameScan, KvError>) {
        proof {
            use_type_invariant(self);
        }
        let n = self.data.len();
        match self.index.get(&offset) {
            Some(p) => {
                assert(*p <= n);
                let pos = *p as usize;
                let scan = scan_frames(self.data.as_slice(), pos, true);
                match scan.stop {
                    ScanStop::End => Ok(scan),
                    ScanStop::Truncated => Err(KvError::UnexpectedEof),
                    ScanStop::ChecksumMismatch => Err(KvError::InvalidData),
                }
            },
            None => Err(KvError::NotFound),
        }
    }
}

/// Each position that `index_of` records is one of the given positions.
proof fn lemma_index_of_positions(positions: Seq<int>, offsets: Seq<u64>, k: u64, bound: int)
    requires
        forall|i: int| 0 <= i < positions.len() ==> 0 <= #[trigger] positions[i] <= bound,
        bound <= u64::MAX,
    ensures
        index_of(positions, offsets).contains_key(k) ==> index_of(positions, offsets)[k] <= bound,
    decreases positions.len(),
{
    if positions.len() > 0 && offsets.len() > 0 {
        lemma_index_of_positions(positions.drop_last(), offsets.drop_last(), k, bound);
    }
}

} // verus!

verus! {

/// What a read gives back of a write: right after `payload` is appended under
/// logical offset `offset`, reading `offset` finds exactly that payload, with
/// a matching checksum, as the log's last frame.
pub proof fn law_read_after_append(before: WalLog, after: WalLog, offset: u64, payload: Seq<u8>)
    requires
        payload.len() <= u32::MAX,
        before.log_bytes().len() + 8 + payload.len() <= usize::MAX,
        after.log_bytes() == before.log_bytes() + frame_bytes(payload),
        after.log_index() == before.log_index().insert(offset, before.log_bytes().len() as u64),
    ensures
        read_result(after.log_bytes(), after.log_index(), offset) == Ok::<
            Seq<(int, Seq<u8>)>,
            KvError,
        >(seq![(before.log_bytes().len() as int, payload)]),
{
    lemma_scan_new_frame(before.log_bytes(), payload, true);
}

/// An append leaves the frames that an earlier read found in place, and adds
/// the new frame after them: when the frames from an indexed offset filled the
/// log, reading that offset afterwards finds the same frames and then the new one.
pub proof fn law_append_extends_reads(
    before: WalLog,
    after: WalLog,
    offset: u64,
    payload: Seq<u8>,
    earlier: u64,
)
    requires
        payload.len() <= u32::MAX,
        before.log_bytes().len() + 8 + payload.len() <= usize::MAX,
        after.log_bytes() == before.log_bytes() + frame_bytes(payload),
        after.log_index() == before.log_index().insert(offset, before.log_bytes().len() as u64),
        earlier != offset,
        before.log_index().contains_key(earlier),
        scan_tiles(before.log_bytes(), before.log_index()[earlier] as int, true),
    ensures
        after.log_index()[earlier] == before.log_index()[earlier],
        read_result(before.log_bytes(), before.log_index(), earlier) == Ok::<
            Seq<(int, Seq<u8>)>,
            KvError,
        >(spec_scan(before.log_bytes(), before.log_index()[earlier] as int, true).0),
        read_result(after.log_bytes(), after.log_index(), earlier) == Ok::<
            Seq<(int, Seq<u8>)>,
            KvError,
        >(
            spec_scan(before.log_bytes(), before.log_index()[earlier] as int, true).0.push(
                (before.log_bytes().len() as int, payload),
            ),
        ),
        scan_tiles(after.log_bytes(), after.log_index()[earlier] as int, true),
{
    let pos = before.log_index()[earlier] as int;
    lemma_scan_new_frame(before.log_bytes(), payload, true);
    lemma_scan_extend(before.log_bytes(), frame_bytes(payload), pos, true);
    lemma_scan_extend(before.log_bytes(), Seq::empty(), pos, true);
    assert(before.log_bytes() + Seq::<u8>::empty() =~= before.log_bytes());
    let old_frames = spec_scan(before.log_bytes(), pos, true).0;
    assert(old_frames + Seq::<(int, Seq<u8>)>::empty() =~= old_frames);
    assert(old_frames + seq![(before.log_bytes().len() as int, payload)] =~= old_frames.push(
        (before.log_bytes().len() as int, payload),
    ));
}

/// Reopening gives back what the appends built: the bytes that a run of
/// appends leaves on an empty log hold, from the start, exactly the appended
/// payloads in order, whole and with matching checksums, and the index that
/// opening rebuilds from them and the entries' offsets is the index the
/// appends built.
pub proof fn law_reopen_rebuilds_index(es: Seq<(u64, Seq<u8>)>, verify: bool)
    requires
        forall|k: int|
            0 <= k < es.len() ==> frame_fits(
                #[trigger] appended_log(Seq::empty(), Map::empty(), es.subrange(0, k)).0,
                es[k].1,
            ),
    ensures
        ({
            let after = appended_log(Seq::empty(), Map::empty(), es);
            let scan = spec_scan(after.0, 0, verify);
            &&& scan.1 == ScanStop::End
            &&& scan.0.len() == es.len()
            &&& forall|i: int| 0 <= i < es.len() ==> #[trigger] scan.0[i].1 == es[i].1
            &&& index_of(scan.0.map_values(|f: (int, Seq<u8>)| f.0), es.map_values(|e: (u64, Seq<u8>)| e.0))
                == after.1
            &&& scan_tiles(after.0, 0, verify)
        }),
    decreases es.len(),
{
    if es.len() == 0 {
        let empty = Seq::<(int, Seq<u8>)>::empty();
        assert(empty.map_values(|f: (int, Seq<u8>)| f.0) =~= Seq::<int>::empty());
    } else {
        let init = es.drop_last();
        assert forall|k: int| 0 <= k < init.len() implies frame_fits(
            #[trigger] appended_log(Seq::empty(), Map::empty(), init.subrange(0, k)).0,
            init[k].1,
        ) by {
            assert(init.subrange(0, k) =~= es.subrange(0, k));
        }
        law_reopen_rebuilds_index(init, verify);
        assert(es.subrange(0, es.len() - 1) =~= init);
        let prev = appended_log(Seq::empty(), Map::empty(), init);
        let last = es.last();
        assert(frame_fits(prev.0, last.1));
        lemma_scan_new_frame(prev.0, last.1, verify);
        lemma_scan_extend(prev.0, frame_bytes(last.1), 0, verify);
        let old_frames = spec_scan(prev.0, 0, verify).0;
        let frames = old_frames.push((prev.0.len() as int, last.1));
        assert(old_frames + seq![(prev.0.len() as int, last.1)] =~= frames);
        let positions = frames.map_values(|f: (int, Seq<u8>)| f.0);
        let offsets = es.map_values(|e: (u64, Seq<u8>)| e.0);
        assert(positions.drop_last() =~= old_frames.map_values(|f: (int, Seq<u8>)| f.0));
        assert(offsets.drop_last() =~= init.map_values(|e: (u64, Seq<u8>)| e.0));
        assert forall|i: int| 0 <= i < es.len() implies #[trigger] frames[i].1 == es[i].1 by {
            if i < init.len() {
                assert(old_frames[i].1 == init[i].1);
            }
        }
    }
}

} // verus!
