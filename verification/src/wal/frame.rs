//! The on-disk frame format of the write-ahead log.
//!
//! A frame is the payload's length (4 bytes, little endian), the CRC-32 of the
//! payload (4 bytes, little endian) and then the payload itself.
use vstd::prelude::*;
use vstd::bytes::*;
use vstd::slice::*;

verus! {

/// The CRC-32 (IEEE) checksum of a byte sequence, as `crc32fast::hash` computes it.
pub uninterp spec fn crc32_checksum(bytes: Seq<u8>) -> u32;

/// Calls `crc32fast::hash`, which returns the CRC-32 checksum of its argument;
/// the contract says only that the result is that checksum of the given bytes.
#[verifier::external_body]
pub(crate) fn crc32(bytes: &[u8]) -> (c: u32)
    ensures
        c == crc32_checksum(bytes@),
{
    crc32fast::hash(bytes)
}

/// Number of bytes in front of a frame's payload: length and checksum.
pub const FRAME_HEADER_LEN: usize = 8;

/// The bytes of the frame that holds `payload`.
pub open spec fn frame_bytes(payload: Seq<u8>) -> Seq<u8> {
    spec_u32_to_le_bytes(payload.len() as u32) + spec_u32_to_le_bytes(crc32_checksum(payload))
        + payload
}

/// The payload length written in the header of the frame at `pos`.
pub open spec fn len_field(data: Seq<u8>, pos: int) -> int {
    spec_u32_from_le_bytes(data.subrange(pos, pos + 4)) as int
}

/// The checksum written in the header of the frame at `pos`.
pub open spec fn crc_field(data: Seq<u8>, pos: int) -> u32 {
    spec_u32_from_le_bytes(data.subrange(pos + 4, pos + 8))
}

/// Why a scan over frames stopped.
#[derive(Clone, Copy, Debug, PartialEq, Eq)]
pub enum ScanStop {
    /// Fewer than four bytes were left where a frame would start.
    End,
    /// A frame's header announced more bytes than are left.
    Truncated,
    /// A frame's payload does not match the checksum in its header.
    ChecksumMismatch,
}

/// One frame found by a scan: where it starts and what its payload is.
#[derive(Debug, PartialEq, Eq)]
pub struct Frame {
    pub pos: u64,
    pub payload: Vec<u8>,
}

/// The frames found by a scan, in order, and why the scan stopped.
#[derive(Debug, PartialEq, Eq)]
pub struct FrameScan {
    pub frames: Vec<Frame>,
    pub stop: ScanStop,
}

pub open spec fn frame_view(f: Frame) -> (int, Seq<u8>) {
    (f.pos as int, f.payload@)
}

pub open spec fn frames_view(fs: Seq<Frame>) -> Seq<(int, Seq<u8>)> {
    fs.map_values(|f: Frame| frame_view(f))
}

impl View for FrameScan {
    type V = (Seq<(int, Seq<u8>)>, ScanStop);

    open spec fn view(&self) -> (Seq<(int, Seq<u8>)>, ScanStop) {
        (frames_view(self.frames@), self.stop)
    }
}

/// The frames that a scan finds in `data` from byte `pos` on, and why it stops.
/// With `verify`, a frame whose checksum does not match stops the scan.
pub open spec fn spec_scan(data: Seq<u8>, pos: int, verify: bool) -> (
    Seq<(int, Seq<u8>)>,
    ScanStop,
)
    decreases data.len() - pos,
{
    if pos < 0 || data.len() - pos < 4 {
        (Seq::empty(), ScanStop::End)
    } else if data.len() - pos < 8 + len_field(data, pos) {
        (Seq::empty(), ScanStop::Truncated)
    } else {
        let payload = data.subrange(pos + 8, pos + 8 + len_field(data, pos));
        if verify && crc32_checksum(payload) != crc_field(data, pos) {
            (Seq::empty(), ScanStop::ChecksumMismatch)
        } else {
            let rest = spec_scan(data, pos + 8 + len_field(data, pos), verify);
            (seq![(pos, payload)] + rest.0, rest.1)
        }
    }
}

/// A scan that does not check checksums never stops at a checksum.
pub proof fn lemma_unchecked_scan_never_mismatches(data: Seq<u8>, pos: int)
    ensures
        spec_scan(data, pos, false).1 != ScanStop::ChecksumMismatch,
    decreases data.len() - pos,
{
    if pos >= 0 && data.len() - pos >= 8 + len_field(data, pos) {
        lemma_unchecked_scan_never_mismatches(data, pos + 8 + len_field(data, pos));
    }
}

/// The frames from `pos` on fill `data` exactly (and, with `verify`, all
/// their checksums match).
pub open spec fn scan_tiles(data: Seq<u8>, pos: int, verify: bool) -> bool
    decreases data.len() - pos,
{
    if pos < 0 || pos > data.len() {
        false
    } else if pos == data.len() {
        true
    } else if data.len() - pos < 8 + len_field(data, pos) || data.len() - pos < 4 {
        false
    } else {
        let payload = data.subrange(pos + 8, pos + 8 + len_field(data, pos));
        &&& !(verify && crc32_checksum(payload) != crc_field(data, pos))
        &&& scan_tiles(data, pos + 8 + len_field(data, pos), verify)
    }
}

/// A frame placed at the end of some bytes is found whole by a scan that
/// starts at it, with its own payload, and the scan ends right after it.
pub proof fn lemma_scan_new_frame(data: Seq<u8>, payload: Seq<u8>, verify: bool)
    requires
        payload.len() <= u32::MAX,
    ensures
        spec_scan(data + frame_bytes(payload), data.len() as int, verify) == (
            seq![(data.len() as int, payload)],
            ScanStop::End,
        ),
        scan_tiles(data + frame_bytes(payload), data.len() as int, verify),
{
    lemma_auto_spec_u32_to_from_le_bytes();
    let all = data + frame_bytes(payload);
    let pos = data.len() as int;
    let len_bytes = spec_u32_to_le_bytes(payload.len() as u32);
    let crc_bytes = spec_u32_to_le_bytes(crc32_checksum(payload));
    assert(all.subrange(pos, pos + 4) =~= len_bytes);
    assert(all.subrange(pos + 4, pos + 8) =~= crc_bytes);
    assert(len_field(all, pos) == payload.len());
    assert(all.subrange(pos + 8, pos + 8 + payload.len()) =~= payload);
    assert(all.len() == pos + 8 + payload.len());
    let rest = spec_scan(all, pos + 8 + payload.len(), verify);
    assert(rest == (Seq::<(int, Seq<u8>)>::empty(), ScanStop::End));
    assert(seq![(pos, payload)] + rest.0 =~= seq![(pos, payload)]);
    assert(scan_tiles(all, pos + 8 + payload.len(), verify));
}

/// Decoding gives back what encoding took: a scan of a lone frame finds
/// exactly its payload, with a matching checksum, and then the end.
pub proof fn law_frame_round_trip(payload: Seq<u8>)
    requires
        payload.len() <= u32::MAX,
    ensures
        spec_scan(frame_bytes(payload), 0, true) == (seq![(0int, payload)], ScanStop::End),
{
    lemma_scan_new_frame(Seq::empty(), payload, true);
    assert(Seq::<u8>::empty() + frame_bytes(payload) =~= frame_bytes(payload));
}

/// Bytes added after frames that fill `data` from `pos` leave those frames
/// as they were: a scan from `pos` finds them and then goes on into the added bytes.
pub proof fn lemma_scan_extend(data: Seq<u8>, extra: Seq<u8>, pos: int, verify: bool)
    requires
        scan_tiles(data, pos, verify),
    ensures
        spec_scan(data + extra, pos, verify) == ({
            let tail = spec_scan(data + extra, data.len() as int, verify);
            (spec_scan(data, pos, verify).0 + tail.0, tail.1)
        }),
        scan_tiles(data + extra, data.len() as int, verify) ==> scan_tiles(data + extra, pos, verify),
    decreases data.len() - pos,
{
    let all = data + extra;
    let tail = spec_scan(all, data.len() as int, verify);
    if pos == data.len() {
        assert(Seq::<(int, Seq<u8>)>::empty() + tail.0 =~= tail.0);
    } else {
        assert(all.subrange(pos, pos + 4) =~= data.subrange(pos, pos + 4));
        assert(all.subrange(pos + 4, pos + 8) =~= data.subrange(pos + 4, pos + 8));
        let len = len_field(data, pos);
        assert(all.subrange(pos + 8, pos + 8 + len) =~= data.subrange(pos + 8, pos + 8 + len));
        lemma_scan_extend(data, extra, pos + 8 + len, verify);
        let payload = data.subrange(pos + 8, pos + 8 + len);
        let inner = spec_scan(data, pos + 8 + len, verify);
        assert(seq![(pos, payload)] + (inner.0 + tail.0) =~= (seq![(pos, payload)] + inner.0)
            + tail.0);
    }
}

/// Builds the frame that holds `payload`.
pub fn encode_frame(payload: &[u8]) -> (frame: Vec<u8>)
    requires
        payload@.len() <= u32::MAX,
    ensures
        frame@ == frame_bytes(payload@),
{
    let len = payload.len() as u32;
    let checksum = crc32(payload);
    let mut frame = u32_to_le_bytes(len);
    let mut crc_bytes = u32_to_le_bytes(checksum);
    let mut body = slice_to_vec(payload);
    frame.append(&mut crc_bytes);
    frame.append(&mut body);
    frame
}

/// Reads the little-endian `u32` at `pos`.
fn read_u32_le(data: &[u8], pos: usize) -> (x: u32)
    requires
        pos + 4 <= data@.len(),
    ensures
        x == spec_u32_from_le_bytes(data@.subrange(pos as int, pos + 4)),
{
    let n = data.len();
    assert(pos + 4 <= n);
    u32_from_le_bytes(slice_subrange(data, pos, pos + 4))
}

/// Walks the frames of `data` from byte `start` on, as far as they are whole
/// (and, with `verify`, as far as their checksums match).
pub fn scan_frames(data: &[u8], start: usize, verify: bool) -> (scan: FrameScan)
    requires
        start <= data@.len(),
    ensures
        scan@ == spec_scan(data@, start as int, verify),
        forall|i: int|
            0 <= i < scan.frames@.len() ==> #[trigger] scan.frames@[i].pos + 8
                + scan.frames@[i].payload@.len() <= data@.len(),
{
    let mut frames: Vec<Frame> = Vec::new();
    let mut pos: usize = start;
    let stop: ScanStop;
    loop
        invariant
            start <= pos <= data@.len(),
            spec_scan(data@, start as int, verify) == ({
                let rest = spec_scan(data@, pos as int, verify);
                (frames_view(frames@) + rest.0, rest.1)
            }),
            forall|i: int|
                0 <= i < frames@.len() ==> #[trigger] frames@[i].pos + 8
                    + frames@[i].payload@.len() <= pos,
        ensures
            spec_scan(data@, start as int, verify) == (frames_view(frames@), stop),
            forall|i: int|
                0 <= i < frames@.len() ==> #[trigger] frames@[i].pos + 8
                    + frames@[i].payload@.len() <= data@.len(),
        decreases data@.len() - pos,
    {
        assert(frames_view(frames@) + Seq::empty() =~= frames_view(frames@));
        let remaining = data.len() - pos;
        if remaining < 4 {
            stop = ScanStop::End;
            break;
        }
        let len = read_u32_le(data, pos) as usize;
        if remaining < 8 || remaining - 8 < len {
            stop = ScanStop::Truncated;
            break;
        }
        let body = slice_subrange(data, pos + 8, pos + 8 + len);
        if verify {
            let expected = read_u32_le(data, pos + 4);
            let actual = crc32(body);
            if actual != expected {
                stop = ScanStop::ChecksumMismatch;
                break;
            }
        }
        let ghost old_frames = frames@;
        let frame = Frame { pos: pos as u64, payload: slice_to_vec(body) };
        frames.push(frame);
        proof {
            let rest = spec_scan(data@, pos + 8 + len, verify);
            assert(frames_view(frames@) =~= frames_view(old_frames).push((pos as int, body@)));
            assert(frames_view(old_frames) + (seq![(pos as int, body@)] + rest.0) =~= frames_view(
                frames@,
            ) + rest.0);
        }
        pos = pos + 8 + len;
    }
    FrameScan { frames, stop }
}

} // verus!
