use kv_store::error::KvError;
use kv_store::wal::frame::{encode_frame, scan_frames, Frame, ScanStop};
use kv_store::wal::writer::WalLog;
use kv_store::wal::Wal;

#[test]
fn frame_holds_length_checksum_and_payload() {
    let frame = encode_frame(b"123456789");
    // CRC-32 (IEEE) of "123456789" is 0xCBF43926.
    let mut expected = vec![9u8, 0, 0, 0, 0x26, 0x39, 0xF4, 0xCB];
    expected.extend_from_slice(b"123456789");
    assert_eq!(frame, expected);
}

#[test]
fn empty_payload_frame() {
    let frame = encode_frame(b"");
    assert_eq!(frame, vec![0u8, 0, 0, 0, 0, 0, 0, 0]);
    let scan = scan_frames(&frame, 0, true);
    assert_eq!(scan.frames, vec![Frame { pos: 0, payload: vec![] }]);
    assert_eq!(scan.stop, ScanStop::End);
}

#[test]
fn frame_round_trip() {
    let frame = encode_frame(&[7, 8, 9]);
    let scan = scan_frames(&frame, 0, true);
    assert_eq!(scan.frames, vec![Frame { pos: 0, payload: vec![7, 8, 9] }]);
    assert_eq!(scan.stop, ScanStop::End);
}

#[test]
fn scan_finds_consecutive_frames() {
    let mut data = encode_frame(b"ab");
    data.extend_from_slice(&encode_frame(b"cde"));
    let scan = scan_frames(&data, 0, true);
    assert_eq!(
        scan.frames,
        vec![Frame { pos: 0, payload: b"ab".to_vec() }, Frame { pos: 10, payload: b"cde".to_vec() }]
    );
    assert_eq!(scan.stop, ScanStop::End);
    let from_second = scan_frames(&data, 10, true);
    assert_eq!(from_second.frames, vec![Frame { pos: 10, payload: b"cde".to_vec() }]);
}

#[test]
fn scan_stops_at_truncated_frame() {
    let mut data = encode_frame(b"ab");
    let second = encode_frame(b"cdef");
    data.extend_from_slice(&second[..9]);
    let scan = scan_frames(&data, 0, true);
    assert_eq!(scan.frames.len(), 1);
    assert_eq!(scan.stop, ScanStop::Truncated);
}

#[test]
fn scan_ignores_short_tail() {
    let mut data = encode_frame(b"ab");
    data.extend_from_slice(&[1, 2, 3]);
    let scan = scan_frames(&data, 0, true);
    assert_eq!(scan.frames.len(), 1);
    assert_eq!(scan.stop, ScanStop::End);
}

#[test]
fn checked_scan_stops_at_bad_checksum() {
    let mut data = encode_frame(b"ab");
    let mut bad = encode_frame(b"xyz");
    bad[4] ^= 0xFF;
    data.extend_from_slice(&bad);
    let checked = scan_frames(&data, 0, true);
    assert_eq!(checked.frames.len(), 1);
    assert_eq!(checked.stop, ScanStop::ChecksumMismatch);
    let unchecked = scan_frames(&data, 0, false);
    assert_eq!(unchecked.frames.len(), 2);
    assert_eq!(unchecked.stop, ScanStop::End);
}

#[test]
fn open_indexes_frames_by_offset() {
    let mut data = encode_frame(b"first");
    data.extend_from_slice(&encode_frame(b"second"));
    let log = WalLog::new(data, &[5, 6]).unwrap();
    assert_eq!(log.get_byte_pos(5), Some(&0));
    assert_eq!(log.get_byte_pos(6), Some(&13));
    assert_eq!(log.get_byte_pos(7), None);
}

#[test]
fn open_later_frame_of_same_offset_wins() {
    let mut data = encode_frame(b"a");
    data.extend_from_slice(&encode_frame(b"b"));
    let log = WalLog::new(data, &[1, 1]).unwrap();
    assert_eq!(log.get_byte_pos(1), Some(&9));
}

#[test]
fn open_rejects_truncated_log() {
    let mut data = encode_frame(b"first");
    data.truncate(10);
    assert_eq!(WalLog::new(data, &[]).err(), Some(KvError::UnexpectedEof));
}

#[test]
fn open_rejects_offsets_that_do_not_match_frames() {
    let data = encode_frame(b"first");
    assert_eq!(WalLog::new(data, &[1, 2]).err(), Some(KvError::InvalidInput));
}

#[test]
fn read_after_append_gives_back_the_payload() {
    let mut log = WalLog::new(Vec::new(), &[]).unwrap();
    log.append(3, b"hello");
    let scan = log.read(3).unwrap();
    assert_eq!(scan.frames, vec![Frame { pos: 0, payload: b"hello".to_vec() }]);
    assert_eq!(scan.stop, ScanStop::End);
    assert_eq!(log.len(), 13);
}

#[test]
fn append_extends_earlier_reads() {
    let mut log = WalLog::new(Vec::new(), &[]).unwrap();
    log.append(1, b"one");
    log.append(2, b"two");
    let scan = log.get_entries(1).unwrap();
    assert_eq!(
        scan.frames,
        vec![Frame { pos: 0, payload: b"one".to_vec() }, Frame { pos: 11, payload: b"two".to_vec() }]
    );
    assert_eq!(scan.stop, ScanStop::End);
    assert_eq!(log.get_byte_pos(2), Some(&11));
}

#[test]
fn read_of_unknown_offset_is_not_found() {
    let log = WalLog::new(Vec::new(), &[]).unwrap();
    assert_eq!(log.read(9).err(), Some(KvError::NotFound));
}

#[test]
fn read_reports_corruption_loaded_from_disk() {
    let mut data = encode_frame(b"good");
    let mut bad = encode_frame(b"bad");
    bad[10] ^= 0x01;
    data.extend_from_slice(&bad);
    let log = WalLog::new(data, &[1, 2]).unwrap();
    assert_eq!(log.read(1).err(), Some(KvError::InvalidData));
    assert_eq!(log.get_entries(2).err(), Some(KvError::InvalidData));
}

#[test]
fn read_reports_a_cut_off_frame() {
    // Three stray bytes after the first frame end the file cleanly; a frame
    // appended after them makes them read as a header that announces more
    // bytes than the log holds.
    let mut data = encode_frame(b"a");
    data.extend_from_slice(&[5, 0, 0]);
    let mut log = WalLog::new(data, &[1]).unwrap();
    log.append(2, b"b");
    assert_eq!(log.read(1).err(), Some(KvError::UnexpectedEof));
    let scan = log.read(2).unwrap();
    assert_eq!(scan.frames, vec![Frame { pos: 12, payload: b"b".to_vec() }]);
}

#[test]
fn reopen_rebuilds_the_index() {
    let mut log = WalLog::new(Vec::new(), &[]).unwrap();
    log.append(10, b"ten");
    log.append(11, b"eleven");
    log.append(10, b"ten again");
    let reopened = WalLog::new(log.contents().to_vec(), &[10, 11, 10]).unwrap();
    assert_eq!(reopened.get_byte_pos(10), log.get_byte_pos(10));
    assert_eq!(reopened.get_byte_pos(11), log.get_byte_pos(11));
    assert_eq!(reopened.get_byte_pos(10), Some(&25));
    assert_eq!(reopened.read(11).unwrap(), log.read(11).unwrap());
}
