//! Header, directory and string decoding against hand-built buffers.

use revisa_minidump::parse::{parse_directory, parse_header, seek, seek_stream, take};
use revisa_minidump::strings::parse_string;
use revisa_minidump::types::{Error, LocationDescriptor};

fn put_u16(buf: &mut Vec<u8>, v: u16) {
    buf.extend_from_slice(&v.to_le_bytes());
}

fn put_u32(buf: &mut Vec<u8>, v: u32) {
    buf.extend_from_slice(&v.to_le_bytes());
}

fn put_u64(buf: &mut Vec<u8>, v: u64) {
    buf.extend_from_slice(&v.to_le_bytes());
}

fn valid_header(streams: u32, dir_rva: u32) -> Vec<u8> {
    let mut buf = Vec::new();
    buf.extend_from_slice(b"MDMP");
    put_u16(&mut buf, 42899);
    put_u16(&mut buf, 0);
    put_u32(&mut buf, streams);
    put_u32(&mut buf, dir_rva);
    put_u32(&mut buf, 0xdead_beef); // checksum, ignored
    put_u32(&mut buf, 0x5b1c_0000); // timestamp
    put_u64(&mut buf, 0x42);
    assert_eq!(buf.len(), 32);
    buf
}

#[test]
fn header_valid_decodes() {
    let buf = valid_header(3, 32);
    let (h, rest) = parse_header(&buf).expect("valid header");
    assert_eq!(h.Version, 42899);
    assert_eq!(h.NumberOfStreams, 3);
    assert_eq!(h.StreamDirectory, 32);
    assert_eq!(h.TimeDateStamp, 0x5b1c_0000);
    assert_eq!(h.Flags, 0x42);
    assert_eq!(rest.len(), 0);
}

#[test]
fn header_bad_magic() {
    let mut buf = valid_header(3, 32);
    buf[0] = b'X';
    assert_eq!(parse_header(&buf).unwrap_err(), Error::BadMagic);
}

#[test]
fn header_bad_version() {
    let mut buf = valid_header(3, 32);
    buf[4] = 0x00;
    buf[5] = 0x00;
    assert_eq!(parse_header(&buf).unwrap_err(), Error::UnsupportedVersion);
}

#[test]
fn header_short_buffer_incomplete() {
    for n in 0..32 {
        let buf = vec![0u8; n];
        assert_eq!(parse_header(&buf).unwrap_err(), Error::IncompleteData);
    }
}

#[test]
fn take_and_seek_bounds() {
    let buf = vec![1u8, 2, 3, 4];
    let (head, rest) = take(&buf, 3).expect("take in range");
    assert_eq!(head, &[1, 2, 3]);
    assert_eq!(rest, &[4]);
    assert_eq!(take(&buf, 5).unwrap_err(), Error::IncompleteData);
    let (suffix, _) = seek(&buf, 2).expect("seek in range");
    assert_eq!(suffix, &[3, 4]);
    assert_eq!(seek(&buf, 5).unwrap_err(), Error::SeekOutOfRange);
}

#[test]
fn seek_stream_checks_offset_and_length() {
    let buf = vec![0u8; 16];
    let loc = LocationDescriptor { Offset: 20, Length: 1 };
    assert_eq!(seek_stream(&buf, &loc).unwrap_err(), Error::SeekOutOfRange);
    let loc = LocationDescriptor { Offset: 10, Length: 10 };
    assert_eq!(seek_stream(&buf, &loc).unwrap_err(), Error::IncompleteData);
    let loc = LocationDescriptor { Offset: 10, Length: 6 };
    let (stream, _) = seek_stream(&buf, &loc).expect("stream present");
    assert_eq!(stream.len(), 6);
}

#[test]
fn directory_decodes_entries() {
    let mut buf = valid_header(2, 32);
    // Entry 0: stream type 16 at (length 64, offset 256).
    put_u32(&mut buf, 16);
    put_u32(&mut buf, 64);
    put_u32(&mut buf, 256);
    // Entry 1: stream type 4 at (length 4, offset 320).
    put_u32(&mut buf, 4);
    put_u32(&mut buf, 4);
    put_u32(&mut buf, 320);
    let (h, _) = parse_header(&buf).unwrap();
    let (dir, _) = parse_directory(&buf, &h).expect("directory present");
    assert_eq!(dir.len(), 2);
    assert_eq!(dir[0].StreamType, 16);
    assert_eq!(dir[0].Location.Length, 64);
    assert_eq!(dir[0].Location.Offset, 256);
    assert_eq!(dir[1].StreamType, 4);
    assert_eq!(dir[1].Location.Offset, 320);
}

#[test]
fn directory_truncated_is_fatal() {
    let mut buf = valid_header(2, 32);
    // Only one of the two declared entries is present.
    put_u32(&mut buf, 16);
    put_u32(&mut buf, 64);
    put_u32(&mut buf, 256);
    let (h, _) = parse_header(&buf).unwrap();
    assert_eq!(parse_directory(&buf, &h).unwrap_err(), Error::IncompleteData);
}

#[test]
fn directory_seek_out_of_range() {
    let buf = valid_header(1, 999);
    let (h, _) = parse_header(&buf).unwrap();
    assert_eq!(parse_directory(&buf, &h).unwrap_err(), Error::SeekOutOfRange);
}

#[test]
fn string_resolves_utf16() {
    let mut buf = vec![0u8; 8];
    put_u32(&mut buf, 6); // byte count: three UTF-16 code units
    put_u16(&mut buf, b'a' as u16);
    put_u16(&mut buf, b'b' as u16);
    put_u16(&mut buf, 0x00e9); // 'e' with acute accent
    let (s, _) = parse_string(&buf, 8).expect("valid string");
    assert_eq!(s, "ab\u{e9}");
}

#[test]
fn string_bad_utf16_is_fatal() {
    let mut buf = vec![0u8; 4];
    put_u32(&mut buf, 2);
    put_u16(&mut buf, 0xd800); // unpaired surrogate
    assert_eq!(parse_string(&buf, 4).unwrap_err(), Error::BadStringEncoding);
}

#[test]
fn string_out_of_range_rva() {
    let buf = vec![0u8; 4];
    assert_eq!(parse_string(&buf, 100).unwrap_err(), Error::SeekOutOfRange);
}

#[test]
fn error_messages_describe_failures() {
    assert_eq!(Error::IncompleteData.message(), "incomplete data");
    assert_eq!(Error::BadMagic.message(), "bad header magic");
    assert_eq!(Error::BadStringEncoding.message(), "bad UTF-16 data");
}

#[test]
fn string_truncated_units() {
    let mut buf = Vec::new();
    put_u32(&mut buf, 8); // four code units declared, none present
    assert_eq!(parse_string(&buf, 0).unwrap_err(), Error::IncompleteData);
}
