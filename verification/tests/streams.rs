//! The scalar stream decoders against hand-built streams: memory-info
//! list, module list, both memory lists, and system info.

use revisa_minidump::bytes::sum_bytes_impl;
use revisa_minidump::parse::{
    parse_memory64_list, parse_memory_info, parse_memory_list, parse_module_list,
};
use revisa_minidump::sysinfo::parse_system_info;
use revisa_minidump::types::{Error, LocationDescriptor};

fn put_u16(buf: &mut Vec<u8>, v: u16) {
    buf.extend_from_slice(&v.to_le_bytes());
}

fn put_u32(buf: &mut Vec<u8>, v: u32) {
    buf.extend_from_slice(&v.to_le_bytes());
}

fn put_u64(buf: &mut Vec<u8>, v: u64) {
    buf.extend_from_slice(&v.to_le_bytes());
}

fn put_memory_info(
    buf: &mut Vec<u8>,
    base: u64,
    alloc: u64,
    alloc_protect: u32,
    size: u64,
    state: u32,
    protect: u32,
    kind: u32,
) {
    put_u64(buf, base);
    put_u64(buf, alloc);
    put_u32(buf, alloc_protect);
    put_u32(buf, 0); // alignment
    put_u64(buf, size);
    put_u32(buf, state);
    put_u32(buf, protect);
    put_u32(buf, kind);
    put_u32(buf, 0); // alignment
}

#[test]
fn memory_info_stream_decodes() {
    let mut buf = Vec::new();
    put_u32(&mut buf, 16); // sub-header size
    put_u32(&mut buf, 48); // entry size
    put_u64(&mut buf, 2); // entry count
    put_memory_info(&mut buf, 0, 0, 0, 0x1000, 0x10000, 1, 0);
    put_memory_info(&mut buf, 0x1000, 0x1000, 4, 0x2000, 0x1000, 4, 0x0100_0000);
    let loc = LocationDescriptor { Offset: 0, Length: buf.len() as u64 };
    let (v, _) = parse_memory_info(&buf, &loc).expect("well-formed stream");
    assert_eq!(v.len(), 2);
    assert_eq!(v[0].BaseAddress, 0);
    assert_eq!(v[0].RegionSize, 0x1000);
    assert_eq!(v[0].State, 0x10000);
    assert_eq!(v[1].BaseAddress, 0x1000);
    assert_eq!(v[1].AllocationBase, 0x1000);
    assert_eq!(v[1].AllocationProtect, 4);
    assert_eq!(v[1].RegionSize, 0x2000);
    assert_eq!(v[1].Type, 0x0100_0000);
}

#[test]
fn memory_info_stream_size_mismatch() {
    let mut buf = Vec::new();
    put_u32(&mut buf, 16);
    put_u32(&mut buf, 48);
    put_u64(&mut buf, 2);
    put_memory_info(&mut buf, 0, 0, 0, 0x1000, 0x10000, 1, 0);
    put_memory_info(&mut buf, 0x1000, 0x1000, 4, 0x2000, 0x1000, 4, 0x0100_0000);
    buf.push(0); // one stray byte breaks the exact size equation
    let loc = LocationDescriptor { Offset: 0, Length: buf.len() as u64 };
    assert_eq!(
        parse_memory_info(&buf, &loc).unwrap_err(),
        Error::UnexpectedStreamSize
    );
}

#[test]
fn memory_info_stream_too_short() {
    let buf = vec![0u8; 8];
    let loc = LocationDescriptor { Offset: 0, Length: 8 };
    assert_eq!(
        parse_memory_info(&buf, &loc).unwrap_err(),
        Error::IncompleteData
    );
}

#[test]
fn memory_info_count_over_domain() {
    let mut buf = Vec::new();
    put_u32(&mut buf, 16);
    put_u32(&mut buf, 48);
    put_u64(&mut buf, 0x1_0000_0000); // count beyond the 32-bit domain
    let loc = LocationDescriptor { Offset: 0, Length: buf.len() as u64 };
    assert_eq!(
        parse_memory_info(&buf, &loc).unwrap_err(),
        Error::UnexpectedNumberOfEntries
    );
}

fn put_module(buf: &mut Vec<u8>, base: u64, size: u32, checksum: u32, stamp: u32, name_rva: u32) {
    put_u64(buf, base);
    put_u32(buf, size);
    put_u32(buf, checksum);
    put_u32(buf, stamp);
    put_u32(buf, name_rva);
    // VS_FIXEDFILEINFO, CvRecord, MiscRecord, reserved: 84 bytes unread here.
    buf.extend_from_slice(&[0u8; 84]);
}

#[test]
fn module_list_decodes_with_name() {
    // The module stream sits at offset 0; the name string lives past it.
    let mut buf = Vec::new();
    put_u32(&mut buf, 1); // module count
    put_module(&mut buf, 0x40_0000, 0x3000, 0xabcd, 7, 116);
    let stream_len = buf.len() as u64;
    assert_eq!(buf.len(), 112);
    buf.extend_from_slice(&[0u8; 4]); // padding up to the string at 116
    put_u32(&mut buf, 4);
    put_u16(&mut buf, b'o' as u16);
    put_u16(&mut buf, b'k' as u16);
    let loc = LocationDescriptor { Offset: 0, Length: stream_len };
    let (v, _) = parse_module_list(&buf, &loc).expect("well-formed module list");
    assert_eq!(v.len(), 1);
    assert_eq!(v[0].BaseOfImage, 0x40_0000);
    assert_eq!(v[0].SizeOfImage, 0x3000);
    assert_eq!(v[0].CheckSum, 0xabcd);
    assert_eq!(v[0].TimeDateStamp, 7);
    assert_eq!(v[0].ModuleNameRva, 116);
    assert_eq!(v[0].ModuleName.as_deref(), Some("ok"));
}

#[test]
fn module_list_zero_name_rva_unresolved() {
    let mut buf = Vec::new();
    put_u32(&mut buf, 1);
    put_module(&mut buf, 0x40_0000, 0x3000, 0, 0, 0);
    let loc = LocationDescriptor { Offset: 0, Length: buf.len() as u64 };
    let (v, _) = parse_module_list(&buf, &loc).expect("well-formed module list");
    assert_eq!(v[0].ModuleName, None);
}

#[test]
fn module_list_size_mismatch() {
    let mut buf = Vec::new();
    put_u32(&mut buf, 2); // two declared, one present
    put_module(&mut buf, 0x40_0000, 0x3000, 0, 0, 0);
    let loc = LocationDescriptor { Offset: 0, Length: buf.len() as u64 };
    assert_eq!(
        parse_module_list(&buf, &loc).unwrap_err(),
        Error::UnexpectedStreamSize
    );
}

#[test]
fn memory_list_decodes() {
    let mut buf = Vec::new();
    put_u32(&mut buf, 2);
    put_u64(&mut buf, 0x7000_0000);
    put_u32(&mut buf, 0x100); // backing length
    put_u32(&mut buf, 0x400); // backing offset
    put_u64(&mut buf, 0x7000_1000);
    put_u32(&mut buf, 0x200);
    put_u32(&mut buf, 0x500);
    let loc = LocationDescriptor { Offset: 0, Length: buf.len() as u64 };
    let (v, _) = parse_memory_list(&buf, &loc).expect("well-formed memory list");
    assert_eq!(v.len(), 2);
    assert_eq!(v[0].Address, 0x7000_0000);
    assert_eq!(v[0].Location.Length, 0x100);
    assert_eq!(v[0].Location.Offset, 0x400);
    assert_eq!(v[1].Address, 0x7000_1000);
    assert_eq!(v[1].Location.Offset, 0x500);
}

#[test]
fn memory64_offsets_accumulate() {
    // Three records of lengths 0x100, 0x250, 0x33 after base 0x4000:
    // their resolved offsets are the base plus the running sum of all
    // earlier lengths.
    let lengths: [u64; 3] = [0x100, 0x250, 0x33];
    let base: u64 = 0x4000;
    let mut buf = Vec::new();
    put_u64(&mut buf, lengths.len() as u64);
    put_u64(&mut buf, base);
    for (i, len) in lengths.iter().enumerate() {
        put_u64(&mut buf, 0x9000_0000 + (i as u64) * 0x10_0000);
        put_u64(&mut buf, *len);
    }
    let loc = LocationDescriptor { Offset: 0, Length: buf.len() as u64 };
    let (v, _) = parse_memory64_list(&buf, &loc).expect("well-formed memory64 list");
    assert_eq!(v.len(), 3);
    let mut expected: u64 = base;
    for (i, len) in lengths.iter().enumerate() {
        assert_eq!(v[i].Address, 0x9000_0000 + (i as u64) * 0x10_0000);
        assert_eq!(v[i].Location.Offset, expected);
        assert_eq!(v[i].Location.Length, *len);
        expected += *len;
    }
}

#[test]
fn memory64_size_mismatch() {
    let mut buf = Vec::new();
    put_u64(&mut buf, 2); // two declared, one present
    put_u64(&mut buf, 0x4000);
    put_u64(&mut buf, 0x9000_0000);
    put_u64(&mut buf, 0x100);
    let loc = LocationDescriptor { Offset: 0, Length: buf.len() as u64 };
    assert_eq!(
        parse_memory64_list(&buf, &loc).unwrap_err(),
        Error::UnexpectedStreamSize
    );
}

#[test]
fn memory64_offset_overflow_is_fatal() {
    let mut buf = Vec::new();
    put_u64(&mut buf, 2);
    put_u64(&mut buf, u64::MAX - 0x10); // base almost at the top
    put_u64(&mut buf, 0x9000_0000);
    put_u64(&mut buf, 0x100); // pushes the second offset past 64 bits
    put_u64(&mut buf, 0x9100_0000);
    put_u64(&mut buf, 0x1);
    let loc = LocationDescriptor { Offset: 0, Length: buf.len() as u64 };
    assert_eq!(
        parse_memory64_list(&buf, &loc).unwrap_err(),
        Error::SeekOutOfRange
    );
}

#[test]
fn system_info_decodes() {
    let mut buf = Vec::new();
    put_u16(&mut buf, 9); // architecture
    put_u16(&mut buf, 6); // family
    put_u16(&mut buf, 0x3a0e); // revision: model 0x3a, stepping 0x0e
    buf.push(8); // processor count
    buf.push(1); // product type, unread
    put_u32(&mut buf, 10); // major
    put_u32(&mut buf, 0); // minor
    put_u32(&mut buf, 19041); // build
    put_u32(&mut buf, 2); // platform id, unread
    put_u32(&mut buf, 56); // service-pack name offset
    put_u16(&mut buf, 0x100); // suite mask, unread
    put_u16(&mut buf, 0); // reserved
    for k in 0..6 {
        put_u32(&mut buf, 0x11 * (k + 1)); // feature words
    }
    assert_eq!(buf.len(), 56);
    put_u32(&mut buf, 2);
    put_u16(&mut buf, b'S' as u16);
    let loc = LocationDescriptor { Offset: 0, Length: 56 };
    let (si, _) = parse_system_info(&buf, &loc).expect("well-formed system info");
    assert_eq!(si.ProcessorArchitecture, 9);
    assert_eq!(si.ProcessorFamily, 6);
    assert_eq!(si.ProcessorModel, 0x3a);
    assert_eq!(si.ProcessorStepping, 0x0e);
    assert_eq!(si.NumberOfProcessors, 8);
    assert_eq!(si.MajorVersion, 10);
    assert_eq!(si.MinorVersion, 0);
    assert_eq!(si.BuildNumber, 19041);
    assert_eq!(si.CSDVersionRva, 56);
    assert_eq!(si.ProcessorFeatures, vec![0x11, 0x22, 0x33, 0x44, 0x55, 0x66]);
    assert_eq!(si.ServicePack.as_deref(), Some("S"));
}

#[test]
fn system_info_short_stream() {
    let buf = vec![0u8; 40];
    let loc = LocationDescriptor { Offset: 0, Length: 40 };
    assert_eq!(
        parse_system_info(&buf, &loc).unwrap_err(),
        Error::IncompleteData
    );
}

#[test]
fn byte_sum_wraps() {
    assert_eq!(sum_bytes_impl(&[]), 0);
    assert_eq!(sum_bytes_impl(&[1, 2, 3]), 6);
    assert_eq!(sum_bytes_impl(&[200, 100]), 44); // 300 mod 256
    assert_eq!(sum_bytes_impl(&[255, 1]), 0);
}
