//! Thread, CPU-context and exception decoding: the size-sniffed context
//! selection and the length-sniffed exception layouts.

use revisa_minidump::context::{
    exception_record_32, exception_record_64, parse_exception_stream, parse_thread_context_x86,
    parse_thread_list, thread_context,
};
use revisa_minidump::types::{Error, LocationDescriptor, MaybeThreadContext};

fn put_u32(buf: &mut Vec<u8>, v: u32) {
    buf.extend_from_slice(&v.to_le_bytes());
}

fn put_u64(buf: &mut Vec<u8>, v: u64) {
    buf.extend_from_slice(&v.to_le_bytes());
}

fn x86_blob() -> Vec<u8> {
    let mut blob = vec![0u8; 716];
    let regs: [(usize, u32); 12] = [
        (156, 0xd1), // Edi
        (160, 0x51), // Esi
        (164, 0xb0), // Ebx
        (168, 0xd0), // Edx
        (172, 0xc0), // Ecx
        (176, 0xa0), // Eax
        (180, 0xb9), // Ebp
        (184, 0x1b), // Eip
        (188, 0x23), // SegCs, unread
        (192, 0xf1), // EFlags
        (196, 0x59), // Esp
        (200, 0x2b), // SegSs, unread
    ];
    for (ofs, val) in regs {
        blob[ofs..ofs + 4].copy_from_slice(&val.to_le_bytes());
    }
    blob
}

#[test]
fn context_x86_decodes_registers() {
    let blob = x86_blob();
    let loc = LocationDescriptor { Offset: 0, Length: 716 };
    let (c, _) = parse_thread_context_x86(&blob, &loc).expect("716-byte blob");
    assert_eq!(c.Edi, 0xd1);
    assert_eq!(c.Esi, 0x51);
    assert_eq!(c.Ebx, 0xb0);
    assert_eq!(c.Edx, 0xd0);
    assert_eq!(c.Ecx, 0xc0);
    assert_eq!(c.Eax, 0xa0);
    assert_eq!(c.Ebp, 0xb9);
    assert_eq!(c.Eip, 0x1b);
    assert_eq!(c.EFlags, 0xf1);
    assert_eq!(c.Esp, 0x59);
}

#[test]
fn context_selection_by_length() {
    // 716 bytes select the x86 path.
    let blob = x86_blob();
    let loc = LocationDescriptor { Offset: 0, Length: 716 };
    let (c, _) = thread_context(&blob, &loc).expect("x86 selection");
    assert!(matches!(c, MaybeThreadContext::X86(_)));

    // 1232 bytes select the x64 path.
    let mut blob = vec![0u8; 1232];
    blob[68..72].copy_from_slice(&0x246u32.to_le_bytes()); // EFlags
    blob[120..128].copy_from_slice(&0xaau64.to_le_bytes()); // Rax
    blob[248..256].copy_from_slice(&0x7ff6_1234u64.to_le_bytes()); // Rip
    let loc = LocationDescriptor { Offset: 0, Length: 1232 };
    let (c, _) = thread_context(&blob, &loc).expect("x64 selection");
    match c {
        MaybeThreadContext::X64(x) => {
            assert_eq!(x.EFlags, 0x246);
            assert_eq!(x.Rax, 0xaa);
            assert_eq!(x.Rip, 0x7ff6_1234);
        },
        _ => panic!("expected an x64 context"),
    }

    // Any other length is the absent variant, not an error.
    for len in [0u64, 1, 715, 717, 1231, 1233, 4096] {
        let blob = vec![0u8; 4096];
        let loc = LocationDescriptor { Offset: 0, Length: len };
        let (c, _) = thread_context(&blob, &loc).expect("no context is a normal outcome");
        assert!(matches!(c, MaybeThreadContext::Absent));
    }
}

#[test]
fn thread_list_decodes_with_context() {
    // One 48-byte thread record after the 4-byte count; its context blob
    // (716 bytes) sits past the stream.
    let mut buf = Vec::new();
    put_u32(&mut buf, 1);
    put_u32(&mut buf, 0x1111); // thread id
    put_u32(&mut buf, 1); // suspend count
    put_u32(&mut buf, 0x20); // priority class
    put_u32(&mut buf, 8); // priority
    put_u64(&mut buf, 0x7ffd_0000); // teb
    put_u64(&mut buf, 0x10_0000); // stack address
    put_u32(&mut buf, 0x4000); // stack backing length
    put_u32(&mut buf, 0x600); // stack backing offset
    put_u32(&mut buf, 716); // context length
    put_u32(&mut buf, 52); // context offset: right after this stream
    assert_eq!(buf.len(), 52);
    buf.extend_from_slice(&x86_blob());
    let loc = LocationDescriptor { Offset: 0, Length: 52 };
    let (v, _) = parse_thread_list(&buf, &loc).expect("well-formed thread list");
    assert_eq!(v.len(), 1);
    assert_eq!(v[0].ThreadId, 0x1111);
    assert_eq!(v[0].SuspendCount, 1);
    assert_eq!(v[0].PriorityClass, 0x20);
    assert_eq!(v[0].Priority, 8);
    assert_eq!(v[0].Teb, 0x7ffd_0000);
    assert_eq!(v[0].Stack.Address, 0x10_0000);
    assert_eq!(v[0].Stack.Location.Length, 0x4000);
    assert_eq!(v[0].Stack.Location.Offset, 0x600);
    assert_eq!(v[0].ThreadContext.Length, 716);
    assert_eq!(v[0].ThreadContext.Offset, 52);
    match &v[0].Context {
        MaybeThreadContext::X86(c) => assert_eq!(c.Eip, 0x1b),
        _ => panic!("expected an x86 context"),
    }
}

fn record32(chain: u32, params: u32) -> Vec<u8> {
    let mut buf = Vec::new();
    put_u32(&mut buf, 0xc000_0005); // code
    put_u32(&mut buf, 1); // flags
    put_u32(&mut buf, chain);
    put_u32(&mut buf, 0x41_4141); // address
    put_u32(&mut buf, params);
    for k in 0..15 {
        put_u32(&mut buf, 0x10 + k);
    }
    assert_eq!(buf.len(), 80);
    buf
}

#[test]
fn exception_record_32_decodes() {
    let buf = record32(0, 2);
    let (rec, _) = exception_record_32(&buf).expect("well-formed record");
    assert_eq!(rec.Code, 0xc000_0005);
    assert_eq!(rec.Flags, 1);
    assert_eq!(rec.Address, 0x41_4141);
    assert_eq!(rec.Information, vec![0x10, 0x11]);
}

#[test]
fn exception_record_32_rejects_chain() {
    let buf = record32(0x1000, 2);
    assert_eq!(
        exception_record_32(&buf).unwrap_err(),
        Error::UnexpectedExceptionChain
    );
}

#[test]
fn exception_record_32_rejects_16_params() {
    let buf = record32(0, 16);
    assert_eq!(
        exception_record_32(&buf).unwrap_err(),
        Error::InvalidParameterCount
    );
}

#[test]
fn exception_record_64_decodes() {
    let mut buf = Vec::new();
    put_u32(&mut buf, 0xc000_0094); // code
    put_u32(&mut buf, 0); // flags
    put_u64(&mut buf, 0); // chain
    put_u64(&mut buf, 0x7ff6_0000_1234); // address
    put_u32(&mut buf, 1); // parameter count
    put_u32(&mut buf, 0); // alignment
    for k in 0..15u64 {
        put_u64(&mut buf, 0x900 + k);
    }
    assert_eq!(buf.len(), 152);
    let (rec, _) = exception_record_64(&buf).expect("well-formed record");
    assert_eq!(rec.Code, 0xc000_0094);
    assert_eq!(rec.Address, 0x7ff6_0000_1234);
    assert_eq!(rec.Information, vec![0x900]);
}

#[test]
fn exception_stream_32_decodes() {
    let mut buf = Vec::new();
    put_u32(&mut buf, 0x2222); // thread id
    put_u32(&mut buf, 0); // alignment
    buf.extend_from_slice(&record32(0, 1));
    put_u32(&mut buf, 0); // context length 0: absent context
    put_u32(&mut buf, 0); // context offset
    assert_eq!(buf.len(), 96);
    buf.extend_from_slice(&[0u8; 8]); // the 104-byte stream's tail
    let loc = LocationDescriptor { Offset: 0, Length: 104 };
    let (s, _) = parse_exception_stream(&buf, &loc).expect("well-formed stream");
    assert_eq!(s.ThreadId, 0x2222);
    assert_eq!(s.Exception.Code, 0xc000_0005);
    assert_eq!(s.Exception.Information, vec![0x10]);
    assert!(matches!(s.Context, MaybeThreadContext::Absent));
}

#[test]
fn exception_stream_odd_length_is_fatal() {
    let buf = vec![0u8; 120];
    let loc = LocationDescriptor { Offset: 0, Length: 120 };
    assert_eq!(
        parse_exception_stream(&buf, &loc).unwrap_err(),
        Error::UnexpectedStreamSize
    );
}
