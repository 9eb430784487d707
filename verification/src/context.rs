//! Thread, CPU-context and exception decoding. Context decoding is
//! size-sniffed: a context blob of exactly 716 bytes is a 32-bit context,
//! exactly 1232 bytes a 64-bit one, and any other length is the absent
//! variant, a normal outcome rather than an error. Exception streams are
//! length-sniffed the same way: a 104-byte stream holds a 32-bit
//! exception record, a 168-byte stream a 64-bit one, and any other length
//! is fatal.

#![allow(non_snake_case)]

use vstd::prelude::*;

use crate::bytes::{le32, le64, read_u32, read_u64};
use crate::parse::{
    location, memory_range, seek, seek_stream, spec_location, spec_memory_range, spec_seek_stream,
    take, ParseData, ParseResult,
};
use crate::types::{
    ContextX64, ContextX86, Error, ExceptionRecord, ExceptionRecordView, ExceptionStream,
    ExceptionStreamView, LocationDescriptor, MaybeThreadContext, Thread,
};

verus! {

/// The byte length that selects the 32-bit context layout.
pub const CONTEXT_X86_SIZE: u64 = 716;

/// The byte length that selects the 64-bit context layout.
pub const CONTEXT_X64_SIZE: u64 = 1232;

/// The 32-bit context's registers, at their fixed offsets within a
/// 716-byte blob.
pub open spec fn spec_ctx_x86(raw: Seq<u8>) -> ContextX86 {
    ContextX86 {
        EFlags: le32(raw, 192) as u32,
        Eip: le32(raw, 184) as u32,
        Eax: le32(raw, 176) as u32,
        Ebx: le32(raw, 164) as u32,
        Ecx: le32(raw, 172) as u32,
        Edx: le32(raw, 168) as u32,
        Esp: le32(raw, 196) as u32,
        Ebp: le32(raw, 180) as u32,
        Esi: le32(raw, 160) as u32,
        Edi: le32(raw, 156) as u32,
    }
}

/// 32-bit context decoding: seek to the blob, then require its declared
/// length to be exactly 716 bytes.
pub open spec fn spec_parse_thread_context_x86(data: Seq<u8>, loc: LocationDescriptor) -> Result<
    ContextX86,
    Error,
> {
    match spec_seek_stream(data, loc) {
        Err(e) => Err(e),
        Ok(raw) => if loc.Length != CONTEXT_X86_SIZE {
            Err(Error::UnexpectedStreamSize)
        } else {
            Ok(spec_ctx_x86(raw))
        },
    }
}

/// Decodes the 32-bit CPU context blob that `loc` names.
pub fn parse_thread_context_x86<'a>(data: ParseData<'a>, loc: &LocationDescriptor) -> (r:
    ParseResult<'a, ContextX86>)
    ensures
        match r {
            Ok((c, rest)) => spec_parse_thread_context_x86(data@, *loc) == Ok::<ContextX86, Error>(
                c,
            ) && rest@.len() == 0,
            Err(e) => spec_parse_thread_context_x86(data@, *loc) == Err::<ContextX86, Error>(e),
        },
{
    let (raw, remain) = match seek_stream(data, loc) {
        Ok(p) => p,
        Err(e) => {
            return Err(e);
        },
    };
    if loc.Length != CONTEXT_X86_SIZE {
        return Err(Error::UnexpectedStreamSize);
    }
    let context = ContextX86 {
        EFlags: read_u32(raw, 192),
        Eip: read_u32(raw, 184),
        Eax: read_u32(raw, 176),
        Ebx: read_u32(raw, 164),
        Ecx: read_u32(raw, 172),
        Edx: read_u32(raw, 168),
        Esp: read_u32(raw, 196),
        Ebp: read_u32(raw, 180),
        Esi: read_u32(raw, 160),
        Edi: read_u32(raw, 156),
    };
    Ok((context, remain))
}

/// The 64-bit context's registers, at their fixed offsets within a
/// 1232-byte blob.
pub open spec fn spec_ctx_x64(raw: Seq<u8>) -> ContextX64 {
    ContextX64 {
        EFlags: le32(raw, 68) as u32,
        Rip: le64(raw, 248) as u64,
        Rax: le64(raw, 120) as u64,
        Rbx: le64(raw, 144) as u64,
        Rcx: le64(raw, 128) as u64,
        Rdx: le64(raw, 136) as u64,
        Rsp: le64(raw, 152) as u64,
        Rbp: le64(raw, 160) as u64,
        Rsi: le64(raw, 168) as u64,
        Rdi: le64(raw, 176) as u64,
        R8: le64(raw, 184) as u64,
        R9: le64(raw, 192) as u64,
        R10: le64(raw, 200) as u64,
        R11: le64(raw, 208) as u64,
        R12: le64(raw, 216) as u64,
        R13: le64(raw, 224) as u64,
        R14: le64(raw, 232) as u64,
        R15: le64(raw, 240) as u64,
    }
}

/// 64-bit context decoding: seek to the blob, then require its declared
/// length to be exactly 1232 bytes.
pub open spec fn spec_parse_thread_context_x64(data: Seq<u8>, loc: LocationDescriptor) -> Result<
    ContextX64,
    Error,
> {
    match spec_seek_stream(data, loc) {
        Err(e) => Err(e),
        Ok(raw) => if loc.Length != CONTEXT_X64_SIZE {
            Err(Error::UnexpectedStreamSize)
        } else {
            Ok(spec_ctx_x64(raw))
        },
    }
}

/// Decodes the 64-bit CPU context blob that `loc` names.
pub fn parse_thread_context_x64<'a>(data: ParseData<'a>, loc: &LocationDescriptor) -> (r:
    ParseResult<'a, ContextX64>)
    ensures
        match r {
            Ok((c, rest)) => spec_parse_thread_context_x64(data@, *loc) == Ok::<ContextX64, Error>(
                c,
            ) && rest@.len() == 0,
            Err(e) => spec_parse_thread_context_x64(data@, *loc) == Err::<ContextX64, Error>(e),
        },
{
    let (raw, remain) = match seek_stream(data, loc) {
        Ok(p) => p,
        Err(e) => {
            return Err(e);
        },
    };
    if loc.Length != CONTEXT_X64_SIZE {
        return Err(Error::UnexpectedStreamSize);
    }
    let context = ContextX64 {
        EFlags: read_u32(raw, 68),
        Rip: read_u64(raw, 248),
        Rax: read_u64(raw, 120),
        Rbx: read_u64(raw, 144),
        Rcx: read_u64(raw, 128),
        Rdx: read_u64(raw, 136),
        Rsp: read_u64(raw, 152),
        Rbp: read_u64(raw, 160),
        Rsi: read_u64(raw, 168),
        Rdi: read_u64(raw, 176),
        R8: read_u64(raw, 184),
        R9: read_u64(raw, 192),
        R10: read_u64(raw, 200),
        R11: read_u64(raw, 208),
        R12: read_u64(raw, 216),
        R13: read_u64(raw, 224),
        R14: read_u64(raw, 232),
        R15: read_u64(raw, 240),
    };
    Ok((context, remain))
}

/// Context selection by blob length: exactly 716 bytes decode through the
/// 32-bit path, exactly 1232 bytes through the 64-bit path, and any other
/// length is the absent variant with no error.
pub open spec fn spec_thread_context(data: Seq<u8>, loc: LocationDescriptor) -> Result<
    MaybeThreadContext,
    Error,
> {
    if loc.Length == CONTEXT_X86_SIZE {
        match spec_parse_thread_context_x86(data, loc) {
            Ok(c) => Ok(MaybeThreadContext::X86(c)),
            Err(e) => Err(e),
        }
    } else if loc.Length == CONTEXT_X64_SIZE {
        match spec_parse_thread_context_x64(data, loc) {
            Ok(c) => Ok(MaybeThreadContext::X64(c)),
            Err(e) => Err(e),
        }
    } else {
        Ok(MaybeThreadContext::Absent)
    }
}

/// Decodes the CPU context that `loc` names, selecting the layout by the
/// blob's declared length.
pub fn thread_context<'a>(data: ParseData<'a>, loc: &LocationDescriptor) -> (r: ParseResult<
    'a,
    MaybeThreadContext,
>)
    ensures
        match r {
            Ok((c, _)) => spec_thread_context(data@, *loc) == Ok::<MaybeThreadContext, Error>(c),
            Err(e) => spec_thread_context(data@, *loc) == Err::<MaybeThreadContext, Error>(e),
        },
{
    if loc.Length == CONTEXT_X86_SIZE {
        return match parse_thread_context_x86(data, loc) {
            Ok((context, remain)) => Ok((MaybeThreadContext::X86(context), remain)),
            Err(e) => Err(e),
        };
    }
    if loc.Length == CONTEXT_X64_SIZE {
        return match parse_thread_context_x64(data, loc) {
            Ok((context, remain)) => Ok((MaybeThreadContext::X64(context), remain)),
            Err(e) => Err(e),
        };
    }
    Ok((MaybeThreadContext::Absent, data))
}

/// The selection law of context decoding: a blob of exactly 716 bytes
/// can only decode through the 32-bit path, one of exactly 1232 bytes
/// only through the 64-bit path, and any other length yields the absent
/// variant with no error.
pub proof fn lemma_context_selection(data: Seq<u8>, loc: LocationDescriptor)
    ensures
        loc.Length == CONTEXT_X86_SIZE ==> (spec_thread_context(data, loc) matches Ok(c) ==> c
            matches MaybeThreadContext::X86(_)),
        loc.Length == CONTEXT_X64_SIZE ==> (spec_thread_context(data, loc) matches Ok(c) ==> c
            matches MaybeThreadContext::X64(_)),
        loc.Length != CONTEXT_X86_SIZE && loc.Length != CONTEXT_X64_SIZE
            ==> spec_thread_context(data, loc) == Ok::<MaybeThreadContext, Error>(
            MaybeThreadContext::Absent,
        ),
{
}

/// The thread record stored at byte `i` of `b`: 24 bytes of scalar
/// fields, a 16-byte stack overlay, and an 8-byte context location; the
/// context itself is not yet decoded.
pub open spec fn spec_thread(b: Seq<u8>, i: int) -> Thread {
    Thread {
        ThreadId: le32(b, i) as u32,
        SuspendCount: le32(b, i + 4) as u32,
        PriorityClass: le32(b, i + 8) as u32,
        Priority: le32(b, i + 12) as u32,
        Teb: le64(b, i + 16) as u64,
        Stack: spec_memory_range(b, i + 24),
        ThreadContext: spec_location(b, i + 40),
        Context: MaybeThreadContext::Absent,
    }
}

/// Decodes a fixed 48-byte thread record from the front of `data`,
/// leaving the context undecoded.
pub fn thread<'a>(data: ParseData<'a>) -> (r: ParseResult<'a, Thread>)
    ensures
        match r {
            Ok((t, rest)) => data@.len() >= 48 && t == spec_thread(data@, 0) && rest@ == data@.skip(
                48,
            ),
            Err(e) => data@.len() < 48 && e == Error::IncompleteData,
        },
{
    let (raw, remain) = match take(data, 24) {
        Ok(p) => p,
        Err(e) => {
            return Err(e);
        },
    };
    let (stack, remain) = match memory_range(remain) {
        Ok(p) => p,
        Err(e) => {
            return Err(e);
        },
    };
    let (context, remain) = match location(remain) {
        Ok(p) => p,
        Err(e) => {
            return Err(e);
        },
    };
    let thread = Thread {
        ThreadId: read_u32(raw, 0),
        SuspendCount: read_u32(raw, 4),
        PriorityClass: read_u32(raw, 8),
        Priority: read_u32(raw, 12),
        Teb: read_u64(raw, 16),
        Stack: stack,
        ThreadContext: context,
        Context: MaybeThreadContext::Absent,
    };
    Ok((thread, remain))
}

/// Thread `i` of the list: the 48-byte record at stride 48 after the
/// 4-byte sub-header, with its context decoded from the whole buffer.
pub open spec fn spec_thread_entry(data: Seq<u8>, raw: Seq<u8>, i: int) -> Result<Thread, Error> {
    let t = spec_thread(raw, 4 + 48 * i);
    match spec_thread_context(data, t.ThreadContext) {
        Ok(c) => Ok(Thread { Context: c, ..t }),
        Err(e) => Err(e),
    }
}

/// The first `n` threads of the list, contexts decoded.
pub open spec fn spec_threads(data: Seq<u8>, raw: Seq<u8>, n: int) -> Result<Seq<Thread>, Error>
    decreases n,
{
    if n <= 0 {
        Ok(Seq::<Thread>::empty())
    } else {
        match spec_threads(data, raw, n - 1) {
            Err(e) => Err(e),
            Ok(s) => match spec_thread_entry(data, raw, n - 1) {
                Err(e) => Err(e),
                Ok(t) => Ok(s.push(t)),
            },
        }
    }
}

/// Thread-list stream decoding: a 4-byte count, then 48-byte records; 4
/// plus count times 48 must equal the stream's byte length exactly.
pub open spec fn spec_parse_thread_list(data: Seq<u8>, loc: LocationDescriptor) -> Result<
    Seq<Thread>,
    Error,
> {
    match spec_seek_stream(data, loc) {
        Err(e) => Err(e),
        Ok(raw) => if raw.len() < 4 {
            Err(Error::IncompleteData)
        } else if 4 + le32(raw, 0) * 48 != loc.Length {
            Err(Error::UnexpectedStreamSize)
        } else {
            spec_threads(data, raw, le32(raw, 0))
        },
    }
}

proof fn lemma_threads_err(data: Seq<u8>, raw: Seq<u8>, i: int, n: int, e: Error)
    requires
        0 <= i < n,
        spec_threads(data, raw, i) is Ok,
        spec_thread_entry(data, raw, i) == Err::<Thread, Error>(e),
    ensures
        spec_threads(data, raw, n) == Err::<Seq<Thread>, Error>(e),
    decreases n,
{
    if n > i + 1 {
        lemma_threads_err(data, raw, i, n - 1, e);
    }
}

/// Decodes the thread-list stream that `loc` names, decoding each
/// thread's CPU context through the whole buffer.
#[verifier::rlimit(50)]
pub fn parse_thread_list<'a>(data: ParseData<'a>, loc: &LocationDescriptor) -> (r: ParseResult<
    'a,
    Vec<Thread>,
>)
    ensures
        match r {
            Ok((v, rest)) => spec_parse_thread_list(data@, *loc) == Ok::<Seq<Thread>, Error>(v@)
                && rest@.len() == 0,
            Err(e) => spec_parse_thread_list(data@, *loc) == Err::<Seq<Thread>, Error>(e),
        },
{
    let (raw, remain) = match seek_stream(data, loc) {
        Ok(p) => p,
        Err(e) => {
            return Err(e);
        },
    };
    if raw.len() < 4 {
        return Err(Error::IncompleteData);
    }
    let n32 = read_u32(raw, 0);
    if 4 + (n32 as u64) * 48 != loc.Length {
        return Err(Error::UnexpectedStreamSize);
    }
    let n: usize = n32 as usize;
    let mut vec: Vec<Thread> = Vec::new();
    proof {
        assert(vec@ =~= Seq::<Thread>::empty());
    }
    let mut i: usize = 0;
    while i < n
        invariant
            i <= n,
            4 + n * 48 == loc.Length,
            spec_seek_stream(data@, *loc) == Ok::<Seq<u8>, Error>(raw@),
            raw@.len() == loc.Length,
            loc.Length <= usize::MAX,
            n == le32(raw@, 0),
            spec_threads(data@, raw@, i as int) == Ok::<Seq<Thread>, Error>(vec@),
        decreases n - i,
    {
        let offset: usize = 4 + i * 48;
        let (suffix, _) = match seek(raw, offset) {
            Ok(p) => p,
            Err(e) => {
                return Err(e);
            },
        };
        let (mut entry, _) = match thread(suffix) {
            Ok(p) => p,
            Err(e) => {
                return Err(e);
            },
        };
        proof {
            assert(entry == spec_thread(raw@, 4 + 48 * i)) by {
                assert(forall|k: int|
                    0 <= k < suffix@.len() ==> suffix@[k] == raw@[offset + k]);
            }
        }
        let (context, _) = match thread_context(data, &entry.ThreadContext) {
            Ok(p) => p,
            Err(e) => {
                proof {
                    lemma_threads_err(data@, raw@, i as int, n as int, e);
                }
                return Err(e);
            },
        };
        entry.Context = context;
        vec.push(entry);
        i += 1;
    }
    Ok((vec, remain))
}

/// The 32-bit exception record stored at byte `o` of `raw`: its chained
/// record pointer must be zero, and its parameter count at most 15.
pub open spec fn spec_exc_rec_32(raw: Seq<u8>, o: int) -> Result<ExceptionRecordView, Error> {
    if le32(raw, o + 8) != 0 {
        Err(Error::UnexpectedExceptionChain)
    } else if le32(raw, o + 16) > 15 {
        Err(Error::InvalidParameterCount)
    } else {
        Ok(
            ExceptionRecordView {
                Code: le32(raw, o) as u32,
                Flags: le32(raw, o + 4) as u32,
                Address: le32(raw, o + 12) as u64,
                Information: Seq::new(
                    le32(raw, o + 16) as nat,
                    |i: int| le32(raw, o + 20 + 4 * i) as u64,
                ),
            },
        )
    }
}

/// Decodes an 80-byte 32-bit exception record from the front of `data`.
pub fn exception_record_32<'a>(data: ParseData<'a>) -> (r: ParseResult<'a, ExceptionRecord>)
    ensures
        match r {
            Ok((rec, rest)) => data@.len() >= 80 && spec_exc_rec_32(data@, 0) == Ok::<
                ExceptionRecordView,
                Error,
            >(rec@) && rest@ == data@.skip(80),
            Err(e) => if data@.len() < 80 {
                e == Error::IncompleteData
            } else {
                spec_exc_rec_32(data@, 0) == Err::<ExceptionRecordView, Error>(e)
            },
        },
{
    let (raw, remain) = match take(data, 80) {
        Ok(p) => p,
        Err(e) => {
            return Err(e);
        },
    };
    if read_u32(raw, 8) != 0 {
        return Err(Error::UnexpectedExceptionChain);
    }
    let count = read_u32(raw, 16);
    if count > 15 {
        return Err(Error::InvalidParameterCount);
    }
    let n: usize = count as usize;
    let mut information: Vec<u64> = Vec::new();
    let mut i: usize = 0;
    while i < n
        invariant
            i <= n,
            n <= 15,
            raw@.len() == 80,
            information@ =~= Seq::new(i as nat, |j: int| le32(raw@, 20 + 4 * j) as u64),
        decreases n - i,
    {
        let elem = read_u32(raw, 20 + 4 * i) as u64;
        proof {
            assert(information@.push(elem) =~= Seq::new(
                (i + 1) as nat,
                |j: int| le32(raw@, 20 + 4 * j) as u64,
            ));
        }
        information.push(elem);
        i += 1;
    }
    let rec = ExceptionRecord {
        Code: read_u32(raw, 0),
        Flags: read_u32(raw, 4),
        Address: read_u32(raw, 12) as u64,
        Information: information,
    };
    proof {
        assert(spec_exc_rec_32(data@, 0) matches Ok(v) && v =~= rec@);
    }
    Ok((rec, remain))
}

/// The 64-bit exception record stored at byte `o` of `raw`: its chained
/// record pointer must be zero, and its parameter count at most 15.
pub open spec fn spec_exc_rec_64(raw: Seq<u8>, o: int) -> Result<ExceptionRecordView, Error> {
    if le64(raw, o + 8) != 0 {
        Err(Error::UnexpectedExceptionChain)
    } else if le32(raw, o + 24) > 15 {
        Err(Error::InvalidParameterCount)
    } else {
        Ok(
            ExceptionRecordView {
                Code: le32(raw, o) as u32,
                Flags: le32(raw, o + 4) as u32,
                Address: le64(raw, o + 16) as u64,
                Information: Seq::new(
                    le32(raw, o + 24) as nat,
                    |i: int| le64(raw, o + 32 + 8 * i) as u64,
                ),
            },
        )
    }
}

/// Decodes a 152-byte 64-bit exception record from the front of `data`.
pub fn exception_record_64<'a>(data: ParseData<'a>) -> (r: ParseResult<'a, ExceptionRecord>)
    ensures
        match r {
            Ok((rec, rest)) => data@.len() >= 152 && spec_exc_rec_64(data@, 0) == Ok::<
                ExceptionRecordView,
                Error,
            >(rec@) && rest@ == data@.skip(152),
            Err(e) => if data@.len() < 152 {
                e == Error::IncompleteData
            } else {
                spec_exc_rec_64(data@, 0) == Err::<ExceptionRecordView, Error>(e)
            },
        },
{
    let (raw, remain) = match take(data, 152) {
        Ok(p) => p,
        Err(e) => {
            return Err(e);
        },
    };
    if read_u64(raw, 8) != 0 {
        return Err(Error::UnexpectedExceptionChain);
    }
    let count = read_u32(raw, 24);
    if count > 15 {
        return Err(Error::InvalidParameterCount);
    }
    let n: usize = count as usize;
    let mut information: Vec<u64> = Vec::new();
    let mut i: usize = 0;
    while i < n
        invariant
            i <= n,
            n <= 15,
            raw@.len() == 152,
            information@ =~= Seq::new(i as nat, |j: int| le64(raw@, 32 + 8 * j) as u64),
        decreases n - i,
    {
        let elem = read_u64(raw, 32 + 8 * i);
        proof {
            assert(information@.push(elem) =~= Seq::new(
                (i + 1) as nat,
                |j: int| le64(raw@, 32 + 8 * j) as u64,
            ));
        }
        information.push(elem);
        i += 1;
    }
    let rec = ExceptionRecord {
        Code: read_u32(raw, 0),
        Flags: read_u32(raw, 4),
        Address: read_u64(raw, 16),
        Information: information,
    };
    proof {
        assert(spec_exc_rec_64(data@, 0) matches Ok(v) && v =~= rec@);
    }
    Ok((rec, remain))
}

/// Exception-stream decoding, length-sniffed at the outer level: a
/// 104-byte stream holds the thread id, a 32-bit exception record and the
/// context location; a 168-byte stream the 64-bit forms; any other length
/// is fatal. The stream's own thread context is decoded through the same
/// size-sniffed selector as a thread's.
pub open spec fn spec_parse_exception_stream(data: Seq<u8>, loc: LocationDescriptor) -> Result<
    ExceptionStreamView,
    Error,
> {
    match spec_seek_stream(data, loc) {
        Err(e) => Err(e),
        Ok(raw) => if loc.Length != 104 && loc.Length != 168 {
            Err(Error::UnexpectedStreamSize)
        } else {
            let rec = if loc.Length == 104 {
                spec_exc_rec_32(raw, 8)
            } else {
                spec_exc_rec_64(raw, 8)
            };
            match rec {
                Err(e) => Err(e),
                Ok(exception) => {
                    let ctx_loc = spec_location(
                        raw,
                        if loc.Length == 104 {
                            88
                        } else {
                            160
                        },
                    );
                    match spec_thread_context(data, ctx_loc) {
                        Err(e) => Err(e),
                        Ok(context) => Ok(
                            ExceptionStreamView {
                                ThreadId: le32(raw, 0) as u32,
                                Exception: exception,
                                ThreadContext: ctx_loc,
                                Context: context,
                            },
                        ),
                    }
                },
            }
        },
    }
}

/// Decodes the exception stream that `loc` names.
#[verifier::rlimit(50)]
pub fn parse_exception_stream<'a>(data: ParseData<'a>, loc: &LocationDescriptor) -> (r: ParseResult<
    'a,
    ExceptionStream,
>)
    ensures
        match r {
            Ok((s, rest)) => spec_parse_exception_stream(data@, *loc) matches Ok(v) && v == s@
                && rest@.len() == 0,
            Err(e) => spec_parse_exception_stream(data@, *loc) == Err::<ExceptionStreamView, Error>(
                e,
            ),
        },
{
    let (seek_raw, seek_remain) = match seek_stream(data, loc) {
        Ok(p) => p,
        Err(e) => {
            return Err(e);
        },
    };
    if loc.Length != 104 && loc.Length != 168 {
        return Err(Error::UnexpectedStreamSize);
    }
    let is32: bool = loc.Length == 104;
    let (raw, remain) = match take(seek_raw, 8) {
        Ok(p) => p,
        Err(e) => {
            return Err(e);
        },
    };
    let record_result = if is32 {
        exception_record_32(remain)
    } else {
        exception_record_64(remain)
    };
    let (exception_record, remain) = match record_result {
        Ok(p) => p,
        Err(e) => {
            proof {
                assert(forall|k: int|
                    0 <= k < seek_raw@.skip(8).len() ==> seek_raw@.skip(8)[k] == seek_raw@[8 + k]);
            }
            return Err(e);
        },
    };
    let (context_loc, _) = match location(remain) {
        Ok(p) => p,
        Err(e) => {
            return Err(e);
        },
    };
    proof {
        assert(forall|k: int|
            0 <= k < seek_raw@.skip(8).len() ==> seek_raw@.skip(8)[k] == seek_raw@[8 + k]);
        if is32 {
            assert(seek_raw@.skip(8).skip(80) =~= seek_raw@.skip(88));
            assert(forall|k: int|
                0 <= k < seek_raw@.skip(88).len() ==> seek_raw@.skip(88)[k] == seek_raw@[88 + k]);
        } else {
            assert(seek_raw@.skip(8).skip(152) =~= seek_raw@.skip(160));
            assert(forall|k: int|
                0 <= k < seek_raw@.skip(160).len() ==> seek_raw@.skip(160)[k] == seek_raw@[160
                    + k]);
        }
    }
    let (context, _) = match thread_context(data, &context_loc) {
        Ok(p) => p,
        Err(e) => {
            return Err(e);
        },
    };
    let exception_stream = ExceptionStream {
        ThreadId: read_u32(raw, 0),
        Exception: exception_record,
        ThreadContext: context_loc,
        Context: context,
    };
    proof {
        assert(spec_parse_exception_stream(data@, *loc) matches Ok(v) && v =~= exception_stream@);
    }
    Ok((exception_stream, seek_remain))
}

} // verus!
