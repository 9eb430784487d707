//! The byte-cursor primitives and the stream decoders for the container
//! format. Every decoder is built exclusively on `take` and `seek` (or
//! `seek_stream`, which combines them): those are the only points of
//! bounds checking, and no decoder indexes the buffer without having
//! validated the length through one of them first.
//!
//! Each decoder has a spec-level twin (`spec_parse_*`) over the byte
//! sequence; the executable function returns exactly what the twin says,
//! error cases included.

#![allow(non_snake_case)]

use vstd::prelude::*;

use crate::bytes::{le16, le32, le64, read_u16, read_u32, read_u64};
use crate::strings::{parse_string, spec_parse_string};
use crate::types::{
    Directory, Error, Header, LocationDescriptor, MemoryInfo, Module, ModuleView,
    OverlayDescriptor,
};

verus! {

pub type ParseData<'a> = &'a [u8];

pub type ParseResult<'a, T> = Result<(T, &'a [u8]), Error>;

/// The first `len` bytes of `data`, or `IncompleteData` if fewer remain.
pub open spec fn spec_take(data: Seq<u8>, len: int) -> Result<Seq<u8>, Error> {
    if data.len() < len {
        Err(Error::IncompleteData)
    } else {
        Ok(data.subrange(0, len))
    }
}

/// The suffix of `data` from `offset` on, or `SeekOutOfRange` if the
/// offset exceeds the buffer length.
pub open spec fn spec_seek(data: Seq<u8>, offset: int) -> Result<Seq<u8>, Error> {
    if offset > data.len() {
        Err(Error::SeekOutOfRange)
    } else {
        Ok(data.skip(offset))
    }
}

/// The sub-range of `data` that `loc` names: seek to its offset, then
/// take its length.
pub open spec fn spec_seek_stream(data: Seq<u8>, loc: LocationDescriptor) -> Result<Seq<u8>, Error> {
    if loc.Offset > data.len() {
        Err(Error::SeekOutOfRange)
    } else if data.len() - loc.Offset < loc.Length {
        Err(Error::IncompleteData)
    } else {
        Ok(data.subrange(loc.Offset as int, loc.Offset + loc.Length))
    }
}

/// Splits off the first `len` bytes, failing with `IncompleteData` if
/// fewer than `len` bytes remain.
pub fn take<'a>(data: ParseData<'a>, len: usize) -> (r: ParseResult<'a, ParseData<'a>>)
    ensures
        match r {
            Ok((head, rest)) => spec_take(data@, len as int) == Ok::<Seq<u8>, Error>(head@)
                && rest@ == data@.skip(len as int),
            Err(e) => spec_take(data@, len as int) == Err::<Seq<u8>, Error>(e),
        },
{
    if data.len() < len {
        return Err(Error::IncompleteData);
    }
    Ok(data.split_at(len))
}

/// Returns the suffix starting at `offset` (paired with an empty
/// remainder), failing with `SeekOutOfRange` if the offset is past the
/// end of the buffer.
pub fn seek<'a>(data: ParseData<'a>, offset: usize) -> (r: ParseResult<'a, ParseData<'a>>)
    ensures
        match r {
            Ok((suffix, rest)) => spec_seek(data@, offset as int) == Ok::<Seq<u8>, Error>(suffix@)
                && rest@.len() == 0,
            Err(e) => spec_seek(data@, offset as int) == Err::<Seq<u8>, Error>(e),
        },
{
    if offset > data.len() {
        return Err(Error::SeekOutOfRange);
    }
    let (_, raw) = data.split_at(offset);
    let parts = raw.split_at(raw.len());
    proof {
        assert(parts.0@ =~= data@.skip(offset as int));
    }
    Ok(parts)
}

/// Seeks to the stream that `loc` names and takes exactly its declared
/// length.
pub fn seek_stream<'a>(data: ParseData<'a>, loc: &LocationDescriptor) -> (r: ParseResult<
    'a,
    ParseData<'a>,
>)
    ensures
        match r {
            Ok((stream, rest)) => spec_seek_stream(data@, *loc) == Ok::<Seq<u8>, Error>(stream@)
                && rest@.len() == 0,
            Err(e) => spec_seek_stream(data@, *loc) == Err::<Seq<u8>, Error>(e),
        },
{
    if loc.Offset > data.len() as u64 {
        return Err(Error::SeekOutOfRange);
    }
    let offset: usize = loc.Offset as usize;
    let (seek_data, remain) = match seek(data, offset) {
        Ok(p) => p,
        Err(e) => {
            return Err(e);
        },
    };
    if (seek_data.len() as u64) < loc.Length {
        return Err(Error::IncompleteData);
    }
    let len: usize = loc.Length as usize;
    match take(seek_data, len) {
        Ok((d, _)) => {
            proof {
                assert(d@ =~= data@.subrange(loc.Offset as int, loc.Offset + loc.Length));
            }
            Ok((d, remain))
        },
        Err(e) => Err(e),
    }
}

/// The signature the first four bytes of a dump must carry: the ASCII
/// characters `M`, `D`, `M`, `P`.
pub open spec fn is_magic(b: Seq<u8>) -> bool {
    b[0] == 0x4du8 && b[1] == 0x44u8 && b[2] == 0x4du8 && b[3] == 0x50u8
}

/// The one format version this decoder supports.
pub const SUPPORTED_VERSION: u16 = 42899;

/// The header fields, read from the 32-byte preamble of `b`.
pub open spec fn spec_header(b: Seq<u8>) -> Header {
    Header {
        Version: le16(b, 4) as u16,
        NumberOfStreams: le32(b, 8) as u32,
        StreamDirectory: le32(b, 12) as u32,
        TimeDateStamp: le32(b, 20) as u32,
        Flags: le64(b, 24) as u64,
    }
}

/// Header decoding: succeeds exactly when at least 32 bytes are present,
/// the first four bytes are the magic signature, and the version field is
/// the supported value.
pub open spec fn spec_parse_header(data: Seq<u8>) -> Result<Header, Error> {
    if data.len() < 32 {
        Err(Error::IncompleteData)
    } else if !is_magic(data) {
        Err(Error::BadMagic)
    } else if le16(data, 4) != SUPPORTED_VERSION {
        Err(Error::UnsupportedVersion)
    } else {
        Ok(spec_header(data))
    }
}

/// Decodes the fixed 32-byte preamble, validating magic and version.
pub fn parse_header<'a>(data: ParseData<'a>) -> (r: ParseResult<'a, Header>)
    ensures
        match r {
            Ok((h, rest)) => spec_parse_header(data@) == Ok::<Header, Error>(h) && rest@ == data@
                .skip(32),
            Err(e) => spec_parse_header(data@) == Err::<Header, Error>(e),
        },
{
    let (raw, remain) = match take(data, 32) {
        Ok(p) => p,
        Err(e) => {
            return Err(e);
        },
    };
    if !(raw[0] == 0x4du8 && raw[1] == 0x44u8 && raw[2] == 0x4du8 && raw[3] == 0x50u8) {
        return Err(Error::BadMagic);
    }
    let version = read_u16(raw, 4);
    if version != SUPPORTED_VERSION {
        return Err(Error::UnsupportedVersion);
    }
    let header = Header {
        Version: version,
        NumberOfStreams: read_u32(raw, 8),
        StreamDirectory: read_u32(raw, 12),
        TimeDateStamp: read_u32(raw, 20),
        Flags: read_u64(raw, 24),
    };
    Ok((header, remain))
}

/// The location descriptor stored at byte `i` of `b`: a 32-bit length
/// followed by a 32-bit offset.
pub open spec fn spec_location(b: Seq<u8>, i: int) -> LocationDescriptor {
    LocationDescriptor { Offset: le32(b, i + 4) as u64, Length: le32(b, i) as u64 }
}

/// Decodes an 8-byte location descriptor from the front of `data`.
pub fn location<'a>(data: ParseData<'a>) -> (r: ParseResult<'a, LocationDescriptor>)
    ensures
        match r {
            Ok((loc, rest)) => data@.len() >= 8 && loc == spec_location(data@, 0) && rest@ == data@
                .skip(8),
            Err(e) => data@.len() < 8 && e == Error::IncompleteData,
        },
{
    let (raw, remain) = match take(data, 8) {
        Ok(p) => p,
        Err(e) => {
            return Err(e);
        },
    };
    let DataSize = read_u32(raw, 0);
    let Rva = read_u32(raw, 4);
    Ok((LocationDescriptor { Offset: Rva as u64, Length: DataSize as u64 }, remain))
}

/// The directory entry stored at byte `i` of `b`: a 32-bit stream type
/// tag followed by a location descriptor.
pub open spec fn spec_directory_entry(b: Seq<u8>, i: int) -> Directory {
    Directory { StreamType: le32(b, i) as u32, Location: spec_location(b, i + 4) }
}

/// Decodes a 12-byte directory entry from the front of `data`.
pub fn directory_entry<'a>(data: ParseData<'a>) -> (r: ParseResult<'a, Directory>)
    ensures
        match r {
            Ok((d, rest)) => data@.len() >= 12 && d == spec_directory_entry(data@, 0) && rest@
                == data@.skip(12),
            Err(e) => data@.len() < 12 && e == Error::IncompleteData,
        },
{
    let (raw, remain) = match take(data, 4) {
        Ok(p) => p,
        Err(e) => {
            return Err(e);
        },
    };
    let (loc, remain) = match location(remain) {
        Ok(p) => p,
        Err(e) => {
            return Err(e);
        },
    };
    let directory = Directory { StreamType: read_u32(raw, 0), Location: loc };
    Ok((directory, remain))
}

/// The directory: `n` consecutive 12-byte entries starting at byte `rva`.
pub open spec fn spec_directory_list(b: Seq<u8>, rva: int, n: int) -> Seq<Directory> {
    Seq::new(n as nat, |i: int| spec_directory_entry(b, rva + 12 * i))
}

/// Directory decoding: seeks to the header's declared directory offset
/// and reads exactly `NumberOfStreams` entries; a partial directory is
/// `IncompleteData`, not tolerated.
pub open spec fn spec_parse_directory(data: Seq<u8>, header: Header) -> Result<
    Seq<Directory>,
    Error,
> {
    let rva = header.StreamDirectory as int;
    let n = header.NumberOfStreams as int;
    if rva > data.len() {
        Err(Error::SeekOutOfRange)
    } else if data.len() < rva + 12 * n {
        Err(Error::IncompleteData)
    } else {
        Ok(spec_directory_list(data, rva, n))
    }
}

/// Walks the stream directory that `header` declares.
pub fn parse_directory<'a>(data: ParseData<'a>, header: &Header) -> (r: ParseResult<
    'a,
    Vec<Directory>,
>)
    ensures
        match r {
            Ok((v, rest)) => spec_parse_directory(data@, *header) == Ok::<Seq<Directory>, Error>(
                v@,
            ) && rest@.len() == 0,
            Err(e) => spec_parse_directory(data@, *header) == Err::<Seq<Directory>, Error>(e),
        },
{
    if header.StreamDirectory as u64 > data.len() as u64 {
        return Err(Error::SeekOutOfRange);
    }
    let rva: usize = header.StreamDirectory as usize;
    let (mut raw, remain) = match seek(data, rva) {
        Ok(p) => p,
        Err(e) => {
            return Err(e);
        },
    };
    let n: usize = header.NumberOfStreams as usize;
    let mut vec: Vec<Directory> = Vec::new();
    let mut i: usize = 0;
    while i < n
        invariant
            i <= n,
            n == header.NumberOfStreams as int,
            rva == header.StreamDirectory as int,
            rva + 12 * i <= data@.len(),
            raw@ == data@.skip(rva + 12 * i),
            vec@ =~= spec_directory_list(data@, rva as int, i as int),
        decreases n - i,
    {
        let (entry, raw_next) = match directory_entry(raw) {
            Ok(p) => p,
            Err(e) => {
                proof {
                    assert(data@.len() < rva + 12 * i + 12);
                    assert(12 * i + 12 <= 12 * n);
                }
                return Err(e);
            },
        };
        proof {
            assert(data@.skip(rva + 12 * i).skip(12) =~= data@.skip(rva + 12 * i + 12));
            assert(entry == spec_directory_entry(data@, rva + 12 * i)) by {
                assert(forall|k: int|
                    0 <= k < raw@.len() ==> raw@[k] == data@[rva + 12 * i + k]);
            }
            assert(vec@.push(entry) =~= spec_directory_list(data@, rva as int, i + 1));
        }
        vec.push(entry);
        raw = raw_next;
        i += 1;
    }
    Ok((vec, remain))
}

/// The memory-info record stored at byte `i` of `b`: 48 bytes of
/// page-table metadata for one virtual-memory region.
pub open spec fn spec_memory_info(b: Seq<u8>, i: int) -> MemoryInfo {
    MemoryInfo {
        BaseAddress: le64(b, i) as u64,
        AllocationBase: le64(b, i + 8) as u64,
        AllocationProtect: le32(b, i + 16) as u32,
        RegionSize: le64(b, i + 24) as u64,
        State: le32(b, i + 32) as u32,
        Protect: le32(b, i + 36) as u32,
        Type: le32(b, i + 40) as u32,
    }
}

/// Decodes a fixed 48-byte memory-info record from the front of `data`.
pub fn memory_info<'a>(data: ParseData<'a>) -> (r: ParseResult<'a, MemoryInfo>)
    ensures
        match r {
            Ok((m, rest)) => data@.len() >= 48 && m == spec_memory_info(data@, 0) && rest@ == data@
                .skip(48),
            Err(e) => data@.len() < 48 && e == Error::IncompleteData,
        },
{
    let (raw, remain) = match take(data, 48) {
        Ok(p) => p,
        Err(e) => {
            return Err(e);
        },
    };
    let mem_info = MemoryInfo {
        BaseAddress: read_u64(raw, 0),
        AllocationBase: read_u64(raw, 8),
        AllocationProtect: read_u32(raw, 16),
        RegionSize: read_u64(raw, 24),
        State: read_u32(raw, 32),
        Protect: read_u32(raw, 36),
        Type: read_u32(raw, 40),
    };
    Ok((mem_info, remain))
}

/// Whether the 48-byte record of entry `i` (at stride `se` after a
/// sub-header of `sh` bytes) lies within the stream.
pub open spec fn mi_entry_fits(raw: Seq<u8>, sh: int, se: int, i: int) -> bool {
    sh + i * se + 48 <= raw.len()
}

/// The first `n` memory-info entries of the stream, each a 48-byte record
/// read at the declared stride; an entry reaching past the stream is
/// `IncompleteData`.
pub open spec fn spec_mi_entries(raw: Seq<u8>, sh: int, se: int, n: int) -> Result<
    Seq<MemoryInfo>,
    Error,
>
    decreases n,
{
    if n <= 0 {
        Ok(Seq::<MemoryInfo>::empty())
    } else {
        match spec_mi_entries(raw, sh, se, n - 1) {
            Err(e) => Err(e),
            Ok(s) => if mi_entry_fits(raw, sh, se, n - 1) {
                Ok(s.push(spec_memory_info(raw, sh + (n - 1) * se)))
            } else {
                Err(Error::IncompleteData)
            },
        }
    }
}

/// Memory-info stream decoding: a 16-byte sub-header declares the header
/// size, entry size and entry count; the count must fit the 32-bit count
/// domain, and sub-header size plus count times entry size must equal the
/// stream's declared byte length exactly.
pub open spec fn spec_parse_memory_info(data: Seq<u8>, loc: LocationDescriptor) -> Result<
    Seq<MemoryInfo>,
    Error,
> {
    match spec_seek_stream(data, loc) {
        Err(e) => Err(e),
        Ok(raw) => if raw.len() < 16 {
            Err(Error::IncompleteData)
        } else {
            let sh = le32(raw, 0);
            let se = le32(raw, 4);
            let n = le64(raw, 8);
            if n > u32::MAX {
                Err(Error::UnexpectedNumberOfEntries)
            } else if sh + n * se != loc.Length {
                Err(Error::UnexpectedStreamSize)
            } else {
                spec_mi_entries(raw, sh, se, n)
            }
        },
    }
}

proof fn lemma_mi_entries_err(raw: Seq<u8>, sh: int, se: int, i: int, n: int)
    requires
        0 <= i < n,
        spec_mi_entries(raw, sh, se, i) is Ok,
        !mi_entry_fits(raw, sh, se, i),
    ensures
        spec_mi_entries(raw, sh, se, n) == Err::<Seq<MemoryInfo>, Error>(Error::IncompleteData),
    decreases n,
{
    if n > i + 1 {
        lemma_mi_entries_err(raw, sh, se, i, n - 1);
    }
}

/// Decodes the memory-info list stream that `loc` names.
pub fn parse_memory_info<'a>(data: ParseData<'a>, loc: &LocationDescriptor) -> (r: ParseResult<
    'a,
    Vec<MemoryInfo>,
>)
    ensures
        match r {
            Ok((v, rest)) => spec_parse_memory_info(data@, *loc) == Ok::<Seq<MemoryInfo>, Error>(
                v@,
            ) && rest@.len() == 0,
            Err(e) => spec_parse_memory_info(data@, *loc) == Err::<Seq<MemoryInfo>, Error>(e),
        },
{
    let (raw, remain) = match seek_stream(data, loc) {
        Ok(p) => p,
        Err(e) => {
            return Err(e);
        },
    };
    if raw.len() < 16 {
        return Err(Error::IncompleteData);
    }
    let sh = read_u32(raw, 0);
    let se = read_u32(raw, 4);
    let n64 = read_u64(raw, 8);
    if n64 > u32::MAX as u64 {
        return Err(Error::UnexpectedNumberOfEntries);
    }
    proof {
        assert((n64 as u128) * (se as u128) <= 0xffff_ffff_u128 * 0xffff_ffff_u128)
            by (nonlinear_arith)
            requires
                n64 <= 0xffff_ffff,
                se <= 0xffff_ffff,
        ;
    }
    if sh as u128 + (n64 as u128) * (se as u128) != loc.Length as u128 {
        return Err(Error::UnexpectedStreamSize);
    }
    let n: usize = n64 as usize;
    let mut vec: Vec<MemoryInfo> = Vec::new();
    proof {
        assert(vec@ =~= Seq::<MemoryInfo>::empty());
    }
    let mut offset: u64 = sh as u64;
    let mut i: usize = 0;
    while i < n
        invariant
            i <= n,
            n <= u32::MAX,
            sh + n * se == loc.Length,
            spec_seek_stream(data@, *loc) == Ok::<Seq<u8>, Error>(raw@),
            raw@.len() == loc.Length,
            raw@.len() >= 16,
            loc.Length <= usize::MAX,
            sh == le32(raw@, 0),
            se == le32(raw@, 4),
            n == le64(raw@, 8),
            offset == sh + i * se,
            offset <= loc.Length,
            spec_mi_entries(raw@, sh as int, se as int, i as int) == Ok::<Seq<MemoryInfo>, Error>(
                vec@,
            ),
        decreases n - i,
    {
        if raw.len() < 48 || offset > (raw.len() - 48) as u64 {
            proof {
                lemma_mi_entries_err(raw@, sh as int, se as int, i as int, n as int);
            }
            return Err(Error::IncompleteData);
        }
        let (suffix, _) = match seek(raw, offset as usize) {
            Ok(p) => p,
            Err(e) => {
                return Err(e);
            },
        };
        let (entry, _) = match memory_info(suffix) {
            Ok(p) => p,
            Err(e) => {
                return Err(e);
            },
        };
        proof {
            assert(entry == spec_memory_info(raw@, sh + i * se)) by {
                assert(forall|k: int|
                    0 <= k < suffix@.len() ==> suffix@[k] == raw@[offset + k]);
            }
            assert((i + 1) * se == i * se + se) by (nonlinear_arith);
            assert((i + 1) * se <= n * se) by (nonlinear_arith)
                requires
                    i + 1 <= n,
                    se >= 0,
            ;
        }
        vec.push(entry);
        offset = offset + se as u64;
        i += 1;
    }
    Ok((vec, remain))
}

/// The module record stored at byte `i` of `b`: the first 24 bytes of a
/// 108-byte record carry the fields kept here; the name is not yet
/// resolved.
pub open spec fn spec_module(b: Seq<u8>, i: int) -> ModuleView {
    ModuleView {
        BaseOfImage: le64(b, i) as u64,
        SizeOfImage: le32(b, i + 8) as u32,
        CheckSum: le32(b, i + 12) as u32,
        TimeDateStamp: le32(b, i + 16) as u32,
        ModuleNameRva: le32(b, i + 20) as u32,
        ModuleName: None,
    }
}

/// Decodes a fixed 108-byte module record from the front of `data`,
/// leaving the name unresolved.
pub fn module<'a>(data: ParseData<'a>) -> (r: ParseResult<'a, Module>)
    ensures
        match r {
            Ok((m, rest)) => data@.len() >= 108 && m@ == spec_module(data@, 0) && rest@ == data@
                .skip(108),
            Err(e) => data@.len() < 108 && e == Error::IncompleteData,
        },
{
    let (raw, remain) = match take(data, 108) {
        Ok(p) => p,
        Err(e) => {
            return Err(e);
        },
    };
    let module = Module {
        BaseOfImage: read_u64(raw, 0),
        SizeOfImage: read_u32(raw, 8),
        CheckSum: read_u32(raw, 12),
        TimeDateStamp: read_u32(raw, 16),
        ModuleNameRva: read_u32(raw, 20),
        ModuleName: None,
    };
    Ok((module, remain))
}

/// The module record of entry `i`, with its name resolved from the whole
/// buffer when the record carries a nonzero name offset. String
/// resolution is addressed in the whole buffer, not the stream.
pub open spec fn spec_module_with_name(data: Seq<u8>, raw: Seq<u8>, i: int) -> Result<
    ModuleView,
    Error,
> {
    let m = spec_module(raw, 4 + 108 * i);
    if m.ModuleNameRva > 0 {
        match spec_parse_string(data, m.ModuleNameRva as int) {
            Ok(name) => Ok(ModuleView { ModuleName: Some(name), ..m }),
            Err(e) => Err(e),
        }
    } else {
        Ok(m)
    }
}

/// The first `n` modules of the stream, names resolved.
pub open spec fn spec_modules(data: Seq<u8>, raw: Seq<u8>, n: int) -> Result<Seq<ModuleView>, Error>
    decreases n,
{
    if n <= 0 {
        Ok(Seq::<ModuleView>::empty())
    } else {
        match spec_modules(data, raw, n - 1) {
            Err(e) => Err(e),
            Ok(s) => match spec_module_with_name(data, raw, n - 1) {
                Err(e) => Err(e),
                Ok(m) => Ok(s.push(m)),
            },
        }
    }
}

/// Module-list stream decoding: a 4-byte count, then 108-byte records;
/// 4 plus count times 108 must equal the stream's byte length exactly.
pub open spec fn spec_parse_module_list(data: Seq<u8>, loc: LocationDescriptor) -> Result<
    Seq<ModuleView>,
    Error,
> {
    match spec_seek_stream(data, loc) {
        Err(e) => Err(e),
        Ok(raw) => if raw.len() < 4 {
            Err(Error::IncompleteData)
        } else if 4 + le32(raw, 0) * 108 != loc.Length {
            Err(Error::UnexpectedStreamSize)
        } else {
            spec_modules(data, raw, le32(raw, 0))
        },
    }
}

/// The views of a sequence of decoded modules.
pub open spec fn mods_view(s: Seq<Module>) -> Seq<ModuleView> {
    Seq::new(s.len(), |i: int| s[i]@)
}

proof fn lemma_modules_err(data: Seq<u8>, raw: Seq<u8>, i: int, n: int, e: Error)
    requires
        0 <= i < n,
        spec_modules(data, raw, i) is Ok,
        spec_module_with_name(data, raw, i) == Err::<ModuleView, Error>(e),
    ensures
        spec_modules(data, raw, n) == Err::<Seq<ModuleView>, Error>(e),
    decreases n,
{
    if n > i + 1 {
        lemma_modules_err(data, raw, i, n - 1, e);
    }
}

/// Decodes the module-list stream that `loc` names, resolving each
/// module's name through the whole buffer.
#[verifier::rlimit(50)]
pub fn parse_module_list<'a>(data: ParseData<'a>, loc: &LocationDescriptor) -> (r: ParseResult<
    'a,
    Vec<Module>,
>)
    ensures
        match r {
            Ok((v, rest)) => spec_parse_module_list(data@, *loc) == Ok::<Seq<ModuleView>, Error>(
                mods_view(v@),
            ) && rest@.len() == 0,
            Err(e) => spec_parse_module_list(data@, *loc) == Err::<Seq<ModuleView>, Error>(e),
        },
{
    let (raw, remain) = match seek_stream(data, loc) {
        Ok(p) => p,
        Err(e) => {
            return Err(e);
        },
    };
    if raw.len() < 4 {
        return Err(Error::IncompleteData);
    }
    let n32 = read_u32(raw, 0);
    if 4 + (n32 as u64) * 108 != loc.Length {
        return Err(Error::UnexpectedStreamSize);
    }
    let n: usize = n32 as usize;
    let mut vec: Vec<Module> = Vec::new();
    proof {
        assert(mods_view(vec@) =~= Seq::<ModuleView>::empty());
    }
    let mut i: usize = 0;
    while i < n
        invariant
            i <= n,
            4 + n * 108 == loc.Length,
            spec_seek_stream(data@, *loc) == Ok::<Seq<u8>, Error>(raw@),
            raw@.len() == loc.Length,
            loc.Length <= usize::MAX,
            n == le32(raw@, 0),
            spec_modules(data@, raw@, i as int) == Ok::<Seq<ModuleView>, Error>(mods_view(vec@)),
        decreases n - i,
    {
        let offset: usize = 4 + i * 108;
        let (suffix, _) = match seek(raw, offset) {
            Ok(p) => p,
            Err(e) => {
                return Err(e);
            },
        };
        let (mut entry, _) = match module(suffix) {
            Ok(p) => p,
            Err(e) => {
                return Err(e);
            },
        };
        proof {
            assert(entry@ == spec_module(raw@, 4 + 108 * i)) by {
                assert(forall|k: int|
                    0 <= k < suffix@.len() ==> suffix@[k] == raw@[offset + k]);
            }
        }
        if entry.ModuleNameRva > 0 {
            let (name, _) = match parse_string(data, entry.ModuleNameRva) {
                Ok(p) => p,
                Err(e) => {
                    proof {
                        lemma_modules_err(data@, raw@, i as int, n as int, e);
                    }
                    return Err(e);
                },
            };
            entry.ModuleName = Some(name);
        }
        proof {
            assert(mods_view(vec@.push(entry)) =~= mods_view(vec@).push(entry@));
        }
        vec.push(entry);
        i += 1;
    }
    Ok((vec, remain))
}

/// The memory-range record stored at byte `i` of `b`: a 64-bit virtual
/// address and the location of its backing bytes.
pub open spec fn spec_memory_range(b: Seq<u8>, i: int) -> OverlayDescriptor {
    OverlayDescriptor { Address: le64(b, i) as u64, Location: spec_location(b, i + 8) }
}

/// Decodes a 16-byte memory-range record from the front of `data`.
pub fn memory_range<'a>(data: ParseData<'a>) -> (r: ParseResult<'a, OverlayDescriptor>)
    ensures
        match r {
            Ok((d, rest)) => data@.len() >= 16 && d == spec_memory_range(data@, 0) && rest@ == data@
                .skip(16),
            Err(e) => data@.len() < 16 && e == Error::IncompleteData,
        },
{
    let (raw, remain) = match take(data, 8) {
        Ok(p) => p,
        Err(e) => {
            return Err(e);
        },
    };
    let (loc, remain) = match location(remain) {
        Ok(p) => p,
        Err(e) => {
            return Err(e);
        },
    };
    let range = OverlayDescriptor { Address: read_u64(raw, 0), Location: loc };
    Ok((range, remain))
}

/// Memory-list stream decoding: a 4-byte count, then 16-byte records; 4
/// plus count times 16 must equal the stream's byte length exactly.
pub open spec fn spec_parse_memory_list(data: Seq<u8>, loc: LocationDescriptor) -> Result<
    Seq<OverlayDescriptor>,
    Error,
> {
    match spec_seek_stream(data, loc) {
        Err(e) => Err(e),
        Ok(raw) => if raw.len() < 4 {
            Err(Error::IncompleteData)
        } else if 4 + le32(raw, 0) * 16 != loc.Length {
            Err(Error::UnexpectedStreamSize)
        } else {
            Ok(Seq::new(le32(raw, 0) as nat, |i: int| spec_memory_range(raw, 4 + 16 * i)))
        },
    }
}

/// Decodes the memory-list stream that `loc` names: the variant whose
/// records each carry their own location descriptor.
pub fn parse_memory_list<'a>(data: ParseData<'a>, loc: &LocationDescriptor) -> (r: ParseResult<
    'a,
    Vec<OverlayDescriptor>,
>)
    ensures
        match r {
            Ok((v, rest)) => spec_parse_memory_list(data@, *loc) == Ok::<
                Seq<OverlayDescriptor>,
                Error,
            >(v@) && rest@.len() == 0,
            Err(e) => spec_parse_memory_list(data@, *loc) == Err::<Seq<OverlayDescriptor>, Error>(
                e,
            ),
        },
{
    let (raw, remain) = match seek_stream(data, loc) {
        Ok(p) => p,
        Err(e) => {
            return Err(e);
        },
    };
    if raw.len() < 4 {
        return Err(Error::IncompleteData);
    }
    let n32 = read_u32(raw, 0);
    if 4 + (n32 as u64) * 16 != loc.Length {
        return Err(Error::UnexpectedStreamSize);
    }
    let n: usize = n32 as usize;
    let mut vec: Vec<OverlayDescriptor> = Vec::new();
    let mut i: usize = 0;
    while i < n
        invariant
            i <= n,
            4 + n * 16 == loc.Length,
            raw@.len() == loc.Length,
            loc.Length <= usize::MAX,
            n == le32(raw@, 0),
            vec@ =~= Seq::new(i as nat, |j: int| spec_memory_range(raw@, 4 + 16 * j)),
        decreases n - i,
    {
        let offset: usize = 4 + i * 16;
        let (suffix, _) = match seek(raw, offset) {
            Ok(p) => p,
            Err(e) => {
                return Err(e);
            },
        };
        let (entry, _) = match memory_range(suffix) {
            Ok(p) => p,
            Err(e) => {
                return Err(e);
            },
        };
        proof {
            assert(entry == spec_memory_range(raw@, 4 + 16 * i)) by {
                assert(forall|k: int|
                    0 <= k < suffix@.len() ==> suffix@[k] == raw@[offset + k]);
            }
            assert(vec@.push(entry) =~= Seq::new(
                (i + 1) as nat,
                |j: int| spec_memory_range(raw@, 4 + 16 * j),
            ));
        }
        vec.push(entry);
        i += 1;
    }
    proof {
        assert(vec@ =~= Seq::new(n as nat, |j: int| spec_memory_range(raw@, 4 + 16 * j)));
    }
    Ok((vec, remain))
}

/// The sum of the declared byte lengths of the first `i` records of a
/// memory64 stream. Record `j` is 16 bytes at offset `16 + 16 * j`, its
/// length in its second half.
pub open spec fn m64_prefix_len(raw: Seq<u8>, i: int) -> int
    decreases i,
{
    if i <= 0 {
        0
    } else {
        m64_prefix_len(raw, i - 1) + le64(raw, 16 + 16 * (i - 1) + 8)
    }
}

proof fn lemma_m64_prefix_nonneg(raw: Seq<u8>, i: int)
    ensures
        m64_prefix_len(raw, i) >= 0,
    decreases i,
{
    if i > 0 {
        lemma_m64_prefix_nonneg(raw, i - 1);
    }
}

/// The resolved file offset of record `i` of a memory64 stream: the
/// stream's base offset plus the lengths of all records before `i`,
/// because the backing bytes are stored back to back.
pub open spec fn spec_m64_offset(raw: Seq<u8>, i: int) -> int {
    le64(raw, 8) + m64_prefix_len(raw, i)
}

/// Record `i` of a memory64 stream: a virtual address and byte length,
/// with the file offset accumulated. A resolved offset beyond the 64-bit
/// range cannot be represented and is reported as `SeekOutOfRange`.
pub open spec fn spec_m64_entry(raw: Seq<u8>, i: int) -> Result<OverlayDescriptor, Error> {
    if spec_m64_offset(raw, i) > u64::MAX {
        Err(Error::SeekOutOfRange)
    } else {
        Ok(
            OverlayDescriptor {
                Address: le64(raw, 16 + 16 * i) as u64,
                Location: LocationDescriptor {
                    Offset: spec_m64_offset(raw, i) as u64,
                    Length: le64(raw, 16 + 16 * i + 8) as u64,
                },
            },
        )
    }
}

/// The first `n` records of a memory64 stream, offsets accumulated.
pub open spec fn spec_m64_entries(raw: Seq<u8>, n: int) -> Result<Seq<OverlayDescriptor>, Error>
    decreases n,
{
    if n <= 0 {
        Ok(Seq::<OverlayDescriptor>::empty())
    } else {
        match spec_m64_entries(raw, n - 1) {
            Err(e) => Err(e),
            Ok(s) => match spec_m64_entry(raw, n - 1) {
                Err(e) => Err(e),
                Ok(d) => Ok(s.push(d)),
            },
        }
    }
}

/// Memory64-list stream decoding: a 16-byte sub-header holds the record
/// count and a single base offset; 16 plus count times 16 must equal the
/// stream's byte length exactly, and the count must fit the 32-bit count
/// domain. Each record's file offset is the base offset plus all
/// previously consumed lengths.
pub open spec fn spec_parse_memory64_list(data: Seq<u8>, loc: LocationDescriptor) -> Result<
    Seq<OverlayDescriptor>,
    Error,
> {
    match spec_seek_stream(data, loc) {
        Err(e) => Err(e),
        Ok(raw) => if raw.len() < 16 {
            Err(Error::IncompleteData)
        } else if le64(raw, 0) > u32::MAX {
            Err(Error::UnexpectedNumberOfEntries)
        } else if 16 + le64(raw, 0) * 16 != loc.Length {
            Err(Error::UnexpectedStreamSize)
        } else {
            spec_m64_entries(raw, le64(raw, 0))
        },
    }
}

/// A memory-info stream that decodes decodes in full: exactly `n`
/// records, record `i` read at the declared stride after the sub-header.
pub proof fn lemma_mi_entries_ok(raw: Seq<u8>, sh: int, se: int, n: int)
    requires
        n >= 0,
        spec_mi_entries(raw, sh, se, n) is Ok,
    ensures
        ({
            let s = spec_mi_entries(raw, sh, se, n)->Ok_0;
            s.len() == n && forall|i: int|
                0 <= i < n ==> #[trigger] s[i] == spec_memory_info(raw, sh + i * se)
        }),
    decreases n,
{
    if n > 0 {
        lemma_mi_entries_ok(raw, sh, se, n - 1);
    }
}

/// The accumulation law of the memory64 list: when a stream of `n`
/// records decodes, record `i`'s resolved file offset is the stream's
/// base offset plus the sum of the byte lengths of all records before
/// `i`, and its address and length are read from its own 16 bytes.
pub proof fn lemma_m64_offsets(raw: Seq<u8>, n: int)
    requires
        n >= 0,
        spec_m64_entries(raw, n) is Ok,
    ensures
        ({
            let s = spec_m64_entries(raw, n)->Ok_0;
            s.len() == n && forall|i: int|
                0 <= i < n ==> (#[trigger] s[i]).Location.Offset == le64(raw, 8) + m64_prefix_len(
                    raw,
                    i,
                ) && s[i].Address == le64(raw, 16 + 16 * i) && s[i].Location.Length == le64(
                    raw,
                    16 + 16 * i + 8,
                )
        }),
    decreases n,
{
    if n > 0 {
        lemma_m64_offsets(raw, n - 1);
        let prev = spec_m64_entries(raw, n - 1)->Ok_0;
        let s = spec_m64_entries(raw, n)->Ok_0;
        let last = spec_m64_entry(raw, n - 1)->Ok_0;
        assert(spec_m64_offset(raw, n - 1) <= u64::MAX);
        assert(s == prev.push(last));
        assert forall|i: int| 0 <= i < n implies (#[trigger] s[i]).Location.Offset == le64(raw, 8)
            + m64_prefix_len(raw, i) && s[i].Address == le64(raw, 16 + 16 * i)
            && s[i].Location.Length == le64(raw, 16 + 16 * i + 8) by {
            if i < n - 1 {
                assert(s[i] == prev[i]);
            } else {
                lemma_m64_prefix_nonneg(raw, i);
                assert(s[i] == last);
            }
        }
    }
}

proof fn lemma_m64_entries_err(raw: Seq<u8>, i: int, n: int, e: Error)
    requires
        0 <= i < n,
        spec_m64_entries(raw, i) is Ok,
        spec_m64_entry(raw, i) == Err::<OverlayDescriptor, Error>(e),
    ensures
        spec_m64_entries(raw, n) == Err::<Seq<OverlayDescriptor>, Error>(e),
    decreases n,
{
    if n > i + 1 {
        lemma_m64_entries_err(raw, i, n - 1, e);
    }
}

/// Decodes the memory64-list stream that `loc` names: the variant whose
/// records share one base offset and are stored back to back, so each
/// record's offset is a running accumulation.
pub fn parse_memory64_list<'a>(data: ParseData<'a>, loc: &LocationDescriptor) -> (r: ParseResult<
    'a,
    Vec<OverlayDescriptor>,
>)
    ensures
        match r {
            Ok((v, rest)) => spec_parse_memory64_list(data@, *loc) == Ok::<
                Seq<OverlayDescriptor>,
                Error,
            >(v@) && rest@.len() == 0,
            Err(e) => spec_parse_memory64_list(data@, *loc) == Err::<Seq<OverlayDescriptor>, Error>(
                e,
            ),
        },
{
    let (raw, remain) = match seek_stream(data, loc) {
        Ok(p) => p,
        Err(e) => {
            return Err(e);
        },
    };
    if raw.len() < 16 {
        return Err(Error::IncompleteData);
    }
    let n64 = read_u64(raw, 0);
    let base_rva = read_u64(raw, 8);
    if n64 > u32::MAX as u64 {
        return Err(Error::UnexpectedNumberOfEntries);
    }
    if 16 + (n64 as u128) * 16 != loc.Length as u128 {
        return Err(Error::UnexpectedStreamSize);
    }
    let n: usize = n64 as usize;
    let mut vec: Vec<OverlayDescriptor> = Vec::new();
    proof {
        assert(vec@ =~= Seq::<OverlayDescriptor>::empty());
    }
    let mut base: u128 = base_rva as u128;
    let mut i: usize = 0;
    while i < n
        invariant
            i <= n,
            n <= u32::MAX,
            16 + n * 16 == loc.Length,
            spec_seek_stream(data@, *loc) == Ok::<Seq<u8>, Error>(raw@),
            raw@.len() == loc.Length,
            raw@.len() >= 16,
            loc.Length <= usize::MAX,
            n == le64(raw@, 0),
            base == spec_m64_offset(raw@, i as int),
            base <= 0x1_0000_0000_0000_0000_0000_0000u128,
            spec_m64_entries(raw@, i as int) == Ok::<Seq<OverlayDescriptor>, Error>(vec@),
        decreases n - i,
    {
        if base > u64::MAX as u128 {
            proof {
                lemma_m64_entries_err(raw@, i as int, n as int, Error::SeekOutOfRange);
            }
            return Err(Error::SeekOutOfRange);
        }
        let offset: usize = 16 + i * 16;
        let (suffix, _) = match seek(raw, offset) {
            Ok(p) => p,
            Err(e) => {
                return Err(e);
            },
        };
        let address = read_u64(suffix, 0);
        let length = read_u64(suffix, 8);
        let entry = OverlayDescriptor {
            Address: address,
            Location: LocationDescriptor { Offset: base as u64, Length: length },
        };
        proof {
            assert(forall|k: int| 0 <= k < suffix@.len() ==> suffix@[k] == raw@[offset + k]);
            assert(address == le64(raw@, 16 + 16 * i));
            assert(length == le64(raw@, 16 + 16 * i + 8));
            assert(spec_m64_entry(raw@, i as int) == Ok::<OverlayDescriptor, Error>(entry));
        }
        vec.push(entry);
        base = base + length as u128;
        i += 1;
    }
    Ok((vec, remain))
}

} // verus!


