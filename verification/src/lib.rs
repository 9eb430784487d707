//! Decoder for a crash-dump container format: a flat, offset-addressed
//! binary layout holding a directory of typed streams (memory metadata,
//! loaded modules, raw memory ranges, threads with CPU contexts, exception
//! records, system information), plus an analysis pass that regroups the
//! page-level memory records into allocation regions and ties loaded
//! modules to them.
//!
//! Every entry point takes the whole dump buffer and returns either a
//! structured record or a typed [`types::Error`]; malformed input is
//! reported once, never repaired or silently truncated.

use vstd::prelude::*;

pub mod bytes;
pub mod context;
pub mod laws;
pub mod mem_analysis;
pub mod parse;
pub mod strings;
pub mod sysinfo;
pub mod types;

use crate::context::{
    parse_exception_stream, parse_thread_list, spec_parse_exception_stream, spec_parse_thread_list,
};
use crate::parse::{
    parse_directory, parse_header, parse_memory64_list, parse_memory_info, parse_memory_list,
    parse_module_list, spec_parse_directory, spec_parse_header, spec_parse_memory64_list,
    spec_parse_memory_info, spec_parse_memory_list, spec_parse_module_list,
};
use crate::sysinfo::{parse_system_info, spec_parse_system_info};
use crate::types::{
    Directory, Error, ExceptionStream, ExceptionStreamView, MemoryInfo, Module, ModuleView,
    OverlayDescriptor, StreamType, SystemInfo, SystemInfoView, Thread,
};

verus! {

/// The first directory entry whose tag matches `tag`, or `StreamNotFound`
/// when none does.
pub open spec fn spec_find_stream(dir: Seq<Directory>, tag: u32) -> Result<Directory, Error>
    decreases dir.len(),
{
    if dir.len() == 0 {
        Err(Error::StreamNotFound)
    } else if dir[0].StreamType == tag {
        Ok(dir[0])
    } else {
        spec_find_stream(dir.skip(1), tag)
    }
}

/// Locates the first directory entry carrying the requested stream type.
pub fn find_stream(dir: &Vec<Directory>, tag: u32) -> (r: Result<Directory, Error>)
    ensures
        r == spec_find_stream(dir@, tag),
{
    let n: usize = dir.len();
    let mut i: usize = 0;
    proof {
        assert(dir@.skip(0) =~= dir@);
    }
    while i < n
        invariant
            i <= n,
            n == dir@.len(),
            spec_find_stream(dir@, tag) == spec_find_stream(dir@.skip(i as int), tag),
        decreases n - i,
    {
        if dir[i].StreamType == tag {
            return Ok(dir[i]);
        }
        proof {
            assert(dir@.skip(i as int).skip(1) =~= dir@.skip(i + 1));
        }
        i += 1;
    }
    Err(Error::StreamNotFound)
}

/// The first directory entry whose tag matches either of two stream
/// types, or `StreamNotFound` when neither occurs.
pub open spec fn spec_find_stream_either(dir: Seq<Directory>, a: u32, b: u32) -> Result<
    Directory,
    Error,
>
    decreases dir.len(),
{
    if dir.len() == 0 {
        Err(Error::StreamNotFound)
    } else if dir[0].StreamType == a || dir[0].StreamType == b {
        Ok(dir[0])
    } else {
        spec_find_stream_either(dir.skip(1), a, b)
    }
}

/// Locates the first directory entry carrying either of two stream types.
pub fn find_stream_either(dir: &Vec<Directory>, a: u32, b: u32) -> (r: Result<Directory, Error>)
    ensures
        r == spec_find_stream_either(dir@, a, b),
{
    let n: usize = dir.len();
    let mut i: usize = 0;
    proof {
        assert(dir@.skip(0) =~= dir@);
    }
    while i < n
        invariant
            i <= n,
            n == dir@.len(),
            spec_find_stream_either(dir@, a, b) == spec_find_stream_either(
                dir@.skip(i as int),
                a,
                b,
            ),
        decreases n - i,
    {
        if dir[i].StreamType == a || dir[i].StreamType == b {
            return Ok(dir[i]);
        }
        proof {
            assert(dir@.skip(i as int).skip(1) =~= dir@.skip(i + 1));
        }
        i += 1;
    }
    Err(Error::StreamNotFound)
}

/// The decoded stream directory of a dump: header first, then the
/// directory it declares.
pub open spec fn spec_decoded_directory(data: Seq<u8>) -> Result<Seq<Directory>, Error> {
    match spec_parse_header(data) {
        Err(e) => Err(e),
        Ok(h) => spec_parse_directory(data, h),
    }
}

/// Decodes the header and walks the stream directory it declares.
pub fn decoded_directory(data: &[u8]) -> (r: Result<Vec<Directory>, Error>)
    ensures
        match r {
            Ok(v) => spec_decoded_directory(data@) == Ok::<Seq<Directory>, Error>(v@),
            Err(e) => spec_decoded_directory(data@) == Err::<Seq<Directory>, Error>(e),
        },
{
    let (header, _) = match parse_header(data) {
        Ok(p) => p,
        Err(e) => {
            return Err(e);
        },
    };
    match parse_directory(data, &header) {
        Ok((dir, _)) => Ok(dir),
        Err(e) => Err(e),
    }
}

/// The memory-info list of a dump: directory lookup of its stream type,
/// then the stream decoded.
pub open spec fn spec_memory_info_list(data: Seq<u8>) -> Result<Seq<MemoryInfo>, Error> {
    match spec_decoded_directory(data) {
        Err(e) => Err(e),
        Ok(dir) => match spec_find_stream(dir, StreamType::MemoryInfoListStream.spec_tag()) {
            Err(e) => Err(e),
            Ok(entry) => spec_parse_memory_info(data, entry.Location),
        },
    }
}

/// Decodes the memory-info list of a whole dump buffer.
pub fn memory_info_list(data: &[u8]) -> (r: Result<Vec<MemoryInfo>, Error>)
    ensures
        match r {
            Ok(v) => spec_memory_info_list(data@) == Ok::<Seq<MemoryInfo>, Error>(v@),
            Err(e) => spec_memory_info_list(data@) == Err::<Seq<MemoryInfo>, Error>(e),
        },
{
    let dir = match decoded_directory(data) {
        Ok(d) => d,
        Err(e) => {
            return Err(e);
        },
    };
    let entry = match find_stream(&dir, StreamType::MemoryInfoListStream.tag()) {
        Ok(d) => d,
        Err(e) => {
            return Err(e);
        },
    };
    match parse_memory_info(data, &entry.Location) {
        Ok((v, _)) => Ok(v),
        Err(e) => Err(e),
    }
}

/// The module list of a dump, names resolved.
pub open spec fn spec_module_list(data: Seq<u8>) -> Result<Seq<ModuleView>, Error> {
    match spec_decoded_directory(data) {
        Err(e) => Err(e),
        Ok(dir) => match spec_find_stream(dir, StreamType::ModuleListStream.spec_tag()) {
            Err(e) => Err(e),
            Ok(entry) => spec_parse_module_list(data, entry.Location),
        },
    }
}

/// Decodes the module list of a whole dump buffer.
pub fn module_list(data: &[u8]) -> (r: Result<Vec<Module>, Error>)
    ensures
        match r {
            Ok(v) => spec_module_list(data@) == Ok::<Seq<ModuleView>, Error>(
                crate::parse::mods_view(v@),
            ),
            Err(e) => spec_module_list(data@) == Err::<Seq<ModuleView>, Error>(e),
        },
{
    let dir = match decoded_directory(data) {
        Ok(d) => d,
        Err(e) => {
            return Err(e);
        },
    };
    let entry = match find_stream(&dir, StreamType::ModuleListStream.tag()) {
        Ok(d) => d,
        Err(e) => {
            return Err(e);
        },
    };
    match parse_module_list(data, &entry.Location) {
        Ok((v, _)) => Ok(v),
        Err(e) => Err(e),
    }
}

/// The raw-memory overlay ranges of a dump. The direct and 64-bit list
/// stream types are synonyms for "memory content ranges": the first entry
/// carrying either tag is used, and its own tag picks the decoder.
pub open spec fn spec_memory_overlay(data: Seq<u8>) -> Result<Seq<OverlayDescriptor>, Error> {
    match spec_decoded_directory(data) {
        Err(e) => Err(e),
        Ok(dir) => match spec_find_stream_either(
            dir,
            StreamType::MemoryListStream.spec_tag(),
            StreamType::Memory64ListStream.spec_tag(),
        ) {
            Err(e) => Err(e),
            Ok(entry) => if entry.StreamType == StreamType::Memory64ListStream.spec_tag() {
                spec_parse_memory64_list(data, entry.Location)
            } else {
                spec_parse_memory_list(data, entry.Location)
            },
        },
    }
}

/// Decodes the available raw-memory overlay ranges of a whole dump
/// buffer, whichever variant of the memory list is present.
pub fn memory_overlay(data: &[u8]) -> (r: Result<Vec<OverlayDescriptor>, Error>)
    ensures
        match r {
            Ok(v) => spec_memory_overlay(data@) == Ok::<Seq<OverlayDescriptor>, Error>(v@),
            Err(e) => spec_memory_overlay(data@) == Err::<Seq<OverlayDescriptor>, Error>(e),
        },
{
    let dir = match decoded_directory(data) {
        Ok(d) => d,
        Err(e) => {
            return Err(e);
        },
    };
    let entry = match find_stream_either(
        &dir,
        StreamType::MemoryListStream.tag(),
        StreamType::Memory64ListStream.tag(),
    ) {
        Ok(d) => d,
        Err(e) => {
            return Err(e);
        },
    };
    let parsed = if entry.StreamType == StreamType::Memory64ListStream.tag() {
        parse_memory64_list(data, &entry.Location)
    } else {
        parse_memory_list(data, &entry.Location)
    };
    match parsed {
        Ok((v, _)) => Ok(v),
        Err(e) => Err(e),
    }
}

/// The thread list of a dump, contexts decoded.
pub open spec fn spec_thread_list(data: Seq<u8>) -> Result<Seq<Thread>, Error> {
    match spec_decoded_directory(data) {
        Err(e) => Err(e),
        Ok(dir) => match spec_find_stream(dir, StreamType::ThreadListStream.spec_tag()) {
            Err(e) => Err(e),
            Ok(entry) => spec_parse_thread_list(data, entry.Location),
        },
    }
}

/// Decodes the thread list of a whole dump buffer, each thread's CPU
/// context included.
pub fn thread_list(data: &[u8]) -> (r: Result<Vec<Thread>, Error>)
    ensures
        match r {
            Ok(v) => spec_thread_list(data@) == Ok::<Seq<Thread>, Error>(v@),
            Err(e) => spec_thread_list(data@) == Err::<Seq<Thread>, Error>(e),
        },
{
    let dir = match decoded_directory(data) {
        Ok(d) => d,
        Err(e) => {
            return Err(e);
        },
    };
    let entry = match find_stream(&dir, StreamType::ThreadListStream.tag()) {
        Ok(d) => d,
        Err(e) => {
            return Err(e);
        },
    };
    match parse_thread_list(data, &entry.Location) {
        Ok((v, _)) => Ok(v),
        Err(e) => Err(e),
    }
}

/// The exception stream of a dump.
pub open spec fn spec_exception_record(data: Seq<u8>) -> Result<ExceptionStreamView, Error> {
    match spec_decoded_directory(data) {
        Err(e) => Err(e),
        Ok(dir) => match spec_find_stream(dir, StreamType::ExceptionStream.spec_tag()) {
            Err(e) => Err(e),
            Ok(entry) => spec_parse_exception_stream(data, entry.Location),
        },
    }
}

/// Decodes the exception stream of a whole dump buffer.
pub fn exception_record(data: &[u8]) -> (r: Result<ExceptionStream, Error>)
    ensures
        match r {
            Ok(v) => spec_exception_record(data@) matches Ok(s) && s == v@,
            Err(e) => spec_exception_record(data@) == Err::<ExceptionStreamView, Error>(e),
        },
{
    let dir = match decoded_directory(data) {
        Ok(d) => d,
        Err(e) => {
            return Err(e);
        },
    };
    let entry = match find_stream(&dir, StreamType::ExceptionStream.tag()) {
        Ok(d) => d,
        Err(e) => {
            return Err(e);
        },
    };
    match parse_exception_stream(data, &entry.Location) {
        Ok((v, _)) => Ok(v),
        Err(e) => Err(e),
    }
}

/// The system-info record of a dump.
pub open spec fn spec_system_info(data: Seq<u8>) -> Result<SystemInfoView, Error> {
    match spec_decoded_directory(data) {
        Err(e) => Err(e),
        Ok(dir) => match spec_find_stream(dir, StreamType::SystemInfoStream.spec_tag()) {
            Err(e) => Err(e),
            Ok(entry) => spec_parse_system_info(data, entry.Location),
        },
    }
}

/// Decodes the system-info record of a whole dump buffer.
pub fn system_info(data: &[u8]) -> (r: Result<SystemInfo, Error>)
    ensures
        match r {
            Ok(v) => spec_system_info(data@) matches Ok(s) && s == v@,
            Err(e) => spec_system_info(data@) == Err::<SystemInfoView, Error>(e),
        },
{
    let dir = match decoded_directory(data) {
        Ok(d) => d,
        Err(e) => {
            return Err(e);
        },
    };
    let entry = match find_stream(&dir, StreamType::SystemInfoStream.tag()) {
        Ok(d) => d,
        Err(e) => {
            return Err(e);
        },
    };
    match parse_system_info(data, &entry.Location) {
        Ok((v, _)) => Ok(v),
        Err(e) => Err(e),
    }
}

} // verus!
