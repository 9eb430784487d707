//! Laws of the decoders that cut across modules: exactly which inputs the
//! header decoder accepts, and that every stream decoder answers a buffer
//! shorter than its fixed minimum with `IncompleteData`. (That no decoder
//! panics or reads out of bounds is part of what verification itself
//! establishes: every function of this crate is proved free of panics.)

use vstd::prelude::*;

use crate::bytes::le16;
use crate::context::spec_parse_thread_list;
use crate::parse::{
    is_magic, spec_parse_header, spec_parse_memory64_list, spec_parse_memory_info,
    spec_parse_memory_list, spec_parse_module_list, SUPPORTED_VERSION,
};
use crate::sysinfo::spec_parse_system_info;
use crate::types::{Error, Header, LocationDescriptor};

verus! {

/// The acceptance law of header decoding: it succeeds exactly when at
/// least 32 bytes are present, the first four bytes are the magic
/// signature, and the version field holds the one supported value; each
/// other input yields its typed error.
pub proof fn lemma_header_accepts(data: Seq<u8>)
    ensures
        spec_parse_header(data) is Ok <==> (data.len() >= 32 && is_magic(data) && le16(data, 4)
            == SUPPORTED_VERSION),
        data.len() < 32 ==> spec_parse_header(data) == Err::<Header, Error>(Error::IncompleteData),
        data.len() >= 32 && !is_magic(data) ==> spec_parse_header(data) == Err::<Header, Error>(
            Error::BadMagic,
        ),
        data.len() >= 32 && is_magic(data) && le16(data, 4) != SUPPORTED_VERSION
            ==> spec_parse_header(data) == Err::<Header, Error>(Error::UnsupportedVersion),
{
}

/// The short-input law of the stream decoders: a stream shorter than the
/// decoder's fixed minimum (its sub-header, or the whole record for the
/// system-info stream) fails with `IncompleteData`.
pub proof fn lemma_short_stream_incomplete(data: Seq<u8>, loc: LocationDescriptor)
    requires
        loc.Offset + loc.Length <= data.len(),
    ensures
        loc.Length < 16 ==> spec_parse_memory_info(data, loc) == Err::<Seq<crate::types::MemoryInfo>, Error>(
            Error::IncompleteData,
        ),
        loc.Length < 4 ==> spec_parse_module_list(data, loc) == Err::<Seq<crate::types::ModuleView>, Error>(
            Error::IncompleteData,
        ),
        loc.Length < 4 ==> spec_parse_memory_list(data, loc) == Err::<Seq<crate::types::OverlayDescriptor>, Error>(
            Error::IncompleteData,
        ),
        loc.Length < 16 ==> spec_parse_memory64_list(data, loc) == Err::<Seq<crate::types::OverlayDescriptor>, Error>(
            Error::IncompleteData,
        ),
        loc.Length < 4 ==> spec_parse_thread_list(data, loc) == Err::<Seq<crate::types::Thread>, Error>(
            Error::IncompleteData,
        ),
        loc.Length < 56 ==> spec_parse_system_info(data, loc) == Err::<crate::types::SystemInfoView, Error>(
            Error::IncompleteData,
        ),
{
}

/// The truncated-buffer law of the stream decoders: a buffer that ends
/// before the stream it should hold fails with `IncompleteData`, and one
/// whose directory points past the end fails with `SeekOutOfRange`.
pub proof fn lemma_truncated_stream_incomplete(data: Seq<u8>, loc: LocationDescriptor)
    ensures
        loc.Offset <= data.len() < loc.Offset + loc.Length ==> {
            &&& spec_parse_memory_info(data, loc) == Err::<Seq<crate::types::MemoryInfo>, Error>(Error::IncompleteData)
            &&& spec_parse_module_list(data, loc) == Err::<Seq<crate::types::ModuleView>, Error>(Error::IncompleteData)
            &&& spec_parse_memory_list(data, loc) == Err::<Seq<crate::types::OverlayDescriptor>, Error>(Error::IncompleteData)
            &&& spec_parse_memory64_list(data, loc) == Err::<Seq<crate::types::OverlayDescriptor>, Error>(Error::IncompleteData)
            &&& spec_parse_thread_list(data, loc) == Err::<Seq<crate::types::Thread>, Error>(Error::IncompleteData)
            &&& spec_parse_system_info(data, loc) == Err::<crate::types::SystemInfoView, Error>(Error::IncompleteData)
        },
        data.len() < loc.Offset ==> {
            &&& spec_parse_memory_info(data, loc) == Err::<Seq<crate::types::MemoryInfo>, Error>(Error::SeekOutOfRange)
            &&& spec_parse_module_list(data, loc) == Err::<Seq<crate::types::ModuleView>, Error>(Error::SeekOutOfRange)
            &&& spec_parse_memory_list(data, loc) == Err::<Seq<crate::types::OverlayDescriptor>, Error>(Error::SeekOutOfRange)
            &&& spec_parse_memory64_list(data, loc) == Err::<Seq<crate::types::OverlayDescriptor>, Error>(Error::SeekOutOfRange)
            &&& spec_parse_thread_list(data, loc) == Err::<Seq<crate::types::Thread>, Error>(Error::SeekOutOfRange)
            &&& spec_parse_system_info(data, loc) == Err::<crate::types::SystemInfoView, Error>(Error::SeekOutOfRange)
        },
{
}

} // verus!
