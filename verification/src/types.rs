//! The decoded record types of the format, and spec-level views for the
//! types that hold strings or vectors.

#![allow(non_snake_case)]

use vstd::prelude::*;

verus! {

/// The typed failures a decode or analysis operation can end in. Every
/// operation returns its error instead of attempting partial recovery.
#[derive(Clone, Copy, Debug, PartialEq, Eq, Structural)]
pub enum Error {
    /// Fewer bytes remain than a fixed-size read requires.
    IncompleteData,
    /// A computed offset exceeds the buffer length.
    SeekOutOfRange,
    /// The first four bytes are not the format's signature.
    BadMagic,
    /// The header's version field is not the supported value.
    UnsupportedVersion,
    /// The requested stream type is absent from the directory.
    StreamNotFound,
    /// A stream's declared element count/size disagrees with its byte length.
    UnexpectedStreamSize,
    /// A stream's declared element count exceeds the 32-bit count domain.
    UnexpectedNumberOfEntries,
    /// A nonzero chained-exception-record pointer (unsupported).
    UnexpectedExceptionChain,
    /// An exception record declares more than 15 parameters.
    InvalidParameterCount,
    /// A resolved UTF-16 string holds invalid code-unit sequences.
    BadStringEncoding,
    /// A memory-info entry's base address breaks the running contiguity.
    ContiguityViolation,
    /// An entry with allocation base 0 does not carry the free-memory flags.
    BadFreeRegion,
    /// An entry disagrees with the allocation region it belongs to.
    AllocationMismatch,
    /// A module's base address matches no allocation region.
    ModuleNotInAnyRegion,
    /// A matched region's total size differs from the module's image size.
    ModuleSizeMismatch,
    /// A constituent region of an image-backed allocation is not of image type.
    ModuleRegionNotImage,
    /// A module's name string could not be resolved.
    ModuleNameMissing,
}

impl Error {
    /// A short description of the error, for reporting by callers.
    pub fn message(&self) -> &'static str {
        match self {
            Error::IncompleteData => "incomplete data",
            Error::SeekOutOfRange => "cannot seek to data",
            Error::BadMagic => "bad header magic",
            Error::UnsupportedVersion => "unsupported version",
            Error::StreamNotFound => "stream not found",
            Error::UnexpectedStreamSize => "unexpected stream size",
            Error::UnexpectedNumberOfEntries => "unexpected number of entries",
            Error::UnexpectedExceptionChain => "unexpected exception chain",
            Error::InvalidParameterCount => "invalid number of exception parameters",
            Error::BadStringEncoding => "bad UTF-16 data",
            Error::ContiguityViolation => "memory info entries are not contiguous",
            Error::BadFreeRegion => "unallocated memory entry has unexpected flags",
            Error::AllocationMismatch => "memory info entry disagrees with its allocation",
            Error::ModuleNotInAnyRegion => "module does not belong to any region",
            Error::ModuleSizeMismatch => "module size differs from its allocation size",
            Error::ModuleRegionNotImage => "allocation of a module holds a non-image region",
            Error::ModuleNameMissing => "module name cannot be resolved",
        }
    }
}

/// The fixed 32-byte preamble of a dump.
#[derive(Clone, Copy, Debug, PartialEq, Eq, Structural)]
pub struct Header {
    pub Version: u16,
    pub NumberOfStreams: u32,
    pub StreamDirectory: u32,
    pub TimeDateStamp: u32,
    pub Flags: u64,
}

/// A (length, offset) pair naming a sub-range of the whole buffer. The
/// offset is absolute, measured from the start of the dump.
#[derive(Clone, Copy, Debug, PartialEq, Eq, Structural)]
pub struct LocationDescriptor {
    pub Offset: u64,
    pub Length: u64,
}

/// A window of raw memory content present in the dump: the virtual
/// address it had, and the location of its backing bytes.
#[derive(Clone, Copy, Debug, PartialEq, Eq, Structural)]
pub struct OverlayDescriptor {
    pub Address: u64,
    pub Location: LocationDescriptor,
}

/// The stream type tags the directory can name.
#[derive(Clone, Copy, Debug, PartialEq, Eq, Structural)]
pub enum StreamType {
    UnusedStream,
    ThreadListStream,
    ModuleListStream,
    MemoryListStream,
    ExceptionStream,
    SystemInfoStream,
    ThreadExListStream,
    Memory64ListStream,
    CommentStreamA,
    CommentStreamW,
    HandleDataStream,
    FunctionTableStream,
    UnloadedModuleListStream,
    MiscInfoStream,
    MemoryInfoListStream,
    ThreadInfoListStream,
    HandleOperationListStream,
    TokenStream,
    JavaScriptDataStream,
}

impl StreamType {
    /// The tag value this stream type carries in a directory entry.
    pub open spec fn spec_tag(self) -> u32 {
        match self {
            StreamType::UnusedStream => 0,
            StreamType::ThreadListStream => 3,
            StreamType::ModuleListStream => 4,
            StreamType::MemoryListStream => 5,
            StreamType::ExceptionStream => 6,
            StreamType::SystemInfoStream => 7,
            StreamType::ThreadExListStream => 8,
            StreamType::Memory64ListStream => 9,
            StreamType::CommentStreamA => 10,
            StreamType::CommentStreamW => 11,
            StreamType::HandleDataStream => 12,
            StreamType::FunctionTableStream => 13,
            StreamType::UnloadedModuleListStream => 14,
            StreamType::MiscInfoStream => 15,
            StreamType::MemoryInfoListStream => 16,
            StreamType::ThreadInfoListStream => 17,
            StreamType::HandleOperationListStream => 18,
            StreamType::TokenStream => 19,
            StreamType::JavaScriptDataStream => 20,
        }
    }

    #[verifier::when_used_as_spec(spec_tag)]
    pub fn tag(self) -> (t: u32)
        ensures
            t == self.spec_tag(),
    {
        match self {
            StreamType::UnusedStream => 0,
            StreamType::ThreadListStream => 3,
            StreamType::ModuleListStream => 4,
            StreamType::MemoryListStream => 5,
            StreamType::ExceptionStream => 6,
            StreamType::SystemInfoStream => 7,
            StreamType::ThreadExListStream => 8,
            StreamType::Memory64ListStream => 9,
            StreamType::CommentStreamA => 10,
            StreamType::CommentStreamW => 11,
            StreamType::HandleDataStream => 12,
            StreamType::FunctionTableStream => 13,
            StreamType::UnloadedModuleListStream => 14,
            StreamType::MiscInfoStream => 15,
            StreamType::MemoryInfoListStream => 16,
            StreamType::ThreadInfoListStream => 17,
            StreamType::HandleOperationListStream => 18,
            StreamType::TokenStream => 19,
            StreamType::JavaScriptDataStream => 20,
        }
    }
}

/// One directory entry: a stream type tag and the stream's location.
#[derive(Clone, Copy, Debug, PartialEq, Eq, Structural)]
pub struct Directory {
    pub StreamType: u32,
    pub Location: LocationDescriptor,
}

/// One virtual-memory region's page-table metadata.
#[derive(Clone, Copy, Debug, PartialEq, Eq, Structural)]
pub struct MemoryInfo {
    pub BaseAddress: u64,
    pub AllocationBase: u64,
    pub AllocationProtect: u32,
    pub RegionSize: u64,
    pub State: u32,
    pub Protect: u32,
    pub Type: u32,
}

/// One loaded image, its name resolved from the dump's string table.
#[derive(Clone, Debug)]
pub struct Module {
    pub BaseOfImage: u64,
    pub SizeOfImage: u32,
    pub CheckSum: u32,
    pub TimeDateStamp: u32,
    pub ModuleNameRva: u32,
    pub ModuleName: Option<String>,
}

/// The spec-level image of a `Module`, with the name as a character
/// sequence.
#[verifier::ext_equal]
pub struct ModuleView {
    pub BaseOfImage: u64,
    pub SizeOfImage: u32,
    pub CheckSum: u32,
    pub TimeDateStamp: u32,
    pub ModuleNameRva: u32,
    pub ModuleName: Option<Seq<char>>,
}

impl View for Module {
    type V = ModuleView;

    open spec fn view(&self) -> ModuleView {
        ModuleView {
            BaseOfImage: self.BaseOfImage,
            SizeOfImage: self.SizeOfImage,
            CheckSum: self.CheckSum,
            TimeDateStamp: self.TimeDateStamp,
            ModuleNameRva: self.ModuleNameRva,
            ModuleName: match self.ModuleName {
                Some(ref s) => Some(s@),
                None => None,
            },
        }
    }
}

/// A decoded 32-bit CPU register snapshot.
#[derive(Clone, Copy, Debug, PartialEq, Eq, Structural)]
pub struct ContextX86 {
    pub EFlags: u32,
    pub Eip: u32,
    pub Eax: u32,
    pub Ebx: u32,
    pub Ecx: u32,
    pub Edx: u32,
    pub Esp: u32,
    pub Ebp: u32,
    pub Esi: u32,
    pub Edi: u32,
}

/// A decoded 64-bit CPU register snapshot.
#[derive(Clone, Copy, Debug, PartialEq, Eq, Structural)]
pub struct ContextX64 {
    pub EFlags: u32,
    pub Rip: u64,
    pub Rax: u64,
    pub Rbx: u64,
    pub Rcx: u64,
    pub Rdx: u64,
    pub Rsp: u64,
    pub Rbp: u64,
    pub Rsi: u64,
    pub Rdi: u64,
    pub R8: u64,
    pub R9: u64,
    pub R10: u64,
    pub R11: u64,
    pub R12: u64,
    pub R13: u64,
    pub R14: u64,
    pub R15: u64,
}

/// A CPU context chosen by the byte length of its blob: 716 bytes decode
/// as x86, 1232 bytes as x64, and any other length is the absent variant,
/// which is a normal outcome and no error.
#[derive(Clone, Copy, Debug, PartialEq, Eq, Structural)]
pub enum MaybeThreadContext {
    Absent,
    X86(ContextX86),
    X64(ContextX64),
}

/// One captured thread, with its stack overlay and decoded context.
#[derive(Clone, Copy, Debug, PartialEq, Eq, Structural)]
pub struct Thread {
    pub ThreadId: u32,
    pub SuspendCount: u32,
    pub PriorityClass: u32,
    pub Priority: u32,
    pub Teb: u64,
    pub Stack: OverlayDescriptor,
    pub ThreadContext: LocationDescriptor,
    pub Context: MaybeThreadContext,
}

/// A captured fault: code, flags, faulting address, and up to 15 extra
/// parameters.
#[derive(Clone, Debug)]
pub struct ExceptionRecord {
    pub Code: u32,
    pub Flags: u32,
    pub Address: u64,
    pub Information: Vec<u64>,
}

/// The spec-level image of an `ExceptionRecord`.
#[verifier::ext_equal]
pub struct ExceptionRecordView {
    pub Code: u32,
    pub Flags: u32,
    pub Address: u64,
    pub Information: Seq<u64>,
}

impl View for ExceptionRecord {
    type V = ExceptionRecordView;

    open spec fn view(&self) -> ExceptionRecordView {
        ExceptionRecordView {
            Code: self.Code,
            Flags: self.Flags,
            Address: self.Address,
            Information: self.Information@,
        }
    }
}

/// The exception stream: the faulting thread, its exception record, and
/// the location and decoded value of its CPU context.
#[derive(Clone, Debug)]
pub struct ExceptionStream {
    pub ThreadId: u32,
    pub Exception: ExceptionRecord,
    pub ThreadContext: LocationDescriptor,
    pub Context: MaybeThreadContext,
}

/// The spec-level image of an `ExceptionStream`.
#[verifier::ext_equal]
pub struct ExceptionStreamView {
    pub ThreadId: u32,
    pub Exception: ExceptionRecordView,
    pub ThreadContext: LocationDescriptor,
    pub Context: MaybeThreadContext,
}

impl View for ExceptionStream {
    type V = ExceptionStreamView;

    open spec fn view(&self) -> ExceptionStreamView {
        ExceptionStreamView {
            ThreadId: self.ThreadId,
            Exception: self.Exception@,
            ThreadContext: self.ThreadContext,
            Context: self.Context,
        }
    }
}

/// The host machine description, with the service-pack name resolved from
/// the dump's string table.
#[derive(Clone, Debug)]
pub struct SystemInfo {
    pub ProcessorArchitecture: u16,
    pub ProcessorFamily: u16,
    pub ProcessorModel: u8,
    pub ProcessorStepping: u8,
    pub NumberOfProcessors: u8,
    pub MajorVersion: u32,
    pub MinorVersion: u32,
    pub BuildNumber: u32,
    pub CSDVersionRva: u32,
    pub ProcessorFeatures: Vec<u32>,
    pub ServicePack: Option<String>,
}

/// The spec-level image of a `SystemInfo`.
#[verifier::ext_equal]
pub struct SystemInfoView {
    pub ProcessorArchitecture: u16,
    pub ProcessorFamily: u16,
    pub ProcessorModel: u8,
    pub ProcessorStepping: u8,
    pub NumberOfProcessors: u8,
    pub MajorVersion: u32,
    pub MinorVersion: u32,
    pub BuildNumber: u32,
    pub CSDVersionRva: u32,
    pub ProcessorFeatures: Seq<u32>,
    pub ServicePack: Option<Seq<char>>,
}

impl View for SystemInfo {
    type V = SystemInfoView;

    open spec fn view(&self) -> SystemInfoView {
        SystemInfoView {
            ProcessorArchitecture: self.ProcessorArchitecture,
            ProcessorFamily: self.ProcessorFamily,
            ProcessorModel: self.ProcessorModel,
            ProcessorStepping: self.ProcessorStepping,
            NumberOfProcessors: self.NumberOfProcessors,
            MajorVersion: self.MajorVersion,
            MinorVersion: self.MinorVersion,
            BuildNumber: self.BuildNumber,
            CSDVersionRva: self.CSDVersionRva,
            ProcessorFeatures: self.ProcessorFeatures@,
            ServicePack: match self.ServicePack {
                Some(ref s) => Some(s@),
                None => None,
            },
        }
    }
}

} // verus!
