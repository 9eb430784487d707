//! System-info decoding: the host machine description, read once from
//! its 56-byte stream, with the optional service-pack name resolved
//! through the same length-prefixed UTF-16 mechanism as module names.

#![allow(non_snake_case)]

use vstd::prelude::*;

use crate::bytes::{le16, le32, read_u16, read_u32};
use crate::parse::{seek_stream, spec_seek_stream, ParseData, ParseResult};
use crate::strings::{parse_string, spec_parse_string};
use crate::types::{Error, LocationDescriptor, SystemInfo, SystemInfoView};

verus! {

/// The scalar fields of the system-info record at the front of `raw`:
/// architecture, family, the revision's high byte as the model and low
/// byte as the stepping, processor count, the OS version triple, the
/// service-pack name offset, and six 32-bit processor-feature words.
pub open spec fn spec_system_info_fields(raw: Seq<u8>) -> SystemInfoView {
    SystemInfoView {
        ProcessorArchitecture: le16(raw, 0) as u16,
        ProcessorFamily: le16(raw, 2) as u16,
        ProcessorModel: raw[5],
        ProcessorStepping: raw[4],
        NumberOfProcessors: raw[6],
        MajorVersion: le32(raw, 8) as u32,
        MinorVersion: le32(raw, 12) as u32,
        BuildNumber: le32(raw, 16) as u32,
        CSDVersionRva: le32(raw, 24) as u32,
        ProcessorFeatures: Seq::new(6, |i: int| le32(raw, 32 + 4 * i) as u32),
        ServicePack: None,
    }
}

/// System-info decoding: the stream must hold at least the 56-byte
/// record; a nonzero service-pack offset is resolved through the whole
/// buffer, and its failure is fatal.
pub open spec fn spec_parse_system_info(data: Seq<u8>, loc: LocationDescriptor) -> Result<
    SystemInfoView,
    Error,
> {
    match spec_seek_stream(data, loc) {
        Err(e) => Err(e),
        Ok(raw) => if raw.len() < 56 {
            Err(Error::IncompleteData)
        } else {
            let si = spec_system_info_fields(raw);
            if si.CSDVersionRva > 0 {
                match spec_parse_string(data, si.CSDVersionRva as int) {
                    Ok(name) => Ok(SystemInfoView { ServicePack: Some(name), ..si }),
                    Err(e) => Err(e),
                }
            } else {
                Ok(si)
            }
        },
    }
}

/// Decodes the system-info stream that `loc` names.
pub fn parse_system_info<'a>(data: ParseData<'a>, loc: &LocationDescriptor) -> (r: ParseResult<
    'a,
    SystemInfo,
>)
    ensures
        match r {
            Ok((si, rest)) => spec_parse_system_info(data@, *loc) matches Ok(v) && v == si@
                && rest@.len() == 0,
            Err(e) => spec_parse_system_info(data@, *loc) == Err::<SystemInfoView, Error>(e),
        },
{
    let (raw, remain) = match seek_stream(data, loc) {
        Ok(p) => p,
        Err(e) => {
            return Err(e);
        },
    };
    if raw.len() < 56 {
        return Err(Error::IncompleteData);
    }
    let csd_rva = read_u32(raw, 24);
    let mut features: Vec<u32> = Vec::new();
    features.push(read_u32(raw, 32));
    features.push(read_u32(raw, 36));
    features.push(read_u32(raw, 40));
    features.push(read_u32(raw, 44));
    features.push(read_u32(raw, 48));
    features.push(read_u32(raw, 52));
    proof {
        assert(features@ =~= Seq::new(6, |i: int| le32(raw@, 32 + 4 * i) as u32));
    }
    let service_pack: Option<String> = if csd_rva > 0 {
        match parse_string(data, csd_rva) {
            Ok((name, _)) => Some(name),
            Err(e) => {
                return Err(e);
            },
        }
    } else {
        None
    };
    let si = SystemInfo {
        ProcessorArchitecture: read_u16(raw, 0),
        ProcessorFamily: read_u16(raw, 2),
        ProcessorModel: raw[5],
        ProcessorStepping: raw[4],
        NumberOfProcessors: raw[6],
        MajorVersion: read_u32(raw, 8),
        MinorVersion: read_u32(raw, 12),
        BuildNumber: read_u32(raw, 16),
        CSDVersionRva: csd_rva,
        ProcessorFeatures: features,
        ServicePack: service_pack,
    };
    proof {
        assert(spec_parse_system_info(data@, *loc) matches Ok(v) && v =~= si@);
    }
    Ok((si, remain))
}

} // verus!
