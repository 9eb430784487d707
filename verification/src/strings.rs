//! Resolution of the length-prefixed UTF-16 strings the format stores
//! (module names, the service-pack name). A string lives at an absolute
//! offset in the whole buffer: a 32-bit byte count (halved to a code-unit
//! count) followed by that many 16-bit code units.

use vstd::prelude::*;

use crate::bytes::{le16, le32, read_u16, read_u32};
use crate::parse::{seek, ParseData, ParseResult};
use crate::types::Error;

verus! {

/// What decoding a sequence of UTF-16 code units yields: `Some` of the
/// decoded characters when the sequence is valid UTF-16, `None` when it
/// holds invalid code-unit sequences. The result is a function of the
/// code units alone.
pub uninterp spec fn utf16_decoded(units: Seq<u16>) -> Option<Seq<char>>;

/// Relies on `String::from_utf16`: decodes UTF-16 code units into a
/// string, failing exactly on invalid data; the result depends on the
/// code units alone.
#[verifier::external_body]
fn decode_utf16(units: &Vec<u16>) -> (r: Option<String>)
    ensures
        match r {
            Some(s) => utf16_decoded(units@) == Some(s@),
            None => utf16_decoded(units@) == None::<Seq<char>>,
        },
{
    String::from_utf16(units).ok()
}

/// The code units of the length-prefixed string at the front of `raw`.
pub open spec fn spec_string_units(raw: Seq<u8>) -> Seq<u16> {
    Seq::new((le32(raw, 0) / 2) as nat, |i: int| le16(raw, 4 + 2 * i) as u16)
}

/// String resolution at an absolute offset: seek to `rva`, read the byte
/// count, halve it to a code-unit count, decode the units as UTF-16.
/// A buffer too short for the declared units is `IncompleteData`; invalid
/// UTF-16 is `BadStringEncoding`.
pub open spec fn spec_parse_string(data: Seq<u8>, rva: int) -> Result<Seq<char>, Error> {
    if rva > data.len() {
        Err(Error::SeekOutOfRange)
    } else {
        let raw = data.skip(rva);
        if raw.len() < 4 {
            Err(Error::IncompleteData)
        } else if raw.len() < 4 + 2 * (le32(raw, 0) / 2) {
            Err(Error::IncompleteData)
        } else {
            match utf16_decoded(spec_string_units(raw)) {
                Some(s) => Ok(s),
                None => Err(Error::BadStringEncoding),
            }
        }
    }
}

/// Resolves the length-prefixed UTF-16 string at absolute offset `rva`.
pub fn parse_string<'a>(data: ParseData<'a>, rva: u32) -> (r: ParseResult<'a, String>)
    ensures
        match r {
            Ok((s, rest)) => spec_parse_string(data@, rva as int) == Ok::<Seq<char>, Error>(s@)
                && rest@.len() == 0,
            Err(e) => spec_parse_string(data@, rva as int) == Err::<Seq<char>, Error>(e),
        },
{
    if rva as u64 > data.len() as u64 {
        return Err(Error::SeekOutOfRange);
    }
    let (raw, remain) = match seek(data, rva as usize) {
        Ok(p) => p,
        Err(e) => {
            return Err(e);
        },
    };
    if raw.len() < 4 {
        return Err(Error::IncompleteData);
    }
    let byte_len = read_u32(raw, 0);
    let count: u32 = byte_len / 2;
    if ((raw.len() - 4) as u64) < 2 * (count as u64) {
        return Err(Error::IncompleteData);
    }
    let n: usize = count as usize;
    let mut elems: Vec<u16> = Vec::new();
    let mut i: usize = 0;
    while i < n
        invariant
            i <= n,
            n == le32(raw@, 0) / 2,
            4 + 2 * n <= raw@.len(),
            4 + 2 * n <= usize::MAX,
            elems@ =~= spec_string_units(raw@).take(i as int),
        decreases n - i,
    {
        let elem = read_u16(raw, 4 + 2 * i);
        proof {
            assert(elems@.push(elem) =~= spec_string_units(raw@).take(i + 1));
        }
        elems.push(elem);
        i += 1;
    }
    proof {
        assert(elems@ =~= spec_string_units(raw@));
    }
    match decode_utf16(&elems) {
        Some(s) => Ok((s, remain)),
        None => Err(Error::BadStringEncoding),
    }
}

} // verus!
