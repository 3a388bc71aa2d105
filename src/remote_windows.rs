use vstd::prelude::*;
use vstd::string::*;
use vstd::utf8::encode_utf8;
use crate::error::AppError;

verus! {

/// What `String::from_utf16` makes of `units`: the decoded characters, or
/// none where they are not valid UTF-16.
pub uninterp spec fn utf16_decode(units: Seq<u16>) -> Option<Seq<char>>;

/// Relies on `String::from_utf16`: it decodes `units`, and fails where they
/// hold an unpaired surrogate; the outcome depends on `units` alone.
#[verifier::external_body]
fn from_utf16(units: &[u16]) -> (r: Option<String>)
    ensures
        match r {
            Some(s) => utf16_decode(units@) == Some(s@),
            None => utf16_decode(units@) is None,
        },
{
    String::from_utf16(units).ok()
}

/// The UTF-16 code units of a little-endian byte buffer; an odd last byte
/// is left out.
pub open spec fn le_units(raw: Seq<u8>) -> Seq<u16> {
    Seq::new(raw.len() / 2, |i: int| (raw[2 * i] as int + 256 * raw[2 * i + 1] as int) as u16)
}

/// Reads a little-endian byte buffer as UTF-16 code units.
pub fn utf16le_units(raw: &[u8]) -> (r: Vec<u16>)
    ensures
        r@ == le_units(raw@),
{
    let len = raw.len();
    let n = len / 2;
    let mut out: Vec<u16> = Vec::with_capacity(n);
    let mut i: usize = 0;
    while i < n
        invariant
            n == raw@.len() / 2,
            len == raw@.len(),
            i <= n,
            out@ == le_units(raw@).take(i as int),
        decreases n - i,
    {
        assert(2 * i + 1 < len) by (nonlinear_arith)
            requires
                i < n,
                n == len / 2,
        ;
        let lo = raw[2 * i] as u16;
        let hi = raw[2 * i + 1] as u16;
        assert(lo + 256 * hi <= 0xffff) by (nonlinear_arith)
            requires
                lo <= 255,
                hi <= 255,
        ;
        out.push(lo + 256 * hi);
        i += 1;
        assert(out@ =~= le_units(raw@).take(i as int));
    }
    assert(le_units(raw@).take(n as int) =~= le_units(raw@));
    out
}

/// Turns a Windows environment block, UTF-16 in little-endian bytes as read
/// from the process, into the UTF-8 block the record parser reads.
pub fn env_block_from_utf16(raw: &[u8]) -> (r: Result<Vec<u8>, AppError>)
    ensures
        match utf16_decode(le_units(raw@)) {
            Some(text) => r matches Ok(out) && out@ == encode_utf8(text),
            None => r == Err::<Vec<u8>, AppError>(AppError::DecodeError),
        },
{
    let units = utf16le_units(raw);
    match from_utf16(units.as_slice()) {
        Some(text) => Ok(text.as_str().as_bytes_vec()),
        None => Err(AppError::DecodeError),
    }
}

} // verus!
