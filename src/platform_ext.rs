use vstd::prelude::*;
use vstd::string::*;
use vstd::utf8::{decode_utf8, valid_utf8};

verus! {

/// A decoded string, or where the bytes are not UTF-8, their escaped form.
pub type Utf8DecodeResult = Result<String, String>;

/// The lower-case hexadecimal digit of `d` (below 16).
pub open spec fn hex_digit(d: u8) -> char {
    seq!['0', '1', '2', '3', '4', '5', '6', '7', '8', '9', 'a', 'b', 'c', 'd', 'e', 'f'][d as int]
}

/// How one byte is written in escaped form: `\t`, `\r`, `\n`, `\'`, `\"`
/// and `\\` for those six, printable ASCII as itself, and `\xNN` otherwise.
pub open spec fn byte_escape(b: u8) -> Seq<char> {
    if b == 0x09 {
        seq!['\\', 't']
    } else if b == 0x0d {
        seq!['\\', 'r']
    } else if b == 0x0a {
        seq!['\\', 'n']
    } else if b == 0x27 {
        seq!['\\', '\'']
    } else if b == 0x22 {
        seq!['\\', '"']
    } else if b == 0x5c {
        seq!['\\', '\\']
    } else if 0x20 <= b <= 0x7e {
        seq![b as char]
    } else {
        seq!['\\', 'x', hex_digit(b / 16), hex_digit(b % 16)]
    }
}

/// The escaped form of every byte of `b`, one after the other.
pub open spec fn escaped_bytes(b: Seq<u8>) -> Seq<char>
    decreases b.len(),
{
    if b.len() == 0 {
        seq![]
    } else {
        escaped_bytes(b.drop_last()) + byte_escape(b.last())
    }
}

/// The text of `bytes`: decoded where they are UTF-8, escaped byte by byte
/// where they are not.
pub open spec fn bytes_text(bytes: Seq<u8>) -> Seq<char> {
    if valid_utf8(bytes) {
        decode_utf8(bytes)
    } else {
        escaped_bytes(bytes)
    }
}

/// The decimal digits of `n`, most significant first, without leading zeros.
pub open spec fn decimal(n: nat) -> Seq<char>
    decreases n,
{
    if n < 10 {
        seq![((n + 48) as u8) as char]
    } else {
        decimal(n / 10) + seq![((n % 10 + 48) as u8) as char]
    }
}

/// Writes `n` in decimal.
pub fn decimal_string(n: u32) -> (r: String)
    ensures
        r@ == decimal(n as nat),
    decreases n,
{
    let mut s = if n < 10 {
        String::new()
    } else {
        decimal_string(n / 10)
    };
    let digit = (n % 10) as u8 + 48;
    push_char(&mut s, digit as char);
    s
}

/// Relies on `String::push`: `c` is added at the end.
#[verifier::external_body]
pub(crate) fn push_char(s: &mut String, c: char)
    ensures
        final(s)@ == old(s)@.push(c),
{
    s.push(c)
}

/// Relies on `std::str::from_utf8`: it succeeds exactly on valid UTF-8, and
/// the string then holds the decoded characters.
#[verifier::external_body]
fn from_utf8(bytes: &[u8]) -> (r: Option<String>)
    ensures
        r is Some <==> valid_utf8(bytes@),
        r matches Some(s) ==> s@ == decode_utf8(bytes@),
{
    std::str::from_utf8(bytes).ok().map(|s| s.to_owned())
}

/// Relies on `std::ascii::escape_default`, whose rules its documentation
/// lists: the six escapes, printable ASCII kept, `\xNN` for the rest.
#[verifier::external_body]
fn escape_byte(b: u8) -> (r: String)
    ensures
        r@ == byte_escape(b),
{
    std::ascii::escape_default(b).map(char::from).collect()
}

/// Decodes `bytes` as UTF-8; where they are not UTF-8, gives instead the
/// escaped form of each byte.
pub fn u8_vec_to_string(bytes: &[u8]) -> (r: Utf8DecodeResult)
    ensures
        match r {
            Ok(s) => valid_utf8(bytes@) && s@ == decode_utf8(bytes@),
            Err(s) => !valid_utf8(bytes@) && s@ == escaped_bytes(bytes@),
        },
{
    match from_utf8(bytes) {
        Some(s) => Ok(s),
        None => {
            let mut out = String::new();
            let mut i: usize = 0;
            while i < bytes.len()
                invariant
                    i <= bytes@.len(),
                    out@ == escaped_bytes(bytes@.take(i as int)),
                decreases bytes@.len() - i,
            {
                let piece = escape_byte(bytes[i]);
                out.append(piece.as_str());
                assert(bytes@.take(i + 1).drop_last() =~= bytes@.take(i as int));
                i += 1;
            }
            assert(bytes@.take(i as int) =~= bytes@);
            Err(out)
        },
    }
}

} // verus!
