//! Windows-1252 text encoding of parameter records, done by `encoding_rs`.
use vstd::prelude::*;
use vstd::string::*;

verus! {

/// The Windows-1252 bytes that `encoding_rs` produces for a text.
pub uninterp spec fn win1252_encoded(s: Seq<char>) -> Seq<u8>;

/// The text that `encoding_rs` decodes from Windows-1252 bytes.
pub uninterp spec fn win1252_decoded(b: Seq<u8>) -> Seq<char>;

/// The character Windows-1252 gives a byte, as `encoding_rs` decodes it: the
/// byte's own code point, except 0x80..0x9F, which take the table below
/// (the five unassigned bytes keep their C1 code points).
pub open spec fn win1252_char(b: u8) -> char {
    if b < 0x80 || b >= 0xA0 {
        b as char
    } else {
        let t: Seq<u32> = seq![
            0x20ACu32, 0x0081u32, 0x201Au32, 0x0192u32, 0x201Eu32, 0x2026u32, 0x2020u32, 0x2021u32,
            0x02C6u32, 0x2030u32, 0x0160u32, 0x2039u32, 0x0152u32, 0x008Du32, 0x017Du32, 0x008Fu32,
            0x0090u32, 0x2018u32, 0x2019u32, 0x201Cu32, 0x201Du32, 0x2022u32, 0x2013u32, 0x2014u32,
            0x02DCu32, 0x2122u32, 0x0161u32, 0x203Au32, 0x0153u32, 0x009Du32, 0x017Eu32, 0x0178u32,
        ];
        t[b - 0x80] as char
    }
}

/// Whether every byte is below 0x80.
pub open spec fn all_ascii_bytes(b: Seq<u8>) -> bool {
    forall|i: int| 0 <= i < b.len() ==> b[i] < 128
}

/// Encodes text as Windows-1252 with `encoding_rs::WINDOWS_1252.encode`.
///
/// Trusted: the result is the encoder's output for the text; for ASCII text
/// the encoder hands the UTF-8 bytes back unchanged (the ASCII fast path of
/// `Encoding::encode`). Characters that Windows-1252 lacks become numeric
/// character references; that mapping is not stated.
#[verifier::external_body]
pub(crate) fn encode_win1252(s: &str) -> (b: Vec<u8>)
    ensures
        b@ == win1252_encoded(s@),
        is_ascii(s) ==> b@ == s.spec_bytes(),
{
    encoding_rs::WINDOWS_1252.encode(s).0.into_owned()
}

/// Decodes Windows-1252 bytes with `encoding_rs::WINDOWS_1252.decode_without_bom_handling`.
///
/// Trusted: the result is the decoder's output for the bytes: one character
/// per byte, by the single-byte table of `encoding_rs` (`windows_1252` in its
/// `data.rs`), which `win1252_char` writes out; when every byte is ASCII that
/// is the character with the same code.
#[verifier::external_body]
pub(crate) fn decode_win1252(b: &[u8]) -> (s: String)
    ensures
        s@ == win1252_decoded(b@),
        s@ == b@.map_values(|x: u8| win1252_char(x)),
        all_ascii_bytes(b@) ==> s@ == b@.map_values(|x: u8| x as char),
{
    encoding_rs::WINDOWS_1252.decode_without_bom_handling(b).0.into_owned()
}

} // verus!
