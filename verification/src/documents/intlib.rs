//! Decompression of the streams embedded in an integrated library.
//!
//! Every compressed stream of an IntLib starts with one prefix byte (0x02)
//! followed by standard zlib data, inflated here by `flate2`.
use vstd::prelude::*;
use vstd::string::*;
use crate::encoding::decode_win1252;
use crate::error::{text, text2, AltiumError, Result};

verus! {

/// What `flate2::read::ZlibDecoder` reads to the end from a byte slice: `Ok` of
/// the inflated bytes, or `Err` of the text of the error it reports.
pub uninterp spec fn zlib_read(b: Seq<u8>) -> core::result::Result<Seq<u8>, Seq<char>>;

/// Inflates zlib data with `flate2::read::ZlibDecoder` and `Read::read_to_end`.
///
/// Trusted: the result, or the displayed text of the reported error, is what
/// the decoder reads from these bytes; the decoder reads from a slice, so no
/// I/O error other than one about the data can arise. What it reads is not
/// stated (deflate is not written out here).
#[verifier::external_body]
pub(crate) fn zlib_read_to_end(data: &[u8]) -> (r: core::result::Result<Vec<u8>, String>)
    ensures
        match r {
            Ok(v) => zlib_read(data@) == Ok::<Seq<u8>, Seq<char>>(v@),
            Err(m) => zlib_read(data@) == Err::<Seq<u8>, Seq<char>>(m@),
        },
{
    let mut decoder = flate2::read::ZlibDecoder::new(data);
    let mut out = Vec::new();
    match std::io::Read::read_to_end(&mut decoder, &mut out) {
        Ok(_) => Ok(out),
        Err(e) => Err(format!("{e}")),
    }
}

/// The ASCII code of a lower-case hexadecimal digit.
pub open spec fn hex_digit(n: int) -> u8 {
    if n < 10 {
        (48 + n) as u8
    } else {
        (87 + n) as u8
    }
}

/// The two lower-case hexadecimal digits of a byte.
pub open spec fn hex_byte_text(b: u8) -> Seq<char> {
    seq![hex_digit((b / 16) as int) as char, hex_digit((b % 16) as int) as char]
}

/// The two lower-case hexadecimal digits of a byte.
pub fn hex_byte(b: u8) -> (r: String)
    ensures
        r@ == hex_byte_text(b),
{
    let hi: u8 = b / 16;
    let lo: u8 = b % 16;
    let h: u8 = if hi < 10 { 48 + hi } else { 87 + hi };
    let l: u8 = if lo < 10 { 48 + lo } else { 87 + lo };
    let digits: Vec<u8> = vec![h, l];
    let r = decode_win1252(digits.as_slice());
    assert(r@ =~= hex_byte_text(b));
    r
}

/// The library's value for a zlib read: the bytes, or a decompression error
/// that carries the decoder's message.
pub fn inflated_or_error(read: core::result::Result<Vec<u8>, String>) -> (r: Result<Vec<u8>>)
    ensures
        match read {
            Ok(v) => r matches Ok(w) && w@ == v@,
            Err(m) => r matches Err(AltiumError::Decompression(t)) && t@
                == "zlib decompression failed: "@ + m@,
        },
{
    match read {
        Ok(v) => Ok(v),
        Err(m) => Err(AltiumError::Decompression(text2("zlib decompression failed: ", m.as_str()))),
    }
}

/// Decompresses a stream embedded in an IntLib: a 0x02 prefix byte, then
/// zlib data.
pub fn intlib_decompress(data: &[u8]) -> (r: Result<Vec<u8>>)
    ensures
        data@.len() == 0 ==> (r matches Err(AltiumError::Decompression(m)) && m@
            == "empty IntLib stream"@),
        data@.len() > 0 && data@[0] != 2 ==> (r matches Err(AltiumError::Decompression(m)) && m@
            == "expected 0x02 prefix byte, got 0x"@ + hex_byte_text(data@[0])),
        data@.len() > 0 && data@[0] == 2 ==> match zlib_read(data@.skip(1)) {
            Ok(v) => r matches Ok(w) && w@ == v,
            Err(e) => r matches Err(AltiumError::Decompression(m)) && m@
                == "zlib decompression failed: "@ + e,
        },
{
    if data.len() == 0 {
        return Err(AltiumError::Decompression(text("empty IntLib stream")));
    }
    let prefix = data[0];
    if prefix != 2 {
        let digits = hex_byte(prefix);
        return Err(
            AltiumError::Decompression(text2("expected 0x02 prefix byte, got 0x", digits.as_str())),
        );
    }
    let body = vstd::slice::slice_subrange(data, 1, data.len());
    assert(body@ =~= data@.skip(1));
    inflated_or_error(zlib_read_to_end(body))
}

/// What an IntLib stream inflates to: `None` unless it starts with the
/// 0x02 prefix and the zlib data after it reads.
pub open spec fn intlib_inflated(d: Seq<u8>) -> Option<Seq<u8>> {
    if d.len() > 0 && d[0] == 2 {
        match zlib_read(d.skip(1)) {
            Ok(v) => Some(v),
            Err(_) => None,
        }
    } else {
        None
    }
}

/// An integrated library: the inflated bytes of its embedded schematic
/// symbol libraries and PCB footprint libraries (each a compound file).
pub struct IntLib {
    schlibs: Vec<Vec<u8>>,
    pcblibs: Vec<Vec<u8>>,
}

/// The bytes of a list of byte buffers.
pub open spec fn buffers_view(v: Seq<Vec<u8>>) -> Seq<Seq<u8>> {
    v.map_values(|b: Vec<u8>| b@)
}

impl IntLib {
    /// The embedded SchLib files, inflated.
    pub closed spec fn spec_schlibs(&self) -> Seq<Seq<u8>> {
        buffers_view(self.schlibs@)
    }

    /// The embedded PcbLib files, inflated.
    pub closed spec fn spec_pcblibs(&self) -> Seq<Seq<u8>> {
        buffers_view(self.pcblibs@)
    }

    /// An integrated library of the given embedded libraries.
    pub(crate) fn from_parts(schlibs: Vec<Vec<u8>>, pcblibs: Vec<Vec<u8>>) -> (r: IntLib)
        ensures
            r.spec_schlibs() == buffers_view(schlibs@),
            r.spec_pcblibs() == buffers_view(pcblibs@),
    {
        IntLib { schlibs, pcblibs }
    }

    /// The embedded schematic symbol libraries.
    pub fn schlibs(&self) -> (r: &[Vec<u8>])
        ensures
            buffers_view(r@) == self.spec_schlibs(),
    {
        self.schlibs.as_slice()
    }

    /// The embedded PCB footprint libraries.
    pub fn pcblibs(&self) -> (r: &[Vec<u8>])
        ensures
            buffers_view(r@) == self.spec_pcblibs(),
    {
        self.pcblibs.as_slice()
    }
}

} // verus!
