//! The bytes of a table file: which of the four kinds of file they are, how
//! they are decompressed into the text of a table or into its serialized
//! form, and how a serialized table is stored.

use crate::error::{ReadFailure, SpecFailure};
use crate::format::{spec_from_magic, spec_smallnlo_magic, FileFormat};
use crate::reader::{separator, spec_read_str};
use crate::roundtrip::{as_read, file_ok, lemma_read_written};
use crate::table::{FastNLOFile, SpecFile};
use crate::writer::{file_writable, ser_file};
use crate::text::join_lines;
use vstd::prelude::*;
use vstd::utf8::{
    decode_utf8, encode_utf8, encode_utf8_decode_utf8, encode_utf8_valid_utf8, is_ascii_chars,
    is_ascii_chars_encode_utf8, valid_utf8,
};

verus! {

// ---------------------------------------------------------------------------
// Compression
// ---------------------------------------------------------------------------

/// What a gzip decoder yields from `data`: the decompressed bytes of its
/// gzip stream, or `None` where the decoder reports an error.
pub uninterp spec fn gunzip(data: Seq<u8>) -> Option<Seq<u8>>;

/// What gzip compression at the default level makes of `data`, or `None`
/// where the encoder reports an error.
pub uninterp spec fn gzip_encoded(data: Seq<u8>) -> Option<Seq<u8>>;

/// What zstd decompression yields from `data`, or `None` where it reports an
/// error.
pub uninterp spec fn zstd_decoded(data: Seq<u8>) -> Option<Seq<u8>>;

/// What zstd compression at `level` makes of `data`, or `None` where it
/// reports an error.
pub uninterp spec fn zstd_encoded(data: Seq<u8>, level: i32) -> Option<Seq<u8>>;

/// Decompresses a gzip stream by reading a `flate2::bufread::GzDecoder`
/// over `data` to its end. Its contract claims only that the result is the
/// one named by `gunzip` for these bytes.
#[verifier::external_body]
fn gunzip_bytes(data: &[u8]) -> (r: Option<Vec<u8>>)
    ensures
        r.deep_view() == gunzip(data@),
{
    let mut out = Vec::new();
    match std::io::Read::read_to_end(&mut flate2::bufread::GzDecoder::new(data), &mut out) {
        Ok(_) => Some(out),
        Err(_) => None,
    }
}

/// Compresses `data` with a `flate2::write::GzEncoder` at the default level
/// into a vector. Its contract claims that the result is the one named by
/// `gzip_encoded` for these bytes, that it begins with the ten-byte gzip
/// header whose first two bytes are 0x1f 0x8b, and that a gzip decoder gives
/// `data` back from it.
#[verifier::external_body]
fn gzip_bytes(data: &[u8]) -> (r: Option<Vec<u8>>)
    ensures
        r.deep_view() == gzip_encoded(data@),
        r matches Some(v) ==> v@.len() >= 10 && v@[0] == 0x1f && v@[1] == 0x8b,
        r matches Some(v) ==> gunzip(v@) == Some(data@),
{
    let mut enc = flate2::write::GzEncoder::new(Vec::new(), flate2::Compression::default());
    match std::io::Write::write_all(&mut enc, data) {
        Ok(()) => enc.finish().ok(),
        Err(_) => None,
    }
}

/// Decompresses a zstd frame with `zstd::decode_all`. Its contract claims
/// only that the result is the one named by `zstd_decoded` for these bytes.
#[verifier::external_body]
fn zstd_decode_bytes(data: &[u8]) -> (r: Option<Vec<u8>>)
    ensures
        r.deep_view() == zstd_decoded(data@),
{
    zstd::decode_all(data).ok()
}

/// Compresses `data` with `zstd::encode_all` at `level`. Its contract claims
/// that the result is the one named by `zstd_encoded` for these bytes and
/// this level, that it is one zstd frame and so begins with the frame's
/// magic number 0x28 0xb5 0x2f 0xfd, and that zstd decompression gives
/// `data` back from it.
#[verifier::external_body]
fn zstd_encode_bytes(data: &[u8], level: i32) -> (r: Option<Vec<u8>>)
    ensures
        r.deep_view() == zstd_encoded(data@, level),
        r matches Some(v) ==> v@.len() >= 4 && v@[0] == 0x28 && v@[1] == 0xb5 && v@[2] == 0x2f
            && v@[3] == 0xfd,
        r matches Some(v) ==> zstd_decoded(v@) == Some(data@),
{
    zstd::encode_all(data, level).ok()
}

/// Reads bytes as UTF-8 text with `std::str::from_utf8`, which accepts
/// exactly the valid UTF-8 sequences and gives the characters they encode.
#[verifier::external_body]
fn utf8_str<'a>(data: &'a [u8]) -> (r: Option<&'a str>)
    ensures
        r is Some <==> valid_utf8(data@),
        r matches Some(s) ==> s@ == decode_utf8(data@),
{
    std::str::from_utf8(data).ok()
}

// ---------------------------------------------------------------------------
// Reading a table file
// ---------------------------------------------------------------------------

/// What the bytes of a table file hold once decompressed: a table read from
/// its text, or the serialized form of a table, which the caller
/// deserializes.
#[derive(Debug)]
pub enum Payload {
    Table(FastNLOFile),
    Serialized(Vec<u8>),
}

/// The mathematical form of a [`Payload`].
pub enum SpecPayload {
    Table(SpecFile),
    Serialized(Seq<u8>),
}

/// Why the bytes of a file give no table.
#[derive(Debug)]
pub enum LoadFailure {
    /// The first four bytes are none of the known kinds of file.
    UnknownFormat,
    /// The compressed stream could not be decompressed.
    Decompression,
    /// The text of a table is not valid UTF-8.
    NotText,
    /// The text is no table.
    Read(ReadFailure),
}

/// The mathematical form of a [`LoadFailure`].
pub enum SpecLoadFailure {
    UnknownFormat,
    Decompression,
    NotText,
    Read(SpecFailure),
}

pub open spec fn payload_view(r: Result<Payload, LoadFailure>) -> Result<SpecPayload, SpecLoadFailure> {
    match r {
        Ok(Payload::Table(t)) => Ok(SpecPayload::Table(t.deep_view())),
        Ok(Payload::Serialized(v)) => Ok(SpecPayload::Serialized(v@)),
        Err(LoadFailure::UnknownFormat) => Err(SpecLoadFailure::UnknownFormat),
        Err(LoadFailure::Decompression) => Err(SpecLoadFailure::Decompression),
        Err(LoadFailure::NotText) => Err(SpecLoadFailure::NotText),
        Err(LoadFailure::Read(f)) => Err(SpecLoadFailure::Read(f@)),
    }
}

/// The table in the text that `bytes` encode.
#[verifier::opaque]
pub open spec fn spec_text_payload(bytes: Seq<u8>) -> Result<SpecPayload, SpecLoadFailure> {
    if !valid_utf8(bytes) {
        Err(SpecLoadFailure::NotText)
    } else {
        match spec_read_str(decode_utf8(bytes)) {
            Ok(t) => Ok(SpecPayload::Table(t)),
            Err(f) => Err(SpecLoadFailure::Read(f)),
        }
    }
}

/// What a table file holds: the first four bytes tell gzip-compressed text,
/// text, a zstd-compressed serialized table, or a serialized table after the
/// four magic bytes.
pub open spec fn spec_payload(bytes: Seq<u8>) -> Result<SpecPayload, SpecLoadFailure> {
    if bytes.len() < 4 {
        Err(SpecLoadFailure::UnknownFormat)
    } else {
        match spec_from_magic(bytes.take(4)) {
            None => Err(SpecLoadFailure::UnknownFormat),
            Some(FileFormat::CompressedFastNLO) => match gunzip(bytes) {
                None => Err(SpecLoadFailure::Decompression),
                Some(text) => spec_text_payload(text),
            },
            Some(FileFormat::FastNLO) => spec_text_payload(bytes),
            Some(FileFormat::CompressedSmallNLO) => match zstd_decoded(bytes) {
                None => Err(SpecLoadFailure::Decompression),
                Some(raw) => Ok(SpecPayload::Serialized(raw)),
            },
            Some(FileFormat::SmallNLO) => Ok(SpecPayload::Serialized(bytes.skip(4))),
        }
    }
}

/// Reads the table in the text that `bytes` encode.
pub fn text_payload(bytes: &[u8]) -> (r: Result<Payload, LoadFailure>)
    ensures
        payload_view(r) == spec_text_payload(bytes@),
{
    reveal(spec_text_payload);
    match utf8_str(bytes) {
        None => Err(LoadFailure::NotText),
        Some(text) => match FastNLOFile::try_read_str(text) {
            Ok(t) => Ok(Payload::Table(t)),
            Err(f) => Err(LoadFailure::Read(f)),
        },
    }
}

/// The bytes of `bytes` from position `start` on.
fn bytes_from(bytes: &[u8], start: usize) -> (r: Vec<u8>)
    requires
        start <= bytes@.len(),
    ensures
        r@ == bytes@.skip(start as int),
{
    let mut v: Vec<u8> = Vec::new();
    let mut i = start;
    while i < bytes.len()
        invariant
            start <= i <= bytes@.len(),
            v@ == bytes@.subrange(start as int, i as int),
        decreases bytes@.len() - i,
    {
        v.push(bytes[i]);
        i = i + 1;
    }
    assert(v@ =~= bytes@.skip(start as int));
    v
}

/// What the bytes of a table file hold, by the kind of file that their first
/// four bytes tell.
pub fn table_payload(bytes: &[u8]) -> (r: Result<Payload, LoadFailure>)
    ensures
        payload_view(r) == spec_payload(bytes@),
{
    if bytes.len() < 4 {
        return Err(LoadFailure::UnknownFormat);
    }
    let head: [u8; 4] = [bytes[0], bytes[1], bytes[2], bytes[3]];
    proof {
        assert(head@ =~= bytes@.take(4));
    }
    match FileFormat::from_magic(head) {
        None => Err(LoadFailure::UnknownFormat),
        Some(FileFormat::CompressedFastNLO) => match gunzip_bytes(bytes) {
            None => Err(LoadFailure::Decompression),
            Some(text) => {
                let r = text_payload(text.as_slice());
                assert(gunzip(bytes@) == Some(text@));
                assert(payload_view(r) == spec_text_payload(text@));
                r
            },
        },
        Some(FileFormat::FastNLO) => text_payload(bytes),
        Some(FileFormat::CompressedSmallNLO) => match zstd_decode_bytes(bytes) {
            None => Err(LoadFailure::Decompression),
            Some(raw) => {
                assert(zstd_decoded(bytes@) == Some(raw@));
                Ok(Payload::Serialized(raw))
            },
        },
        Some(FileFormat::SmallNLO) => Ok(Payload::Serialized(bytes_from(bytes, 4))),
    }
}

// ---------------------------------------------------------------------------
// Writing a table file
// ---------------------------------------------------------------------------

/// The bytes of a binary table file holding the serialized table
/// `serialized`: compressed with zstd at `level`, or after the four magic
/// bytes.
pub open spec fn spec_stored_bytes(serialized: Seq<u8>, compress: bool, level: i32) -> Option<Seq<u8>> {
    if compress {
        zstd_encoded(serialized, level)
    } else {
        Some(spec_smallnlo_magic() + serialized)
    }
}

/// The bytes of a binary table file holding the serialized table
/// `serialized`; `None` where compression fails.
///
/// Reading the stored bytes back gives the serialized table again.
pub fn stored_bytes(serialized: &[u8], compress: bool, level: i32) -> (r: Option<Vec<u8>>)
    ensures
        r.deep_view() == spec_stored_bytes(serialized@, compress, level),
        r matches Some(b) ==> spec_payload(b@) == Ok::<SpecPayload, SpecLoadFailure>(
            SpecPayload::Serialized(serialized@),
        ),
{
    if compress {
        let r = zstd_encode_bytes(serialized, level);
        proof {
            if let Some(ref b) = r {
                assert(b@.take(4)[0] == 0x28 && b@.take(4)[1] == 0xb5 && b@.take(4)[2] == 0x2f && b@.take(4)[3] == 0xfd);
                assert(spec_from_magic(b@.take(4)) == Some(FileFormat::CompressedSmallNLO));
            }
        }
        r
    } else {
        let magic = FileFormat::smallnlo_magic();
        let mut out: Vec<u8> = Vec::new();
        out.push(magic[0]);
        out.push(magic[1]);
        out.push(magic[2]);
        out.push(magic[3]);
        let mut i: usize = 0;
        while i < serialized.len()
            invariant
                i <= serialized@.len(),
                out@ == spec_smallnlo_magic() + serialized@.take(i as int),
            decreases serialized@.len() - i,
        {
            out.push(serialized[i]);
            i = i + 1;
            proof {
                assert(out@ =~= spec_smallnlo_magic() + serialized@.take(i as int));
            }
        }
        proof {
            assert(serialized@.take(i as int) =~= serialized@);
            assert(out@.take(4) =~= spec_smallnlo_magic());
            assert(out@.skip(4) =~= serialized@);
        }
        Some(out)
    }
}

/// The text of a table as UTF-8 bytes.
pub open spec fn spec_text_bytes(t: SpecFile) -> Seq<u8> {
    encode_utf8(join_lines(ser_file(t)))
}

proof fn lemma_encode_utf8_concat(a: Seq<char>, b: Seq<char>)
    ensures
        encode_utf8(a + b) == encode_utf8(a) + encode_utf8(b),
    decreases a.len(),
{
    if a.len() == 0 {
        assert(a + b =~= b);
        assert(encode_utf8(a) =~= Seq::<u8>::empty());
        assert(encode_utf8(a) + encode_utf8(b) =~= encode_utf8(b));
    } else {
        assert((a + b).drop_first() =~= a.drop_first() + b);
        assert((a + b)[0] == a[0]);
        lemma_encode_utf8_concat(a.drop_first(), b);
        assert(encode_utf8(a + b) =~= encode_utf8(a) + encode_utf8(b));
    }
}

/// The text of a table begins with the bytes of the digits 1 to 4, the
/// start of its separator line.
proof fn lemma_text_bytes_start(t: SpecFile)
    ensures
        spec_text_bytes(t).len() >= 4,
        spec_text_bytes(t)[0] == 0x31,
        spec_text_bytes(t)[1] == 0x32,
        spec_text_bytes(t)[2] == 0x33,
        spec_text_bytes(t)[3] == 0x34,
{
    reveal(ser_file);
    let ls = ser_file(t);
    assert(ls[0] == separator());
    let rest = seq!['\n'] + join_lines(ls.drop_first());
    assert(join_lines(ls) =~= separator() + rest);
    lemma_encode_utf8_concat(separator(), rest);
    let sep = separator();
    assert(is_ascii_chars(sep)) by {
        assert forall|i: int| 0 <= i < sep.len() implies '\0' <= #[trigger] sep[i] <= '\u{7f}' by {
            assert('0' <= sep[i] <= '9');
        }
    }
    is_ascii_chars_encode_utf8(sep);
    assert(sep[0] == '1' && sep[1] == '2' && sep[2] == '3' && sep[3] == '4');
    assert(encode_utf8(sep)[0] == sep[0] as u8);
    assert(encode_utf8(sep)[1] == sep[1] as u8);
    assert(encode_utf8(sep)[2] == sep[2] as u8);
    assert(encode_utf8(sep)[3] == sep[3] as u8);
}

/// The UTF-8 bytes of a written table read back as the table, without
/// user blocks.
proof fn lemma_text_payload_written(t: SpecFile)
    requires
        file_ok(t),
    ensures
        spec_text_payload(spec_text_bytes(t)) == Ok::<SpecPayload, SpecLoadFailure>(
            SpecPayload::Table(as_read(t)),
        ),
{
    reveal(spec_text_payload);
    let text = join_lines(ser_file(t));
    encode_utf8_valid_utf8(text);
    encode_utf8_decode_utf8(text);
    lemma_read_written(t);
}

/// The bytes of a text file holding `table`.
///
/// Reading them back gives the table, without user blocks.
pub fn text_bytes(table: &FastNLOFile) -> (r: Vec<u8>)
    requires
        file_writable(table.deep_view()),
    ensures
        r@ == spec_text_bytes(table.deep_view()),
        file_ok(table.deep_view()) ==> spec_payload(r@) == Ok::<SpecPayload, SpecLoadFailure>(
            SpecPayload::Table(as_read(table.deep_view())),
        ),
{
    let mut text = String::new();
    let _ = table.write(&mut text);
    proof {
        assert(text@ =~= join_lines(ser_file(table.deep_view())));
    }
    let r = bytes_from(text.as_str().as_bytes(), 0);
    proof {
        let t = table.deep_view();
        assert(r@ =~= spec_text_bytes(t));
        lemma_text_bytes_start(t);
        assert(r@.take(4)[0] == 0x31 && r@.take(4)[1] == 0x32 && r@.take(4)[2] == 0x33 && r@.take(4)[3] == 0x34);
        assert(spec_from_magic(r@.take(4)) == Some(FileFormat::FastNLO));
        if file_ok(t) {
            lemma_text_payload_written(t);
        }
    }
    r
}

/// The bytes of a gzip-compressed text file holding `table`; `None` where
/// compression fails.
///
/// Reading them back gives the table, without user blocks.
pub fn compressed_text(table: &FastNLOFile) -> (r: Option<Vec<u8>>)
    requires
        file_writable(table.deep_view()),
    ensures
        r.deep_view() == gzip_encoded(spec_text_bytes(table.deep_view())),
        r matches Some(b) ==> (file_ok(table.deep_view()) ==> spec_payload(b@) == Ok::<SpecPayload, SpecLoadFailure>(
            SpecPayload::Table(as_read(table.deep_view())),
        )),
{
    let mut text = String::new();
    let _ = table.write(&mut text);
    proof {
        assert(text@ =~= join_lines(ser_file(table.deep_view())));
    }
    let r = gzip_bytes(text.as_str().as_bytes());
    proof {
        let t = table.deep_view();
        if let Some(ref b) = r {
            assert(b@.take(4)[0] == 0x1f && b@.take(4)[1] == 0x8b);
            assert(spec_from_magic(b@.take(4)) == Some(FileFormat::CompressedFastNLO));
            if file_ok(t) {
                lemma_text_payload_written(t);
            }
        }
    }
    r
}

} // verus!
