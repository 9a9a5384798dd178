//! Codec registry: named, stateless (de)compression transforms.
//!
//! The codecs themselves are outside libraries; each is reached through
//! one trusted wrapper per direction, whose contract names the decoded
//! meaning of a compressed stream.  Decompression applies the integrity
//! guard to the decompressed output before returning it.

use vstd::prelude::*;
use vstd::string::StringSliceAdditionalSpecFns;
use vstd::string::StringExecFns;
use std::io::Read;
use crate::errors::ExtractError;
use crate::resilience::{guard, spec_guard_clean, IntegrityPolicy};
use crate::text::{bytes_eq, str_bytes_eq};

verus! {

/// Counters a codec run reports.
#[derive(Debug, Clone, PartialEq, Eq, Structural)]
pub struct CodecResult {
    pub bytes_in: u64,
    pub bytes_out: u64,
    pub verified: bool,
}

/// The closed set of codecs the engine registers.
#[derive(Debug, Clone, Copy, PartialEq, Eq, Structural)]
pub enum CodecKind {
    Zstd,
    Lz4,
    Brotli,
}

/// What a Zstandard stream decodes to, if it is valid.
pub uninterp spec fn zstd_inflate(bytes: Seq<u8>) -> Option<Seq<u8>>;

/// What an LZ4 size-prepended block decodes to, if it is valid.
pub uninterp spec fn lz4_inflate(bytes: Seq<u8>) -> Option<Seq<u8>>;

/// What a Brotli stream decodes to, if it is valid.
pub uninterp spec fn brotli_inflate(bytes: Seq<u8>) -> Option<Seq<u8>>;

/// Relies on `zstd::stream::decode_all`: decoding a byte buffer is a
/// function of the bytes alone; it succeeds exactly on valid streams.
#[verifier::external_body]
fn zstd_decompress_raw(payload: &[u8]) -> (r: Result<Vec<u8>, String>)
    ensures
        r is Ok ==> zstd_inflate(payload@) == Some(r->Ok_0@),
        r is Err ==> zstd_inflate(payload@) is None,
{
    zstd::stream::decode_all(payload).map_err(|e| e.to_string())
}

/// Relies on `zstd::stream::encode_all`: the level is clamped to the
/// supported range and the output goes to an in-memory buffer, so
/// encoding cannot fail; compression is lossless, so the output decodes
/// back to the input.
#[verifier::external_body]
fn zstd_compress_raw(data: &[u8], level: i32) -> (r: Vec<u8>)
    ensures
        zstd_inflate(r@) == Some(data@),
{
    zstd::stream::encode_all(data, level).unwrap()
}

/// Relies on `lz4_flex::block::decompress_size_prepended`: decoding is a
/// function of the bytes alone; it succeeds exactly on valid blocks.
#[verifier::external_body]
fn lz4_decompress_raw(payload: &[u8]) -> (r: Result<Vec<u8>, String>)
    ensures
        r is Ok ==> lz4_inflate(payload@) == Some(r->Ok_0@),
        r is Err ==> lz4_inflate(payload@) is None,
{
    lz4_flex::block::decompress_size_prepended(payload).map_err(|e| e.to_string())
}

/// Relies on `lz4_flex::block::compress_prepend_size`: compression is
/// lossless, so the output decodes back to the input.  The block format
/// stores the uncompressed size as a little-endian u32, so inputs must
/// stay below 2^32 bytes; beyond that the prefix would be truncated and
/// the round trip lost.
#[verifier::external_body]
fn lz4_compress_raw(data: &[u8]) -> (r: Vec<u8>)
    requires
        data@.len() < 0x1_0000_0000,
    ensures
        lz4_inflate(r@) == Some(data@),
{
    lz4_flex::block::compress_prepend_size(data)
}

/// Relies on `brotli::Decompressor`: decoding a byte buffer is a function
/// of the bytes alone; it succeeds exactly on valid streams.
#[verifier::external_body]
fn brotli_decompress_raw(payload: &[u8]) -> (r: Result<Vec<u8>, String>)
    ensures
        r is Ok ==> brotli_inflate(payload@) == Some(r->Ok_0@),
        r is Err ==> brotli_inflate(payload@) is None,
{
    let mut reader = brotli::Decompressor::new(payload, 4096);
    let mut out = Vec::new();
    match reader.read_to_end(&mut out) {
        Ok(_) => Ok(out),
        Err(e) => Err(e.to_string()),
    }
}

/// Relies on `brotli::CompressorReader`: quality and window are clamped
/// to the supported range and the source is an in-memory slice, so
/// encoding cannot fail; compression is lossless, so the output decodes
/// back to the input.
#[verifier::external_body]
fn brotli_compress_raw(data: &[u8], level: u32) -> (r: Vec<u8>)
    ensures
        brotli_inflate(r@) == Some(data@),
{
    let mut reader = brotli::CompressorReader::new(data, 4096, level, 22);
    let mut out = Vec::new();
    reader.read_to_end(&mut out).unwrap();
    out
}

/// What a stream decodes to under a given codec.
pub open spec fn codec_inflate(k: CodecKind, bytes: Seq<u8>) -> Option<Seq<u8>> {
    match k {
        CodecKind::Zstd => zstd_inflate(bytes),
        CodecKind::Lz4 => lz4_inflate(bytes),
        CodecKind::Brotli => brotli_inflate(bytes),
    }
}

impl CodecKind {
    /// Canonical codec name.
    pub open spec fn spec_name(self) -> Seq<char> {
        match self {
            CodecKind::Zstd => "zstd"@,
            CodecKind::Lz4 => "lz4"@,
            CodecKind::Brotli => "brotli"@,
        }
    }

    pub fn name(&self) -> (r: &'static str)
        ensures
            r@ == self.spec_name(),
    {
        match self {
            CodecKind::Zstd => "zstd",
            CodecKind::Lz4 => "lz4",
            CodecKind::Brotli => "brotli",
        }
    }

    /// Decompress a payload, then hold the decompressed bytes to the
    /// integrity policy.  Succeeds exactly when the stream is valid and
    /// every configured check passes.
    pub fn decompress(&self, payload: &[u8], integrity: &IntegrityPolicy) -> (r: Result<
        Vec<u8>,
        ExtractError,
    >)
        ensures
            r is Ok <==> (codec_inflate(*self, payload@) is Some && spec_guard_clean(
                codec_inflate(*self, payload@)->0,
                *integrity,
            )),
            r is Ok ==> Some(r->Ok_0@) == codec_inflate(*self, payload@),
            r is Err ==> r->Err_0 matches ExtractError::IntegrityFailure { .. },
    {
        let decoded = match self {
            CodecKind::Zstd => zstd_decompress_raw(payload),
            CodecKind::Lz4 => lz4_decompress_raw(payload),
            CodecKind::Brotli => brotli_decompress_raw(payload),
        };
        match decoded {
            Ok(out) => {
                match guard(out.as_slice(), integrity) {
                    Ok(_) => Ok(out),
                    Err(e) => Err(e),
                }
            },
            Err(details) => Err(ExtractError::IntegrityFailure { details }),
        }
    }

    /// Compress a buffer; absent an explicit level each codec has a fixed
    /// balanced default.  Compression fails only where the format cannot
    /// carry the input: the lz4 block format stores the uncompressed
    /// size in 32 bits.  On success the output decodes back to `data`.
    pub fn compress(&self, data: &[u8], level: Option<u32>) -> (r: Result<Vec<u8>, ExtractError>)
        ensures
            r is Ok ==> codec_inflate(*self, r->Ok_0@) == Some(data@),
            r is Err <==> (self is Lz4 && data@.len() >= 0x1_0000_0000),
            r is Err ==> r->Err_0 matches ExtractError::IntegrityFailure { .. },
    {
        let chosen: u32 = match level {
            Option::Some(v) => v,
            Option::None => 3,
        };
        match self {
            CodecKind::Zstd => Ok(zstd_compress_raw(data, chosen as i32)),
            CodecKind::Lz4 => {
                if (data.len() as u64) < 0x1_0000_0000 {
                    Ok(lz4_compress_raw(data))
                } else {
                    Err(
                        ExtractError::IntegrityFailure {
                            details: String::from_str(
                                "input exceeds the lz4 block format's size limit",
                            ),
                        },
                    )
                }
            },
            CodecKind::Brotli => Ok(brotli_compress_raw(data, chosen)),
        }
    }
}

/// Which codec a name selects, admitting the aliases the engine accepts.
pub open spec fn spec_codec_from_name(name: Seq<u8>) -> Option<CodecKind> {
    if name == "zstd".spec_bytes() || name == "zst".spec_bytes() {
        Some(CodecKind::Zstd)
    } else if name == "lz4".spec_bytes() || name == "lz4hc".spec_bytes() {
        Some(CodecKind::Lz4)
    } else if name == "brotli".spec_bytes() || name == "br".spec_bytes() {
        Some(CodecKind::Brotli)
    } else {
        None
    }
}

/// Byte-level form of the lookup, for callers that derived the name from
/// a format string.
pub fn codec_from_name_bytes(name: &[u8]) -> (r: Option<CodecKind>)
    ensures
        r == spec_codec_from_name(name@),
{
    if bytes_eq(name, "zstd".as_bytes()) || bytes_eq(name, "zst".as_bytes()) {
        Some(CodecKind::Zstd)
    } else if bytes_eq(name, "lz4".as_bytes()) || bytes_eq(name, "lz4hc".as_bytes()) {
        Some(CodecKind::Lz4)
    } else if bytes_eq(name, "brotli".as_bytes()) || bytes_eq(name, "br".as_bytes()) {
        Some(CodecKind::Brotli)
    } else {
        None
    }
}

/// Look a decompressor up by name; unknown names yield no value.
pub fn codec_from_name(name: &str) -> (r: Option<CodecKind>)
    ensures
        r == spec_codec_from_name(name.spec_bytes()),
{
    codec_from_name_bytes(name.as_bytes())
}

/// Look a compressor up by name; the same closed table serves both
/// directions.
pub fn compressor_from_name(name: &str) -> (r: Option<CodecKind>)
    ensures
        r == spec_codec_from_name(name.spec_bytes()),
{
    codec_from_name(name)
}

/// The classic named codec fronts, kept as thin views over `CodecKind`.
#[derive(Debug, Clone, Copy, PartialEq, Eq, Structural)]
pub struct ZstdCodec;

#[derive(Debug, Clone, Copy, PartialEq, Eq, Structural)]
pub struct Lz4Codec;

#[derive(Debug, Clone, Copy, PartialEq, Eq, Structural)]
pub struct BrotliCodec;

impl ZstdCodec {
    pub fn name(&self) -> (r: &'static str)
        ensures
            r@ == "zstd"@,
    {
        "zstd"
    }

    pub fn decompress(&self, payload: &[u8], integrity: &IntegrityPolicy) -> (r: Result<
        Vec<u8>,
        ExtractError,
    >)
        ensures
            r is Ok <==> (zstd_inflate(payload@) is Some && spec_guard_clean(
                zstd_inflate(payload@)->0,
                *integrity,
            )),
            r is Ok ==> Some(r->Ok_0@) == zstd_inflate(payload@),
    {
        CodecKind::Zstd.decompress(payload, integrity)
    }
}

impl Lz4Codec {
    pub fn name(&self) -> (r: &'static str)
        ensures
            r@ == "lz4"@,
    {
        "lz4"
    }

    pub fn decompress(&self, payload: &[u8], integrity: &IntegrityPolicy) -> (r: Result<
        Vec<u8>,
        ExtractError,
    >)
        ensures
            r is Ok <==> (lz4_inflate(payload@) is Some && spec_guard_clean(
                lz4_inflate(payload@)->0,
                *integrity,
            )),
            r is Ok ==> Some(r->Ok_0@) == lz4_inflate(payload@),
    {
        CodecKind::Lz4.decompress(payload, integrity)
    }
}

impl BrotliCodec {
    pub fn name(&self) -> (r: &'static str)
        ensures
            r@ == "brotli"@,
    {
        "brotli"
    }

    pub fn decompress(&self, payload: &[u8], integrity: &IntegrityPolicy) -> (r: Result<
        Vec<u8>,
        ExtractError,
    >)
        ensures
            r is Ok <==> (brotli_inflate(payload@) is Some && spec_guard_clean(
                brotli_inflate(payload@)->0,
                *integrity,
            )),
            r is Ok ==> Some(r->Ok_0@) == brotli_inflate(payload@),
    {
        CodecKind::Brotli.decompress(payload, integrity)
    }
}

/// The compressor fronts.
#[derive(Debug, Clone, Copy, PartialEq, Eq, Structural)]
pub struct ZstdCompressor;

#[derive(Debug, Clone, Copy, PartialEq, Eq, Structural)]
pub struct Lz4Compressor;

#[derive(Debug, Clone, Copy, PartialEq, Eq, Structural)]
pub struct BrotliCompressor;

impl ZstdCompressor {
    pub fn name(&self) -> (r: &'static str)
        ensures
            r@ == "zstd"@,
    {
        "zstd"
    }

    pub fn compress(&self, data: &[u8], level: Option<u32>) -> (r: Result<Vec<u8>, ExtractError>)
        ensures
            r is Ok,
            zstd_inflate(r->Ok_0@) == Some(data@),
    {
        CodecKind::Zstd.compress(data, level)
    }
}

impl Lz4Compressor {
    pub fn name(&self) -> (r: &'static str)
        ensures
            r@ == "lz4"@,
    {
        "lz4"
    }

    pub fn compress(&self, data: &[u8], level: Option<u32>) -> (r: Result<Vec<u8>, ExtractError>)
        ensures
            r is Ok <==> data@.len() < 0x1_0000_0000,
            r is Ok ==> lz4_inflate(r->Ok_0@) == Some(data@),
    {
        CodecKind::Lz4.compress(data, level)
    }
}

impl BrotliCompressor {
    pub fn name(&self) -> (r: &'static str)
        ensures
            r@ == "brotli"@,
    {
        "brotli"
    }

    pub fn compress(&self, data: &[u8], level: Option<u32>) -> (r: Result<Vec<u8>, ExtractError>)
        ensures
            r is Ok,
            brotli_inflate(r->Ok_0@) == Some(data@),
    {
        CodecKind::Brotli.compress(data, level)
    }
}

} // verus!
