//! Format sniffing: magic-byte classification with extension fallback.
//!
//! Opening the file and reading its prefix is the caller's business; the
//! classification itself is pure and is specified exactly by the spec
//! functions below.

use vstd::prelude::*;
use crate::text::{bytes_eq, ends_with_bytes, is_suffix_of};
use vstd::string::StringSliceAdditionalSpecFns;

verus! {

/// The closed set of container/codec combinations the engine can name.
#[derive(Debug, Clone, Copy, PartialEq, Eq, Structural)]
pub enum DetectedFormat {
    TarZstd,
    TarLz4,
    TarBrotli,
    TarGzip,
    TarPlain,
    Zip,
    SevenZip,
    Rar,
    Unknown,
}

impl DetectedFormat {
    /// Canonical name of each format.
    pub open spec fn spec_name(self) -> Seq<char> {
        match self {
            DetectedFormat::TarZstd => "tar.zst"@,
            DetectedFormat::TarLz4 => "tar.lz4"@,
            DetectedFormat::TarBrotli => "tar.br"@,
            DetectedFormat::TarGzip => "tar.gz"@,
            DetectedFormat::TarPlain => "tar"@,
            DetectedFormat::Zip => "zip"@,
            DetectedFormat::SevenZip => "7z"@,
            DetectedFormat::Rar => "rar"@,
            DetectedFormat::Unknown => "unknown"@,
        }
    }

    /// Canonical file extension of each format.
    pub open spec fn spec_extension(self) -> Seq<char> {
        match self {
            DetectedFormat::TarZstd => ".tar.zst"@,
            DetectedFormat::TarLz4 => ".tar.lz4"@,
            DetectedFormat::TarBrotli => ".tar.br"@,
            DetectedFormat::TarGzip => ".tar.gz"@,
            DetectedFormat::TarPlain => ".tar"@,
            DetectedFormat::Zip => ".zip"@,
            DetectedFormat::SevenZip => ".7z"@,
            DetectedFormat::Rar => ".rar"@,
            DetectedFormat::Unknown => ""@,
        }
    }

    pub fn as_str(&self) -> (r: &'static str)
        ensures
            r@ == self.spec_name(),
    {
        match self {
            DetectedFormat::TarZstd => "tar.zst",
            DetectedFormat::TarLz4 => "tar.lz4",
            DetectedFormat::TarBrotli => "tar.br",
            DetectedFormat::TarGzip => "tar.gz",
            DetectedFormat::TarPlain => "tar",
            DetectedFormat::Zip => "zip",
            DetectedFormat::SevenZip => "7z",
            DetectedFormat::Rar => "rar",
            DetectedFormat::Unknown => "unknown",
        }
    }

    pub fn extension(&self) -> (r: &'static str)
        ensures
            r@ == self.spec_extension(),
    {
        match self {
            DetectedFormat::TarZstd => ".tar.zst",
            DetectedFormat::TarLz4 => ".tar.lz4",
            DetectedFormat::TarBrotli => ".tar.br",
            DetectedFormat::TarGzip => ".tar.gz",
            DetectedFormat::TarPlain => ".tar",
            DetectedFormat::Zip => ".zip",
            DetectedFormat::SevenZip => ".7z",
            DetectedFormat::Rar => ".rar",
            DetectedFormat::Unknown => "",
        }
    }
}

/// Zip local-file-header or empty-archive signature.
pub open spec fn spec_zip_magic(b: Seq<u8>) -> bool {
    b.len() >= 4 && b[0] == 0x50 && b[1] == 0x4b && ((b[2] == 0x03 && b[3] == 0x04) || (b[2]
        == 0x05 && b[3] == 0x06))
}

/// 7-Zip signature.
pub open spec fn spec_7z_magic(b: Seq<u8>) -> bool {
    b.len() >= 6 && b[0] == 0x37 && b[1] == 0x7a && b[2] == 0xbc && b[3] == 0xaf && b[4] == 0x27
        && b[5] == 0x1c
}

/// RAR signature (common prefix of the v4 and v5 markers).
pub open spec fn spec_rar_magic(b: Seq<u8>) -> bool {
    b.len() >= 6 && b[0] == 0x52 && b[1] == 0x61 && b[2] == 0x72 && b[3] == 0x21 && b[4] == 0x1a
        && b[5] == 0x07
}

/// Zstandard frame signature.
pub open spec fn spec_zstd_magic(b: Seq<u8>) -> bool {
    b.len() >= 4 && b[0] == 0x28 && b[1] == 0xb5 && b[2] == 0x2f && b[3] == 0xfd
}

/// LZ4 signature as this engine recognises it.
pub open spec fn spec_lz4_magic(b: Seq<u8>) -> bool {
    b.len() >= 4 && b[0] == 0x18 && b[1] == 0x4d && b[2] == 0x22 && b[3] == 0x04
}

/// Brotli has no fixed magic; this is a best-effort header-bit heuristic.
pub open spec fn spec_brotli_heuristic(b: Seq<u8>) -> bool {
    b.len() >= 2 && (b[0] & 0xe0) == 0 && (b[1] & 0x03) != 0x03
}

/// Gzip signature.
pub open spec fn spec_gzip_magic(b: Seq<u8>) -> bool {
    b.len() >= 2 && b[0] == 0x1f && b[1] == 0x8b
}

/// A plausible tar header block: a null terminator somewhere in the name
/// field, a checksum field of nulls, digits and spaces, and a magic field
/// that is either the tar magic or all nulls.
pub open spec fn spec_valid_tar_header(b: Seq<u8>) -> bool {
    &&& b.len() >= 512
    &&& exists|i: int| 0 <= i < 100 && b[i] == 0
    &&& forall|i: int| 148 <= i < 155 ==> (b[i] == 0 || (48 <= b[i] <= 57) || b[i] == 32)
    &&& {
        ||| (b[257] == 0x75 && b[258] == 0x73 && b[259] == 0x74 && b[260] == 0x61 && b[261]
            == 0x72 && b[262] == 0)
        ||| forall|i: int| 257 <= i < 263 ==> b[i] == 0
    }
}

/// What the magic-byte sniffer concludes from a file prefix, in priority
/// order.
pub open spec fn spec_sniff_magic(b: Seq<u8>) -> DetectedFormat {
    if b.len() == 0 {
        DetectedFormat::Unknown
    } else if spec_zip_magic(b) {
        DetectedFormat::Zip
    } else if spec_7z_magic(b) {
        DetectedFormat::SevenZip
    } else if spec_rar_magic(b) {
        DetectedFormat::Rar
    } else if spec_zstd_magic(b) {
        DetectedFormat::TarZstd
    } else if spec_lz4_magic(b) {
        DetectedFormat::TarLz4
    } else if spec_brotli_heuristic(b) {
        DetectedFormat::TarBrotli
    } else if spec_gzip_magic(b) {
        DetectedFormat::TarGzip
    } else if spec_valid_tar_header(b) {
        DetectedFormat::TarPlain
    } else {
        DetectedFormat::Unknown
    }
}

fn validate_tar_header(buffer: &[u8]) -> (r: bool)
    ensures
        r == spec_valid_tar_header(buffer@),
{
    if buffer.len() < 512 {
        return false;
    }
    let mut has_null = false;
    let mut i: usize = 0;
    while i < 100
        invariant
            buffer@.len() >= 512,
            i <= 100,
            has_null == exists|k: int| 0 <= k < i && buffer@[k] == 0,
        decreases 100 - i,
    {
        if buffer[i] == 0 {
            has_null = true;
        }
        i += 1;
    }
    if !has_null {
        return false;
    }
    // the checksum field and the magic field must both be plausible
    let mut checksum_valid = true;
    let mut j: usize = 148;
    while j < 155
        invariant
            buffer@.len() >= 512,
            148 <= j <= 155,
            checksum_valid == forall|k: int|
                148 <= k < j ==> (buffer@[k] == 0 || (48 <= buffer@[k] <= 57) || buffer@[k] == 32),
        decreases 155 - j,
    {
        let b = buffer[j];
        if !(b == 0 || (48 <= b && b <= 57) || b == 32) {
            checksum_valid = false;
        }
        j += 1;
    }
    let ustar_magic = buffer[257] == 0x75 && buffer[258] == 0x73 && buffer[259] == 0x74
        && buffer[260] == 0x61 && buffer[261] == 0x72 && buffer[262] == 0;
    let mut all_null = true;
    let mut k: usize = 257;
    while k < 263
        invariant
            buffer@.len() >= 512,
            257 <= k <= 263,
            all_null == forall|t: int| 257 <= t < k ==> buffer@[t] == 0,
        decreases 263 - k,
    {
        if buffer[k] != 0 {
            all_null = false;
        }
        k += 1;
    }
    checksum_valid && (ustar_magic || all_null)
}

/// Classify a file prefix by its magic bytes alone.
pub fn detect_from_magic_bytes(buffer: &[u8]) -> (r: DetectedFormat)
    ensures
        r == spec_sniff_magic(buffer@),
{
    let n = buffer.len();
    if n == 0 {
        return DetectedFormat::Unknown;
    }
    if n >= 4 && buffer[0] == 0x50 && buffer[1] == 0x4b && ((buffer[2] == 0x03 && buffer[3] == 0x04)
        || (buffer[2] == 0x05 && buffer[3] == 0x06)) {
        return DetectedFormat::Zip;
    }
    if n >= 6 && buffer[0] == 0x37 && buffer[1] == 0x7a && buffer[2] == 0xbc && buffer[3] == 0xaf
        && buffer[4] == 0x27 && buffer[5] == 0x1c {
        return DetectedFormat::SevenZip;
    }
    if n >= 6 && buffer[0] == 0x52 && buffer[1] == 0x61 && buffer[2] == 0x72 && buffer[3] == 0x21
        && buffer[4] == 0x1a && buffer[5] == 0x07 {
        return DetectedFormat::Rar;
    }
    if n >= 4 && buffer[0] == 0x28 && buffer[1] == 0xb5 && buffer[2] == 0x2f && buffer[3] == 0xfd {
        return DetectedFormat::TarZstd;
    }
    if n >= 4 && buffer[0] == 0x18 && buffer[1] == 0x4d && buffer[2] == 0x22 && buffer[3] == 0x04 {
        return DetectedFormat::TarLz4;
    }
    if n >= 2 && (buffer[0] & 0xe0) == 0 && (buffer[1] & 0x03) != 0x03 {
        return DetectedFormat::TarBrotli;
    }
    if n >= 2 && buffer[0] == 0x1f && buffer[1] == 0x8b {
        return DetectedFormat::TarGzip;
    }
    if n >= 512 && validate_tar_header(buffer) {
        return DetectedFormat::TarPlain;
    }
    DetectedFormat::Unknown
}

/// What the extension fallback concludes from a file name: compound
/// `.tar.*` suffixes first, then the lowercased final extension.
pub open spec fn spec_detect_extension(name: Seq<u8>) -> DetectedFormat {
    if is_suffix_of(".tar.zst".spec_bytes(), name) {
        DetectedFormat::TarZstd
    } else if is_suffix_of(".tar.lz4".spec_bytes(), name) {
        DetectedFormat::TarLz4
    } else if is_suffix_of(".tar.br".spec_bytes(), name) {
        DetectedFormat::TarBrotli
    } else if is_suffix_of(".tar.gz".spec_bytes(), name) || is_suffix_of(
        ".tgz".spec_bytes(),
        name,
    ) {
        DetectedFormat::TarGzip
    } else if is_suffix_of(".tar".spec_bytes(), name) {
        DetectedFormat::TarPlain
    } else {
        spec_detect_single_extension(spec_lower_bytes(spec_extension_of(name)))
    }
}

/// ASCII lowercasing, applied bytewise.
pub open spec fn spec_lower_bytes(s: Seq<u8>) -> Seq<u8> {
    s.map_values(|b: u8| if 65 <= b <= 90 { (b + 32) as u8 } else { b })
}

/// Index of the last dot in `name`, or -1 if there is none.
pub open spec fn spec_last_dot(name: Seq<u8>) -> int
    decreases name.len(),
{
    if name.len() == 0 {
        -1
    } else if name[name.len() - 1] == 46 {
        name.len() - 1
    } else {
        spec_last_dot(name.drop_last())
    }
}

/// The bytes after the last dot of `name`, where a dot in first position
/// or no dot at all yields no extension.
pub open spec fn spec_extension_of(name: Seq<u8>) -> Seq<u8> {
    let d = spec_last_dot(name);
    if d >= 1 {
        name.subrange(d + 1, name.len() as int)
    } else {
        Seq::empty()
    }
}

proof fn lemma_last_dot_found(name: Seq<u8>, d: int)
    requires
        0 <= d < name.len(),
        name[d] == 46,
        forall|j: int| d < j < name.len() ==> name[j] != 46,
    ensures
        spec_last_dot(name) == d,
    decreases name.len(),
{
    if d == name.len() - 1 {
    } else {
        lemma_last_dot_found(name.drop_last(), d);
    }
}

proof fn lemma_last_dot_none(name: Seq<u8>)
    requires
        forall|j: int| 0 <= j < name.len() ==> name[j] != 46,
    ensures
        spec_last_dot(name) == -1,
    decreases name.len(),
{
    if name.len() > 0 {
        lemma_last_dot_none(name.drop_last());
    }
}

/// Classify a file name by its extension alone.
pub fn detect_from_extension(file_name: &str) -> (r: DetectedFormat)
    ensures
        r == spec_detect_extension(file_name.spec_bytes()),
{
    let bytes = file_name.as_bytes();
    if ends_with_bytes(bytes, ".tar.zst".as_bytes()) {
        return DetectedFormat::TarZstd;
    }
    if ends_with_bytes(bytes, ".tar.lz4".as_bytes()) {
        return DetectedFormat::TarLz4;
    }
    if ends_with_bytes(bytes, ".tar.br".as_bytes()) {
        return DetectedFormat::TarBrotli;
    }
    if ends_with_bytes(bytes, ".tar.gz".as_bytes()) || ends_with_bytes(bytes, ".tgz".as_bytes()) {
        return DetectedFormat::TarGzip;
    }
    if ends_with_bytes(bytes, ".tar".as_bytes()) {
        return DetectedFormat::TarPlain;
    }
    let n = bytes.len();
    let mut k: usize = n;
    while k > 0 && bytes[k - 1] != 46
        invariant
            n == bytes@.len(),
            k <= n,
            forall|j: int| k <= j < n ==> bytes@[j] != 46,
        decreases k,
    {
        k -= 1;
    }
    proof {
        if k == 0 {
            lemma_last_dot_none(bytes@);
        } else {
            // bytes[k - 1] is the last dot
            lemma_last_dot_found(bytes@, k - 1);
        }
    }
    let mut ext: Vec<u8> = Vec::new();
    if k >= 2 {
        let mut i: usize = k;
        while i < n
            invariant
                n == bytes@.len(),
                k <= i <= n,
                ext@ == spec_lower_bytes(bytes@.subrange(k as int, i as int)),
            decreases n - i,
        {
            let b = bytes[i];
            let low = if 65 <= b && b <= 90 {
                (b + 32) as u8
            } else {
                b
            };
            ext.push(low);
            proof {
                assert(ext@ =~= spec_lower_bytes(bytes@.subrange(k as int, i + 1)));
            }
            i += 1;
        }
        assert(bytes@.subrange(k as int, n as int) == spec_extension_of(bytes@));
    } else {
        // no dot, or the only dot opens the name: there is no extension
        assert(spec_extension_of(bytes@) =~= Seq::<u8>::empty());
        assert(ext@ =~= spec_lower_bytes(spec_extension_of(bytes@)));
    }
    detect_single_extension(ext.as_slice())
}

fn detect_single_extension(ext: &[u8]) -> (r: DetectedFormat)
    ensures
        r == spec_detect_single_extension(ext@),
{
    if bytes_eq(ext, "zip".as_bytes()) {
        DetectedFormat::Zip
    } else if bytes_eq(ext, "7z".as_bytes()) {
        DetectedFormat::SevenZip
    } else if bytes_eq(ext, "rar".as_bytes()) {
        DetectedFormat::Rar
    } else if bytes_eq(ext, "zst".as_bytes()) {
        DetectedFormat::TarZstd
    } else if bytes_eq(ext, "lz4".as_bytes()) {
        DetectedFormat::TarLz4
    } else if bytes_eq(ext, "br".as_bytes()) {
        DetectedFormat::TarBrotli
    } else if bytes_eq(ext, "gz".as_bytes()) {
        DetectedFormat::TarGzip
    } else {
        DetectedFormat::Unknown
    }
}

/// Magic bytes are authoritative when present; the extension fallback
/// covers streams with no recognisable prefix.
pub open spec fn spec_detect_format(b: Seq<u8>, name: Seq<u8>) -> DetectedFormat {
    if spec_sniff_magic(b) != DetectedFormat::Unknown {
        spec_sniff_magic(b)
    } else {
        spec_detect_extension(name)
    }
}

/// Auto-detect a format from a file prefix, falling back to the file name's
/// extension when no magic bytes match.
pub fn detect_format(buffer: &[u8], file_name: &str) -> (r: DetectedFormat)
    ensures
        r == spec_detect_format(buffer@, file_name.spec_bytes()),
{
    let sniffed = detect_from_magic_bytes(buffer);
    if sniffed != DetectedFormat::Unknown {
        sniffed
    } else {
        detect_from_extension(file_name)
    }
}

/// A zero-byte file sniffs as unknown, and then falls back to its name.
pub proof fn lemma_sniff_empty(name: Seq<u8>)
    ensures
        spec_sniff_magic(Seq::empty()) == DetectedFormat::Unknown,
        spec_detect_format(Seq::empty(), name) == spec_detect_extension(name),
{
}

/// A file beginning with the zip signature sniffs as zip regardless of
/// its name.
pub proof fn lemma_sniff_zip_magic(b: Seq<u8>, name: Seq<u8>)
    requires
        spec_zip_magic(b),
    ensures
        spec_detect_format(b, name) == DetectedFormat::Zip,
{
}

/// The single-extension table.
pub open spec fn spec_detect_single_extension(ext: Seq<u8>) -> DetectedFormat {
    if ext == "zip".spec_bytes() {
        DetectedFormat::Zip
    } else if ext == "7z".spec_bytes() {
        DetectedFormat::SevenZip
    } else if ext == "rar".spec_bytes() {
        DetectedFormat::Rar
    } else if ext == "zst".spec_bytes() {
        DetectedFormat::TarZstd
    } else if ext == "lz4".spec_bytes() {
        DetectedFormat::TarLz4
    } else if ext == "br".spec_bytes() {
        DetectedFormat::TarBrotli
    } else if ext == "gz".spec_bytes() {
        DetectedFormat::TarGzip
    } else {
        DetectedFormat::Unknown
    }
}

} // verus!
