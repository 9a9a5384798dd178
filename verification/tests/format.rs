use zipx_core::format_detection::{
    detect_format, detect_from_extension, detect_from_magic_bytes, DetectedFormat,
};
use zipx_core::tarfmt::{build_tar, FileEntry};

#[test]
fn sniff_zero_byte_file_is_unknown() {
    assert_eq!(detect_from_magic_bytes(&[]), DetectedFormat::Unknown);
}

#[test]
fn sniff_zip_magic_overrides_extension() {
    let mut data = b"PK\x03\x04".to_vec();
    data.extend_from_slice(&[0u8; 30]);
    assert_eq!(detect_format(&data, "archive.tar.gz"), DetectedFormat::Zip);
    assert_eq!(detect_format(b"PK\x05\x06rest", "x.rar"), DetectedFormat::Zip);
}

#[test]
fn sniff_tar_gz_via_extension_fallback() {
    // no recognizable magic: first byte has high bits set, second has the
    // low two bits set, so neither the header heuristic nor gzip matches
    let data = [0xffu8, 0xff, 0x00, 0x00];
    assert_eq!(detect_from_magic_bytes(&data), DetectedFormat::Unknown);
    assert_eq!(detect_format(&data, "a.tar.gz"), DetectedFormat::TarGzip);
}

#[test]
fn sniff_codec_magics() {
    assert_eq!(
        detect_from_magic_bytes(&[0x28, 0xb5, 0x2f, 0xfd, 1, 2]),
        DetectedFormat::TarZstd
    );
    assert_eq!(
        detect_from_magic_bytes(&[0x18, 0x4d, 0x22, 0x04]),
        DetectedFormat::TarLz4
    );
    assert_eq!(
        detect_from_magic_bytes(&[0x37, 0x7a, 0xbc, 0xaf, 0x27, 0x1c]),
        DetectedFormat::SevenZip
    );
    assert_eq!(
        detect_from_magic_bytes(b"Rar!\x1a\x07\x00"),
        DetectedFormat::Rar
    );
    // gzip's second byte has both low bits set, dodging the brotli heuristic
    assert_eq!(detect_from_magic_bytes(&[0x1f, 0x8b]), DetectedFormat::TarGzip);
}

#[test]
fn sniff_plain_tar_header() {
    let entries = vec![FileEntry {
        path: b"file.txt".to_vec(),
        data: b"hello".to_vec(),
    }];
    let bytes = build_tar(&entries).unwrap();
    assert_eq!(detect_from_magic_bytes(&bytes), DetectedFormat::TarPlain);
}

#[test]
fn extension_fallback_table() {
    assert_eq!(detect_from_extension("x.zip"), DetectedFormat::Zip);
    assert_eq!(detect_from_extension("X.ZIP"), DetectedFormat::Zip);
    assert_eq!(detect_from_extension("x.7z"), DetectedFormat::SevenZip);
    assert_eq!(detect_from_extension("x.rar"), DetectedFormat::Rar);
    assert_eq!(detect_from_extension("x.tgz"), DetectedFormat::TarGzip);
    assert_eq!(detect_from_extension("x.tar"), DetectedFormat::TarPlain);
    assert_eq!(detect_from_extension("x.tar.zst"), DetectedFormat::TarZstd);
    assert_eq!(detect_from_extension("x.tar.lz4"), DetectedFormat::TarLz4);
    assert_eq!(detect_from_extension("x.tar.br"), DetectedFormat::TarBrotli);
    assert_eq!(detect_from_extension("x.gz"), DetectedFormat::TarGzip);
    assert_eq!(detect_from_extension("x.txt"), DetectedFormat::Unknown);
    assert_eq!(detect_from_extension("noext"), DetectedFormat::Unknown);
    assert_eq!(detect_from_extension(".hidden"), DetectedFormat::Unknown);
}

#[test]
fn tar_header_needs_checksum_and_magic_fields() {
    let entries = vec![FileEntry {
        path: b"file.txt".to_vec(),
        data: b"hello".to_vec(),
    }];
    let mut bytes = build_tar(&entries).unwrap();
    // an invalid checksum field rejects the header even though the
    // magic field still reads ustar
    bytes[148] = b'!';
    assert_eq!(detect_from_magic_bytes(&bytes), DetectedFormat::Unknown);
    // and a garbage magic field rejects it even with a clean checksum
    let mut bytes = build_tar(&entries).unwrap();
    bytes[257] = b'X';
    assert_eq!(detect_from_magic_bytes(&bytes), DetectedFormat::Unknown);
}

#[test]
fn extension_compound_suffixes_are_case_sensitive() {
    // the compound match misses, but the lowercased final extension hits
    assert_eq!(detect_from_extension("X.TAR.ZST"), DetectedFormat::TarZstd);
}

#[test]
fn format_names_and_extensions() {
    assert_eq!(DetectedFormat::TarZstd.as_str(), "tar.zst");
    assert_eq!(DetectedFormat::Zip.as_str(), "zip");
    assert_eq!(DetectedFormat::Unknown.as_str(), "unknown");
    assert_eq!(DetectedFormat::TarGzip.extension(), ".tar.gz");
    assert_eq!(DetectedFormat::Unknown.extension(), "");
}
