use zipx_core::codecs::{
    codec_from_name, compressor_from_name, BrotliCodec, BrotliCompressor, CodecKind, Lz4Codec,
    Lz4Compressor, ZstdCodec, ZstdCompressor,
};
use zipx_core::containers::{ExtractOptions, TarContainer};
use zipx_core::errors::ExtractError;
use zipx_core::pipeline::{CompressOptions, Extractor, SourceFile};
use zipx_core::resilience::IntegrityPolicy;
use zipx_core::tarfmt::{build_tar, parse_tar, FileEntry};

fn sample_files() -> Vec<SourceFile> {
    vec![
        SourceFile {
            rel_path: "docs/readme.txt".to_string(),
            data: b"hello archive".to_vec(),
        },
        SourceFile {
            rel_path: "data/blob.bin".to_string(),
            data: (0u32..2000).map(|i| (i % 251) as u8).collect(),
        },
        SourceFile {
            rel_path: "empty".to_string(),
            data: Vec::new(),
        },
    ]
}

fn roundtrip_with_format(format: &str) {
    let extractor = Extractor::with_defaults();
    let files = sample_files();
    let originals: Vec<(Vec<u8>, Vec<u8>)> = files
        .iter()
        .map(|f| (f.rel_path.as_bytes().to_vec(), f.data.clone()))
        .collect();
    let mut options = CompressOptions::default();
    options.format = format.to_string();
    let (archive, report) = extractor.compress(files, &options).unwrap();
    assert_eq!(report.files, 3);
    assert_eq!(report.bytes_written, archive.len() as u64);

    let (entries, ereport) = extractor
        .extract(format, archive, &ExtractOptions::default())
        .unwrap();
    assert_eq!(entries.len(), 3);
    assert_eq!(ereport.entries, 3);
    assert!(ereport.warnings.is_empty());
    for (entry, original) in entries.iter().zip(originals.iter()) {
        assert_eq!(entry.path, original.0);
        assert_eq!(entry.data, original.1);
    }
}

#[test]
fn roundtrip_tar_zstd() {
    roundtrip_with_format("tar.zst");
}

#[test]
fn roundtrip_tar_lz4() {
    roundtrip_with_format("tar.lz4");
}

#[test]
fn roundtrip_tar_brotli() {
    roundtrip_with_format("tar.br");
}

#[test]
fn tar_build_parse_roundtrip() {
    let entries = vec![
        FileEntry {
            path: b"a.txt".to_vec(),
            data: b"first".to_vec(),
        },
        FileEntry {
            path: b"nested/b.txt".to_vec(),
            data: vec![7u8; 700],
        },
    ];
    let bytes = build_tar(&entries).unwrap();
    assert_eq!(bytes.len() % 512, 0);
    let (parsed, warnings) = parse_tar(&bytes, true).unwrap();
    assert!(warnings.is_empty());
    assert_eq!(parsed.len(), 2);
    assert_eq!(parsed[0].path, b"a.txt");
    assert_eq!(parsed[0].data, b"first");
    assert_eq!(parsed[1].path, b"nested/b.txt");
    assert_eq!(parsed[1].data, vec![7u8; 700]);
}

#[test]
fn roundtrip_with_no_files() {
    let extractor = Extractor::with_defaults();
    let (archive, report) = extractor
        .compress(Vec::new(), &CompressOptions::default())
        .unwrap();
    assert_eq!(report.files, 0);
    // an empty container is exactly the two-block terminator
    assert_eq!(report.bytes_read, 1024);
    let (entries, ereport) = extractor
        .extract("tar.zst", archive, &ExtractOptions::default())
        .unwrap();
    assert!(entries.is_empty());
    assert_eq!(ereport.entries, 0);
}

#[test]
fn roundtrip_block_aligned_data() {
    // entry data of exactly one block takes no padding
    let entries = vec![FileEntry {
        path: b"aligned.bin".to_vec(),
        data: vec![0xabu8; 512],
    }];
    let bytes = build_tar(&entries).unwrap();
    assert_eq!(bytes.len(), 512 + 512 + 1024);
    let (parsed, warnings) = parse_tar(&bytes, false).unwrap();
    assert!(warnings.is_empty());
    assert_eq!(parsed[0].data, vec![0xabu8; 512]);
}

#[test]
fn build_tar_rejects_oversized_name() {
    let entries = vec![FileEntry {
        path: vec![b'a'; 101],
        data: Vec::new(),
    }];
    assert!(matches!(
        build_tar(&entries),
        Err(ExtractError::IntegrityFailure { .. })
    ));
}

#[test]
fn compress_filters_by_substring() {
    let extractor = Extractor::with_defaults();
    let files = vec![
        SourceFile {
            rel_path: "keep/a.txt".to_string(),
            data: b"a".to_vec(),
        },
        SourceFile {
            rel_path: "keep/b.log".to_string(),
            data: b"b".to_vec(),
        },
        SourceFile {
            rel_path: "other/c.txt".to_string(),
            data: b"c".to_vec(),
        },
    ];
    let mut options = CompressOptions::default();
    options.includes = Some(vec!["keep".to_string()]);
    options.excludes = Some(vec![".log".to_string()]);
    let (archive, report) = extractor.compress(files, &options).unwrap();
    assert_eq!(report.files, 1);
    let (entries, _) = extractor
        .extract("tar.zst", archive, &ExtractOptions::default())
        .unwrap();
    assert_eq!(entries.len(), 1);
    assert_eq!(entries[0].path, b"keep/a.txt");
}

#[test]
fn compress_rejects_escaping_path() {
    let extractor = Extractor::with_defaults();
    let files = vec![SourceFile {
        rel_path: "../evil.txt".to_string(),
        data: b"x".to_vec(),
    }];
    let options = CompressOptions::default();
    assert!(matches!(
        extractor.compress(files, &options),
        Err(ExtractError::IntegrityFailure { .. })
    ));
}

#[test]
fn unsupported_format_from_extract() {
    let extractor = Extractor::with_defaults();
    match extractor.extract("bogus", vec![1, 2, 3], &ExtractOptions::default()) {
        Err(ExtractError::Unsupported(name)) => assert_eq!(name, "bogus"),
        other => panic!("expected unsupported format, got {:?}", other),
    }
}

#[test]
fn unsupported_format_from_compress() {
    let extractor = Extractor::with_defaults();
    let mut options = CompressOptions::default();
    options.format = "bogus".to_string();
    match extractor.compress(sample_files(), &options) {
        Err(ExtractError::Unsupported(name)) => assert_eq!(name, "bogus"),
        other => panic!("expected unsupported codec, got {:?}", other),
    }
}

#[test]
fn codec_registry_lookups() {
    assert_eq!(codec_from_name("zstd"), Some(CodecKind::Zstd));
    assert_eq!(codec_from_name("zst"), Some(CodecKind::Zstd));
    assert_eq!(codec_from_name("lz4hc"), Some(CodecKind::Lz4));
    assert_eq!(compressor_from_name("br"), Some(CodecKind::Brotli));
    assert_eq!(codec_from_name("gz"), None);
    assert_eq!(codec_from_name(""), None);
}

#[test]
fn codec_direct_roundtrip_applies_guard() {
    let data = b"some stream of bytes for the codec to chew on".to_vec();
    for kind in [CodecKind::Zstd, CodecKind::Lz4, CodecKind::Brotli] {
        let compressed = kind.compress(&data, Some(5)).unwrap();
        let mut policy = IntegrityPolicy::default();
        policy.crc32 = Some(crc32fast::hash(&data));
        let decompressed = kind.decompress(&compressed, &policy).unwrap();
        assert_eq!(decompressed, data);
        policy.crc32 = Some(crc32fast::hash(&data) ^ 1);
        assert!(matches!(
            kind.decompress(&compressed, &policy),
            Err(ExtractError::IntegrityFailure { .. })
        ));
    }
}

#[test]
fn codec_fronts_roundtrip() {
    let data = b"bytes for the named codec fronts".to_vec();
    let policy = IntegrityPolicy::default();

    assert_eq!(ZstdCompressor.name(), "zstd");
    let c = ZstdCompressor.compress(&data, None).unwrap();
    assert_eq!(ZstdCodec.decompress(&c, &policy).unwrap(), data);
    assert_eq!(ZstdCodec.name(), "zstd");

    assert_eq!(Lz4Compressor.name(), "lz4");
    let c = Lz4Compressor.compress(&data, None).unwrap();
    assert_eq!(Lz4Codec.decompress(&c, &policy).unwrap(), data);
    assert_eq!(Lz4Codec.name(), "lz4");

    assert_eq!(BrotliCompressor.name(), "brotli");
    let c = BrotliCompressor.compress(&data, Some(2)).unwrap();
    assert_eq!(BrotliCodec.decompress(&c, &policy).unwrap(), data);
    assert_eq!(BrotliCodec.name(), "brotli");
}

#[test]
fn registry_accepts_registrations() {
    let mut extractor = Extractor::with_defaults();
    extractor.register(zipx_core::containers::Container::Tar(TarContainer::new(
        CodecKind::Zstd,
    )));
    // lookup still resolves by first exact name match
    let files = vec![SourceFile {
        rel_path: "x".to_string(),
        data: b"y".to_vec(),
    }];
    let (archive, _) = extractor
        .compress(files, &CompressOptions::default())
        .unwrap();
    let (entries, _) = extractor
        .extract("tar.zst", archive, &ExtractOptions::default())
        .unwrap();
    assert_eq!(entries.len(), 1);
}

#[test]
fn container_names() {
    assert_eq!(TarContainer::new(CodecKind::Zstd).name(), "tar.zst");
    assert_eq!(TarContainer::new(CodecKind::Lz4).name(), "tar.lz4");
    assert_eq!(TarContainer::new(CodecKind::Brotli).name(), "tar.br");
    let extractor = Extractor::with_defaults();
    assert_eq!(extractor.codec("zstd"), Some(CodecKind::Zstd));
    assert_eq!(extractor.codec("br"), Some(CodecKind::Brotli));
    assert_eq!(extractor.codec("bogus"), None);
}
