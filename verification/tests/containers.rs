use std::io::Write;
use zipx_core::codecs::CodecKind;
use zipx_core::containers::{is_safe_path, ExtractOptions, TarContainer, ZipContainer};
use zipx_core::errors::ExtractError;
use zipx_core::resilience::IntegrityPolicy;
use zipx_core::tarfmt::{build_tar, parse_tar, FileEntry};

fn five_entry_tar() -> Vec<u8> {
    let entries: Vec<FileEntry> = (0..5)
        .map(|i| FileEntry {
            path: format!("f{}.txt", i).into_bytes(),
            data: format!("contents {}", i).into_bytes(),
        })
        .collect();
    build_tar(&entries).unwrap()
}

/// Corrupt the checksum field of the entry at `index` (1024 bytes per
/// small entry: a header block and one data block).
fn corrupt_entry_checksum(tar: &mut [u8], index: usize) {
    tar[index * 1024 + 148] = b'!';
}

#[test]
fn lenient_walk_skips_corrupt_entry() {
    let mut tar = five_entry_tar();
    corrupt_entry_checksum(&mut tar, 2);
    let (entries, warnings) = parse_tar(&tar, true).unwrap();
    assert_eq!(entries.len(), 4);
    assert_eq!(warnings.len(), 1);
    assert!(warnings[0].contains("f2.txt"));
    let names: Vec<&[u8]> = entries.iter().map(|e| e.path.as_slice()).collect();
    assert_eq!(names, [b"f0.txt", b"f1.txt", b"f3.txt", b"f4.txt"]);
}

#[test]
fn strict_walk_aborts_on_corrupt_entry() {
    let mut tar = five_entry_tar();
    corrupt_entry_checksum(&mut tar, 2);
    assert!(matches!(
        parse_tar(&tar, false),
        Err(ExtractError::IntegrityFailure { .. })
    ));
}

#[test]
fn lenient_continuation_through_container() {
    let mut tar = five_entry_tar();
    corrupt_entry_checksum(&mut tar, 2);
    let payload = zstd::stream::encode_all(&tar[..], 3).unwrap();
    let container = TarContainer::new(CodecKind::Zstd);
    let (entries, report) = container
        .extract(&payload, &ExtractOptions::default())
        .unwrap();
    assert_eq!(entries.len(), 4);
    assert_eq!(report.entries, 4);
    assert_eq!(report.warnings.len(), 1);
    assert!(report.warnings[0].contains("f2.txt"));
}

#[test]
fn lenient_walk_stops_at_unreadable_size_field() {
    let mut tar = five_entry_tar();
    // damage the size field of the third entry: the walk cannot find the
    // next entry, so it keeps the first two and stops with warnings
    tar[2 * 1024 + 124] = b'!';
    let (entries, warnings) = parse_tar(&tar, true).unwrap();
    assert_eq!(entries.len(), 2);
    assert_eq!(warnings.len(), 2);
    assert!(warnings[0].contains("f2.txt"));
    assert!(warnings[1].contains("unreadable size field"));
    assert!(matches!(
        parse_tar(&tar, false),
        Err(ExtractError::IntegrityFailure { .. })
    ));
}

#[test]
fn tar_escaping_path_is_rejected() {
    let entries = vec![
        FileEntry {
            path: b"ok.txt".to_vec(),
            data: b"fine".to_vec(),
        },
        FileEntry {
            path: b"../evil.txt".to_vec(),
            data: b"outside".to_vec(),
        },
    ];
    let tar = build_tar(&entries).unwrap();
    let payload = zstd::stream::encode_all(&tar[..], 3).unwrap();
    let container = TarContainer::new(CodecKind::Zstd);
    // lenient: the escaping entry becomes a warning
    let (kept, report) = container
        .extract(&payload, &ExtractOptions::default())
        .unwrap();
    assert_eq!(kept.len(), 1);
    assert_eq!(kept[0].path, b"ok.txt");
    assert_eq!(report.warnings.len(), 1);
    assert!(report.warnings[0].contains("evil.txt"));
    // strict: it aborts the archive
    let mut options = ExtractOptions::default();
    options.integrity = IntegrityPolicy::strict();
    assert!(matches!(
        container.extract(&payload, &options),
        Err(ExtractError::IntegrityFailure { .. })
    ));
}

#[test]
fn integrity_failure_is_fatal_and_extracts_nothing() {
    let entries = vec![FileEntry {
        path: b"a.txt".to_vec(),
        data: b"hello world".to_vec(),
    }];
    let tar = build_tar(&entries).unwrap();
    let expected_crc = crc32fast::hash(&tar);

    let mut options = ExtractOptions::default();
    options.integrity = IntegrityPolicy::strict();
    options.integrity.crc32 = Some(expected_crc);

    let container = TarContainer::new(CodecKind::Zstd);

    // the clean stream extracts
    let payload = zstd::stream::encode_all(&tar[..], 3).unwrap();
    let (ok_entries, report) = container.extract(&payload, &options).unwrap();
    assert_eq!(ok_entries.len(), 1);
    assert_eq!(report.bytes_written, 11);

    // flip the trailing data byte after the checksum was computed
    let mut flipped = tar.clone();
    flipped[512 + 10] ^= 0xff;
    let payload = zstd::stream::encode_all(&flipped[..], 3).unwrap();
    match container.extract(&payload, &options) {
        Err(ExtractError::IntegrityFailure { .. }) => {}
        other => panic!("expected a fatal integrity failure, got {:?}", other),
    }
}

#[test]
fn garbage_stream_fails_decompression() {
    let container = TarContainer::new(CodecKind::Zstd);
    assert!(matches!(
        container.extract(&[1, 2, 3, 4, 5], &ExtractOptions::default()),
        Err(ExtractError::IntegrityFailure { .. })
    ));
}

fn sample_zip(evil: bool) -> Vec<u8> {
    let cursor = std::io::Cursor::new(Vec::new());
    let mut writer = zip::ZipWriter::new(cursor);
    let options = zip::write::SimpleFileOptions::default();
    writer.add_directory("sub", options).unwrap();
    writer.start_file("top.txt", options).unwrap();
    writer.write_all(b"top level").unwrap();
    writer.start_file("sub/inner.txt", options).unwrap();
    writer.write_all(b"inner bytes").unwrap();
    if evil {
        writer.start_file("../escape.txt", options).unwrap();
        writer.write_all(b"outside").unwrap();
    }
    writer.finish().unwrap().into_inner()
}

#[test]
fn zip_extraction_walks_files_and_skips_directories() {
    let payload = sample_zip(false);
    let container = ZipContainer;
    let (entries, report) = container
        .extract(payload, &ExtractOptions::default())
        .unwrap();
    assert_eq!(entries.len(), 2);
    assert_eq!(report.entries, 2);
    assert!(report.warnings.is_empty());
    assert_eq!(entries[0].path, b"top.txt");
    assert_eq!(entries[0].data, b"top level");
    assert_eq!(entries[1].path, b"sub/inner.txt");
    assert_eq!(entries[1].data, b"inner bytes");
}

#[test]
fn zip_escaping_path_is_rejected() {
    let payload = sample_zip(true);
    let container = ZipContainer;
    // lenient: the escaping entry becomes a warning
    let (entries, report) = container
        .extract(payload.clone(), &ExtractOptions::default())
        .unwrap();
    assert_eq!(entries.len(), 2);
    assert_eq!(report.warnings.len(), 1);
    assert!(report.warnings[0].contains("escape.txt"));
    // strict: it aborts the archive
    let mut options = ExtractOptions::default();
    options.integrity = IntegrityPolicy::strict();
    assert!(matches!(
        container.extract(payload, &options),
        Err(ExtractError::IntegrityFailure { .. })
    ));
}

#[test]
fn zip_rejects_non_archive_bytes() {
    let container = ZipContainer;
    assert!(matches!(
        container.extract(b"not a zip at all".to_vec(), &ExtractOptions::default()),
        Err(ExtractError::IntegrityFailure { .. })
    ));
}

#[test]
fn safe_path_rules() {
    assert!(is_safe_path(b"a/b.txt"));
    assert!(is_safe_path(b"a..b"));
    assert!(is_safe_path(b"a/..b/c"));
    assert!(is_safe_path(b"dotted.name"));
    assert!(!is_safe_path(b""));
    assert!(!is_safe_path(b"/absolute"));
    assert!(!is_safe_path(b".."));
    assert!(!is_safe_path(b"../up"));
    assert!(!is_safe_path(b"a/../b"));
    assert!(!is_safe_path(b"a/.."));
    assert!(!is_safe_path(b"with\0nul"));
}

#[test]
fn default_options_are_lenient() {
    let options = ExtractOptions::default();
    assert_eq!(options.destination, "./output");
    assert!(options.integrity.skip_bad_blocks);
    assert!(options.concurrency >= 1);
}
