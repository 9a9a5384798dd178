use zipx_core::containers::ExtractOptions;
use zipx_core::pipeline::{
    BatchArchiveInput, BatchCompressInput, CompressOptions, Extractor, SourceFile,
};
use zipx_core::telemetry::Progress;

fn small_archive(name_inside: &str) -> Vec<u8> {
    let extractor = Extractor::with_defaults();
    let files = vec![SourceFile {
        rel_path: name_inside.to_string(),
        data: b"payload bytes".to_vec(),
    }];
    let (archive, _) = extractor
        .compress(files, &CompressOptions::default())
        .unwrap();
    archive
}

#[test]
fn batch_isolation_of_a_missing_input() {
    let extractor = Extractor::with_defaults();
    let archives = vec![
        BatchArchiveInput {
            path: "first.tar.zst".to_string(),
            payload: Some(small_archive("one.txt")),
        },
        BatchArchiveInput {
            path: "missing.tar.zst".to_string(),
            payload: None,
        },
        BatchArchiveInput {
            path: "third.tar.zst".to_string(),
            payload: Some(small_archive("two.txt")),
        },
    ];
    let (report, outputs) = extractor.batch_extract(archives, &ExtractOptions::default());
    assert_eq!(report.total_archives, 3);
    assert_eq!(report.successful, 2);
    assert_eq!(report.failed, 1);
    assert_eq!(report.errors.len(), 1);
    assert!(report.errors[0].contains("missing.tar.zst"));
    assert_eq!(outputs.len(), 3);
    assert!(outputs[0].is_some());
    assert!(outputs[1].is_none());
    assert!(outputs[2].is_some());
    assert_eq!(report.total_files, 2);
}

#[test]
fn batch_extract_detects_format_from_content() {
    let extractor = Extractor::with_defaults();
    // a zstd frame is recognized by magic even under a misleading name
    let archives = vec![BatchArchiveInput {
        path: "misnamed.bin".to_string(),
        payload: Some(small_archive("inner.txt")),
    }];
    let (report, outputs) = extractor.batch_extract(archives, &ExtractOptions::default());
    assert_eq!(report.successful, 1);
    let (entries, _) = outputs[0].as_ref().unwrap();
    assert_eq!(entries[0].path, b"inner.txt");
}

#[test]
fn batch_extract_rejects_unknown_bytes() {
    let extractor = Extractor::with_defaults();
    let archives = vec![BatchArchiveInput {
        path: "garbage.dat".to_string(),
        payload: Some(vec![0xfe, 0xff, 0xfe, 0xff]),
    }];
    let (report, outputs) = extractor.batch_extract(archives, &ExtractOptions::default());
    assert_eq!(report.successful, 0);
    assert_eq!(report.failed, 1);
    assert!(outputs[0].is_none());
    assert!(report.errors[0].contains("garbage.dat"));
}

#[test]
fn batch_folds_warnings_of_successful_items() {
    // an archive with one damaged entry among five still succeeds under
    // the lenient default, and its warning surfaces in the batch errors
    let entries: Vec<zipx_core::tarfmt::FileEntry> = (0..5)
        .map(|i| zipx_core::tarfmt::FileEntry {
            path: format!("f{}.txt", i).into_bytes(),
            data: b"x".to_vec(),
        })
        .collect();
    let mut tar = zipx_core::tarfmt::build_tar(&entries).unwrap();
    tar[2 * 1024 + 148] = b'!';
    let payload = zstd::stream::encode_all(&tar[..], 3).unwrap();

    let extractor = Extractor::with_defaults();
    let archives = vec![BatchArchiveInput {
        path: "damaged.tar.zst".to_string(),
        payload: Some(payload),
    }];
    let (report, outputs) = extractor.batch_extract(archives, &ExtractOptions::default());
    assert_eq!(report.successful, 1);
    assert_eq!(report.failed, 0);
    assert_eq!(report.total_files, 4);
    assert_eq!(report.errors.len(), 1);
    assert!(report.errors[0].contains("damaged.tar.zst"));
    assert!(report.errors[0].contains("f2.txt"));
    assert!(outputs[0].is_some());
}

#[test]
fn batch_compress_isolates_failures() {
    let extractor = Extractor::with_defaults();
    let sources = vec![
        BatchCompressInput {
            source: "good".to_string(),
            destination: "good.tar.zst".to_string(),
            format: "tar.zst".to_string(),
            files: Some(vec![SourceFile {
                rel_path: "a.txt".to_string(),
                data: b"abc".to_vec(),
            }]),
        },
        BatchCompressInput {
            source: "unreadable".to_string(),
            destination: "unreadable.tar.zst".to_string(),
            format: "tar.zst".to_string(),
            files: None,
        },
        BatchCompressInput {
            source: "badformat".to_string(),
            destination: "badformat.out".to_string(),
            format: "bogus".to_string(),
            files: Some(vec![SourceFile {
                rel_path: "b.txt".to_string(),
                data: b"def".to_vec(),
            }]),
        },
    ];
    let (report, outputs) = extractor.batch_compress(sources, &CompressOptions::default());
    assert_eq!(report.total_sources, 3);
    assert_eq!(report.successful, 1);
    assert_eq!(report.failed, 2);
    assert_eq!(report.total_files, 1);
    assert_eq!(outputs.len(), 3);
    assert!(outputs[0].is_some());
    assert!(outputs[1].is_none());
    assert!(outputs[2].is_none());
    assert!(report.errors.iter().any(|e| e.contains("unreadable")));
    assert!(report
        .errors
        .iter()
        .any(|e| e.contains("badformat") && e.contains("bogus")));
}

#[test]
fn progress_counters_saturate() {
    let mut progress = Progress::default();
    progress.record(10);
    progress.record(5);
    assert_eq!(progress.files, 2);
    assert_eq!(progress.bytes, 15);
    progress.bytes = u64::MAX - 1;
    progress.record(100);
    assert_eq!(progress.bytes, u64::MAX);
}
