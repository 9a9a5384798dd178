//! Pipeline orchestrator: a registry of container engines, single-archive
//! extract/compress, and batch variants that isolate one item's failure
//! from the rest.

use vstd::prelude::*;
use vstd::string::StrSliceExecFns;
use vstd::string::StringExecFns;
use vstd::string::StringSliceAdditionalSpecFns;
use vstd::utf8::encode_utf8;
use crate::codecs::{codec_inflate, spec_codec_from_name, codec_from_name_bytes, CodecKind};
use crate::containers::{
    is_safe_path, spec_safe_path, spec_sequential_entries, zip_entries_readable, zip_files_of,
    zip_parse, Container, ExtractOptions, ExtractReport, TarContainer, ZipContainer,
};
use crate::errors::ExtractError;
use crate::format_detection::detect_format;
use crate::resilience::spec_guard_clean;
use crate::tarfmt::{build_tar, entries_model, tar_decode, tar_encode, wf_entries, FileEntry};
use crate::text::{is_substring_chars, is_substring_of, str_bytes_eq, str_contains};

verus! {

/// Options for one compression.
#[derive(Debug, Clone)]
pub struct CompressOptions {
    /// Source path, as the caller names it.
    pub source: String,
    /// Destination path, as the caller names it.
    pub destination: String,
    /// Target format string, `container.codec` style.
    pub format: String,
    /// Codec-specific level; each codec has a balanced default.
    pub compression_level: Option<u32>,
    /// Keep only entries whose relative path contains one of these.
    pub includes: Option<Vec<String>>,
    /// Drop entries whose relative path contains one of these.
    pub excludes: Option<Vec<String>>,
}

impl Default for CompressOptions {
    fn default() -> (r: Self)
        ensures
            r.source@ == "./input"@,
            r.destination@ == "./output.tar.zst"@,
            r.format@ == "tar.zst"@,
            r.compression_level is None,
            r.includes is None,
            r.excludes is None,
    {
        CompressOptions {
            source: String::from_str("./input"),
            destination: String::from_str("./output.tar.zst"),
            format: String::from_str("tar.zst"),
            compression_level: None,
            includes: None,
            excludes: None,
        }
    }
}

/// One file handed to compression: its entry-relative path and contents.
#[derive(Debug)]
pub struct SourceFile {
    pub rel_path: String,
    pub data: Vec<u8>,
}

impl SourceFile {
    /// The entry this file becomes in a container.
    pub open spec fn model(self) -> (Seq<u8>, Seq<u8>) {
        (encode_utf8(self.rel_path@), self.data@)
    }
}

/// What one compression accomplished.
#[derive(Debug, Clone, PartialEq, Eq, Structural)]
pub struct CompressReport {
    /// Exact count of distinct entries appended to the container.
    pub files: u64,
    pub bytes_read: u64,
    pub bytes_written: u64,
}

impl Default for CompressReport {
    fn default() -> (r: Self)
        ensures
            r.files == 0 && r.bytes_read == 0 && r.bytes_written == 0,
    {
        CompressReport { files: 0, bytes_read: 0, bytes_written: 0 }
    }
}

/// Aggregate outcome of a batch extraction.
#[derive(Debug, Clone)]
pub struct BatchExtractReport {
    pub total_archives: u64,
    pub successful: u64,
    pub failed: u64,
    pub total_files: u64,
    pub total_bytes: u64,
    pub errors: Vec<String>,
}

/// Aggregate outcome of a batch compression.
#[derive(Debug, Clone)]
pub struct BatchCompressReport {
    pub total_sources: u64,
    pub successful: u64,
    pub failed: u64,
    pub total_files: u64,
    pub total_bytes_read: u64,
    pub total_bytes_written: u64,
    pub errors: Vec<String>,
}

/// One archive handed to batch extraction: the path the caller knows it
/// by, and its bytes, absent when the file could not be read.
#[derive(Debug)]
pub struct BatchArchiveInput {
    pub path: String,
    pub payload: Option<Vec<u8>>,
}

/// One source handed to batch compression: its paths and target format,
/// and its files, absent when the source could not be walked.
#[derive(Debug)]
pub struct BatchCompressInput {
    pub source: String,
    pub destination: String,
    pub format: String,
    pub files: Option<Vec<SourceFile>>,
}

/// A batch extraction request.
#[derive(Debug)]
pub struct BatchExtractOptions {
    pub archives: Vec<BatchArchiveInput>,
    pub extract_options: ExtractOptions,
}

/// A batch compression request.
#[derive(Debug)]
pub struct BatchCompressOptions {
    pub sources: Vec<BatchCompressInput>,
    pub compress_options: CompressOptions,
}

/// The registry's name for a container engine.
pub open spec fn spec_container_name(c: Container) -> Seq<char> {
    match c {
        Container::Tar(t) => t.spec_name(),
        Container::Zip(_) => "zip"@,
    }
}

/// The registry compares names bytewise.
pub open spec fn spec_container_name_bytes(c: Container) -> Seq<u8> {
    encode_utf8(spec_container_name(c))
}

/// First registered container with the given name, if any.
pub open spec fn spec_find(cs: Seq<Container>, name: Seq<u8>) -> Option<Container>
    decreases cs.len(),
{
    if cs.len() == 0 {
        None
    } else if spec_container_name_bytes(cs[0]) == name {
        Some(cs[0])
    } else {
        spec_find(cs.drop_first(), name)
    }
}

proof fn lemma_spec_find_hit(cs: Seq<Container>, name: Seq<u8>, i: int)
    requires
        0 <= i < cs.len(),
        forall|j: int| 0 <= j < i ==> spec_container_name_bytes(#[trigger] cs[j]) != name,
        spec_container_name_bytes(cs[i]) == name,
    ensures
        spec_find(cs, name) == Some(cs[i]),
    decreases i,
{
    if i > 0 {
        lemma_spec_find_hit(cs.drop_first(), name, i - 1);
    }
}

proof fn lemma_spec_find_miss(cs: Seq<Container>, name: Seq<u8>)
    requires
        forall|j: int| 0 <= j < cs.len() ==> spec_container_name_bytes(#[trigger] cs[j]) != name,
    ensures
        spec_find(cs, name) is None,
    decreases cs.len(),
{
    if cs.len() > 0 {
        lemma_spec_find_miss(cs.drop_first(), name);
    }
}

/// The pipeline orchestrator: a registry of named container engines,
/// built once at startup.
#[derive(Debug, Clone)]
pub struct Extractor {
    pub containers: Vec<Container>,
}

impl Extractor {
    /// The default registry: every codec for the sequential shape, plus
    /// the random-access shape.
    pub fn with_defaults() -> (r: Self)
        ensures
            r.containers@.len() == 4,
            r.containers@[0] == Container::Tar(TarContainer { codec: CodecKind::Zstd }),
            r.containers@[1] == Container::Tar(TarContainer { codec: CodecKind::Lz4 }),
            r.containers@[2] == Container::Tar(TarContainer { codec: CodecKind::Brotli }),
            r.containers@[3] == Container::Zip(ZipContainer),
    {
        let mut extractor = Extractor { containers: Vec::new() };
        extractor.register(Container::Tar(TarContainer::new(CodecKind::Zstd)));
        extractor.register(Container::Tar(TarContainer::new(CodecKind::Lz4)));
        extractor.register(Container::Tar(TarContainer::new(CodecKind::Brotli)));
        extractor.register(Container::Zip(ZipContainer));
        extractor
    }

    /// Add a container engine to the registry.
    pub fn register(&mut self, container: Container)
        ensures
            final(self).containers@ == old(self).containers@.push(container),
    {
        self.containers.push(container);
    }

    /// Look a container up by exact name.
    pub fn find(&self, name: &str) -> (r: Option<Container>)
        ensures
            r == spec_find(self.containers@, name.spec_bytes()),
    {
        let n = self.containers.len();
        let mut i: usize = 0;
        while i < n
            invariant
                n == self.containers@.len(),
                i <= n,
                forall|j: int|
                    0 <= j < i ==> spec_container_name_bytes(#[trigger] self.containers@[j])
                        != name.spec_bytes(),
            decreases n - i,
        {
            let c = &self.containers[i];
            let cname = match c {
                Container::Tar(t) => t.name(),
                Container::Zip(z) => z.name(),
            };
            assert(cname.spec_bytes() == spec_container_name_bytes(self.containers@[i as int]));
            if str_bytes_eq(cname, name) {
                proof {
                    lemma_spec_find_hit(self.containers@, name.spec_bytes(), i as int);
                }
                return Some(*c);
            }
            i += 1;
        }
        proof {
            lemma_spec_find_miss(self.containers@, name.spec_bytes());
        }
        None
    }

    /// Look a codec up by name; unknown names yield no value.
    pub fn codec(&self, name: &str) -> (r: Option<CodecKind>)
        ensures
            r == spec_codec_from_name(name.spec_bytes()),
    {
        codec_from_name_bytes(name.as_bytes())
    }

    /// Extract one complete archive payload with the named container.
    ///
    /// An unregistered name fails with `Unsupported` carrying that name;
    /// otherwise the named engine's contract applies.
    pub fn extract(&self, format: &str, payload: Vec<u8>, options: &ExtractOptions) -> (r: Result<
        (Vec<FileEntry>, ExtractReport),
        ExtractError,
    >)
        ensures
            spec_find(self.containers@, format.spec_bytes()) is None ==> (r matches Err(
                ExtractError::Unsupported(s),
            ) && s@ == format@),
            (r matches Err(ExtractError::Unsupported(_))) ==> spec_find(
                self.containers@,
                format.spec_bytes(),
            ) is None,
            ({
                let found = spec_find(self.containers@, format.spec_bytes());
                found matches Some(Container::Tar(t)) ==> {
                    let inflated = codec_inflate(t.codec, payload@);
                    &&& (inflated is None ==> r is Err)
                    &&& (inflated is Some && !spec_guard_clean(inflated->0, options.integrity)
                        ==> r is Err)
                    &&& ((inflated is Some && spec_guard_clean(inflated->0, options.integrity)
                        && tar_decode(inflated->0) is Some && (forall|i: int|
                        0 <= i < tar_decode(inflated->0)->0.len() ==> spec_safe_path(
                            #[trigger] tar_decode(inflated->0)->0[i].0,
                        ))) ==> (r is Ok && entries_model(r->Ok_0.0@) == tar_decode(inflated->0)->0
                        && r->Ok_0.1.warnings@.len() == 0))
                }
            }),
            ({
                let found = spec_find(self.containers@, format.spec_bytes());
                (found matches Some(Container::Zip(_)) && zip_parse(payload@) is None) ==> r is Err
            }),
            ({
                let found = spec_find(self.containers@, format.spec_bytes());
                let parsed = zip_parse(payload@);
                (found matches Some(Container::Zip(_)) && parsed is Some && zip_entries_readable(
                    parsed->0,
                )) ==> (r is Ok && entries_model(r->Ok_0.0@) == zip_files_of(parsed->0)
                    && r->Ok_0.1.warnings@.len() == 0)
            }),
            ({
                // the lenient policy extracts whatever passed the codec
                // and directory layers; the strict policy aborts on any
                // rejected or unsafely-named entry
                let found = spec_find(self.containers@, format.spec_bytes());
                let parsed = zip_parse(payload@);
                &&& ((found matches Some(Container::Tar(t))
                    && options.integrity.skip_bad_blocks && codec_inflate(t.codec, payload@)
                    is Some && spec_guard_clean(
                    codec_inflate(t.codec, payload@)->0,
                    options.integrity,
                )) ==> r is Ok)
                &&& ((found matches Some(Container::Tar(t))
                    && !options.integrity.skip_bad_blocks && codec_inflate(t.codec, payload@)
                    is Some && spec_guard_clean(
                    codec_inflate(t.codec, payload@)->0,
                    options.integrity,
                ) && tar_decode(codec_inflate(t.codec, payload@)->0) is Some && !(forall|i: int|
                    0 <= i < tar_decode(codec_inflate(t.codec, payload@)->0)->0.len()
                        ==> spec_safe_path(
                        #[trigger] tar_decode(codec_inflate(t.codec, payload@)->0)->0[i].0,
                    ))) ==> r is Err)
                &&& ((found matches Some(Container::Zip(_)) && parsed is Some
                    && options.integrity.skip_bad_blocks) ==> r is Ok)
                &&& ((found matches Some(Container::Zip(_)) && parsed is Some
                    && !options.integrity.skip_bad_blocks && !zip_entries_readable(parsed->0))
                    ==> r is Err)
            }),
            r is Ok ==> r->Ok_0.1.entries == r->Ok_0.0@.len(),
            r is Ok ==> r->Ok_0.1.bytes_written == crate::containers::clamp_u64(
                crate::containers::entries_data_total(r->Ok_0.0@) as int,
            ),
            r is Ok ==> forall|j: int|
                0 <= j < r->Ok_0.0@.len() ==> spec_safe_path(#[trigger] r->Ok_0.0@[j].path@),
            r is Ok && !options.integrity.skip_bad_blocks ==> r->Ok_0.1.warnings@.len() == 0,
    {
        let found = self.find(format);
        match found {
            Option::None => Err(ExtractError::Unsupported(format.to_owned())),
            Option::Some(Container::Tar(t)) => t.extract(payload.as_slice(), options),
            Option::Some(Container::Zip(z)) => z.extract(payload, options),
        }
    }

    /// Compress a set of files into an archive of the requested format.
    ///
    /// The codec is derived from the format string; an unregistered codec
    /// name fails with `Unsupported` carrying that name.  Entries are
    /// filtered by the substring filters, every kept entry must fit the
    /// container format and stay under the destination root, and on
    /// success the output decompresses back to exactly the encoded
    /// archive of the kept entries.
    pub fn compress(&self, files: Vec<SourceFile>, options: &CompressOptions) -> (r: Result<
        (Vec<u8>, CompressReport),
        ExtractError,
    >)
        ensures
            ({
                let cname = spec_codec_name_of_format(encode_utf8(options.format@));
                &&& (spec_codec_from_name(cname) is None <==> (r matches Err(
                    ExtractError::Unsupported(_),
                )))
                &&& (r matches Err(ExtractError::Unsupported(s)) ==> s@
                    == crate::text::lossy_chars(cname))
            }),
            r is Ok ==> ({
                let codec = spec_codec_from_name(
                    spec_codec_name_of_format(encode_utf8(options.format@)),
                )->0;
                let sel = spec_selected_models(
                    files@,
                    opt_patterns_view(options.includes),
                    opt_patterns_view(options.excludes),
                );
                &&& codec_inflate(codec, r->Ok_0.0@) == Some(tar_encode(sel))
                &&& wf_entries(sel)
                &&& (forall|i: int| 0 <= i < sel.len() ==> spec_safe_path(#[trigger] sel[i].0))
                &&& r->Ok_0.1.files == sel.len()
                &&& r->Ok_0.1.bytes_read == tar_encode(sel).len()
                &&& r->Ok_0.1.bytes_written == r->Ok_0.0@.len()
            }),
            ({
                let codec = spec_codec_from_name(
                    spec_codec_name_of_format(encode_utf8(options.format@)),
                );
                let sel = spec_selected_models(
                    files@,
                    opt_patterns_view(options.includes),
                    opt_patterns_view(options.excludes),
                );
                (codec is Some && wf_entries(sel) && (forall|i: int|
                    0 <= i < sel.len() ==> spec_safe_path(#[trigger] sel[i].0)) && (codec
                    == Some(CodecKind::Lz4) ==> tar_encode(sel).len() < 0x1_0000_0000)) ==> r
                    is Ok
            }),
            r is Err ==> (r->Err_0 matches ExtractError::Unsupported(_) || r->Err_0 matches
                ExtractError::IntegrityFailure { .. }),
    {
        let cname = codec_name_bytes_of_format(options.format.as_str());
        let kind = match codec_from_name_bytes(cname.as_slice()) {
            Option::Some(k) => k,
            Option::None => {
                return Err(
                    ExtractError::Unsupported(crate::text::bytes_to_string_lossy(cname.as_slice())),
                );
            },
        };
        let ghost sel = spec_selected_models(
                    files@,
                    opt_patterns_view(options.includes),
                    opt_patterns_view(options.excludes),
                );
        let n = files.len();
        let mut selected: Vec<FileEntry> = Vec::new();
        let mut i: usize = 0;
        while i < n
            invariant
                n == files@.len(),
                i <= n,
                sel == spec_selected_models(
                    files@,
                    opt_patterns_view(options.includes),
                    opt_patterns_view(options.excludes),
                ),
                entries_model(selected@) =~= spec_selected_models(
                    files@.take(i as int),
                    opt_patterns_view(options.includes),
                    opt_patterns_view(options.excludes),
                ),
            decreases n - i,
        {
            let f = &files[i];
            let inc_ok = match &options.includes {
                Option::Some(ps) => matches_any(f.rel_path.as_str(), ps),
                Option::None => true,
            };
            let exc_ok = match &options.excludes {
                Option::Some(ps) => !matches_any(f.rel_path.as_str(), ps),
                Option::None => true,
            };
            proof {
                assert((inc_ok && exc_ok) == spec_selected(
                    files@[i as int],
                    opt_patterns_view(options.includes),
                    opt_patterns_view(options.excludes),
                ));
                assert(files@.take(i + 1).drop_last() =~= files@.take(i as int));
                assert(files@.take(i + 1).last() == files@[i as int]);
            }
            if inc_ok && exc_ok {
                let entry = FileEntry {
                    path: f.rel_path.as_str().as_bytes_vec(),
                    data: crate::text::copy_byte_slice(f.data.as_slice()),
                };
                assert(entry.model() == files@[i as int].model());
                selected.push(entry);
                proof {
                    assert(entries_model(selected@) =~= spec_selected_models(
                        files@.take(i + 1),
                        opt_patterns_view(options.includes),
                        opt_patterns_view(options.excludes),
                    ));
                }
            }
            i += 1;
        }
        proof {
            assert(files@.take(n as int) =~= files@);
        }
        // every kept entry must stay under the destination root
        let m = selected.len();
        let mut j: usize = 0;
        while j < m
            invariant
                m == selected@.len(),
                j <= m,
                sel == spec_selected_models(
                    files@,
                    opt_patterns_view(options.includes),
                    opt_patterns_view(options.excludes),
                ),
                spec_codec_from_name(spec_codec_name_of_format(encode_utf8(options.format@)))
                    == Some(kind),
                entries_model(selected@) =~= sel,
                forall|t: int|
                    0 <= t < j ==> spec_safe_path(#[trigger] selected@[t].path@),
            decreases m - j,
        {
            if !is_safe_path(selected[j].path.as_slice()) {
                proof {
                    assert(entries_model(selected@)[j as int] == selected@[j as int].model());
                    assert(!spec_safe_path(sel[j as int].0));
                }
                let mut msg = String::from_str("entry path escapes the destination root: ");
                let shown = crate::text::bytes_to_string_lossy(selected[j].path.as_slice());
                msg.append(shown.as_str());
                return Err(ExtractError::IntegrityFailure { details: msg });
            }
            j += 1;
        }
        proof {
            assert forall|t: int| 0 <= t < sel.len() implies spec_safe_path(
                #[trigger] sel[t].0,
            ) by {
                assert(entries_model(selected@)[t] == selected@[t].model());
            }
        }
        let tar = match build_tar(&selected) {
            Ok(t) => t,
            Err(e) => {
                return Err(e);
            },
        };
        let compressed = match kind.compress(tar.as_slice(), options.compression_level) {
            Ok(c) => c,
            Err(e) => {
                return Err(e);
            },
        };
        let report = CompressReport {
            files: selected.len() as u64,
            bytes_read: tar.len() as u64,
            bytes_written: compressed.len() as u64,
        };
        Ok((compressed, report))
    }
}

/// Round trip: an archive whose compressed stream decodes to the encoded
/// container of some well-formed, safely-named entries — which is exactly
/// what `compress` guarantees of its output — extracts, under any policy
/// whose checks pass on the decompressed stream, to exactly those
/// entries, path for path and byte for byte.
pub proof fn lemma_compress_extract_round_trip(
    codec: CodecKind,
    archive: Seq<u8>,
    entries: Seq<(Seq<u8>, Seq<u8>)>,
)
    requires
        codec_inflate(codec, archive) == Some(tar_encode(entries)),
        wf_entries(entries),
    ensures
        spec_sequential_entries(codec, archive) == Some(entries),
{
    crate::tarfmt::lemma_tar_round_trip(entries);
}

/// How many items of a sequence are present.
pub open spec fn count_some<T>(s: Seq<Option<T>>) -> nat
    decreases s.len(),
{
    if s.len() == 0 {
        0nat
    } else {
        count_some(s.drop_last()) + (if s.last() is Some {
            1nat
        } else {
            0nat
        })
    }
}

proof fn lemma_count_some_push<T>(s: Seq<Option<T>>, x: Option<T>)
    ensures
        count_some(s.push(x)) == count_some(s) + (if x is Some {
            1nat
        } else {
            0nat
        }),
{
    assert(s.push(x).drop_last() =~= s);
    assert(s.push(x).last() == x);
}

/// A batch item that is sure to extract: its bytes were readable, the
/// detected format names a registered sequential engine, and the stream
/// decodes cleanly, under the policy, to safely-named entries.
pub open spec fn spec_batch_item_extractable(
    cs: Seq<Container>,
    item: BatchArchiveInput,
    policy: crate::resilience::IntegrityPolicy,
) -> bool {
    &&& item.payload is Some
    &&& ({
        let p = item.payload->0@;
        let fmt = crate::format_detection::spec_detect_format(p, encode_utf8(item.path@));
        let found = spec_find(cs, encode_utf8(fmt.spec_name()));
        found matches Some(Container::Tar(t)) && codec_inflate(t.codec, p) is Some
            && spec_guard_clean(codec_inflate(t.codec, p)->0, policy) && tar_decode(
            codec_inflate(t.codec, p)->0,
        ) is Some && (forall|k: int|
            0 <= k < tar_decode(codec_inflate(t.codec, p)->0)->0.len() ==> spec_safe_path(
                #[trigger] tar_decode(codec_inflate(t.codec, p)->0)->0[k].0,
            ))
    })
}

/// The entries an extractable batch item decodes to: its payload is
/// decompressed with the codec of its detected format and the container
/// is decoded.
pub open spec fn spec_batch_item_entries(cs: Seq<Container>, item: BatchArchiveInput) -> Seq<
    (Seq<u8>, Seq<u8>),
> {
    let p = item.payload->0@;
    let fmt = crate::format_detection::spec_detect_format(p, encode_utf8(item.path@));
    let t = spec_find(cs, encode_utf8(fmt.spec_name()))->0->Tar_0;
    tar_decode(codec_inflate(t.codec, p)->0)->0
}

/// Entry count over the successful outputs.
pub open spec fn outputs_files_total(outs: Seq<Option<(Vec<FileEntry>, ExtractReport)>>) -> nat
    decreases outs.len(),
{
    if outs.len() == 0 {
        0nat
    } else {
        (outputs_files_total(outs.drop_last()) + (if outs.last() is Some {
            (outs.last()->0).1.entries as nat
        } else {
            0nat
        })) as nat
    }
}

/// Byte count over the successful outputs.
pub open spec fn outputs_bytes_total(outs: Seq<Option<(Vec<FileEntry>, ExtractReport)>>) -> nat
    decreases outs.len(),
{
    if outs.len() == 0 {
        0nat
    } else {
        (outputs_bytes_total(outs.drop_last()) + (if outs.last() is Some {
            (outs.last()->0).1.bytes_written as nat
        } else {
            0nat
        })) as nat
    }
}

/// Warning count over the successful outputs.
pub open spec fn outputs_warnings_total(outs: Seq<Option<(Vec<FileEntry>, ExtractReport)>>) -> nat
    decreases outs.len(),
{
    if outs.len() == 0 {
        0nat
    } else {
        (outputs_warnings_total(outs.drop_last()) + (if outs.last() is Some {
            (outs.last()->0).1.warnings@.len()
        } else {
            0nat
        })) as nat
    }
}

proof fn batch_item_errors_carry(
    outs0: Seq<Option<(Vec<FileEntry>, ExtractReport)>>,
    outs1: Seq<Option<(Vec<FileEntry>, ExtractReport)>>,
    errs0: Seq<String>,
    errs1: Seq<String>,
    archives: Seq<BatchArchiveInput>,
    i: int,
)
    requires
        0 <= i < archives.len(),
        outs0.len() == i,
        outs1.len() == i + 1,
        forall|t: int| 0 <= t < i ==> #[trigger] outs1[t] == outs0[t],
        errs0.len() <= errs1.len(),
        forall|j: int| 0 <= j < errs0.len() ==> #[trigger] errs1[j] == errs0[j],
        forall|t: int|
            0 <= t < i && #[trigger] outs0[t] is None ==> exists|j: int|
                0 <= j < errs0.len() && is_substring_chars(
                    archives[t].path@,
                    #[trigger] errs0[j]@,
                ),
        outs1[i] is None ==> exists|j: int|
            0 <= j < errs1.len() && is_substring_chars(archives[i].path@, #[trigger] errs1[j]@),
    ensures
        forall|t: int|
            0 <= t < outs1.len() && #[trigger] outs1[t] is None ==> exists|j: int|
                0 <= j < errs1.len() && is_substring_chars(
                    archives[t].path@,
                    #[trigger] errs1[j]@,
                ),
{
    assert forall|t: int| 0 <= t < outs1.len() && #[trigger] outs1[t] is None implies exists|
        j: int,
    | 0 <= j < errs1.len() && is_substring_chars(archives[t].path@, #[trigger] errs1[j]@) by {
        if t < i {
            assert(outs0[t] is None);
            let j0 = choose|j: int|
                0 <= j < errs0.len() && is_substring_chars(
                    archives[t].path@,
                    #[trigger] errs0[j]@,
                );
            assert(errs1[j0] == errs0[j0]);
            assert(is_substring_chars(archives[t].path@, errs1[j0]@));
        }
    }
}

/// The codec a batch item's own format string names.
pub open spec fn spec_item_codec(item: BatchCompressInput) -> Option<CodecKind> {
    spec_codec_from_name(spec_codec_name_of_format(encode_utf8(item.format@)))
}

/// The entries a batch item's files yield under the shared filters.
pub open spec fn spec_item_selected(item: BatchCompressInput, options: CompressOptions) -> Seq<
    (Seq<u8>, Seq<u8>),
> {
    spec_selected_models(
        item.files->0@,
        opt_patterns_view(options.includes),
        opt_patterns_view(options.excludes),
    )
}

/// A batch item that is sure to compress: its files were readable, its
/// format names a codec, and the kept entries fit the container format,
/// stay under the destination root, and (for the lz4 block format) fit
/// the 32-bit size prefix.
pub open spec fn spec_batch_item_compressible(
    item: BatchCompressInput,
    options: CompressOptions,
) -> bool {
    &&& item.files is Some
    &&& spec_item_codec(item) is Some
    &&& wf_entries(spec_item_selected(item, options))
    &&& forall|k: int|
        0 <= k < spec_item_selected(item, options).len() ==> spec_safe_path(
            #[trigger] spec_item_selected(item, options)[k].0,
        )
    &&& (spec_item_codec(item) == Some(CodecKind::Lz4) ==> tar_encode(
        spec_item_selected(item, options),
    ).len() < 0x1_0000_0000)
}

/// Entry count over the successful outputs, each item compressed from
/// its own files and format under the shared filters.
pub open spec fn bc_files_total(
    sources: Seq<BatchCompressInput>,
    outs: Seq<Option<Vec<u8>>>,
    options: CompressOptions,
) -> nat
    decreases outs.len(),
{
    if outs.len() == 0 {
        0nat
    } else {
        (bc_files_total(sources.drop_last(), outs.drop_last(), options) + (if outs.last()
            is Some {
            spec_item_selected(sources.last(), options).len()
        } else {
            0nat
        })) as nat
    }
}

/// Container bytes read over the successful outputs.
pub open spec fn bc_read_total(
    sources: Seq<BatchCompressInput>,
    outs: Seq<Option<Vec<u8>>>,
    options: CompressOptions,
) -> nat
    decreases outs.len(),
{
    if outs.len() == 0 {
        0nat
    } else {
        (bc_read_total(sources.drop_last(), outs.drop_last(), options) + (if outs.last()
            is Some {
            tar_encode(spec_item_selected(sources.last(), options)).len()
        } else {
            0nat
        })) as nat
    }
}

/// Archive bytes written over the successful outputs.
pub open spec fn bc_written_total(outs: Seq<Option<Vec<u8>>>) -> nat
    decreases outs.len(),
{
    if outs.len() == 0 {
        0nat
    } else {
        (bc_written_total(outs.drop_last()) + (if outs.last() is Some {
            (outs.last()->0)@.len()
        } else {
            0nat
        })) as nat
    }
}

/// Selection reads only each file's entry value, so it carries over to
/// any file list with the same entry values.
proof fn lemma_selected_models_by_model(
    a: Seq<SourceFile>,
    b: Seq<SourceFile>,
    inc: Option<Seq<String>>,
    exc: Option<Seq<String>>,
)
    requires
        a.len() == b.len(),
        forall|i: int| 0 <= i < a.len() ==> #[trigger] a[i].model() == b[i].model(),
    ensures
        spec_selected_models(a, inc, exc) == spec_selected_models(b, inc, exc),
    decreases a.len(),
{
    if a.len() > 0 {
        assert(forall|i: int|
            0 <= i < a.drop_last().len() ==> #[trigger] a.drop_last()[i].model()
                == b.drop_last()[i].model());
        lemma_selected_models_by_model(a.drop_last(), b.drop_last(), inc, exc);
        assert(a.last().model() == b.last().model());
        assert(encode_utf8(a.last().rel_path@) == a.last().model().0);
        assert(encode_utf8(b.last().rel_path@) == b.last().model().0);
        assert(spec_selected(a.last(), inc, exc) == spec_selected(b.last(), inc, exc));
    }
}

proof fn batch_source_errors_carry(
    outs0: Seq<Option<Vec<u8>>>,
    outs1: Seq<Option<Vec<u8>>>,
    errs0: Seq<String>,
    errs1: Seq<String>,
    sources: Seq<BatchCompressInput>,
    i: int,
)
    requires
        0 <= i < sources.len(),
        outs0.len() == i,
        outs1.len() == i + 1,
        forall|t: int| 0 <= t < i ==> #[trigger] outs1[t] == outs0[t],
        errs0.len() <= errs1.len(),
        forall|j: int| 0 <= j < errs0.len() ==> #[trigger] errs1[j] == errs0[j],
        forall|t: int|
            0 <= t < i && #[trigger] outs0[t] is None ==> exists|j: int|
                0 <= j < errs0.len() && is_substring_chars(
                    sources[t].source@,
                    #[trigger] errs0[j]@,
                ),
        outs1[i] is None ==> exists|j: int|
            0 <= j < errs1.len() && is_substring_chars(sources[i].source@, #[trigger] errs1[j]@),
    ensures
        forall|t: int|
            0 <= t < outs1.len() && #[trigger] outs1[t] is None ==> exists|j: int|
                0 <= j < errs1.len() && is_substring_chars(
                    sources[t].source@,
                    #[trigger] errs1[j]@,
                ),
{
    assert forall|t: int| 0 <= t < outs1.len() && #[trigger] outs1[t] is None implies exists|
        j: int,
    | 0 <= j < errs1.len() && is_substring_chars(sources[t].source@, #[trigger] errs1[j]@) by {
        if t < i {
            assert(outs0[t] is None);
            let j0 = choose|j: int|
                0 <= j < errs0.len() && is_substring_chars(
                    sources[t].source@,
                    #[trigger] errs0[j]@,
                );
            assert(errs1[j0] == errs0[j0]);
            assert(is_substring_chars(sources[t].source@, errs1[j0]@));
        }
    }
}

impl Extractor {
    /// Extract many archives, isolating each item's failure from the
    /// rest.
    ///
    /// Every item is processed: its format auto-detected from content
    /// and name, the archive extracted, and the outcome folded into the
    /// aggregate report.  An unreadable input, an unknown format or a
    /// failed extraction fails that item alone; the success and failure
    /// counts always sum to the input length, and every failed item
    /// leaves an error entry that carries its path.  Warnings of
    /// successful items are folded into the error list for visibility
    /// without marking the item failed.
    pub fn batch_extract(&self, archives: Vec<BatchArchiveInput>, options: &ExtractOptions) -> (r:
        (BatchExtractReport, Vec<Option<(Vec<FileEntry>, ExtractReport)>>))
        ensures
            r.0.total_archives == archives@.len(),
            r.0.successful + r.0.failed == r.0.total_archives,
            r.1@.len() == archives@.len(),
            r.0.successful == count_some(r.1@),
            r.0.total_files == crate::containers::clamp_u64(outputs_files_total(r.1@) as int),
            r.0.total_bytes == crate::containers::clamp_u64(outputs_bytes_total(r.1@) as int),
            r.0.errors@.len() == r.0.failed + outputs_warnings_total(r.1@),
            forall|i: int, w: int|
                0 <= i < archives@.len() && r.1@[i] is Some && 0 <= w < (
                r.1@[i]->0).1.warnings@.len() ==> exists|j: int|
                    0 <= j < r.0.errors@.len() && #[trigger] r.0.errors@[j]@ == archives@[i].path@
                        + ": "@ + #[trigger] (r.1@[i]->0).1.warnings@[w]@,
            forall|i: int|
                0 <= i < archives@.len() && archives@[i].payload is None ==> #[trigger] r.1@[i]
                    is None,
            forall|i: int|
                0 <= i < archives@.len() && spec_batch_item_extractable(
                    self.containers@,
                    archives@[i],
                    options.integrity,
                ) ==> (#[trigger] r.1@[i] is Some && entries_model((r.1@[i]->0).0@)
                    == spec_batch_item_entries(self.containers@, archives@[i])
                    && (r.1@[i]->0).1.entries == spec_batch_item_entries(
                    self.containers@,
                    archives@[i],
                ).len() && (r.1@[i]->0).1.warnings@.len() == 0),
            forall|i: int|
                0 <= i < archives@.len() && #[trigger] r.1@[i] is None ==> exists|j: int|
                    0 <= j < r.0.errors@.len() && is_substring_chars(
                        archives@[i].path@,
                        #[trigger] r.0.errors@[j]@,
                    ),
    {
        let n = archives.len();
        let mut outputs: Vec<Option<(Vec<FileEntry>, ExtractReport)>> = Vec::new();
        let mut errors: Vec<String> = Vec::new();
        let mut successful: u64 = 0;
        let mut failed: u64 = 0;
        let mut total_files: u64 = 0;
        let mut total_bytes: u64 = 0;
        let mut i: usize = 0;
        while i < n
            invariant
                n == archives@.len(),
                i <= n,
                outputs@.len() == i,
                successful == count_some(outputs@),
                successful + failed == i,
                total_files == crate::containers::clamp_u64(outputs_files_total(outputs@) as int),
                total_bytes == crate::containers::clamp_u64(outputs_bytes_total(outputs@) as int),
                errors@.len() == failed + outputs_warnings_total(outputs@),
                forall|t: int, w: int|
                    0 <= t < i && outputs@[t] is Some && 0 <= w < (
                    outputs@[t]->0).1.warnings@.len() ==> exists|j: int|
                        0 <= j < errors@.len() && #[trigger] errors@[j]@ == archives@[t].path@
                            + ": "@ + #[trigger] (outputs@[t]->0).1.warnings@[w]@,
                forall|t: int|
                    0 <= t < i && archives@[t].payload is None ==> #[trigger] outputs@[t] is None,
                forall|t: int|
                    0 <= t < i && spec_batch_item_extractable(
                        self.containers@,
                        #[trigger] archives@[t],
                        options.integrity,
                    ) ==> (outputs@[t] is Some && entries_model((outputs@[t]->0).0@)
                        == spec_batch_item_entries(self.containers@, archives@[t])
                        && (outputs@[t]->0).1.entries == spec_batch_item_entries(
                        self.containers@,
                        archives@[t],
                    ).len() && (outputs@[t]->0).1.warnings@.len() == 0),
                forall|t: int|
                    0 <= t < i && #[trigger] outputs@[t] is None ==> exists|j: int|
                        0 <= j < errors@.len() && is_substring_chars(
                            archives@[t].path@,
                            #[trigger] errors@[j]@,
                        ),
            decreases n - i,
        {
            let ghost errs0 = errors@;
            let ghost outs0 = outputs@;
            let item = &archives[i];
            match &item.payload {
                Option::None => {
                    let mut msg = item.path.clone();
                    msg.append(": failed to open input");
                    let ghost msgv = msg@;
                    proof {
                        assert(msgv.subrange(0, archives@[i as int].path@.len() as int)
                            =~= archives@[i as int].path@);
                    }
                    errors.push(msg);
                    failed += 1;
                    outputs.push(None);
                    proof {
                        lemma_count_some_push(outs0, None::<(Vec<FileEntry>, ExtractReport)>);
                        assert(outputs@.drop_last() =~= outs0);
                        assert(outputs_files_total(outputs@) == outputs_files_total(outs0));
                        assert(outputs_bytes_total(outputs@) == outputs_bytes_total(outs0));
                        assert(outputs_warnings_total(outputs@) == outputs_warnings_total(outs0));
                        assert forall|t: int, w: int|
                            0 <= t < outputs@.len() && outputs@[t] is Some && 0 <= w < (
                            outputs@[t]->0).1.warnings@.len() implies exists|j: int|
                            0 <= j < errors@.len() && #[trigger] errors@[j]@ == archives@[t].path@
                                + ": "@ + #[trigger] (outputs@[t]->0).1.warnings@[w]@ by {
                            if t < outputs@.len() - 1 {
                                assert(outputs@[t] == outs0[t]);
                                let j0 = choose|j: int|
                                    0 <= j < errs0.len() && #[trigger] errs0[j]@ == archives@[
                                    t].path@ + ": "@ + (outs0[t]->0).1.warnings@[w]@;
                                assert(errors@[j0] == errs0[j0]);
                            }
                        }
                        assert(errors@[errors@.len() - 1]@ == msgv);
                        crate::text::lemma_prefix_is_substring_chars(
                            archives@[i as int].path@,
                            msgv,
                        );
                        batch_item_errors_carry(outs0, outputs@, errs0, errors@, archives@, i as int);
                    }
                },
                Option::Some(payload_ref) => {
                    let fmt = detect_format(payload_ref.as_slice(), item.path.as_str());
                    let fname = fmt.as_str();
                    let data = crate::text::copy_byte_slice(payload_ref.as_slice());
                    match self.extract(fname, data, options) {
                        Ok(extraction) => {
                            let (entries, rep) = extraction;
                            proof {
                                if spec_batch_item_extractable(
                                    self.containers@,
                                    archives@[i as int],
                                    options.integrity,
                                ) {
                                    // the engine's contract pins this
                                    // item's entries exactly
                                    assert(entries_model(entries@) == spec_batch_item_entries(
                                        self.containers@,
                                        archives@[i as int],
                                    ));
                                    assert(rep.entries == entries@.len());
                                    assert(rep.warnings@.len() == 0);
                                }
                            }
                            successful += 1;
                            total_files = add_saturating(total_files, rep.entries);
                            total_bytes = add_saturating(total_bytes, rep.bytes_written);
                            let wn = rep.warnings.len();
                            let mut w: usize = 0;
                            while w < wn
                                invariant
                                    wn == rep.warnings@.len(),
                                    w <= wn,
                                    errors@.len() == errs0.len() + w,
                                    item == archives@[i as int],
                                    i < archives@.len(),
                                    forall|j: int|
                                        0 <= j < errs0.len() ==> #[trigger] errors@[j]
                                            == errs0[j],
                                    forall|w2: int|
                                        0 <= w2 < w ==> exists|j: int|
                                            0 <= j < errors@.len() && #[trigger] errors@[j]@
                                                == archives@[i as int].path@ + ": "@
                                                + #[trigger] rep.warnings@[w2]@,
                                decreases wn - w,
                            {
                                let ghost ew0 = errors@;
                                let mut msg = item.path.clone();
                                msg.append(": ");
                                msg.append(rep.warnings[w].as_str());
                                let ghost msgv = msg@;
                                errors.push(msg);
                                proof {
                                    assert(errors@[errors@.len() - 1]@ == msgv);
                                    assert(msgv == archives@[i as int].path@ + ": "@
                                        + rep.warnings@[w as int]@);
                                    assert forall|w2: int| 0 <= w2 < w + 1 implies exists|j: int|
                                        0 <= j < errors@.len() && #[trigger] errors@[j]@
                                            == archives@[i as int].path@ + ": "@
                                            + #[trigger] rep.warnings@[w2]@ by {
                                        if w2 < w {
                                            let j0 = choose|j: int|
                                                0 <= j < ew0.len() && #[trigger] ew0[j]@
                                                    == archives@[i as int].path@ + ": "@
                                                    + rep.warnings@[w2]@;
                                            assert(errors@[j0] == ew0[j0]);
                                        } else {
                                            assert(errors@[errors@.len() - 1]@ == archives@[
                                                i as int].path@ + ": "@ + rep.warnings@[w2]@);
                                        }
                                    }
                                }
                                w += 1;
                            }
                            let ghost repw = rep.warnings@;
                            outputs.push(Some((entries, rep)));
                            proof {
                                lemma_count_some_push(outs0, outputs@.last());
                                assert(outputs@ =~= outs0.push(outputs@.last()));
                                assert(outputs@.drop_last() =~= outs0);
                                assert forall|t: int, w: int|
                                    0 <= t < outputs@.len() && outputs@[t] is Some && 0 <= w < (
                                    outputs@[t]->0).1.warnings@.len() implies exists|j: int|
                                    0 <= j < errors@.len() && #[trigger] errors@[j]@ == archives@[
                                    t].path@ + ": "@ + #[trigger] (
                                outputs@[t]->0).1.warnings@[w]@ by {
                                    if t < outputs@.len() - 1 {
                                        assert(outputs@[t] == outs0[t]);
                                        let j0 = choose|j: int|
                                            0 <= j < errs0.len() && #[trigger] errs0[j]@
                                                == archives@[t].path@ + ": "@ + (
                                            outs0[t]->0).1.warnings@[w]@;
                                        assert(errors@[j0] == errs0[j0]);
                                    } else {
                                        assert((outputs@[t]->0).1.warnings@ == repw);
                                        let j0 = choose|j: int|
                                            0 <= j < errors@.len() && #[trigger] errors@[j]@
                                                == archives@[i as int].path@ + ": "@ + repw[w]@;
                                        assert(errors@[j0]@ == archives@[t].path@ + ": "@ + (
                                        outputs@[t]->0).1.warnings@[w]@);
                                    }
                                }
                                assert(outputs_files_total(outputs@) == outputs_files_total(outs0)
                                    + (outputs@.last()->0).1.entries);
                                assert(outputs_bytes_total(outputs@) == outputs_bytes_total(outs0)
                                    + (outputs@.last()->0).1.bytes_written);
                                assert(outputs_warnings_total(outputs@) == outputs_warnings_total(
                                    outs0,
                                ) + (outputs@.last()->0).1.warnings@.len());
                                batch_item_errors_carry(outs0, outputs@, errs0, errors@, archives@, i as int);
                            }
                        },
                        Err(e) => {
                            proof {
                                // an item meeting the extractable
                                // conditions cannot have failed
                                if spec_batch_item_extractable(
                                    self.containers@,
                                    archives@[i as int],
                                    options.integrity,
                                ) {
                                    assert(false);
                                }
                            }
                            let mut msg = item.path.clone();
                            msg.append(": ");
                            let detail = e.message();
                            msg.append(detail.as_str());
                            let ghost msgv = msg@;
                            proof {
                                assert(msgv.subrange(0, archives@[i as int].path@.len() as int)
                                    =~= archives@[i as int].path@);
                            }
                            errors.push(msg);
                            failed += 1;
                            outputs.push(None);
                            proof {
                                lemma_count_some_push(
                                    outs0,
                                    None::<(Vec<FileEntry>, ExtractReport)>,
                                );
                                assert(outputs@.drop_last() =~= outs0);
                                assert(outputs_files_total(outputs@) == outputs_files_total(
                                    outs0,
                                ));
                                assert(outputs_bytes_total(outputs@) == outputs_bytes_total(
                                    outs0,
                                ));
                                assert(outputs_warnings_total(outputs@) == outputs_warnings_total(
                                    outs0,
                                ));
                                assert forall|t: int, w: int|
                                    0 <= t < outputs@.len() && outputs@[t] is Some && 0 <= w < (
                                    outputs@[t]->0).1.warnings@.len() implies exists|j: int|
                                    0 <= j < errors@.len() && #[trigger] errors@[j]@ == archives@[
                                    t].path@ + ": "@ + #[trigger] (
                                outputs@[t]->0).1.warnings@[w]@ by {
                                    if t < outputs@.len() - 1 {
                                        assert(outputs@[t] == outs0[t]);
                                        let j0 = choose|j: int|
                                            0 <= j < errs0.len() && #[trigger] errs0[j]@
                                                == archives@[t].path@ + ": "@ + (
                                            outs0[t]->0).1.warnings@[w]@;
                                        assert(errors@[j0] == errs0[j0]);
                                    }
                                }
                                assert(errors@[errors@.len() - 1]@ == msgv);
                                crate::text::lemma_prefix_is_substring_chars(
                            archives@[i as int].path@,
                            msgv,
                        );
                                batch_item_errors_carry(outs0, outputs@, errs0, errors@, archives@, i as int);
                            }
                        },
                    }
                },
            }
            i += 1;
        }
        let ghost final_errs = errors@;
        let ghost final_outs = outputs@;
        let report = BatchExtractReport {
            total_archives: n as u64,
            successful,
            failed,
            total_files,
            total_bytes,
            errors,
        };
        let result = (report, outputs);
        proof {
            assert(result.0.errors@ == final_errs);
            assert(result.1@ == final_outs);
            assert forall|t: int|
                0 <= t < result.1@.len() && #[trigger] result.1@[t] is None implies exists|j: int|
                    0 <= j < result.0.errors@.len() && is_substring_chars(
                        archives@[t].path@,
                        #[trigger] result.0.errors@[j]@,
                    ) by {
                assert(final_outs[t] is None);
                let j0 = choose|j: int|
                    0 <= j < final_errs.len() && is_substring_chars(
                        archives@[t].path@,
                        #[trigger] final_errs[j]@,
                    );
                assert(result.0.errors@[j0]@ == final_errs[j0]@);
                assert(is_substring_chars(archives@[t].path@, result.0.errors@[j0]@));
            }
            assert forall|t: int, w: int|
                0 <= t < result.1@.len() && result.1@[t] is Some && 0 <= w < (
                result.1@[t]->0).1.warnings@.len() implies exists|j: int|
                0 <= j < result.0.errors@.len() && #[trigger] result.0.errors@[j]@ == archives@[
                t].path@ + ": "@ + #[trigger] (result.1@[t]->0).1.warnings@[w]@ by {
                assert(result.1@[t] == final_outs[t]);
                let j0 = choose|j: int|
                    0 <= j < final_errs.len() && #[trigger] final_errs[j]@ == archives@[t].path@
                        + ": "@ + (final_outs[t]->0).1.warnings@[w]@;
                assert(result.0.errors@[j0]@ == final_errs[j0]@);
            }
            assert forall|t: int|
                0 <= t < result.1@.len() && spec_batch_item_extractable(
                    self.containers@,
                    #[trigger] archives@[t],
                    options.integrity,
                ) implies (result.1@[t] is Some && entries_model((result.1@[t]->0).0@)
                == spec_batch_item_entries(self.containers@, archives@[t])
                && (result.1@[t]->0).1.entries == spec_batch_item_entries(
                self.containers@,
                archives@[t],
            ).len() && (result.1@[t]->0).1.warnings@.len() == 0) by {
                assert(final_outs[t] is Some);
                assert(result.1@[t] == final_outs[t]);
            }
        }
        result
    }

    /// Compress many sources, isolating each item's failure from the
    /// rest; the counts always sum to the input length and every failed
    /// item leaves an error entry carrying its source path.
    pub fn batch_compress(&self, sources: Vec<BatchCompressInput>, options: &CompressOptions) -> (r:
        (BatchCompressReport, Vec<Option<Vec<u8>>>))
        ensures
            r.0.total_sources == sources@.len(),
            r.0.successful + r.0.failed == r.0.total_sources,
            r.1@.len() == sources@.len(),
            r.0.successful == count_some(r.1@),
            r.0.total_files == crate::containers::clamp_u64(
                bc_files_total(sources@, r.1@, *options) as int,
            ),
            r.0.total_bytes_read == crate::containers::clamp_u64(
                bc_read_total(sources@, r.1@, *options) as int,
            ),
            r.0.total_bytes_written == crate::containers::clamp_u64(
                bc_written_total(r.1@) as int,
            ),
            r.0.errors@.len() == r.0.failed,
            forall|i: int|
                0 <= i < sources@.len() && sources@[i].files is None ==> #[trigger] r.1@[i]
                    is None,
            forall|i: int|
                0 <= i < sources@.len() && spec_batch_item_compressible(sources@[i], *options)
                    ==> #[trigger] r.1@[i] is Some,
            forall|i: int|
                0 <= i < sources@.len() && #[trigger] r.1@[i] is Some ==> (sources@[i].files
                    is Some && spec_item_codec(sources@[i]) is Some && codec_inflate(
                    spec_item_codec(sources@[i])->0,
                    (r.1@[i]->0)@,
                ) == Some(tar_encode(spec_item_selected(sources@[i], *options)))),
            forall|i: int|
                0 <= i < sources@.len() && #[trigger] r.1@[i] is None ==> exists|j: int|
                    0 <= j < r.0.errors@.len() && is_substring_chars(
                        sources@[i].source@,
                        #[trigger] r.0.errors@[j]@,
                    ),
    {
        let n = sources.len();
        let mut outputs: Vec<Option<Vec<u8>>> = Vec::new();
        let mut errors: Vec<String> = Vec::new();
        let mut successful: u64 = 0;
        let mut failed: u64 = 0;
        let mut total_files: u64 = 0;
        let mut total_bytes_read: u64 = 0;
        let mut total_bytes_written: u64 = 0;
        let mut i: usize = 0;
        while i < n
            invariant
                n == sources@.len(),
                i <= n,
                outputs@.len() == i,
                successful == count_some(outputs@),
                successful + failed == i,
                total_files == crate::containers::clamp_u64(
                    bc_files_total(sources@.take(i as int), outputs@, *options) as int,
                ),
                total_bytes_read == crate::containers::clamp_u64(
                    bc_read_total(sources@.take(i as int), outputs@, *options) as int,
                ),
                total_bytes_written == crate::containers::clamp_u64(
                    bc_written_total(outputs@) as int,
                ),
                errors@.len() == failed,
                forall|t: int|
                    0 <= t < i && sources@[t].files is None ==> #[trigger] outputs@[t] is None,
                forall|t: int|
                    0 <= t < i && spec_batch_item_compressible(#[trigger] sources@[t], *options)
                        ==> outputs@[t] is Some,
                forall|t: int|
                    0 <= t < i && #[trigger] outputs@[t] is Some ==> (sources@[t].files is Some
                        && spec_item_codec(sources@[t]) is Some && codec_inflate(
                        spec_item_codec(sources@[t])->0,
                        (outputs@[t]->0)@,
                    ) == Some(tar_encode(spec_item_selected(sources@[t], *options)))),
                forall|t: int|
                    0 <= t < i && #[trigger] outputs@[t] is None ==> exists|j: int|
                        0 <= j < errors@.len() && is_substring_chars(
                            sources@[t].source@,
                            #[trigger] errors@[j]@,
                        ),
            decreases n - i,
        {
            let ghost errs0 = errors@;
            let ghost outs0 = outputs@;
            let item = &sources[i];
            match &item.files {
                Option::None => {
                    let mut msg = item.source.clone();
                    msg.append(": failed to read source");
                    let ghost msgv = msg@;
                    proof {
                        assert(msgv.subrange(0, sources@[i as int].source@.len() as int)
                            =~= sources@[i as int].source@);
                    }
                    errors.push(msg);
                    failed += 1;
                    outputs.push(None);
                    proof {
                        lemma_count_some_push(outs0, None::<Vec<u8>>);
                        assert(outputs@.drop_last() =~= outs0);
                        assert(sources@.take(i + 1).drop_last() =~= sources@.take(i as int));
                        assert(bc_files_total(sources@.take(i + 1), outputs@, *options)
                            == bc_files_total(sources@.take(i as int), outs0, *options));
                        assert(bc_read_total(sources@.take(i + 1), outputs@, *options)
                            == bc_read_total(sources@.take(i as int), outs0, *options));
                        assert(bc_written_total(outputs@) == bc_written_total(outs0));
                        assert(errors@[errors@.len() - 1]@ == msgv);
                        crate::text::lemma_prefix_is_substring_chars(
                            sources@[i as int].source@,
                            msgv,
                        );
                        batch_source_errors_carry(outs0, outputs@, errs0, errors@, sources@, i as int);
                    }
                },
                Option::Some(files_ref) => {
                    let files = copy_source_files(files_ref);
                    let ghost files0 = files@;
                    let per_item = CompressOptions {
                        source: item.source.clone(),
                        destination: item.destination.clone(),
                        format: item.format.clone(),
                        compression_level: options.compression_level,
                        includes: clone_opt_strings(&options.includes),
                        excludes: clone_opt_strings(&options.excludes),
                    };
                    proof {
                        // the per-item options carry the same format and
                        // the same filter patterns, and the copied files
                        // carry the same entries
                        assert(opt_patterns_view(per_item.includes) == opt_patterns_view(
                            options.includes,
                        ));
                        assert(opt_patterns_view(per_item.excludes) == opt_patterns_view(
                            options.excludes,
                        ));
                        assert(per_item.format@ == sources@[i as int].format@);
                        lemma_selected_models_by_model(
                            files0,
                            sources@[i as int].files->0@,
                            opt_patterns_view(options.includes),
                            opt_patterns_view(options.excludes),
                        );
                    }
                    match self.compress(files, &per_item) {
                        Ok(done) => {
                            let (archive, rep) = done;
                            proof {
                                assert(spec_item_codec(sources@[i as int]) is Some);
                                assert(codec_inflate(
                                    spec_item_codec(sources@[i as int])->0,
                                    archive@,
                                ) == Some(
                                    tar_encode(spec_item_selected(sources@[i as int], *options)),
                                ));
                                assert(rep.files == spec_item_selected(
                                    sources@[i as int],
                                    *options,
                                ).len());
                                assert(rep.bytes_read == tar_encode(
                                    spec_item_selected(sources@[i as int], *options),
                                ).len());
                                assert(rep.bytes_written == archive@.len());
                            }
                            successful += 1;
                            total_files = add_saturating(total_files, rep.files);
                            total_bytes_read = add_saturating(total_bytes_read, rep.bytes_read);
                            total_bytes_written = add_saturating(
                                total_bytes_written,
                                rep.bytes_written,
                            );
                            outputs.push(Some(archive));
                            proof {
                                lemma_count_some_push(outs0, outputs@.last());
                                assert(outputs@ =~= outs0.push(outputs@.last()));
                                assert(outputs@.drop_last() =~= outs0);
                                assert(sources@.take(i + 1).drop_last() =~= sources@.take(
                                    i as int,
                                ));
                                assert(sources@.take(i + 1).last() == sources@[i as int]);
                                assert(bc_files_total(sources@.take(i + 1), outputs@, *options)
                                    == bc_files_total(sources@.take(i as int), outs0, *options)
                                    + spec_item_selected(sources@[i as int], *options).len());
                                assert(bc_read_total(sources@.take(i + 1), outputs@, *options)
                                    == bc_read_total(sources@.take(i as int), outs0, *options)
                                    + tar_encode(
                                    spec_item_selected(sources@[i as int], *options),
                                ).len());
                                assert(bc_written_total(outputs@) == bc_written_total(outs0) + (
                                outputs@.last()->0)@.len());
                                batch_source_errors_carry(outs0, outputs@, errs0, errors@, sources@, i as int);
                            }
                        },
                        Err(e) => {
                            proof {
                                // an item meeting the compressible
                                // conditions cannot have failed
                                if spec_batch_item_compressible(sources@[i as int], *options) {
                                    assert(false);
                                }
                            }
                            let mut msg = item.source.clone();
                            msg.append(": ");
                            let detail = e.message();
                            msg.append(detail.as_str());
                            let ghost msgv = msg@;
                            proof {
                                assert(msgv.subrange(0, sources@[i as int].source@.len() as int)
                                    =~= sources@[i as int].source@);
                            }
                            errors.push(msg);
                            failed += 1;
                            outputs.push(None);
                            proof {
                                lemma_count_some_push(outs0, None::<Vec<u8>>);
                                assert(outputs@.drop_last() =~= outs0);
                                assert(sources@.take(i + 1).drop_last() =~= sources@.take(
                                    i as int,
                                ));
                                assert(bc_files_total(sources@.take(i + 1), outputs@, *options)
                                    == bc_files_total(sources@.take(i as int), outs0, *options));
                                assert(bc_read_total(sources@.take(i + 1), outputs@, *options)
                                    == bc_read_total(sources@.take(i as int), outs0, *options));
                                assert(bc_written_total(outputs@) == bc_written_total(outs0));
                                assert(errors@[errors@.len() - 1]@ == msgv);
                                crate::text::lemma_prefix_is_substring_chars(
                            sources@[i as int].source@,
                            msgv,
                        );
                                batch_source_errors_carry(outs0, outputs@, errs0, errors@, sources@, i as int);
                            }
                        },
                    }
                },
            }
            i += 1;
        }
        proof {
            assert(sources@.take(n as int) =~= sources@);
        }
        let ghost final_errs = errors@;
        let ghost final_outs = outputs@;
        let report = BatchCompressReport {
            total_sources: n as u64,
            successful,
            failed,
            total_files,
            total_bytes_read,
            total_bytes_written,
            errors,
        };
        let result = (report, outputs);
        proof {
            assert(result.0.errors@ == final_errs);
            assert(result.1@ == final_outs);
            assert forall|t: int|
                0 <= t < result.1@.len() && #[trigger] result.1@[t] is None implies exists|j: int|
                    0 <= j < result.0.errors@.len() && is_substring_chars(
                        sources@[t].source@,
                        #[trigger] result.0.errors@[j]@,
                    ) by {
                assert(final_outs[t] is None);
                let j0 = choose|j: int|
                    0 <= j < final_errs.len() && is_substring_chars(
                        sources@[t].source@,
                        #[trigger] final_errs[j]@,
                    );
                assert(result.0.errors@[j0]@ == final_errs[j0]@);
                assert(is_substring_chars(sources@[t].source@, result.0.errors@[j0]@));
            }
            assert forall|t: int|
                0 <= t < result.1@.len() && spec_batch_item_compressible(
                    #[trigger] sources@[t],
                    *options,
                ) implies result.1@[t] is Some by {
                assert(final_outs[t] is Some);
                assert(result.1@[t] == final_outs[t]);
            }
            assert forall|t: int|
                0 <= t < result.1@.len() && #[trigger] result.1@[t] is Some implies (
            sources@[t].files is Some && spec_item_codec(sources@[t]) is Some && codec_inflate(
                spec_item_codec(sources@[t])->0,
                (result.1@[t]->0)@,
            ) == Some(tar_encode(spec_item_selected(sources@[t], *options)))) by {
                assert(result.1@[t] == final_outs[t]);
                assert(final_outs[t] is Some);
            }
        }
        result
    }
}

/// u64 addition saturating at the top of the range.
fn add_saturating(a: u64, b: u64) -> (r: u64)
    ensures
        r == if a + b > u64::MAX {
            u64::MAX
        } else {
            (a + b) as u64
        },
{
    if a > u64::MAX - b {
        u64::MAX
    } else {
        a + b
    }
}

/// Clone an optional pattern list; the clone carries the same strings.
fn clone_opt_strings(ov: &Option<Vec<String>>) -> (r: Option<Vec<String>>)
    ensures
        r is Some <==> ov is Some,
        r is Some ==> r->0@ == ov->0@,
{
    match ov {
        Option::None => None,
        Option::Some(v) => {
            let n = v.len();
            let mut out: Vec<String> = Vec::new();
            let mut i: usize = 0;
            while i < n
                invariant
                    n == v@.len(),
                    i <= n,
                    out@ == v@.subrange(0, i as int),
                decreases n - i,
            {
                out.push(v[i].clone());
                proof {
                    assert(out@ =~= v@.subrange(0, i + 1));
                }
                i += 1;
            }
            proof {
                assert(out@ =~= v@);
            }
            Some(out)
        },
    }
}

/// Copy a file list; each copy carries the same path and bytes.
fn copy_source_files(v: &Vec<SourceFile>) -> (r: Vec<SourceFile>)
    ensures
        r@.len() == v@.len(),
        forall|i: int| 0 <= i < v@.len() ==> #[trigger] r@[i].model() == v@[i].model(),
{
    let n = v.len();
    let mut out: Vec<SourceFile> = Vec::new();
    let mut i: usize = 0;
    while i < n
        invariant
            n == v@.len(),
            i <= n,
            out@.len() == i,
            forall|j: int| 0 <= j < i ==> #[trigger] out@[j].model() == v@[j].model(),
        decreases n - i,
    {
        let f = &v[i];
        out.push(
            SourceFile {
                rel_path: f.rel_path.clone(),
                data: crate::text::copy_byte_slice(f.data.as_slice()),
            },
        );
        i += 1;
    }
    out
}

/// The bytes naming the codec inside a format string: the part between
/// the first dot and the next, or the whole string if it has no dot.
pub open spec fn spec_first_dot(s: Seq<u8>) -> int
    decreases s.len(),
{
    if s.len() == 0 {
        0
    } else if s[0] == 46 {
        0
    } else {
        1 + spec_first_dot(s.drop_first())
    }
}

pub open spec fn spec_codec_name_of_format(fmt: Seq<u8>) -> Seq<u8> {
    let d1 = spec_first_dot(fmt);
    if d1 == fmt.len() {
        fmt
    } else {
        let rest = fmt.subrange(d1 + 1, fmt.len() as int);
        rest.subrange(0, spec_first_dot(rest))
    }
}

proof fn lemma_first_dot(s: Seq<u8>, k: int)
    requires
        0 <= k <= s.len(),
        forall|i: int| 0 <= i < k ==> s[i] != 46,
        k < s.len() ==> s[k] == 46,
    ensures
        spec_first_dot(s) == k,
    decreases k,
{
    if k > 0 {
        lemma_first_dot(s.drop_first(), k - 1);
    }
}

/// Derive the codec name from a `container.codec` style format string.
fn codec_name_bytes_of_format(format: &str) -> (r: Vec<u8>)
    ensures
        r@ == spec_codec_name_of_format(format.spec_bytes()),
{
    let bytes = format.as_bytes();
    let n = bytes.len();
    let mut d1: usize = 0;
    while d1 < n && bytes[d1] != 46
        invariant
            n == bytes@.len(),
            d1 <= n,
            forall|i: int| 0 <= i < d1 ==> bytes@[i] != 46,
        decreases n - d1,
    {
        d1 += 1;
    }
    proof {
        lemma_first_dot(bytes@, d1 as int);
    }
    if d1 == n {
        return crate::text::copy_byte_slice(bytes);
    }
    let start = d1 + 1;
    let mut d2: usize = start;
    while d2 < n && bytes[d2] != 46
        invariant
            n == bytes@.len(),
            start <= d2 <= n,
            forall|i: int| start <= i < d2 ==> bytes@[i] != 46,
        decreases n - d2,
    {
        d2 += 1;
    }
    let ghost rest = bytes@.subrange(start as int, n as int);
    proof {
        assert(forall|i: int| 0 <= i < d2 - start ==> rest[i] == bytes@[start + i]);
        lemma_first_dot(rest, d2 - start);
    }
    let mut out: Vec<u8> = Vec::new();
    let mut i: usize = start;
    while i < d2
        invariant
            start <= i <= d2 <= n,
            n == bytes@.len(),
            out@ == bytes@.subrange(start as int, i as int),
        decreases d2 - i,
    {
        out.push(bytes[i]);
        proof {
            assert(out@ =~= bytes@.subrange(start as int, i + 1));
        }
        i += 1;
    }
    proof {
        assert(out@ =~= rest.subrange(0, spec_first_dot(rest)));
    }
    out
}

/// Whether any pattern occurs inside the path, bytewise.
pub open spec fn spec_matches_any(path_bytes: Seq<u8>, pats: Seq<String>) -> bool {
    exists|j: int|
        0 <= j < pats.len() && is_substring_of(encode_utf8(#[trigger] pats[j]@), path_bytes)
}

/// The pattern lists of a filter option, as sequences of strings.
pub open spec fn opt_patterns_view(o: Option<Vec<String>>) -> Option<Seq<String>> {
    match o {
        Option::None => None,
        Option::Some(v) => Some(v@),
    }
}

/// A file passes the filters: it matches some inclusion pattern (if any
/// are given) and no exclusion pattern.
pub open spec fn spec_selected(
    f: SourceFile,
    inc: Option<Seq<String>>,
    exc: Option<Seq<String>>,
) -> bool {
    &&& (inc is Some ==> spec_matches_any(encode_utf8(f.rel_path@), inc->0))
    &&& (exc is Some ==> !spec_matches_any(encode_utf8(f.rel_path@), exc->0))
}

/// The entries that survive the filters, in input order.
pub open spec fn spec_selected_models(
    files: Seq<SourceFile>,
    inc: Option<Seq<String>>,
    exc: Option<Seq<String>>,
) -> Seq<(Seq<u8>, Seq<u8>)>
    decreases files.len(),
{
    if files.len() == 0 {
        Seq::empty()
    } else {
        let rest = spec_selected_models(files.drop_last(), inc, exc);
        if spec_selected(files.last(), inc, exc) {
            rest.push(files.last().model())
        } else {
            rest
        }
    }
}

fn matches_any(path: &str, pats: &Vec<String>) -> (r: bool)
    ensures
        r == spec_matches_any(path.spec_bytes(), pats@),
{
    let n = pats.len();
    let mut i: usize = 0;
    while i < n
        invariant
            n == pats@.len(),
            i <= n,
            forall|j: int|
                0 <= j < i ==> !is_substring_of(encode_utf8(#[trigger] pats@[j]@), path.spec_bytes()),
        decreases n - i,
    {
        if str_contains(path, pats[i].as_str()) {
            return true;
        }
        i += 1;
    }
    false
}

} // verus!
