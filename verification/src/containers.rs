//! Container engines: the sequential (tar-style) shape and the
//! random-access (zip-style) shape.
//!
//! Both confine destination paths under the destination root: an entry
//! whose path is absolute, carries a NUL, or contains a `..` component is
//! rejected, and the recoverable/fatal split for per-entry failures is
//! governed by `skip_bad_blocks`.  Whole-stream integrity, checked by the
//! codec layer before any entry is walked, is never skippable.

use vstd::prelude::*;
use vstd::string::StrSliceExecFns;
use vstd::string::StringExecFns;
use vstd::utf8::encode_utf8;
use crate::codecs::{codec_inflate, CodecKind};
use crate::errors::ExtractError;
use crate::resilience::{spec_guard_clean, IntegrityPolicy};
use crate::tarfmt::{entries_model, parse_tar, tar_decode, FileEntry};
use crate::text::u64_string;

verus! {

/// A `..` path component starts at index `i` of `p`.
pub open spec fn spec_dotdot_at(p: Seq<u8>, i: int) -> bool {
    &&& 0 <= i
    &&& i + 2 <= p.len()
    &&& p[i] == 46
    &&& p[i + 1] == 46
    &&& (i == 0 || p[i - 1] == 47)
    &&& (i + 2 == p.len() || p[i + 2] == 47)
}

/// A destination path that stays under the destination root: nonempty,
/// relative, free of NUL bytes and of `..` components.
pub open spec fn spec_safe_path(p: Seq<u8>) -> bool {
    &&& p.len() > 0
    &&& p[0] != 47
    &&& forall|i: int| 0 <= i < p.len() ==> p[i] != 0
    &&& !(exists|i: int| spec_dotdot_at(p, i))
}

/// Run-time check for `spec_safe_path`.
pub fn is_safe_path(p: &[u8]) -> (r: bool)
    ensures
        r == spec_safe_path(p@),
{
    let n = p.len();
    if n == 0 {
        return false;
    }
    if p[0] == 47 {
        return false;
    }
    let mut i: usize = 0;
    while i < n
        invariant
            n == p@.len(),
            i <= n,
            forall|k: int| 0 <= k < i ==> p@[k] != 0,
        decreases n - i,
    {
        if p[i] == 0 {
            return false;
        }
        i += 1;
    }
    let mut j: usize = 0;
    while j < n
        invariant
            n == p@.len(),
            j <= n,
            forall|k: int| 0 <= k < j ==> !spec_dotdot_at(p@, k),
        decreases n - j,
    {
        if n - j >= 2 && p[j] == 46 && p[j + 1] == 46 && (j == 0 || p[j - 1] == 47) && (n - j == 2
            || p[j + 2] == 47) {
            assert(spec_dotdot_at(p@, j as int));
            return false;
        }
        assert(!spec_dotdot_at(p@, j as int));
        j += 1;
    }
    true
}

/// Relies on `num_cpus::get`: it always returns at least one.
#[verifier::external_body]
fn available_cpus() -> (r: usize)
    ensures
        r >= 1,
{
    num_cpus::get()
}

/// Options for one extraction.
#[derive(Debug, Clone)]
pub struct ExtractOptions {
    /// Destination directory, as the caller names it.
    pub destination: String,
    /// Integrity policy, immutable once the operation starts.
    pub integrity: IntegrityPolicy,
    /// Bound on simultaneously processed archives in a batch.
    pub concurrency: usize,
}

impl Default for ExtractOptions {
    fn default() -> (r: Self)
        ensures
            r.destination@ == "./output"@,
            r.integrity.crc32 is None,
            r.integrity.hmac_key is None,
            r.integrity.hmac_tag is None,
            r.integrity.skip_bad_blocks == true,
            r.concurrency >= 1,
    {
        let workers = available_cpus();
        ExtractOptions {
            destination: String::from_str("./output"),
            integrity: Default::default(),
            concurrency: if workers >= 1 {
                workers
            } else {
                1
            },
        }
    }
}

/// What one extraction accomplished.  The counters reflect only
/// successfully completed work; warnings are additive and never
/// invalidate already-reported counts.
#[derive(Debug, Clone)]
pub struct ExtractReport {
    pub entries: u64,
    pub bytes_written: u64,
    pub warnings: Vec<String>,
}

impl Default for ExtractReport {
    fn default() -> (r: Self)
        ensures
            r.entries == 0,
            r.bytes_written == 0,
            r.warnings@.len() == 0,
    {
        ExtractReport { entries: 0, bytes_written: 0, warnings: Vec::new() }
    }
}

/// A progress snapshot surfaced to interactive callers.
#[derive(Debug, Clone)]
pub struct ProgressInfo {
    pub current_file: String,
    pub current_file_bytes: u64,
    pub total_bytes: u64,
    pub files_processed: u64,
    pub total_files: u64,
}

/// u64 sum of entry sizes, saturating at the top of the range.
fn saturating_add_u64(a: u64, b: u64) -> (r: u64)
    ensures
        r == if a + b > u64::MAX {
            u64::MAX
        } else {
            (a + b) as u64
        },
{
    if a > u64::MAX - b {
        u64::MAX
    } else {
        a + b
    }
}

/// Total size of a list of entries' contents.
pub open spec fn entries_data_total(es: Seq<FileEntry>) -> nat
    decreases es.len(),
{
    if es.len() == 0 {
        0nat
    } else {
        (entries_data_total(es.drop_last()) + es.last().data@.len()) as nat
    }
}

/// Clamp an exact total to the u64 range, as the saturating counters do.
pub open spec fn clamp_u64(v: int) -> u64 {
    if v > u64::MAX {
        u64::MAX
    } else {
        v as u64
    }
}

/// The sequential container engine, tied to one codec.
#[derive(Debug, Clone, Copy, PartialEq, Eq, Structural)]
pub struct TarContainer {
    pub codec: CodecKind,
}

/// What sequential extraction of a payload means: decode the stream with
/// the codec, then decode the container.
pub open spec fn spec_sequential_entries(codec: CodecKind, payload: Seq<u8>) -> Option<
    Seq<(Seq<u8>, Seq<u8>)>,
> {
    match codec_inflate(codec, payload) {
        Option::None => None,
        Option::Some(d) => tar_decode(d),
    }
}

impl TarContainer {
    pub fn new(codec: CodecKind) -> (r: Self)
        ensures
            r.codec == codec,
    {
        TarContainer { codec }
    }

    /// Canonical container name for this codec.
    pub open spec fn spec_name(self) -> Seq<char> {
        match self.codec {
            CodecKind::Zstd => "tar.zst"@,
            CodecKind::Lz4 => "tar.lz4"@,
            CodecKind::Brotli => "tar.br"@,
        }
    }

    pub fn name(&self) -> (r: &'static str)
        ensures
            r@ == self.spec_name(),
    {
        match self.codec {
            CodecKind::Zstd => "tar.zst",
            CodecKind::Lz4 => "tar.lz4",
            CodecKind::Brotli => "tar.br",
        }
    }

    /// Extract a complete sequential payload.
    ///
    /// The payload is decompressed, the decompressed stream is held to
    /// the integrity policy (never skippable), and the entries are walked
    /// in stream order.  Entries whose paths would escape the destination
    /// root are rejected; under a lenient policy a rejected entry becomes
    /// a warning, otherwise it aborts the archive.  A well-formed archive
    /// with safe paths is recovered exactly.
    pub fn extract(&self, payload: &[u8], options: &ExtractOptions) -> (r: Result<
        (Vec<FileEntry>, ExtractReport),
        ExtractError,
    >)
        ensures
            ({
                let inflated = codec_inflate(self.codec, payload@);
                &&& (inflated is None ==> r is Err)
                &&& (inflated is Some && !spec_guard_clean(inflated->0, options.integrity) ==> r
                    is Err)
                &&& ((inflated is Some && spec_guard_clean(inflated->0, options.integrity)
                    && tar_decode(inflated->0) is Some && (forall|i: int|
                    0 <= i < tar_decode(inflated->0)->0.len() ==> spec_safe_path(
                        #[trigger] tar_decode(inflated->0)->0[i].0,
                    ))) ==> (r is Ok && entries_model(r->Ok_0.0@) == tar_decode(inflated->0)->0
                    && r->Ok_0.1.warnings@.len() == 0))
            }),
            ({
                let inflated = codec_inflate(self.codec, payload@);
                // under the lenient policy, a stream that decompresses
                // and passes the integrity checks always extracts
                (options.integrity.skip_bad_blocks && inflated is Some && spec_guard_clean(
                    inflated->0,
                    options.integrity,
                )) ==> r is Ok
            }),
            ({
                let inflated = codec_inflate(self.codec, payload@);
                // under the strict policy, an entry whose path would
                // escape the destination root aborts the archive
                (!options.integrity.skip_bad_blocks && inflated is Some && spec_guard_clean(
                    inflated->0,
                    options.integrity,
                ) && tar_decode(inflated->0) is Some && !(forall|i: int|
                    0 <= i < tar_decode(inflated->0)->0.len() ==> spec_safe_path(
                        #[trigger] tar_decode(inflated->0)->0[i].0,
                    ))) ==> r is Err
            }),
            r is Ok ==> r->Ok_0.1.entries == r->Ok_0.0@.len(),
            r is Ok ==> r->Ok_0.1.bytes_written == clamp_u64(entries_data_total(r->Ok_0.0@) as int),
            r is Ok ==> forall|j: int|
                0 <= j < r->Ok_0.0@.len() ==> spec_safe_path(#[trigger] r->Ok_0.0@[j].path@),
            r is Ok && !options.integrity.skip_bad_blocks ==> r->Ok_0.1.warnings@.len() == 0,
            r is Err ==> r->Err_0 matches ExtractError::IntegrityFailure { .. },
    {
        let decompressed = match self.codec.decompress(payload, &options.integrity) {
            Ok(d) => d,
            Err(e) => {
                return Err(e);
            },
        };
        let parsed = match parse_tar(decompressed.as_slice(), options.integrity.skip_bad_blocks) {
            Ok(p) => p,
            Err(e) => {
                return Err(e);
            },
        };
        let (raw, mut warnings) = parsed;
        let ghost inflated = codec_inflate(self.codec, payload@);
        let ghost strict_ok = inflated is Some && spec_guard_clean(inflated->0, options.integrity)
            && tar_decode(inflated->0) is Some && (forall|i: int|
            0 <= i < tar_decode(inflated->0)->0.len() ==> spec_safe_path(
                #[trigger] tar_decode(inflated->0)->0[i].0,
            ));
        proof {
            if strict_ok {
                assert(entries_model(raw@) == tar_decode(inflated->0)->0);
                assert forall|j: int| 0 <= j < raw@.len() implies spec_safe_path(
                    #[trigger] raw@[j].path@,
                ) by {
                    assert(entries_model(raw@)[j] == raw@[j].model());
                    assert(tar_decode(inflated->0)->0[j] == raw@[j].model());
                    assert(tar_decode(inflated->0)->0[j].0 == raw@[j].path@);
                }
            }
        }
        let n = raw.len();
        let mut kept: Vec<FileEntry> = Vec::new();
        let mut bytes_written: u64 = 0;
        let mut i: usize = 0;
        while i < n
            invariant
                n == raw@.len(),
                i <= n,
                inflated == codec_inflate(self.codec, payload@),
                strict_ok == (inflated is Some && spec_guard_clean(inflated->0, options.integrity)
                    && tar_decode(inflated->0) is Some && (forall|t: int|
                    0 <= t < tar_decode(inflated->0)->0.len() ==> spec_safe_path(
                        #[trigger] tar_decode(inflated->0)->0[t].0,
                    ))),
                strict_ok ==> entries_model(raw@) == tar_decode(inflated->0)->0,
                strict_ok ==> forall|j: int|
                    0 <= j < raw@.len() ==> spec_safe_path(#[trigger] raw@[j].path@),
                strict_ok ==> warnings@.len() == 0,
                strict_ok ==> entries_model(kept@) =~= entries_model(raw@).take(i as int),
                forall|j: int|
                    0 <= j < kept@.len() ==> spec_safe_path(#[trigger] kept@[j].path@),
                !options.integrity.skip_bad_blocks ==> warnings@.len() == 0,
                !options.integrity.skip_bad_blocks ==> forall|j: int|
                    0 <= j < i ==> spec_safe_path(#[trigger] raw@[j].path@),
                bytes_written == clamp_u64(entries_data_total(kept@) as int),
            decreases n - i,
        {
            let e = &raw[i];
            if is_safe_path(e.path.as_slice()) {
                bytes_written = saturating_add_u64(bytes_written, e.data.len() as u64);
                let copy = FileEntry { path: copy_bytes(&e.path), data: copy_bytes(&e.data) };
                assert(copy.path@ == e.path@ && copy.data@ == e.data@);
                let ghost kept0 = kept@;
                kept.push(copy);
                proof {
                    assert(kept@.last().model() == raw@[i as int].model());
                    assert(kept@.drop_last() =~= kept0);
                    assert(entries_data_total(kept@.drop_last()) == entries_data_total(kept0));
                    assert(entries_data_total(kept@) == entries_data_total(kept0)
                        + kept@.last().data@.len());
                    assert(kept@.last().data@.len() == raw@[i as int].data@.len());
                    assert(bytes_written == clamp_u64(entries_data_total(kept@) as int));
                    if strict_ok {
                        assert(entries_model(kept@) =~= entries_model(raw@).take(i + 1));
                    }
                }
            } else {
                assert(!strict_ok);
                let mut msg = String::from_str("entry path rejected: ");
                let shown = crate::text::bytes_to_string_lossy(e.path.as_slice());
                msg.append(shown.as_str());
                if !options.integrity.skip_bad_blocks {
                    return Err(ExtractError::IntegrityFailure { details: msg });
                }
                warnings.push(msg);
            }
            i += 1;
        }
        proof {
            if strict_ok {
                assert(entries_model(raw@).take(n as int) =~= entries_model(raw@));
            }
            if !options.integrity.skip_bad_blocks && inflated is Some && spec_guard_clean(
                inflated->0,
                options.integrity,
            ) && tar_decode(inflated->0) is Some {
                // a completed strict walk saw only safe paths
                assert forall|k: int| 0 <= k < tar_decode(inflated->0)->0.len() implies
                    spec_safe_path(#[trigger] tar_decode(inflated->0)->0[k].0) by {
                    assert(entries_model(raw@) == tar_decode(inflated->0)->0);
                    assert(entries_model(raw@)[k] == raw@[k].model());
                    assert(tar_decode(inflated->0)->0[k].0 == raw@[k].path@);
                }
            }
        }
        let report = ExtractReport { entries: kept.len() as u64, bytes_written, warnings };
        Ok((kept, report))
    }
}

/// Bytewise copy of a vector.
fn copy_bytes(v: &Vec<u8>) -> (r: Vec<u8>)
    ensures
        r@ == v@,
{
    let n = v.len();
    let mut out: Vec<u8> = Vec::new();
    let mut i: usize = 0;
    while i < n
        invariant
            n == v@.len(),
            i <= n,
            out@ == v@.subrange(0, i as int),
        decreases n - i,
    {
        out.push(v[i]);
        proof {
            assert(out@ =~= v@.subrange(0, i + 1));
        }
        i += 1;
    }
    proof {
        assert(out@ =~= v@);
    }
    out
}

// ---- the random-access shape ----

#[verifier::external_type_specification]
#[verifier::external_body]
#[verifier::reject_recursive_types(R)]
pub struct ExZipArchive<R>(zip::ZipArchive<R>);

#[verifier::external_type_specification]
#[verifier::external_body]
#[verifier::reject_recursive_types(T)]
pub struct ExCursor<T>(std::io::Cursor<T>);

/// What parsing a byte string as a random-access archive yields, if the
/// central directory is readable: for each entry its name, whether it is
/// a directory, and its contents when they can be decoded.
pub uninterp spec fn zip_parse(data: Seq<u8>) -> Option<Seq<(Seq<char>, bool, Option<Seq<u8>>)>>;

/// The entries held by an opened archive.
pub uninterp spec fn zip_entries(z: zip::ZipArchive<std::io::Cursor<Vec<u8>>>) -> Seq<
    (Seq<char>, bool, Option<Seq<u8>>),
>;

/// Relies on `zip::ZipArchive::new`: parsing the central directory of an
/// in-memory archive is a function of the bytes alone.
#[verifier::external_body]
fn zip_open(data: Vec<u8>) -> (r: Result<zip::ZipArchive<std::io::Cursor<Vec<u8>>>, String>)
    ensures
        r is Ok ==> zip_parse(data@) == Some(zip_entries(r->Ok_0)),
        r is Err ==> zip_parse(data@) is None,
{
    zip::ZipArchive::new(std::io::Cursor::new(data)).map_err(|e| e.to_string())
}

/// Relies on `zip::ZipArchive::len`: the number of entries in the
/// central directory.
#[verifier::external_body]
fn zip_len(z: &zip::ZipArchive<std::io::Cursor<Vec<u8>>>) -> (r: usize)
    ensures
        r == zip_entries(*z).len(),
{
    z.len()
}

/// Relies on `zip::ZipArchive::by_index` and the entry's `name`,
/// `is_dir` and `Read` implementation: reading entry `i` of an in-memory
/// archive is deterministic and leaves the archive's contents unchanged.
#[verifier::external_body]
fn zip_read_entry(z: &mut zip::ZipArchive<std::io::Cursor<Vec<u8>>>, i: usize) -> (r: Result<
    (String, bool, Vec<u8>),
    String,
>)
    requires
        i < zip_entries(*old(z)).len(),
    ensures
        zip_entries(*final(z)) == zip_entries(*old(z)),
        r is Ok ==> zip_entries(*old(z))[i as int] == (r->Ok_0.0@, r->Ok_0.1, Some(r->Ok_0.2@)),
        r is Err ==> zip_entries(*old(z))[i as int].2 is None,
{
    match z.by_index(i) {
        Ok(mut f) => {
            let name = f.name().to_owned();
            let is_dir = f.is_dir();
            let mut out = Vec::new();
            match std::io::Read::read_to_end(&mut f, &mut out) {
                Ok(_) => Ok((name, is_dir, out)),
                Err(e) => Err(e.to_string()),
            }
        },
        Err(e) => Err(e.to_string()),
    }
}

/// The file entries a random-access archive yields, in index order:
/// directories are skipped, names are taken bytewise.
pub open spec fn zip_files_of(ms: Seq<(Seq<char>, bool, Option<Seq<u8>>)>) -> Seq<
    (Seq<u8>, Seq<u8>),
>
    decreases ms.len(),
{
    if ms.len() == 0 {
        Seq::empty()
    } else {
        let rest = zip_files_of(ms.drop_last());
        let e = ms.last();
        if e.1 {
            rest
        } else {
            rest.push((encode_utf8(e.0), e.2->0))
        }
    }
}

/// Every entry decodes, and every file entry's path stays under the
/// destination root.
pub open spec fn zip_entries_readable(ms: Seq<(Seq<char>, bool, Option<Seq<u8>>)>) -> bool {
    forall|i: int|
        0 <= i < ms.len() ==> ((#[trigger] ms[i]).2 is Some && (!ms[i].1 ==> spec_safe_path(
            encode_utf8(ms[i].0),
        )))
}

/// The random-access container engine.
#[derive(Debug, Clone, Copy, PartialEq, Eq, Structural)]
pub struct ZipContainer;

/// A registered container engine: one of the two shapes.
#[derive(Debug, Clone, Copy, PartialEq, Eq, Structural)]
pub enum Container {
    Tar(TarContainer),
    Zip(ZipContainer),
}

impl ZipContainer {
    pub fn name(&self) -> (r: &'static str)
        ensures
            r@ == "zip"@,
    {
        "zip"
    }

    /// Extract a complete random-access payload.
    ///
    /// Directory entries are skipped; file entries have their paths
    /// confined under the destination root.  Per-entry failures follow
    /// the recoverable/fatal split of `skip_bad_blocks`.  No whole-stream
    /// integrity pass exists for this shape beyond what the entries'
    /// own checksums give; that asymmetry is intentional.  The payload is
    /// held in memory behind a cursor for random access instead of being
    /// spilled to a scoped temporary file: a memory-for-I/O tradeoff.
    pub fn extract(&self, payload: Vec<u8>, options: &ExtractOptions) -> (r: Result<
        (Vec<FileEntry>, ExtractReport),
        ExtractError,
    >)
        ensures
            zip_parse(payload@) is None ==> r is Err,
            ({
                let parsed = zip_parse(payload@);
                (parsed is Some && zip_entries_readable(parsed->0)) ==> (r is Ok
                    && entries_model(r->Ok_0.0@) == zip_files_of(parsed->0)
                    && r->Ok_0.1.warnings@.len() == 0)
            }),
            // under the lenient policy an archive whose directory is
            // readable always extracts; under the strict policy any
            // unreadable or unsafely-named entry aborts it
            (zip_parse(payload@) is Some && options.integrity.skip_bad_blocks) ==> r is Ok,
            ({
                let parsed = zip_parse(payload@);
                (parsed is Some && !options.integrity.skip_bad_blocks && !zip_entries_readable(
                    parsed->0,
                )) ==> r is Err
            }),
            r is Ok ==> r->Ok_0.1.entries == r->Ok_0.0@.len(),
            r is Ok ==> r->Ok_0.1.bytes_written == clamp_u64(entries_data_total(r->Ok_0.0@) as int),
            r is Ok ==> forall|j: int|
                0 <= j < r->Ok_0.0@.len() ==> spec_safe_path(#[trigger] r->Ok_0.0@[j].path@),
            r is Ok && !options.integrity.skip_bad_blocks ==> r->Ok_0.1.warnings@.len() == 0,
            r is Err ==> r->Err_0 matches ExtractError::IntegrityFailure { .. },
    {
        let mut archive = match zip_open(payload) {
            Ok(a) => a,
            Err(details) => {
                return Err(ExtractError::IntegrityFailure { details });
            },
        };
        let ghost ms = zip_entries(archive);
        let ghost good = zip_entries_readable(ms);
        let total = zip_len(&archive);
        let mut out: Vec<FileEntry> = Vec::new();
        let mut warnings: Vec<String> = Vec::new();
        let mut bytes_written: u64 = 0;
        let mut i: usize = 0;
        while i < total
            invariant
                zip_parse(payload@) == Some(ms),
                ms == zip_entries(archive),
                good == zip_entries_readable(ms),
                total == ms.len(),
                i <= total,
                forall|j: int|
                    0 <= j < out@.len() ==> spec_safe_path(#[trigger] out@[j].path@),
                !options.integrity.skip_bad_blocks ==> warnings@.len() == 0,
                good ==> warnings@.len() == 0,
                good ==> entries_model(out@) =~= zip_files_of(ms.take(i as int)),
                !options.integrity.skip_bad_blocks ==> zip_entries_readable(ms.take(i as int)),
                bytes_written == clamp_u64(entries_data_total(out@) as int),
            decreases total - i,
        {
            proof {
                assert(ms.take(i + 1).drop_last() =~= ms.take(i as int));
                assert(ms.take(i + 1).last() == ms[i as int]);
            }
            let ghost strict = !options.integrity.skip_bad_blocks;
            match zip_read_entry(&mut archive, i) {
                Ok(entry) => {
                    let (name, is_dir, data) = entry;
                    let ghost namev = name@;
                    if !is_dir {
                        let name_bytes = name.as_str().as_bytes_vec();
                        if is_safe_path(name_bytes.as_slice()) {
                            bytes_written = saturating_add_u64(bytes_written, data.len() as u64);
                            let ghost out0 = out@;
                            out.push(FileEntry { path: name_bytes, data });
                            proof {
                                assert(out@.drop_last() =~= out0);
                                if good {
                                    assert(out@.last().model() == (
                                        encode_utf8(ms[i as int].0),
                                        ms[i as int].2->0,
                                    ));
                                    assert(entries_model(out@) =~= zip_files_of(ms.take(i + 1)));
                                }
                                if strict {
                                    assert(encode_utf8(ms[i as int].0) == encode_utf8(namev));
                                    zip_prefix_readable_extend(ms, i as int);
                                }
                            }
                        } else {
                            assert(!good);
                            let mut msg = String::from_str("entry path rejected: ");
                            msg.append(name.as_str());
                            if !options.integrity.skip_bad_blocks {
                                return Err(ExtractError::IntegrityFailure { details: msg });
                            }
                            warnings.push(msg);
                        }
                    } else {
                        proof {
                            if strict {
                                zip_prefix_readable_extend(ms, i as int);
                            }
                        }
                    }
                },
                Err(details) => {
                    assert(!good);
                    let mut msg = String::from_str("entry ");
                    let shown = u64_string(i as u64);
                    msg.append(shown.as_str());
                    msg.append(" read failed: ");
                    msg.append(details.as_str());
                    if !options.integrity.skip_bad_blocks {
                        return Err(ExtractError::IntegrityFailure { details: msg });
                    }
                    warnings.push(msg);
                },
            }
            i += 1;
        }
        proof {
            if good {
                assert(ms.take(total as int) =~= ms);
            }
            if !options.integrity.skip_bad_blocks {
                // a completed strict walk read every entry cleanly
                assert(ms.take(total as int) =~= ms);
                assert(zip_entries_readable(ms));
            }
        }
        let report = ExtractReport { entries: out.len() as u64, bytes_written, warnings };
        Ok((out, report))
    }
}

/// One more cleanly-read, safely-named entry extends a readable prefix.
proof fn zip_prefix_readable_extend(ms: Seq<(Seq<char>, bool, Option<Seq<u8>>)>, i: int)
    requires
        0 <= i < ms.len(),
        zip_entries_readable(ms.take(i)),
        ms[i].2 is Some,
        !ms[i].1 ==> spec_safe_path(encode_utf8(ms[i].0)),
    ensures
        zip_entries_readable(ms.take(i + 1)),
{
    assert forall|k: int| 0 <= k < ms.take(i + 1).len() implies ((#[trigger] ms.take(i + 1)[k]).2
        is Some && (!ms.take(i + 1)[k].1 ==> spec_safe_path(encode_utf8(ms.take(i + 1)[k].0)))) by {
        assert(ms.take(i + 1)[k] == ms[k]);
        if k < i {
            assert(ms.take(i)[k] == ms[k]);
        }
    }
}

} // verus!
