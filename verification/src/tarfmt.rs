//! The sequential container format: 512-byte headers, octal fields, a
//! header checksum, entry data padded to block size, and a two-block zero
//! terminator.  Encoding and decoding are specified exactly, and decoding
//! an encoded archive is proved to give the entries back.

use vstd::prelude::*;
use vstd::string::StringExecFns;
use crate::errors::ExtractError;
use crate::text::bytes_to_string_lossy;

verus! {

/// One archive entry: an entry-relative path and its contents, both raw
/// bytes.
#[derive(Debug, Clone)]
pub struct FileEntry {
    pub path: Vec<u8>,
    pub data: Vec<u8>,
}

impl FileEntry {
    /// The mathematical value of an entry.
    pub open spec fn model(self) -> (Seq<u8>, Seq<u8>) {
        (self.path@, self.data@)
    }
}

/// The mathematical value of an entry list.
pub open spec fn entries_model(es: Seq<FileEntry>) -> Seq<(Seq<u8>, Seq<u8>)> {
    es.map_values(|e: FileEntry| e.model())
}

/// Largest entry size representable in an 11-digit octal size field.
pub const MAX_ENTRY_SIZE: u64 = 8589934591;

/// `n` zero bytes.
pub open spec fn zeros(n: nat) -> Seq<u8> {
    Seq::new(n, |i: int| 0u8)
}

/// Padding needed to reach the next block boundary.
pub open spec fn pad_len(n: nat) -> nat {
    if n % 512 == 0 {
        0
    } else {
        (512 - n % 512) as nat
    }
}

/// Fixed-width octal notation, most significant digit first.
pub open spec fn spec_octal(v: nat, width: nat) -> Seq<u8>
    decreases width,
{
    if width == 0 {
        Seq::empty()
    } else {
        spec_octal(v / 8, (width - 1) as nat) + seq![(48 + v % 8) as u8]
    }
}

pub open spec fn pow8(w: nat) -> nat
    decreases w,
{
    if w == 0 {
        1
    } else {
        8 * pow8((w - 1) as nat)
    }
}

/// Every byte is an ASCII octal digit.
pub open spec fn is_octal_digits(s: Seq<u8>) -> bool {
    forall|i: int| 0 <= i < s.len() ==> 48 <= #[trigger] s[i] <= 55
}

/// The value of an octal digit field.
pub open spec fn spec_parse_octal(s: Seq<u8>) -> nat
    decreases s.len(),
{
    if s.len() == 0 {
        0
    } else {
        spec_parse_octal(s.drop_last()) * 8 + (if 48 <= s.last() <= 55 {
            (s.last() - 48) as nat
        } else {
            0nat
        })
    }
}

pub broadcast proof fn lemma_octal_len(v: nat, w: nat)
    ensures
        (#[trigger] spec_octal(v, w)).len() == w,
    decreases w,
{
    if w > 0 {
        lemma_octal_len(v / 8, (w - 1) as nat);
    }
}

proof fn lemma_octal_digits(v: nat, w: nat)
    ensures
        is_octal_digits(spec_octal(v, w)),
    decreases w,
{
    broadcast use lemma_octal_len;

    if w > 0 {
        lemma_octal_digits(v / 8, (w - 1) as nat);
        let prev = spec_octal(v / 8, (w - 1) as nat);
        assert forall|i: int| 0 <= i < w implies 48 <= #[trigger] spec_octal(v, w)[i] <= 55 by {
            if i < w - 1 {
                assert(spec_octal(v, w)[i] == prev[i]);
            } else {
                assert(spec_octal(v, w)[i] == (48 + v % 8) as u8);
            }
        }
    }
}

proof fn lemma_octal_roundtrip(v: nat, w: nat)
    requires
        v < pow8(w),
    ensures
        spec_parse_octal(spec_octal(v, w)) == v,
    decreases w,
{
    broadcast use lemma_octal_len;

    if w == 0 {
    } else {
        assert(v / 8 < pow8((w - 1) as nat)) by (nonlinear_arith)
            requires
                v < 8 * pow8((w - 1) as nat),
        ;
        lemma_octal_roundtrip(v / 8, (w - 1) as nat);
        let s = spec_octal(v, w);
        assert(s.drop_last() =~= spec_octal(v / 8, (w - 1) as nat));
        assert(s.last() == (48 + v % 8) as u8);
    }
}

/// Parsed octal fields are bounded by their width.
proof fn lemma_parse_octal_bound(s: Seq<u8>)
    ensures
        spec_parse_octal(s) < pow8(s.len()),
    decreases s.len(),
{
    if s.len() > 0 {
        lemma_parse_octal_bound(s.drop_last());
    }
}

/// Sum of a byte string, as a natural number.
pub open spec fn byte_sum(s: Seq<u8>) -> nat
    decreases s.len(),
{
    if s.len() == 0 {
        0
    } else {
        (byte_sum(s.drop_last()) + s.last()) as nat
    }
}

proof fn lemma_byte_sum_bound(s: Seq<u8>)
    ensures
        byte_sum(s) <= 255 * s.len(),
    decreases s.len(),
{
    if s.len() > 0 {
        lemma_byte_sum_bound(s.drop_last());
    }
}

// ---- header layout ----

/// The name field: the name padded with zeros to 100 bytes.
pub open spec fn name_field(name: Seq<u8>) -> Seq<u8> {
    name + zeros((100 - name.len()) as nat)
}

/// A zero-valued 8-byte numeric field.
pub open spec fn num_field_zero() -> Seq<u8> {
    spec_octal(0, 7) + seq![0u8]
}

/// The mode field, fixed at octal 644.
pub open spec fn mode_field() -> Seq<u8> {
    spec_octal(420, 7) + seq![0u8]
}

/// The size field: 11 octal digits and a terminator.
pub open spec fn size_field(size: nat) -> Seq<u8> {
    spec_octal(size, 11) + seq![0u8]
}

/// The zero-valued modification-time field.
pub open spec fn mtime_field() -> Seq<u8> {
    spec_octal(0, 11) + seq![0u8]
}

/// The 148 header bytes before the checksum field.
pub open spec fn header_prefix(name: Seq<u8>, size: nat) -> Seq<u8> {
    name_field(name) + mode_field() + num_field_zero() + num_field_zero() + size_field(size)
        + mtime_field()
}

/// The 356 header bytes after the checksum field: type flag for a regular
/// file, empty link name, the ustar magic and version, and zeroed
/// ownership, device and prefix fields.
pub open spec fn header_suffix() -> Seq<u8> {
    seq![48u8] + zeros(100) + seq![117u8, 115u8, 116u8, 97u8, 114u8, 0u8] + seq![48u8, 48u8]
        + zeros(32) + zeros(32) + zeros(8) + zeros(8) + zeros(155) + zeros(12)
}

/// The header checksum: the byte sum of the whole header with the
/// checksum field read as eight spaces.
pub open spec fn header_checksum(name: Seq<u8>, size: nat) -> nat {
    byte_sum(header_prefix(name, size)) + 256 + byte_sum(header_suffix())
}

/// The checksum field: six octal digits, a terminator and a space.
pub open spec fn checksum_field(sum: nat) -> Seq<u8> {
    spec_octal(sum, 6) + seq![0u8, 32u8]
}

/// A complete 512-byte header.
pub open spec fn spec_header(name: Seq<u8>, size: nat) -> Seq<u8> {
    header_prefix(name, size) + checksum_field(header_checksum(name, size)) + header_suffix()
}

/// A name the format can carry: nonempty, at most 100 bytes, no NUL.
pub open spec fn wf_entry_name(name: Seq<u8>) -> bool {
    &&& 0 < name.len() <= 100
    &&& forall|i: int| 0 <= i < name.len() ==> name[i] != 0
}

/// An entry the format can carry.
pub open spec fn wf_entry(m: (Seq<u8>, Seq<u8>)) -> bool {
    wf_entry_name(m.0) && m.1.len() <= MAX_ENTRY_SIZE
}

pub open spec fn wf_entries(ms: Seq<(Seq<u8>, Seq<u8>)>) -> bool {
    forall|i: int| 0 <= i < ms.len() ==> wf_entry(#[trigger] ms[i])
}

/// One encoded entry: header, data, padding.
pub open spec fn spec_entry_bytes(m: (Seq<u8>, Seq<u8>)) -> Seq<u8> {
    spec_header(m.0, m.1.len()) + m.1 + zeros(pad_len(m.1.len()))
}

/// Encoded entries without the terminator.
pub open spec fn tar_entries_bytes(ms: Seq<(Seq<u8>, Seq<u8>)>) -> Seq<u8>
    decreases ms.len(),
{
    if ms.len() == 0 {
        Seq::empty()
    } else {
        spec_entry_bytes(ms[0]) + tar_entries_bytes(ms.drop_first())
    }
}

/// A complete archive: the entries followed by two zero blocks.
pub open spec fn tar_encode(ms: Seq<(Seq<u8>, Seq<u8>)>) -> Seq<u8>
    decreases ms.len(),
{
    if ms.len() == 0 {
        zeros(1024)
    } else {
        spec_entry_bytes(ms[0]) + tar_encode(ms.drop_first())
    }
}

proof fn lemma_tar_encode_split(ms: Seq<(Seq<u8>, Seq<u8>)>)
    ensures
        tar_encode(ms) == tar_entries_bytes(ms) + zeros(1024),
    decreases ms.len(),
{
    if ms.len() == 0 {
        assert(tar_encode(ms) =~= tar_entries_bytes(ms) + zeros(1024));
    } else {
        lemma_tar_encode_split(ms.drop_first());
        assert(spec_entry_bytes(ms[0]) + (tar_entries_bytes(ms.drop_first()) + zeros(1024))
            =~= (spec_entry_bytes(ms[0]) + tar_entries_bytes(ms.drop_first())) + zeros(1024));
    }
}

proof fn lemma_tar_entries_snoc(ms: Seq<(Seq<u8>, Seq<u8>)>, k: int)
    requires
        0 <= k < ms.len(),
    ensures
        tar_entries_bytes(ms.take(k + 1)) == tar_entries_bytes(ms.take(k)) + spec_entry_bytes(
            ms[k],
        ),
    decreases k,
{
    if k == 0 {
        assert(ms.take(1)[0] == ms[0]);
        let empty = Seq::<(Seq<u8>, Seq<u8>)>::empty();
        assert(ms.take(1).drop_first() =~= empty);
        assert(ms.take(0) =~= empty);
        assert(tar_entries_bytes(empty) == Seq::<u8>::empty());
        assert(tar_entries_bytes(ms.take(1)) == spec_entry_bytes(ms[0]) + Seq::<u8>::empty());
        assert(spec_entry_bytes(ms[0]) + Seq::<u8>::empty() =~= Seq::<u8>::empty()
            + spec_entry_bytes(ms[0]));
    } else {
        lemma_tar_entries_snoc(ms.drop_first(), k - 1);
        assert(ms.take(k + 1).drop_first() =~= ms.drop_first().take(k));
        assert(ms.take(k).drop_first() =~= ms.drop_first().take(k - 1));
        assert(ms.take(k + 1)[0] == ms[0]);
        assert(ms.take(k)[0] == ms[0]);
        assert(ms.drop_first()[k - 1] == ms[k]);
        assert(tar_entries_bytes(ms.take(k + 1)) == spec_entry_bytes(ms[0]) + tar_entries_bytes(
            ms.drop_first().take(k),
        ));
        assert(spec_entry_bytes(ms[0]) + (tar_entries_bytes(ms.drop_first().take(k - 1))
            + spec_entry_bytes(ms[k])) =~= (spec_entry_bytes(ms[0]) + tar_entries_bytes(
            ms.drop_first().take(k - 1),
        )) + spec_entry_bytes(ms[k]));
    }
}

// ---- decoding ----

/// Index of the first zero byte, or the length if there is none.
pub open spec fn first_zero_or_len(s: Seq<u8>) -> int
    decreases s.len(),
{
    if s.len() == 0 {
        0
    } else if s[0] == 0 {
        0
    } else {
        1 + first_zero_or_len(s.drop_first())
    }
}

proof fn lemma_first_zero(s: Seq<u8>, k: int)
    requires
        0 <= k <= s.len(),
        forall|i: int| 0 <= i < k ==> s[i] != 0,
        k < s.len() ==> s[k] == 0,
    ensures
        first_zero_or_len(s) == k,
    decreases k,
{
    if k == 0 {
    } else {
        lemma_first_zero(s.drop_first(), k - 1);
    }
}

/// The name stored in a header: the name field up to its terminator.
pub open spec fn header_name_of(h: Seq<u8>) -> Seq<u8> {
    let f = h.subrange(0, 100);
    f.subrange(0, first_zero_or_len(f))
}

/// The size stored in a header.
pub open spec fn header_size_of(h: Seq<u8>) -> nat {
    spec_parse_octal(h.subrange(124, 135))
}

/// A header block this decoder accepts: a nonempty name, octal size and
/// checksum fields, a checksum that matches the block, and the type flag
/// of a regular file.
pub open spec fn spec_valid_full_header(h: Seq<u8>) -> bool {
    &&& h.len() == 512
    &&& h[0] != 0
    &&& is_octal_digits(h.subrange(124, 135))
    &&& h[135] == 0
    &&& is_octal_digits(h.subrange(148, 154))
    &&& spec_parse_octal(h.subrange(148, 154)) == byte_sum(h.subrange(0, 148)) + 256 + byte_sum(
        h.subrange(156, 512),
    )
    &&& h[156] == 48
}

/// Strict decoding: either the whole archive is well formed and every
/// entry is recovered, or nothing is.
pub open spec fn tar_decode(bytes: Seq<u8>) -> Option<Seq<(Seq<u8>, Seq<u8>)>>
    decreases bytes.len(),
{
    if bytes.len() < 1024 {
        None
    } else if bytes.subrange(0, 512) == zeros(512) {
        if bytes == zeros(1024) {
            Some(Seq::empty())
        } else {
            None
        }
    } else {
        let h = bytes.subrange(0, 512);
        if !spec_valid_full_header(h) {
            None
        } else {
            let size = header_size_of(h);
            let total = 512 + size + pad_len(size);
            if total > bytes.len() {
                None
            } else {
                match tar_decode(bytes.subrange(total as int, bytes.len() as int)) {
                    Option::None => None,
                    Option::Some(rest) => Some(
                        seq![(header_name_of(h), bytes.subrange(512, 512 + size as int))] + rest,
                    ),
                }
            }
        }
    }
}

proof fn lemma_pow8_values()
    ensures
        pow8(6) == 262144,
        pow8(11) == 8589934592,
{
    assert(pow8(0) == 1);
    assert(pow8(1) == 8);
    assert(pow8(2) == 64);
    assert(pow8(3) == 512);
    assert(pow8(4) == 4096);
    assert(pow8(5) == 32768);
    assert(pow8(6) == 262144);
    assert(pow8(7) == 2097152);
    assert(pow8(8) == 16777216);
    assert(pow8(9) == 134217728);
    assert(pow8(10) == 1073741824);
    assert(pow8(11) == 8589934592);
}

/// Everything the decoder reads out of an encoded header.
proof fn lemma_header_layout(name: Seq<u8>, size: nat)
    requires
        wf_entry_name(name),
        size <= MAX_ENTRY_SIZE,
    ensures
        spec_header(name, size).len() == 512,
        spec_header(name, size).subrange(0, 148) == header_prefix(name, size),
        spec_header(name, size).subrange(156, 512) == header_suffix(),
        spec_valid_full_header(spec_header(name, size)),
        header_name_of(spec_header(name, size)) == name,
        header_size_of(spec_header(name, size)) == size,
{
    broadcast use lemma_octal_len;

    let h = spec_header(name, size);
    let p = header_prefix(name, size);
    let t = header_suffix();
    let c = header_checksum(name, size);
    assert(name_field(name).len() == 100);
    assert(p.len() == 148);
    assert(t.len() == 356);
    assert(checksum_field(c).len() == 8);
    assert(h.len() == 512);
    assert(h.subrange(0, 148) =~= p);
    assert(h.subrange(148, 154) =~= spec_octal(c, 6));
    assert(h.subrange(156, 512) =~= t);
    // the size field sits at 124..136 inside the prefix
    assert(h.subrange(124, 135) =~= spec_octal(size, 11));
    assert(h[135] == 0);
    assert(h[154] == 0 && h[155] == 32);
    assert(h[156] == t[0]);
    // octal fields hold digits and parse back to their values
    lemma_octal_digits(size, 11);
    lemma_octal_digits(c, 6);
    lemma_pow8_values();
    lemma_byte_sum_bound(p);
    lemma_byte_sum_bound(t);
    lemma_octal_roundtrip(size, 11);
    lemma_octal_roundtrip(c, 6);
    // the name comes back from the name field
    assert(h.subrange(0, 100) =~= name_field(name));
    lemma_first_zero(name_field(name), name.len() as int);
    assert(header_name_of(h) =~= name);
    assert(h[0] == name_field(name)[0]);
}

proof fn lemma_tar_encode_min_len(ms: Seq<(Seq<u8>, Seq<u8>)>)
    ensures
        tar_encode(ms).len() >= 1024,
    decreases ms.len(),
{
    if ms.len() > 0 {
        lemma_tar_encode_min_len(ms.drop_first());
    }
}

/// Round trip: decoding an encoded archive of well-formed entries gives
/// exactly those entries back.
pub proof fn lemma_tar_round_trip(ms: Seq<(Seq<u8>, Seq<u8>)>)
    requires
        wf_entries(ms),
    ensures
        tar_decode(tar_encode(ms)) == Some(ms),
    decreases ms.len(),
{
    if ms.len() == 0 {
        let bytes = tar_encode(ms);
        assert(bytes =~= zeros(1024));
        assert(bytes.subrange(0, 512) =~= zeros(512));
        assert(ms =~= Seq::<(Seq<u8>, Seq<u8>)>::empty());
    } else {
        let m0 = ms[0];
        let name = m0.0;
        let d = m0.1;
        let size = d.len();
        assert(wf_entry(m0));
        lemma_header_layout(name, size);
        let h = spec_header(name, size);
        let rest = tar_encode(ms.drop_first());
        let bytes = tar_encode(ms);
        assert(bytes == spec_entry_bytes(m0) + rest);
        lemma_tar_encode_min_len(ms.drop_first());
        let total = 512 + size + pad_len(size);
        assert(bytes.len() == total + rest.len());
        assert(bytes.subrange(0, 512) =~= h);
        assert(h[0] != 0);
        assert(zeros(512)[0] == 0);
        assert(bytes.subrange(0, 512) != zeros(512));
        assert(bytes.subrange(512, 512 + size as int) =~= d);
        assert(bytes.subrange(total as int, bytes.len() as int) =~= rest);
        assert(wf_entries(ms.drop_first())) by {
            assert(forall|i: int|
                0 <= i < ms.drop_first().len() ==> #[trigger] ms.drop_first()[i] == ms[i + 1]);
        }
        lemma_tar_round_trip(ms.drop_first());
        assert(tar_decode(bytes) == Some(
            seq![(header_name_of(h), bytes.subrange(512, 512 + size as int))] + ms.drop_first(),
        ));
        assert(seq![(name, d)] + ms.drop_first() =~= ms);
    }
}

// ---- exec building blocks ----

fn push_zeros(out: &mut Vec<u8>, n: usize)
    ensures
        final(out)@ == old(out)@ + zeros(n as nat),
{
    let mut i: usize = 0;
    while i < n
        invariant
            i <= n,
            out@ == old(out)@ + zeros(i as nat),
        decreases n - i,
    {
        out.push(0);
        proof {
            assert(out@ =~= old(out)@ + zeros((i + 1) as nat));
        }
        i += 1;
    }
}

fn push_slice(out: &mut Vec<u8>, s: &[u8])
    ensures
        final(out)@ == old(out)@ + s@,
{
    let n = s.len();
    let mut i: usize = 0;
    while i < n
        invariant
            n == s@.len(),
            i <= n,
            out@ == old(out)@ + s@.subrange(0, i as int),
        decreases n - i,
    {
        out.push(s[i]);
        proof {
            assert(out@ =~= old(out)@ + s@.subrange(0, i + 1));
        }
        i += 1;
    }
    proof {
        assert(out@ =~= old(out)@ + s@);
    }
}

fn push_octal(out: &mut Vec<u8>, v: u64, width: usize)
    ensures
        final(out)@ == old(out)@ + spec_octal(v as nat, width as nat),
    decreases width,
{
    if width == 0 {
        proof {
            assert(out@ =~= old(out)@ + spec_octal(v as nat, 0));
        }
    } else {
        push_octal(out, v / 8, width - 1);
        out.push(48 + (v % 8) as u8);
        proof {
            assert(out@ =~= old(out)@ + spec_octal(v as nat, width as nat));
        }
    }
}

/// Byte sum of a whole buffer; fits easily in u64 for block-sized input.
fn sum_bytes(s: &Vec<u8>) -> (r: u64)
    requires
        s@.len() <= 4096,
    ensures
        r == byte_sum(s@),
{
    let n = s.len();
    let mut i: usize = 0;
    let mut sum: u64 = 0;
    while i < n
        invariant
            n == s@.len() <= 4096,
            i <= n,
            sum == byte_sum(s@.subrange(0, i as int)),
            sum <= 255 * i,
        decreases n - i,
    {
        proof {
            assert(s@.subrange(0, i + 1).drop_last() =~= s@.subrange(0, i as int));
            assert(s@.subrange(0, i + 1).last() == s@[i as int]);
        }
        sum = sum + s[i] as u64;
        i += 1;
    }
    proof {
        assert(s@.subrange(0, n as int) =~= s@);
    }
    sum
}

/// Copy a range of a byte slice into a fresh vector.
fn copy_range(s: &[u8], from: usize, to: usize) -> (r: Vec<u8>)
    requires
        from <= to <= s@.len(),
    ensures
        r@ == s@.subrange(from as int, to as int),
{
    let mut out: Vec<u8> = Vec::new();
    let mut i: usize = from;
    while i < to
        invariant
            from <= i <= to <= s@.len(),
            out@ == s@.subrange(from as int, i as int),
        decreases to - i,
    {
        out.push(s[i]);
        proof {
            assert(out@ =~= s@.subrange(from as int, i + 1));
        }
        i += 1;
    }
    out
}

fn sum_range(s: &[u8], from: usize, to: usize) -> (r: u64)
    requires
        from <= to <= s@.len(),
        to - from <= 512,
    ensures
        r == byte_sum(s@.subrange(from as int, to as int)),
{
    let mut i: usize = from;
    let mut sum: u64 = 0;
    while i < to
        invariant
            from <= i <= to <= s@.len(),
            to - from <= 512,
            sum == byte_sum(s@.subrange(from as int, i as int)),
            sum <= 255 * (i - from),
        decreases to - i,
    {
        proof {
            assert(s@.subrange(from as int, i + 1).drop_last() =~= s@.subrange(
                from as int,
                i as int,
            ));
            assert(s@.subrange(from as int, i + 1).last() == s@[i as int]);
        }
        sum = sum + s[i] as u64;
        i += 1;
    }
    sum
}

fn is_zero_range(s: &[u8], from: usize, to: usize) -> (r: bool)
    requires
        from <= to <= s@.len(),
    ensures
        r == (s@.subrange(from as int, to as int) == zeros((to - from) as nat)),
{
    let mut i: usize = from;
    while i < to
        invariant
            from <= i <= to <= s@.len(),
            forall|k: int| from <= k < i ==> s@[k] == 0,
        decreases to - i,
    {
        if s[i] != 0 {
            assert(s@.subrange(from as int, to as int)[i - from] != 0);
            return false;
        }
        i += 1;
    }
    assert(s@.subrange(from as int, to as int) =~= zeros((to - from) as nat));
    true
}

fn parse_octal_range(s: &[u8], from: usize, to: usize) -> (r: Option<u64>)
    requires
        from <= to <= s@.len(),
        to - from <= 11,
    ensures
        r is Some <==> is_octal_digits(s@.subrange(from as int, to as int)),
        r is Some ==> r->0 == spec_parse_octal(s@.subrange(from as int, to as int)),
{
    let ghost field = s@.subrange(from as int, to as int);
    let mut i: usize = from;
    while i < to
        invariant
            from <= i <= to <= s@.len(),
            forall|k: int| from <= k < i ==> 48 <= #[trigger] s@[k] <= 55,
        decreases to - i,
    {
        let b = s[i];
        if b < 48 || b > 55 {
            assert(s@.subrange(from as int, to as int)[i - from] == s@[i as int]);
            return None;
        }
        i += 1;
    }
    assert(is_octal_digits(field)) by {
        assert(forall|k: int| 0 <= k < field.len() ==> field[k] == s@[from + k]);
    }
    proof {
        lemma_pow8_values();
    }
    let mut j: usize = from;
    let mut val: u64 = 0;
    while j < to
        invariant
            from <= j <= to <= s@.len(),
            to - from <= 11,
            is_octal_digits(field),
            field == s@.subrange(from as int, to as int),
            val == spec_parse_octal(s@.subrange(from as int, j as int)),
            val < pow8((j - from) as nat),
            pow8(11) == 8589934592,
        decreases to - j,
    {
        proof {
            assert(s@.subrange(from as int, j + 1).drop_last() =~= s@.subrange(
                from as int,
                j as int,
            ));
            assert(s@.subrange(from as int, j + 1).last() == s@[j as int]);
            lemma_pow8_mono((j + 1 - from) as nat, 11);
            assert(field[j - from] == s@[j as int]);
        }
        val = val * 8 + (s[j] - 48) as u64;
        j += 1;
    }
    Some(val)
}

proof fn lemma_pow8_mono(a: nat, b: nat)
    requires
        a <= b,
    ensures
        pow8(a) <= pow8(b),
    decreases b,
{
    if a < b {
        lemma_pow8_mono(a, (b - 1) as nat);
    }
}

/// Append the 512-byte header for one entry.
fn append_header(out: &mut Vec<u8>, name: &[u8], size: u64)
    requires
        wf_entry_name(name@),
        size <= MAX_ENTRY_SIZE,
    ensures
        final(out)@ == old(out)@ + spec_header(name@, size as nat),
{
    broadcast use lemma_octal_len;

    let mut h: Vec<u8> = Vec::new();
    push_slice(&mut h, name);
    push_zeros(&mut h, 100 - name.len());
    push_octal(&mut h, 420, 7);
    h.push(0);
    push_octal(&mut h, 0, 7);
    h.push(0);
    push_octal(&mut h, 0, 7);
    h.push(0);
    push_octal(&mut h, size, 11);
    h.push(0);
    push_octal(&mut h, 0, 11);
    h.push(0);
    proof {
        assert(h@ =~= header_prefix(name@, size as nat));
    }
    let prefix_sum = sum_bytes(&h);
    let mut t: Vec<u8> = Vec::new();
    t.push(48);
    push_zeros(&mut t, 100);
    t.push(117);
    t.push(115);
    t.push(116);
    t.push(97);
    t.push(114);
    t.push(0);
    t.push(48);
    t.push(48);
    push_zeros(&mut t, 32);
    push_zeros(&mut t, 32);
    push_zeros(&mut t, 8);
    push_zeros(&mut t, 8);
    push_zeros(&mut t, 155);
    push_zeros(&mut t, 12);
    proof {
        assert(t@ =~= header_suffix());
    }
    let suffix_sum = sum_bytes(&t);
    proof {
        lemma_byte_sum_bound(h@);
        lemma_byte_sum_bound(t@);
    }
    let chk = prefix_sum + 256 + suffix_sum;
    out.append(&mut h);
    push_octal(out, chk, 6);
    out.push(0);
    out.push(32);
    out.append(&mut t);
    proof {
        assert(out@ =~= old(out)@ + spec_header(name@, size as nat));
    }
}

/// Whether one entry is well formed, checked at run time.
fn check_entry_wf(e: &FileEntry) -> (r: bool)
    ensures
        r == wf_entry(e.model()),
{
    if e.path.len() == 0 || e.path.len() > 100 {
        return false;
    }
    if (e.data.len() as u64) > MAX_ENTRY_SIZE {
        return false;
    }
    let n = e.path.len();
    let mut i: usize = 0;
    while i < n
        invariant
            n == e.path@.len(),
            i <= n,
            forall|k: int| 0 <= k < i ==> e.path@[k] != 0,
        decreases n - i,
    {
        if e.path[i] == 0 {
            return false;
        }
        i += 1;
    }
    true
}

/// What a scan of one header block found.
struct HeaderScan {
    valid: bool,
    size: Option<u64>,
    name: Vec<u8>,
}

fn read_header(s: &[u8], pos: usize) -> (r: HeaderScan)
    requires
        pos + 512 <= s@.len(),
    ensures
        r.valid == spec_valid_full_header(s@.subrange(pos as int, pos + 512)),
        r.size is Some <==> is_octal_digits(
            s@.subrange(pos as int, pos + 512).subrange(124, 135),
        ),
        r.size is Some ==> r.size->0 == header_size_of(s@.subrange(pos as int, pos + 512)),
        r.name@ == header_name_of(s@.subrange(pos as int, pos + 512)),
{
    let ghost h = s@.subrange(pos as int, pos + 512);
    let slen = s.len();
    let mut idx: usize = 0;
    while idx < 100 && s[pos + idx] != 0
        invariant
            pos + 512 <= s@.len(),
            s@.len() == slen,
            idx <= 100,
            forall|i: int| 0 <= i < idx ==> #[trigger] s@[pos + i] != 0,
        decreases 100 - idx,
    {
        idx += 1;
    }
    let name = copy_range(s, pos, pos + idx);
    proof {
        let f = h.subrange(0, 100);
        assert(forall|i: int| 0 <= i < 100 ==> f[i] == s@[pos + i]);
        lemma_first_zero(f, idx as int);
        assert(name@ =~= header_name_of(h));
    }
    let size = parse_octal_range(s, pos + 124, pos + 135);
    proof {
        assert(s@.subrange(pos + 124, pos + 135) =~= h.subrange(124, 135));
    }
    let chk = parse_octal_range(s, pos + 148, pos + 154);
    proof {
        assert(s@.subrange(pos + 148, pos + 154) =~= h.subrange(148, 154));
    }
    let sum1 = sum_range(s, pos, pos + 148);
    let sum2 = sum_range(s, pos + 156, pos + 512);
    proof {
        assert(s@.subrange(pos as int, pos + 148) =~= h.subrange(0, 148));
        assert(s@.subrange(pos + 156, pos + 512) =~= h.subrange(156, 512));
        lemma_byte_sum_bound(h.subrange(0, 148));
        lemma_byte_sum_bound(h.subrange(156, 512));
    }
    let chk_matches = match chk {
        Option::Some(c) => c == sum1 + 256 + sum2,
        Option::None => false,
    };
    let valid = s[pos] != 0 && size.is_some() && s[pos + 135] == 0 && chk_matches && s[pos + 156]
        == 48;
    proof {
        assert(h[0] == s@[pos as int]);
        assert(h[135] == s@[pos + 135]);
        assert(h[156] == s@[pos + 156]);
    }
    HeaderScan { valid, size, name }
}

/// Walk a sequential container.
///
/// A strictly well-formed archive is decoded exactly, with no warnings.
/// On a damaged archive, a rejected entry becomes a warning and the walk
/// skips past it, or stops where it can no longer find the next block,
/// when `skip_bad_blocks` is set — the lenient walk always completes;
/// otherwise the walk aborts on the first rejected entry, so it never
/// returns both entries and warnings under a strict policy.
pub fn parse_tar(data: &[u8], skip_bad_blocks: bool) -> (r: Result<
    (Vec<FileEntry>, Vec<String>),
    ExtractError,
>)
    ensures
        tar_decode(data@) is Some ==> r is Ok && entries_model(r->Ok_0.0@) == tar_decode(
            data@,
        )->0 && r->Ok_0.1@.len() == 0,
        skip_bad_blocks ==> r is Ok,
        r is Ok && !skip_bad_blocks ==> r->Ok_0.1@.len() == 0,
        r is Err ==> r->Err_0 matches ExtractError::IntegrityFailure { .. },
{
    let ghost dm = tar_decode(data@);
    let n = data.len();
    let mut pos: usize = 0;
    let mut entries: Vec<FileEntry> = Vec::new();
    let mut warnings: Vec<String> = Vec::new();
    let mut done = false;
    proof {
        assert(data@.subrange(0, n as int) =~= data@);
        if dm is Some {
            assert(entries_model(entries@) =~= dm->0.take(0));
            assert(dm->0.skip(0) =~= dm->0);
        }
    }
    while !done
        invariant
            n == data@.len(),
            pos <= n,
            dm == tar_decode(data@),
            !skip_bad_blocks ==> warnings@.len() == 0,
            dm is Some ==> {
                &&& warnings@.len() == 0
                &&& entries@.len() <= dm->0.len()
                &&& entries_model(entries@) == dm->0.take(entries@.len() as int)
                &&& tar_decode(data@.subrange(pos as int, n as int)) == Some(
                    dm->0.skip(entries@.len() as int),
                )
                &&& (done ==> entries@.len() == dm->0.len())
            },
        decreases n - pos, (if done { 0int } else { 1int }),
    {
        let ghost k = entries@.len() as int;
        let ghost suffix = data@.subrange(pos as int, n as int);
        if n - pos < 512 {
            // fewer bytes than a block remain; a well-formed archive
            // cannot end here
            assert(dm is Some ==> false) by {
                if dm is Some {
                    assert(suffix.len() < 1024);
                }
            }
            if pos == n {
                done = true;
            } else {
                if !skip_bad_blocks {
                    return Err(
                        ExtractError::IntegrityFailure {
                            details: String::from_str("archive truncated inside a block"),
                        },
                    );
                }
                warnings.push(String::from_str("trailing partial block ignored"));
                done = true;
            }
        } else if is_zero_range(data, pos, pos + 512) {
            // terminator reached
            proof {
                if dm is Some {
                    assert(suffix.subrange(0, 512) =~= data@.subrange(pos as int, pos + 512));
                    assert(suffix.len() >= 1024);
                    assert(dm->0.skip(k).len() == 0);
                    assert(entries@.len() == dm->0.len());
                }
            }
            done = true;
        } else {
            let scan = read_header(data, pos);
            let ghost h = suffix.subrange(0, 512);
            proof {
                assert(h =~= data@.subrange(pos as int, pos + 512));
                if dm is Some {
                    assert(suffix.len() >= 1024);
                    assert(suffix.subrange(0, 512) != zeros(512));
                    assert(spec_valid_full_header(h));
                }
            }
            if scan.valid {
                let size_u = scan.size.unwrap();
                proof {
                    lemma_parse_octal_bound(data@.subrange(pos as int, pos + 512).subrange(
                        124,
                        135,
                    ));
                    lemma_pow8_values();
                }
                let pad_u: u64 = if size_u % 512 == 0 {
                    0
                } else {
                    512 - size_u % 512
                };
                let avail: u64 = (n - pos) as u64;
                if 512 + size_u + pad_u > avail {
                    // the header promises more data than the stream holds
                    assert(dm is Some ==> false) by {
                        if dm is Some {
                            assert(512 + header_size_of(h) + pad_len(header_size_of(h))
                                <= suffix.len());
                        }
                    }
                    if !skip_bad_blocks {
                        return Err(
                            ExtractError::IntegrityFailure {
                                details: String::from_str("entry data truncated"),
                            },
                        );
                    }
                    warnings.push(String::from_str("truncated final entry ignored"));
                    done = true;
                } else {
                    let start = pos + 512;
                    let dend = start + size_u as usize;
                    let contents = copy_range(data, start, dend);
                    let new_pos = pos + (512 + size_u + pad_u) as usize;
                    proof {
                        if dm is Some {
                            let tail = dm->0.skip(k);
                            assert(tail[0] == (header_name_of(h), suffix.subrange(
                                512,
                                512 + header_size_of(h) as int,
                            )));
                            assert(suffix.subrange(512, 512 + header_size_of(h) as int)
                                =~= data@.subrange(start as int, dend as int));
                            assert(tail.len() > 0);
                            assert(tail.len() == dm->0.len() - k);
                            assert(dm->0.skip(k)[0] == dm->0[k + 0]);
                            assert(dm->0[k] == tail[0]);
                        }
                    }
                    entries.push(FileEntry { path: scan.name, data: contents });
                    proof {
                        if dm is Some {
                            assert(entries_model(entries@) =~= dm->0.take(k + 1));
                            let total = 512 + header_size_of(h) + pad_len(header_size_of(h));
                            assert(data@.subrange(new_pos as int, n as int) =~= suffix.subrange(
                                total as int,
                                suffix.len() as int,
                            ));
                            assert(dm->0.skip(k).drop_first() =~= dm->0.skip(k + 1));
                        }
                    }
                    pos = new_pos;
                }
            } else {
                // the block is not a header this decoder accepts
                assert(dm is None);
                let mut msg = String::from_str("entry header rejected: ");
                let shown = bytes_to_string_lossy(scan.name.as_slice());
                msg.append(shown.as_str());
                if !skip_bad_blocks {
                    return Err(ExtractError::IntegrityFailure { details: msg });
                }
                warnings.push(msg);
                match scan.size {
                    Option::Some(size_u) => {
                        proof {
                            lemma_parse_octal_bound(data@.subrange(pos as int, pos + 512).subrange(
                                124,
                                135,
                            ));
                            lemma_pow8_values();
                        }
                        let pad_u: u64 = if size_u % 512 == 0 {
                            0
                        } else {
                            512 - size_u % 512
                        };
                        let avail: u64 = (n - pos) as u64;
                        if 512 + size_u + pad_u > avail {
                            warnings.push(String::from_str("truncated final entry ignored"));
                            done = true;
                        } else {
                            pos = pos + (512 + size_u + pad_u) as usize;
                        }
                    },
                    Option::None => {
                        // without a readable size the walk cannot find
                        // the next entry; keep what was recovered
                        warnings.push(
                            String::from_str("unreadable size field; rest of archive skipped"),
                        );
                        done = true;
                    },
                }
            }
        }
    }
    proof {
        if dm is Some {
            assert(entries_model(entries@) =~= dm->0);
        }
    }
    Ok((entries, warnings))
}

/// Build a complete sequential container from a list of entries.
///
/// Succeeds exactly when every entry's name and size fit the format; the
/// output is then exactly the specified encoding of the entries.
pub fn build_tar(entries: &Vec<FileEntry>) -> (r: Result<Vec<u8>, ExtractError>)
    ensures
        r is Ok <==> wf_entries(entries_model(entries@)),
        r is Ok ==> r->Ok_0@ == tar_encode(entries_model(entries@)),
        r is Err ==> r->Err_0 matches ExtractError::IntegrityFailure { .. },
{
    let ghost ms = entries_model(entries@);
    let n = entries.len();
    let mut k: usize = 0;
    while k < n
        invariant
            n == entries@.len(),
            k <= n,
            ms == entries_model(entries@),
            forall|i: int| 0 <= i < k ==> wf_entry(#[trigger] ms[i]),
        decreases n - k,
    {
        if !check_entry_wf(&entries[k]) {
            assert(!wf_entry(ms[k as int]));
            return Err(
                ExtractError::IntegrityFailure {
                    details: String::from_str("entry name or size does not fit the container format"),
                },
            );
        }
        k += 1;
    }
    assert(wf_entries(ms));
    let mut out: Vec<u8> = Vec::new();
    let mut j: usize = 0;
    while j < n
        invariant
            n == entries@.len(),
            j <= n,
            ms == entries_model(entries@),
            wf_entries(ms),
            out@ == tar_entries_bytes(ms.take(j as int)),
        decreases n - j,
    {
        let e = &entries[j];
        assert(e.model() == ms[j as int]);
        append_header(&mut out, e.path.as_slice(), e.data.len() as u64);
        push_slice(&mut out, e.data.as_slice());
        let pad = if e.data.len() % 512 == 0 {
            0
        } else {
            512 - e.data.len() % 512
        };
        push_zeros(&mut out, pad);
        proof {
            lemma_tar_entries_snoc(ms, j as int);
            assert(out@ =~= tar_entries_bytes(ms.take(j as int)) + spec_entry_bytes(ms[j as int]));
        }
        j += 1;
    }
    push_zeros(&mut out, 1024);
    proof {
        assert(ms.take(n as int) =~= ms);
        lemma_tar_encode_split(ms);
    }
    Ok(out)
}

} // verus!

