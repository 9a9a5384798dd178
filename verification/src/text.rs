//! Byte-string and message-building utilities.
//!
//! Archive entry names are raw bytes, and format names arrive as `&str`;
//! every contract in the crate speaks about them through `Seq<u8>` (for
//! `&str`, through `spec_bytes`), so the helpers here do the byte-level
//! comparisons and the message concatenation that the engine needs.

use vstd::prelude::*;
use vstd::string::StrSliceExecFns;
use vstd::string::StringSliceAdditionalSpecFns;
use vstd::string::StringExecFns;

verus! {

/// `needle` occurs contiguously somewhere in `hay`.
pub open spec fn is_substring_of(needle: Seq<u8>, hay: Seq<u8>) -> bool {
    exists|i: int|
        0 <= i && i + needle.len() <= hay.len() && #[trigger] hay.subrange(i, i + needle.len())
            == needle
}

/// `needle` occurs contiguously somewhere in `hay`, over characters.
pub open spec fn is_substring_chars(needle: Seq<char>, hay: Seq<char>) -> bool {
    exists|i: int|
        0 <= i && i + needle.len() <= hay.len() && #[trigger] hay.subrange(i, i + needle.len())
            == needle
}

/// A prefix is in particular a substring.
pub proof fn lemma_prefix_is_substring_chars(needle: Seq<char>, hay: Seq<char>)
    requires
        needle.len() <= hay.len(),
        hay.subrange(0, needle.len() as int) == needle,
    ensures
        is_substring_chars(needle, hay),
{
    assert(hay.subrange(0, 0 + needle.len() as int) == needle);
}

/// `suffix` is a suffix of `hay`.
pub open spec fn is_suffix_of(suffix: Seq<u8>, hay: Seq<u8>) -> bool {
    suffix.len() <= hay.len() && hay.subrange(
        hay.len() - suffix.len(),
        hay.len() as int,
    ) == suffix
}

/// Exact byte-slice equality.
pub fn bytes_eq(a: &[u8], b: &[u8]) -> (r: bool)
    ensures
        r == (a@ == b@),
{
    if a.len() != b.len() {
        assert(a@.len() != b@.len());
        return false;
    }
    let n = a.len();
    let mut i: usize = 0;
    while i < n
        invariant
            n == a@.len() == b@.len(),
            i <= n,
            forall|k: int| 0 <= k < i ==> a@[k] == b@[k],
        decreases n - i,
    {
        if a[i] != b[i] {
            return false;
        }
        i += 1;
    }
    assert(a@ =~= b@);
    true
}

/// Byte-level equality of two string slices.
pub fn str_bytes_eq(a: &str, b: &str) -> (r: bool)
    ensures
        r == (a.spec_bytes() == b.spec_bytes()),
{
    bytes_eq(a.as_bytes(), b.as_bytes())
}

/// Whether `hay` ends with `suffix`, bytewise.
pub fn ends_with_bytes(hay: &[u8], suffix: &[u8]) -> (r: bool)
    ensures
        r == is_suffix_of(suffix@, hay@),
{
    if suffix.len() > hay.len() {
        return false;
    }
    let start = hay.len() - suffix.len();
    let n = suffix.len();
    let mut i: usize = 0;
    while i < n
        invariant
            n == suffix@.len(),
            n <= hay@.len(),
            start == hay@.len() - n,
            start + n <= usize::MAX,
            i <= n,
            forall|k: int| 0 <= k < i ==> hay@[start + k] == suffix@[k],
        decreases n - i,
    {
        if hay[start + i] != suffix[i] {
            assert(hay@.subrange(start as int, hay@.len() as int)[i as int] != suffix@[i as int]);
            return false;
        }
        i += 1;
    }
    assert(hay@.subrange(start as int, hay@.len() as int) =~= suffix@);
    true
}

/// Substring search, naive but exact.
pub fn contains_bytes(hay: &[u8], needle: &[u8]) -> (r: bool)
    ensures
        r == is_substring_of(needle@, hay@),
{
    let m = needle.len();
    let n = hay.len();
    if m > n {
        return false;
    }
    let mut i: usize = 0;
    while i <= n - m
        invariant
            m == needle@.len(),
            n == hay@.len(),
            m <= n,
            i <= n - m + 1,
            forall|s: int|
                0 <= s < i ==> #[trigger] hay@.subrange(s, s + m) != needle@,
        decreases n - i,
    {
        let mut j: usize = 0;
        let mut matched = true;
        while j < m
            invariant
                m == needle@.len(),
                n == hay@.len(),
                i + m <= n,
                j <= m,
                matched <==> forall|k: int| 0 <= k < j ==> hay@[i + k] == needle@[k],
            decreases m - j,
        {
            if hay[i + j] != needle[j] {
                matched = false;
            }
            j += 1;
        }
        if matched {
            assert(hay@.subrange(i as int, i + m) =~= needle@);
            return true;
        }
        proof {
            let k = choose|k: int| 0 <= k < m && hay@[i + k] != needle@[k];
            assert(hay@.subrange(i as int, i + m)[k] != needle@[k]);
            assert(hay@.subrange(i as int, i + m) != needle@);
        }
        i += 1;
    }
    false
}

/// Whether `pattern` occurs inside `hay`, both taken bytewise.
pub fn str_contains(hay: &str, pattern: &str) -> (r: bool)
    ensures
        r == is_substring_of(pattern.spec_bytes(), hay.spec_bytes()),
{
    contains_bytes(hay.as_bytes(), pattern.as_bytes())
}

/// The character for one decimal digit.
pub open spec fn spec_digit_char(d: int) -> char {
    if d == 0 {
        '0'
    } else if d == 1 {
        '1'
    } else if d == 2 {
        '2'
    } else if d == 3 {
        '3'
    } else if d == 4 {
        '4'
    } else if d == 5 {
        '5'
    } else if d == 6 {
        '6'
    } else if d == 7 {
        '7'
    } else if d == 8 {
        '8'
    } else {
        '9'
    }
}

/// Decimal notation of `n`, most significant digit first.
pub open spec fn spec_decimal(n: nat) -> Seq<char>
    decreases n,
{
    if n < 10 {
        seq![spec_digit_char(n as int)]
    } else {
        spec_decimal(n / 10) + seq![spec_digit_char((n % 10) as int)]
    }
}

fn digit_str(d: u64) -> (r: &'static str)
    requires
        d < 10,
    ensures
        r@ == seq![spec_digit_char(d as int)],
{
    proof {
        reveal_strlit("0");
        reveal_strlit("1");
        reveal_strlit("2");
        reveal_strlit("3");
        reveal_strlit("4");
        reveal_strlit("5");
        reveal_strlit("6");
        reveal_strlit("7");
        reveal_strlit("8");
        reveal_strlit("9");
    }
    let r = if d == 0 {
        "0"
    } else if d == 1 {
        "1"
    } else if d == 2 {
        "2"
    } else if d == 3 {
        "3"
    } else if d == 4 {
        "4"
    } else if d == 5 {
        "5"
    } else if d == 6 {
        "6"
    } else if d == 7 {
        "7"
    } else if d == 8 {
        "8"
    } else {
        "9"
    };
    assert(r@ =~= seq![spec_digit_char(d as int)]);
    r
}

/// `n` written in decimal.
pub fn u64_string(n: u64) -> (r: String)
    ensures
        r@ == spec_decimal(n as nat),
    decreases n,
{
    if n < 10 {
        String::from_str(digit_str(n))
    } else {
        let mut s = u64_string(n / 10);
        s.append(digit_str(n % 10));
        assert(s@ =~= spec_decimal(n as nat));
        s
    }
}

/// Bytewise copy of a slice into a fresh vector.
pub fn copy_byte_slice(s: &[u8]) -> (r: Vec<u8>)
    ensures
        r@ == s@,
{
    let n = s.len();
    let mut out: Vec<u8> = Vec::new();
    let mut i: usize = 0;
    while i < n
        invariant
            n == s@.len(),
            i <= n,
            out@ == s@.subrange(0, i as int),
        decreases n - i,
    {
        out.push(s[i]);
        proof {
            assert(out@ =~= s@.subrange(0, i + 1));
        }
        i += 1;
    }
    proof {
        assert(out@ =~= s@);
    }
    out
}

/// What `String::from_utf8_lossy` decodes a byte string to.
pub uninterp spec fn lossy_chars(bytes: Seq<u8>) -> Seq<char>;

/// Relies on `String::from_utf8_lossy`: the result depends on the bytes
/// alone, and ASCII bytes decode to the same characters.
#[verifier::external_body]
pub(crate) fn bytes_to_string_lossy(v: &[u8]) -> (r: String)
    ensures
        r@ == lossy_chars(v@),
        (forall|i: int| 0 <= i < v@.len() ==> v@[i] < 0x80) ==> r@ == v@.map_values(
            |b: u8| b as char,
        ),
{
    String::from_utf8_lossy(v).into_owned()
}

} // verus!
