//! Integrity guard: checksum / MAC verification over byte streams.
//!
//! The guard only classifies a byte range as clean or corrupt; whether a
//! corrupt verdict is fatal is the container engine's decision, driven by
//! `IntegrityPolicy::skip_bad_blocks`.

use vstd::prelude::*;
use vstd::string::StringExecFns;
use hmac::{KeyInit, Mac};
use crate::errors::ExtractError;
use crate::text::{spec_decimal, u64_string};

verus! {

/// Configuration for integrity verification and failure policy.
#[derive(Debug, Clone)]
pub struct IntegrityPolicy {
    /// Expected CRC32 over the verified byte range, if any.
    pub crc32: Option<u32>,
    /// Key for a SHA-256-based HMAC, if any.
    pub hmac_key: Option<Vec<u8>>,
    /// Expected HMAC tag, if any.
    pub hmac_tag: Option<Vec<u8>>,
    /// Informational bound for future retry logic.
    pub retry_attempts: u8,
    /// Continue past a recoverable entry failure instead of aborting.
    pub skip_bad_blocks: bool,
    /// Chunking hint for rolling verification.
    pub block_size: usize,
}

impl Default for IntegrityPolicy {
    /// The lenient preset: no checks, skip bad blocks.
    fn default() -> (r: Self)
        ensures
            r.crc32 is None,
            r.hmac_key is None,
            r.hmac_tag is None,
            r.retry_attempts == 1,
            r.skip_bad_blocks == true,
            r.block_size == 0x100000,
    {
        IntegrityPolicy {
            crc32: None,
            hmac_key: None,
            hmac_tag: None,
            retry_attempts: 1,
            skip_bad_blocks: true,
            block_size: 0x100000,  // 1 MiB chunks for rolling verification
        }
    }
}

impl IntegrityPolicy {
    /// The strict preset: three retry attempts, abort on the first bad
    /// entry.
    pub fn strict() -> (r: Self)
        ensures
            r.crc32 is None,
            r.hmac_key is None,
            r.hmac_tag is None,
            r.retry_attempts == 3,
            r.skip_bad_blocks == false,
            r.block_size == 0x100000,
    {
        IntegrityPolicy {
            crc32: None,
            hmac_key: None,
            hmac_tag: None,
            retry_attempts: 3,
            skip_bad_blocks: false,
            block_size: 0x100000,
        }
    }
}

/// What the guard concludes about a byte range.
#[derive(Debug, Clone)]
pub enum IntegrityVerdict {
    Clean,
    Corrupt { reason: String },
}

/// The CRC32 checksum of a byte string.
pub uninterp spec fn crc32_of(bytes: Seq<u8>) -> u32;

/// Relies on `crc32fast::hash`: the checksum is a function of the bytes
/// alone.
#[verifier::external_body]
fn crc32_hash(bytes: &[u8]) -> (r: u32)
    ensures
        r == crc32_of(bytes@),
{
    crc32fast::hash(bytes)
}

/// The SHA-256-based HMAC tag for a key and a byte string.
pub uninterp spec fn hmac_sha256_of(key: Seq<u8>, data: Seq<u8>) -> Seq<u8>;

/// Relies on `hmac::Hmac` over `sha2::Sha256`: the tag is a function of
/// key and data alone, any key length is accepted, and `verify_slice`
/// compares the computed tag against the expected bytes without
/// short-circuiting on the first mismatch.
#[verifier::external_body]
fn hmac_sha256_matches(key: &[u8], data: &[u8], expected: &[u8]) -> (r: bool)
    ensures
        r == (expected@ == hmac_sha256_of(key@, data@)),
{
    let mut mac = <hmac::Hmac<sha2::Sha256> as KeyInit>::new_from_slice(key).unwrap();
    mac.update(data);
    mac.verify_slice(expected).is_ok()
}

/// The detail text for a CRC mismatch.
pub open spec fn spec_crc_mismatch_reason(expected: u32, got: u32) -> Seq<char> {
    "crc mismatch expected "@ + spec_decimal(expected as nat) + " got "@ + spec_decimal(got as nat)
}

fn crc_mismatch_reason(expected: u32, got: u32) -> (r: String)
    ensures
        r@ == spec_crc_mismatch_reason(expected, got),
{
    let mut s = String::from_str("crc mismatch expected ");
    let e = u64_string(expected as u64);
    s.append(e.as_str());
    s.append(" got ");
    let g = u64_string(got as u64);
    s.append(g.as_str());
    assert(s@ =~= spec_crc_mismatch_reason(expected, got));
    s
}

/// One-shot CRC32 verification over a completed buffer.
pub fn verify_crc32(bytes: &[u8], expected: u32) -> (r: IntegrityVerdict)
    ensures
        crc32_of(bytes@) == expected ==> r is Clean,
        crc32_of(bytes@) != expected ==> (r matches IntegrityVerdict::Corrupt { reason }
            && reason@ == spec_crc_mismatch_reason(expected, crc32_of(bytes@))),
{
    let calc = crc32_hash(bytes);
    if calc == expected {
        IntegrityVerdict::Clean
    } else {
        IntegrityVerdict::Corrupt { reason: crc_mismatch_reason(expected, calc) }
    }
}

/// One-shot keyed-MAC verification over a completed buffer.
pub fn verify_hmac(bytes: &[u8], key: &[u8], expected: &[u8]) -> (r: IntegrityVerdict)
    ensures
        expected@ == hmac_sha256_of(key@, bytes@) ==> r is Clean,
        expected@ != hmac_sha256_of(key@, bytes@) ==> (r matches IntegrityVerdict::Corrupt {
            reason,
        } && reason@ == "hmac mismatch"@),
{
    if hmac_sha256_matches(key, bytes, expected) {
        IntegrityVerdict::Clean
    } else {
        IntegrityVerdict::Corrupt { reason: String::from_str("hmac mismatch") }
    }
}

/// Every configured check of `policy` passes on `bytes`.
pub open spec fn spec_guard_clean(bytes: Seq<u8>, policy: IntegrityPolicy) -> bool {
    &&& (policy.crc32 is Some ==> crc32_of(bytes) == policy.crc32->0)
    &&& ((policy.hmac_key is Some && policy.hmac_tag is Some) ==> policy.hmac_tag->0@
        == hmac_sha256_of(policy.hmac_key->0@, bytes))
}

/// Run every configured check of `policy` over a completed buffer.
pub fn guard(bytes: &[u8], policy: &IntegrityPolicy) -> (r: Result<(), ExtractError>)
    ensures
        r is Ok <==> spec_guard_clean(bytes@, *policy),
        r is Err ==> r->Err_0 matches ExtractError::IntegrityFailure { .. },
{
    if let Some(expected) = policy.crc32 {
        if let IntegrityVerdict::Corrupt { reason } = verify_crc32(bytes, expected) {
            return Err(ExtractError::IntegrityFailure { details: reason });
        }
    }
    if policy.hmac_key.is_some() && policy.hmac_tag.is_some() {
        let key = policy.hmac_key.as_ref().unwrap();
        let tag = policy.hmac_tag.as_ref().unwrap();
        if let IntegrityVerdict::Corrupt { reason } = verify_hmac(bytes, key.as_slice(),
            tag.as_slice()) {
            return Err(ExtractError::IntegrityFailure { details: reason });
        }
    }
    Ok(())
}

/// Streaming variant of the guard: consume a stream chunk by chunk, then
/// give the verdict at finalization.  The accumulating state belongs to
/// exactly one in-flight stream.
pub struct IntegrityGuardReader {
    /// Every byte forwarded so far.
    pub consumed: Vec<u8>,
    /// The policy fixed when the stream was opened.
    pub policy: IntegrityPolicy,
}

impl IntegrityGuardReader {
    pub fn new(policy: IntegrityPolicy) -> (r: Self)
        ensures
            r.consumed@ == Seq::<u8>::empty(),
            r.policy == policy,
    {
        IntegrityGuardReader { consumed: Vec::new(), policy }
    }

    /// Forward one chunk of the stream through the guard.
    pub fn consume(&mut self, chunk: &[u8])
        ensures
            final(self).consumed@ == old(self).consumed@ + chunk@,
            final(self).policy == old(self).policy,
    {
        let mut i: usize = 0;
        let n = chunk.len();
        while i < n
            invariant
                n == chunk@.len(),
                i <= n,
                self.consumed@ == old(self).consumed@ + chunk@.subrange(0, i as int),
                self.policy == old(self).policy,
            decreases n - i,
        {
            self.consumed.push(chunk[i]);
            proof {
                assert(self.consumed@ =~= old(self).consumed@ + chunk@.subrange(0, i + 1));
            }
            i += 1;
        }
        proof {
            assert(self.consumed@ =~= old(self).consumed@ + chunk@);
        }
    }

    /// Bytes forwarded so far.
    pub fn bytes_seen(&self) -> (r: usize)
        ensures
            r == self.consumed@.len(),
    {
        self.consumed.len()
    }

    /// Close the stream: every configured check must match what was
    /// consumed.
    pub fn finalize(self) -> (r: Result<(), ExtractError>)
        ensures
            r is Ok <==> spec_guard_clean(self.consumed@, self.policy),
            r is Err ==> r->Err_0 matches ExtractError::IntegrityFailure { .. },
    {
        guard(self.consumed.as_slice(), &self.policy)
    }
}

} // verus!
