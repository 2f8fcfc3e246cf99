//! The integrity verifier: checksums over binary payloads.
//!
//! CRC32 is computed here, bit by bit, against its mathematical definition.
//! The cryptographic digests come from outside crates; each digest value is
//! named by an uninterpreted function of the input bytes, and verification
//! is the proved comparison of the recorded bytes against that value.
//! A mismatch is reported, never silently corrected, and never blocks
//! access to the raw bytes: the caller holds the payload throughout.

use vstd::prelude::*;

verus! {

use crate::codec::ParseError;
use crate::element::{models, Element, SpecElement};
use crate::reader::bytes_child;
use crate::schema::{ID_CRC32, ID_MD5, ID_SHA1, ID_SHA256, ID_SHA512};
use crate::vint::{be_bytes, lemma_be_bytes_len, write_be};

/// The checksum algorithms the format records.
#[derive(Clone, Copy, Debug, PartialEq, Eq, Structural)]
pub enum ChecksumAlgorithm {
    Crc32,
    Md5,
    Sha1,
    Sha256,
    Sha512,
}

impl ChecksumAlgorithm {
    /// The fixed byte length of a recorded digest; any other length in a
    /// checksum field is malformed.
    pub open spec fn spec_digest_len(self) -> nat {
        match self {
            ChecksumAlgorithm::Crc32 => 4,
            ChecksumAlgorithm::Md5 => 16,
            ChecksumAlgorithm::Sha1 => 20,
            ChecksumAlgorithm::Sha256 => 32,
            ChecksumAlgorithm::Sha512 => 64,
        }
    }

    pub fn digest_len(&self) -> (r: usize)
        ensures
            r as nat == self.spec_digest_len(),
    {
        match self {
            ChecksumAlgorithm::Crc32 => 4,
            ChecksumAlgorithm::Md5 => 16,
            ChecksumAlgorithm::Sha1 => 20,
            ChecksumAlgorithm::Sha256 => 32,
            ChecksumAlgorithm::Sha512 => 64,
        }
    }
}

// ---------------------------------------------------------------------
// CRC32 (reflected, polynomial 0xEDB88320)
// ---------------------------------------------------------------------

/// One bit of CRC32: shift right, folding the polynomial in when a one
/// falls out.
pub open spec fn crc32_step(r: u32) -> u32 {
    if r & 1 == 1 {
        (r >> 1) ^ 0xEDB8_8320
    } else {
        r >> 1
    }
}

/// `crc32_step` applied k times.
pub open spec fn crc32_shift(r: u32, k: nat) -> u32
    decreases k,
{
    if k == 0 {
        r
    } else {
        crc32_step(crc32_shift(r, (k - 1) as nat))
    }
}

/// Absorb one byte into the running CRC32 register.
pub open spec fn crc32_update(r: u32, b: u8) -> u32 {
    crc32_shift(r ^ (b as u32), 8)
}

/// Absorb a byte string, left to right.
pub open spec fn crc32_fold(acc: u32, s: Seq<u8>) -> u32
    decreases s.len(),
{
    if s.len() == 0 {
        acc
    } else {
        crc32_fold(crc32_update(acc, s[0]), s.subrange(1, s.len() as int))
    }
}

/// The CRC32 of a byte string: all-ones preset, all-ones final mask.
pub open spec fn spec_crc32(s: Seq<u8>) -> u32 {
    crc32_fold(0xFFFF_FFFF, s) ^ 0xFFFF_FFFF
}

/// Compute the CRC32 of a byte string.
pub fn crc32(data: &Vec<u8>) -> (r: u32)
    ensures
        r == spec_crc32(data@),
{
    let mut acc: u32 = 0xFFFF_FFFF;
    let mut i: usize = 0;
    proof {
        assert(data@.subrange(0, data@.len() as int) =~= data@);
    }
    while i < data.len()
        invariant
            i <= data@.len(),
            crc32_fold(acc, data@.subrange(i as int, data@.len() as int)) == crc32_fold(
                0xFFFF_FFFF,
                data@,
            ),
        decreases data@.len() - i,
    {
        let b = data[i];
        let start: u32 = acc ^ (b as u32);
        let mut x: u32 = start;
        let mut k: usize = 0;
        while k < 8
            invariant
                k <= 8,
                x == crc32_shift(start, k as nat),
            decreases 8 - k,
        {
            if x & 1 == 1 {
                x = (x >> 1) ^ 0xEDB8_8320;
            } else {
                x = x >> 1;
            }
            k = k + 1;
        }
        proof {
            let rest = data@.subrange(i as int, data@.len() as int);
            let rest2 = data@.subrange(i + 1, data@.len() as int);
            assert(rest[0] == data@[i as int]);
            assert(rest.subrange(1, rest.len() as int) =~= rest2);
            assert(crc32_fold(acc, rest) == crc32_fold(crc32_update(acc, b), rest2));
        }
        acc = x;
        i = i + 1;
    }
    proof {
        assert(data@.subrange(data@.len() as int, data@.len() as int) =~= Seq::<u8>::empty());
    }
    acc ^ 0xFFFF_FFFF
}

// ---------------------------------------------------------------------
// Cryptographic digests, named results of outside crates
// ---------------------------------------------------------------------

/// The MD5 digest of a byte string; a function of the bytes alone.
pub uninterp spec fn md5_of(s: Seq<u8>) -> Seq<u8>;

/// The SHA-1 digest of a byte string; a function of the bytes alone.
pub uninterp spec fn sha1_of(s: Seq<u8>) -> Seq<u8>;

/// The SHA-256 digest of a byte string; a function of the bytes alone.
pub uninterp spec fn sha256_of(s: Seq<u8>) -> Seq<u8>;

/// The SHA-512 digest of a byte string; a function of the bytes alone.
pub uninterp spec fn sha512_of(s: Seq<u8>) -> Seq<u8>;

/// Relies on md5::Md5 of the md-5 crate: a 16-byte digest that depends on
/// the input bytes alone.
#[verifier::external_body]
fn md5_digest(data: &Vec<u8>) -> (r: Vec<u8>)
    ensures
        r@ == md5_of(data@),
        r@.len() == 16,
{
    <md5::Md5 as md5::Digest>::digest(data.as_slice()).to_vec()
}

/// Relies on sha1::Sha1: a 20-byte digest that depends on the input bytes
/// alone.
#[verifier::external_body]
fn sha1_digest(data: &Vec<u8>) -> (r: Vec<u8>)
    ensures
        r@ == sha1_of(data@),
        r@.len() == 20,
{
    <sha1::Sha1 as sha1::Digest>::digest(data.as_slice()).to_vec()
}

/// Relies on sha2::Sha256: a 32-byte digest that depends on the input
/// bytes alone.
#[verifier::external_body]
fn sha256_digest(data: &Vec<u8>) -> (r: Vec<u8>)
    ensures
        r@ == sha256_of(data@),
        r@.len() == 32,
{
    <sha2::Sha256 as sha2::Digest>::digest(data.as_slice()).to_vec()
}

/// Relies on sha2::Sha512: a 64-byte digest that depends on the input
/// bytes alone.
#[verifier::external_body]
fn sha512_digest(data: &Vec<u8>) -> (r: Vec<u8>)
    ensures
        r@ == sha512_of(data@),
        r@.len() == 64,
{
    <sha2::Sha512 as sha2::Digest>::digest(data.as_slice()).to_vec()
}

/// The digest a correct writer records for a payload under an algorithm;
/// CRC32 is stored as four big-endian bytes.
pub open spec fn spec_digest(alg: ChecksumAlgorithm, payload: Seq<u8>) -> Seq<u8> {
    match alg {
        ChecksumAlgorithm::Crc32 => be_bytes(spec_crc32(payload) as nat, 4),
        ChecksumAlgorithm::Md5 => md5_of(payload),
        ChecksumAlgorithm::Sha1 => sha1_of(payload),
        ChecksumAlgorithm::Sha256 => sha256_of(payload),
        ChecksumAlgorithm::Sha512 => sha512_of(payload),
    }
}

/// Byte-for-byte comparison.
pub fn bytes_eq(a: &Vec<u8>, b: &Vec<u8>) -> (r: bool)
    ensures
        r <==> a@ == b@,
{
    if a.len() != b.len() {
        return false;
    }
    let mut i: usize = 0;
    while i < a.len()
        invariant
            i <= a@.len(),
            a@.len() == b@.len(),
            forall|j: int| 0 <= j < i ==> a@[j] == b@[j],
        decreases a@.len() - i,
    {
        if a[i] != b[i] {
            return false;
        }
        i = i + 1;
    }
    proof {
        assert(a@ =~= b@);
    }
    true
}

/// Compute the digest of a payload under an algorithm.
pub fn compute_digest(alg: ChecksumAlgorithm, payload: &Vec<u8>) -> (r: Vec<u8>)
    ensures
        r@ == spec_digest(alg, payload@),
        r@.len() == alg.spec_digest_len(),
{
    match alg {
        ChecksumAlgorithm::Crc32 => {
            let c = crc32(payload);
            let mut out: Vec<u8> = Vec::new();
            write_be(&mut out, c as u64, 4);
            proof {
                lemma_be_bytes_len(spec_crc32(payload@) as nat, 4);
                assert(out@ =~= be_bytes(spec_crc32(payload@) as nat, 4));
            }
            out
        },
        ChecksumAlgorithm::Md5 => md5_digest(payload),
        ChecksumAlgorithm::Sha1 => sha1_digest(payload),
        ChecksumAlgorithm::Sha256 => sha256_digest(payload),
        ChecksumAlgorithm::Sha512 => sha512_digest(payload),
    }
}

/// Check a recorded digest against a payload. A recorded field of the
/// wrong length is malformed; otherwise `Ok(true)` exactly when the
/// recorded bytes equal the payload's digest, `Ok(false)` on a mismatch
/// (the `IntegrityFailure` condition).
pub fn verify_checksum(alg: ChecksumAlgorithm, payload: &Vec<u8>, recorded: &Vec<u8>) -> (r: Result<
    bool,
    ParseError,
>)
    ensures
        recorded@.len() != alg.spec_digest_len() <==> r == Err::<bool, _>(ParseError::MalformedTag),
        r == Ok::<_, ParseError>(true) <==> recorded@.len() == alg.spec_digest_len() && recorded@
            == spec_digest(alg, payload@),
        r == Ok::<_, ParseError>(false) <==> recorded@.len() == alg.spec_digest_len() && recorded@
            != spec_digest(alg, payload@),
{
    if recorded.len() != alg.digest_len() {
        return Err(ParseError::MalformedTag);
    }
    let expect = compute_digest(alg, payload);
    Ok(bytes_eq(recorded, &expect))
}


/// The schema identifier under which a digest is recorded.
pub open spec fn spec_checksum_id(alg: ChecksumAlgorithm) -> u32 {
    match alg {
        ChecksumAlgorithm::Crc32 => ID_CRC32,
        ChecksumAlgorithm::Md5 => ID_MD5,
        ChecksumAlgorithm::Sha1 => ID_SHA1,
        ChecksumAlgorithm::Sha256 => ID_SHA256,
        ChecksumAlgorithm::Sha512 => ID_SHA512,
    }
}

pub fn checksum_id(alg: ChecksumAlgorithm) -> (r: u32)
    ensures
        r == spec_checksum_id(alg),
{
    match alg {
        ChecksumAlgorithm::Crc32 => ID_CRC32,
        ChecksumAlgorithm::Md5 => ID_MD5,
        ChecksumAlgorithm::Sha1 => ID_SHA1,
        ChecksumAlgorithm::Sha256 => ID_SHA256,
        ChecksumAlgorithm::Sha512 => ID_SHA512,
    }
}

/// What checking one algorithm against a `FileProperties` child list
/// yields: `Ok(true)` when the field is absent or matches, `Ok(false)` on
/// a mismatch, malformed when the field has the wrong width.
pub open spec fn spec_verify_one(
    cs: Seq<SpecElement>,
    payload: Seq<u8>,
    alg: ChecksumAlgorithm,
) -> Result<bool, ParseError> {
    match bytes_child(cs, spec_checksum_id(alg)) {
        None => Ok(true),
        Some(d) => if d.len() != alg.spec_digest_len() {
            Err(ParseError::MalformedTag)
        } else {
            Ok(d == spec_digest(alg, payload))
        },
    }
}

/// What verifying a whole `FileProperties` block yields: every recorded
/// digest checked, a malformed field reported first, a mismatch reported
/// as `Ok(false)` — the `IntegrityFailure` condition, which never blocks
/// access to the payload bytes the caller already holds.
pub open spec fn spec_verify_props(cs: Seq<SpecElement>, payload: Seq<u8>) -> Result<
    bool,
    ParseError,
> {
    match spec_verify_one(cs, payload, ChecksumAlgorithm::Crc32) {
        Err(e) => Err(e),
        Ok(b1) => match spec_verify_one(cs, payload, ChecksumAlgorithm::Md5) {
            Err(e) => Err(e),
            Ok(b2) => match spec_verify_one(cs, payload, ChecksumAlgorithm::Sha1) {
                Err(e) => Err(e),
                Ok(b3) => match spec_verify_one(cs, payload, ChecksumAlgorithm::Sha256) {
                    Err(e) => Err(e),
                    Ok(b4) => match spec_verify_one(cs, payload, ChecksumAlgorithm::Sha512) {
                        Err(e) => Err(e),
                        Ok(b5) => Ok(b1 && b2 && b3 && b4 && b5),
                    },
                },
            },
        },
    }
}

/// Check one algorithm's recorded digest under a `FileProperties` child
/// list.
pub fn verify_one(children: &Vec<Element>, payload: &Vec<u8>, alg: ChecksumAlgorithm) -> (r:
    Result<bool, ParseError>)
    ensures
        r == spec_verify_one(models(children@), payload@, alg),
{
    match crate::reader::bytes_child_exec(children, checksum_id(alg)) {
        None => Ok(true),
        Some(d) => {
            if d.len() != alg.digest_len() {
                Err(ParseError::MalformedTag)
            } else {
                match verify_checksum(alg, payload, &d) {
                    Ok(b) => Ok(b),
                    Err(e) => Err(e),
                }
            }
        },
    }
}

/// Verify every digest a `FileProperties` element records against the
/// payload it describes. An element that is not a master, or records no
/// digest, verifies vacuously.
pub fn verify_file_properties(props: &Element, payload: &Vec<u8>) -> (r: Result<bool, ParseError>)
    ensures
        match props.model() {
            SpecElement::Master { children, .. } => r == spec_verify_props(children, payload@),
            _ => r == Ok::<bool, ParseError>(true),
        },
{
    match props {
        Element::Master { children, .. } => {
            let b1 = match verify_one(children, payload, ChecksumAlgorithm::Crc32) {
                Ok(b) => b,
                Err(e) => {
                    return Err(e);
                },
            };
            let b2 = match verify_one(children, payload, ChecksumAlgorithm::Md5) {
                Ok(b) => b,
                Err(e) => {
                    return Err(e);
                },
            };
            let b3 = match verify_one(children, payload, ChecksumAlgorithm::Sha1) {
                Ok(b) => b,
                Err(e) => {
                    return Err(e);
                },
            };
            let b4 = match verify_one(children, payload, ChecksumAlgorithm::Sha256) {
                Ok(b) => b,
                Err(e) => {
                    return Err(e);
                },
            };
            let b5 = match verify_one(children, payload, ChecksumAlgorithm::Sha512) {
                Ok(b) => b,
                Err(e) => {
                    return Err(e);
                },
            };
            Ok(b1 && b2 && b3 && b4 && b5)
        },
        _ => Ok(true),
    }
}

} // verus!

