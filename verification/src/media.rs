//! Deriving the media kind of an entity from its opaque encoded file
//! reference: the reference decodes from URL-safe base64 to a run-length
//! compressed byte string whose leading word names the kind.

use vstd::prelude::*;

use crate::types::{Entity, EntityType, StoreError};

verus! {

#[verifier::external_type_specification]
#[verifier::external_body]
pub struct ExDecodeError(base64::DecodeError);

/// What the URL-safe, unpadded base64 decoder makes of a string: the bytes
/// it decodes to when the string is well-formed base64, and nothing
/// otherwise. The result depends on the characters alone.
pub uninterp spec fn b64_url_decode_of(s: Seq<char>) -> Option<Seq<u8>>;

/// Relies on base64's URL_SAFE_NO_PAD engine: decoding is a function of the
/// input characters alone, it succeeds exactly on well-formed input, and
/// malformed input is reported, not guessed at.
#[verifier::external_body]
fn b64_url_decode(s: &str) -> (r: Result<Vec<u8>, base64::DecodeError>)
    ensures
        r matches Ok(v) ==> b64_url_decode_of(s@) == Some(v@),
        r is Err ==> b64_url_decode_of(s@) is None,
{
    base64::Engine::decode(&base64::engine::general_purpose::URL_SAFE_NO_PAD, s.as_bytes())
}

/// The run-length decoding the platform applies to file references: a zero
/// byte is followed by a count, standing for that many minus one further
/// zeros; every other byte stands for itself. A count of zero adds nothing.
pub open spec fn rle_decode_s(s: Seq<u8>, i: int, pending_zero: bool) -> Seq<u8>
    decreases s.len() - i,
{
    if i < 0 || i >= s.len() {
        Seq::empty()
    } else if pending_zero {
        let cnt: int = if s[i] == 0 {
            0
        } else {
            s[i] - 1
        };
        Seq::new(cnt as nat, |_k: int| 0u8) + rle_decode_s(s, i + 1, false)
    } else if s[i] == 0 {
        seq![s[i]] + rle_decode_s(s, i + 1, true)
    } else {
        seq![s[i]] + rle_decode_s(s, i + 1, false)
    }
}

/// Run-length decode a file reference's bytes.
pub fn rle_decode(input: &Vec<u8>) -> (r: Vec<u8>)
    ensures
        r@ == rle_decode_s(input@, 0, false),
{
    rle_decode_from(input, 0, false)
}

/// Run-length decode from a position, with the pending-zero state.
fn rle_decode_from(input: &Vec<u8>, i: usize, pending_zero: bool) -> (r: Vec<u8>)
    requires
        i <= input@.len(),
    ensures
        r@ == rle_decode_s(input@, i as int, pending_zero),
    decreases input@.len() - i,
{
    if i >= input.len() {
        let r: Vec<u8> = Vec::new();
        proof {
            assert(r@ =~= rle_decode_s(input@, i as int, pending_zero));
        }
        return r;
    }
    let b = input[i];
    if pending_zero {
        let cnt: usize = if b == 0 {
            0
        } else {
            (b - 1) as usize
        };
        let mut r: Vec<u8> = Vec::new();
        for k in 0..cnt
            invariant
                r@ == Seq::new(k as nat, |_j: int| 0u8),
        {
            r.push(0u8);
            proof {
                assert(r@ =~= Seq::new((k + 1) as nat, |_j: int| 0u8));
            }
        }
        let mut rest = rle_decode_from(input, i + 1, false);
        let ghost r0 = r@;
        let ghost rest0 = rest@;
        r.append(&mut rest);
        proof {
            assert(r@ == r0 + rest0);
            assert(r@ =~= rle_decode_s(input@, i as int, pending_zero));
        }
        r
    } else {
        let mut r: Vec<u8> = Vec::new();
        r.push(b);
        let mut rest = rle_decode_from(input, i + 1, b == 0);
        let ghost r0 = r@;
        let ghost rest0 = rest@;
        r.append(&mut rest);
        proof {
            assert(r@ == r0 + rest0);
            assert(r0 =~= seq![input@[i as int]]);
            assert(r@ =~= rle_decode_s(input@, i as int, pending_zero));
        }
        r
    }
}

/// The kind named by a decoded reference: the low word of its run-length
/// expansion, with two flag bits cleared, must name one of the four kinds.
pub open spec fn spec_entity_type_of(bytes: Seq<u8>) -> Result<EntityType, StoreError> {
    let r = rle_decode_s(bytes, 0, false);
    if r.len() < 4 {
        Err(StoreError::UnknownFileType)
    } else {
        let num = (r[0] as u32) | ((r[1] as u32) << 8) | ((r[2] as u32) << 16) | ((r[3] as u32)
            << 24);
        let masked = num & 0xFCFFFFFFu32;
        if masked == 2 {
            Ok(EntityType::Photo)
        } else if masked == 4 {
            Ok(EntityType::Video)
        } else if masked == 8 {
            Ok(EntityType::Sticker)
        } else if masked == 10 {
            Ok(EntityType::Animation)
        } else {
            Err(StoreError::UnknownFileType)
        }
    }
}

/// Derive the media kind from already-decoded reference bytes.
pub fn entity_type_from_decoded(bytes: &Vec<u8>) -> (r: Result<EntityType, StoreError>)
    ensures
        r == spec_entity_type_of(bytes@),
{
    let expanded = rle_decode(bytes);
    if expanded.len() < 4 {
        return Err(StoreError::UnknownFileType);
    }
    let num = (expanded[0] as u32) | ((expanded[1] as u32) << 8) | ((expanded[2] as u32) << 16) | (
    (expanded[3] as u32) << 24);
    let masked = num & 0xFCFFFFFFu32;
    if masked == 2 {
        Ok(EntityType::Photo)
    } else if masked == 4 {
        Ok(EntityType::Video)
    } else if masked == 8 {
        Ok(EntityType::Sticker)
    } else if masked == 10 {
        Ok(EntityType::Animation)
    } else {
        Err(StoreError::UnknownFileType)
    }
}

/// The media kind an encoded file reference names: the reference must
/// decode as URL-safe base64, and the low word of the decoded bytes' run-
/// length expansion must name one of the four kinds; anything else is an
/// unknown kind.
pub open spec fn spec_file_id_type(s: Seq<char>) -> Result<EntityType, StoreError> {
    match b64_url_decode_of(s) {
        Some(bytes) => spec_entity_type_of(bytes),
        None => Err(StoreError::UnknownFileType),
    }
}

impl Entity {
    /// Derive the media kind from an encoded file reference: succeeds
    /// exactly when the reference decodes and the decoded bytes name a
    /// kind, and then returns that kind.
    pub fn file_id_to_type(file_id: &str) -> (r: Result<EntityType, StoreError>)
        ensures
            r == spec_file_id_type(file_id@),
    {
        match b64_url_decode(file_id) {
            Ok(decoded) => entity_type_from_decoded(&decoded),
            Err(_) => Err(StoreError::UnknownFileType),
        }
    }
}

} // verus!
