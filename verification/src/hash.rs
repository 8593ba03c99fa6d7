//! The hasher: Argon2id over the stage-1 digest, keyed with the server secret
//! followed by the pepper, under one fixed set of parameters.

use crate::encoding::{base64_decoding, decode_base64};
use crate::phc::{
    b64_chars, b64_unpadded, field_encodes, has_phc_shape, is_b64_text, is_phc,
    lemma_b64_unpadded_injective, lemma_b64_unpadded_is_text, lemma_phc_chars_ascii,
    lemma_phc_fields, lemma_phc_text_shape, phc_header, phc_salt_field, phc_tag_field, phc_text,
};
use crate::state::ServerState;
use argon2::{Algorithm, Argon2, ParamsBuilder, PasswordHasher, Version};
use std::sync::Arc;
use vstd::prelude::*;
use zeroize::Zeroize;

verus! {

/// Length of the tag in bytes.
pub const HASH_LEN: usize = 48;

/// Length of the stage-1 digest and of the salt in bytes.
pub const BLOCK_LEN: usize = 32;

/// Memory cost in KiB: 64 MiB.
pub const M_COST: u32 = 65536;

/// Number of passes.
pub const T_COST: u32 = 3;

/// Number of lanes.
pub const P_COST: u32 = 1;

/// Version of Argon2.
pub const VERSION: u32 = 0x13;

/// Why no PHC string was produced.
#[derive(Clone, Copy, Debug, PartialEq, Eq, Structural)]
pub enum HashError {
    /// The configured pepper is not standard base64.
    PepperEncoding,
    /// Argon2 refused the inputs or could not get its memory.
    Hashing,
    /// Argon2 returned a string that is not of the expected shape, or that
    /// does not carry the salt it was given.
    UnexpectedOutput,
}

/// The error of the `argon2` crate's password hasher, carried through unread.
#[verifier::external_type_specification]
#[verifier::external_body]
pub struct ExPasswordHashError(argon2::password_hash::Error);

/// The identifier of the algorithm: `argon2id`.
pub open spec fn algorithm_id() -> Seq<char> {
    seq!['a', 'r', 'g', 'o', 'n', '2', 'i', 'd']
}

/// The PHC string that the `argon2` crate gives for `password` and `salt`
/// under the key `key`, with the given algorithm, version, costs and tag
/// length, where it gives one.
pub uninterp spec fn argon2_phc(
    key: Seq<u8>,
    algorithm: Seq<char>,
    version: u32,
    m_cost: u32,
    t_cost: u32,
    p_cost: u32,
    output_len: usize,
    password: Seq<u8>,
    salt: Seq<u8>,
) -> Seq<char>;

/// The key that Argon2 is given: the server secret, then the pepper.
pub open spec fn combined_key(secret: Seq<u8>, pepper: Seq<u8>) -> Seq<u8> {
    secret + pepper
}

/// The PHC string for a digest and a salt under `key` and the fixed parameters.
pub open spec fn stage_2_phc(key: Seq<u8>, stage_1_digest: Seq<u8>, salt: Seq<u8>) -> Seq<char> {
    argon2_phc(
        key,
        algorithm_id(),
        VERSION,
        M_COST,
        T_COST,
        P_COST,
        HASH_LEN,
        stage_1_digest,
        salt,
    )
}

/// `$argon2id$v=19$m=65536,t=3,p=1$`
pub open spec fn stage_2_header() -> Seq<char> {
    phc_header(algorithm_id(), VERSION as nat, M_COST as nat, T_COST as nat, P_COST as nat)
}

/// `text` is the header of the fixed parameters, the salt field of a 32-byte
/// salt, `$`, and the tag field of a 48-byte tag.
pub open spec fn is_stage_2_phc(text: Seq<char>) -> bool {
    is_phc(text, stage_2_header(), b64_chars(BLOCK_LEN as nat), b64_chars(HASH_LEN as nat))
}

/// The salt, still encoded, of a PHC string of this service.
pub open spec fn stage_2_salt(text: Seq<char>) -> Seq<char> {
    phc_salt_field(text, stage_2_header().len(), b64_chars(BLOCK_LEN as nat))
}

/// The tag, still encoded, of a PHC string of this service.
pub open spec fn stage_2_tag(text: Seq<char>) -> Seq<char> {
    phc_tag_field(text, b64_chars(HASH_LEN as nat))
}

/// `text` is a PHC string of this service whose salt field is `salt` in
/// base64 without padding.
pub open spec fn is_stage_2_phc_of(text: Seq<char>, salt: Seq<u8>) -> bool {
    is_stage_2_phc(text) && stage_2_salt(text) == b64_unpadded(salt)
}

/// What hashing under `key` may return: the PHC string of the `argon2` crate,
/// which is then of the expected shape and carries the salt, or the reason
/// why there is none.
pub open spec fn keyed_outcome(
    key: Seq<u8>,
    stage_1_digest: Seq<u8>,
    salt: Seq<u8>,
    hashed: Result<String, HashError>,
) -> bool {
    match hashed {
        Ok(phc) => phc@ == stage_2_phc(key, stage_1_digest, salt) && is_stage_2_phc_of(phc@, salt),
        Err(HashError::Hashing) => true,
        Err(HashError::UnexpectedOutput) => !is_stage_2_phc_of(
            stage_2_phc(key, stage_1_digest, salt),
            salt,
        ),
        Err(HashError::PepperEncoding) => false,
    }
}

/// What `stage_2_digest` may return for a secret and a pepper as configured.
pub open spec fn stage_2_outcome(
    secret: Seq<u8>,
    pepper: Seq<char>,
    stage_1_digest: Seq<u8>,
    salt: Seq<u8>,
    hashed: Result<String, HashError>,
) -> bool {
    match base64_decoding(pepper) {
        None => hashed == Err::<String, HashError>(HashError::PepperEncoding),
        Some(pepper_bytes) => keyed_outcome(
            combined_key(secret, pepper_bytes),
            stage_1_digest,
            salt,
            hashed,
        ),
    }
}

/// The header of the fixed parameters, written out.
pub proof fn lemma_stage_2_header()
    ensures
        stage_2_header() == "$argon2id$v=19$m=65536,t=3,p=1$"@,
        stage_2_header().len() == 31,
        b64_chars(BLOCK_LEN as nat) == 43,
        b64_chars(HASH_LEN as nat) == 64,
{
    reveal_strlit("$argon2id$v=19$m=65536,t=3,p=1$");
    reveal_with_fuel(crate::phc::decimal_text, 6);
    assert(crate::phc::decimal_text(19) =~= seq!['1', '9']);
    assert(crate::phc::decimal_text(65536) =~= seq!['6', '5', '5', '3', '6']);
    assert(crate::phc::decimal_text(3) =~= seq!['3']);
    assert(crate::phc::decimal_text(1) =~= seq!['1']);
    assert(stage_2_header() =~= "$argon2id$v=19$m=65536,t=3,p=1$"@);
}

/// Determinism: for one secret, pepper, digest and salt, any two hashes that
/// succeed return the same PHC string, and so the same tag.
pub proof fn lemma_stage_2_deterministic(
    secret: Seq<u8>,
    pepper: Seq<char>,
    stage_1_digest: Seq<u8>,
    salt: Seq<u8>,
    first: Result<String, HashError>,
    second: Result<String, HashError>,
)
    requires
        stage_2_outcome(secret, pepper, stage_1_digest, salt, first),
        stage_2_outcome(secret, pepper, stage_1_digest, salt, second),
        first is Ok,
        second is Ok,
    ensures
        first->Ok_0@ == second->Ok_0@,
        stage_2_tag(first->Ok_0@) == stage_2_tag(second->Ok_0@),
{
}

/// Shape: a hash that succeeds returns `$argon2id$v=19$m=65536,t=3,p=1$`,
/// the salt in base64 without padding, `$`, and a tag field of 64 base64
/// characters, which is what 48 bytes take.
pub proof fn lemma_stage_2_shape(
    secret: Seq<u8>,
    pepper: Seq<char>,
    stage_1_digest: Seq<u8>,
    salt: Seq<u8>,
    hashed: Result<String, HashError>,
)
    requires
        stage_2_outcome(secret, pepper, stage_1_digest, salt, hashed),
        hashed is Ok,
    ensures
        ({
            let text = hashed->Ok_0@;
            &&& text == "$argon2id$v=19$m=65536,t=3,p=1$"@ + b64_unpadded(salt) + seq!['$']
                + stage_2_tag(text)
            &&& is_b64_text(stage_2_tag(text))
            &&& stage_2_tag(text).len() == 64
            &&& 6 * stage_2_tag(text).len() == 8 * HASH_LEN
        }),
{
    let text = hashed->Ok_0@;
    lemma_stage_2_header();
    lemma_phc_fields(text, stage_2_header(), 43, 64);
}

/// The shape is that of the format: the header, a 32-byte salt in base64
/// without padding, `$` and a tag of 64 base64 characters make a PHC string
/// of this service that carries the salt, with that tag.
pub proof fn lemma_stage_2_format(salt: Seq<u8>, tag: Seq<char>)
    requires
        salt.len() == BLOCK_LEN,
        tag.len() == b64_chars(HASH_LEN as nat),
        is_b64_text(tag),
    ensures
        is_stage_2_phc_of(phc_text(stage_2_header(), b64_unpadded(salt), tag), salt),
        stage_2_tag(phc_text(stage_2_header(), b64_unpadded(salt), tag)) == tag,
{
    lemma_b64_unpadded_is_text(salt);
    lemma_phc_text_shape(stage_2_header(), b64_unpadded(salt), tag);
}

/// Two hashes of one digest that succeed under different salts return
/// different PHC strings: each carries its own salt.
pub proof fn lemma_salt_shows_in_phc(
    secret: Seq<u8>,
    pepper: Seq<char>,
    stage_1_digest: Seq<u8>,
    first_salt: Seq<u8>,
    second_salt: Seq<u8>,
    first: Result<String, HashError>,
    second: Result<String, HashError>,
)
    requires
        first_salt.len() == BLOCK_LEN,
        second_salt.len() == BLOCK_LEN,
        first_salt != second_salt,
        stage_2_outcome(secret, pepper, stage_1_digest, first_salt, first),
        stage_2_outcome(secret, pepper, stage_1_digest, second_salt, second),
        first is Ok,
        second is Ok,
    ensures
        first->Ok_0@ != second->Ok_0@,
        stage_2_salt(first->Ok_0@) != stage_2_salt(second->Ok_0@),
{
    if b64_unpadded(first_salt) == b64_unpadded(second_salt) {
        lemma_b64_unpadded_injective(first_salt, second_salt);
    }
}

/// Changing one byte of the secret changes the key that Argon2 is given, at
/// the place of that byte.
pub proof fn lemma_key_follows_secret(secret: Seq<u8>, pepper: Seq<u8>, at: int, byte: u8)
    requires
        0 <= at < secret.len(),
        byte != secret[at],
    ensures
        combined_key(secret.update(at, byte), pepper) != combined_key(secret, pepper),
        combined_key(secret.update(at, byte), pepper) == combined_key(secret, pepper).update(
            at,
            byte,
        ),
{
    let changed = combined_key(secret.update(at, byte), pepper);
    assert(changed[at] == byte);
    assert(combined_key(secret, pepper)[at] == secret[at]);
    assert(changed =~= combined_key(secret, pepper).update(at, byte));
}

/// Changing one byte of the pepper changes the key that Argon2 is given, at
/// the place of that byte behind the secret.
pub proof fn lemma_key_follows_pepper(secret: Seq<u8>, pepper: Seq<u8>, at: int, byte: u8)
    requires
        0 <= at < pepper.len(),
        byte != pepper[at],
    ensures
        combined_key(secret, pepper.update(at, byte)) != combined_key(secret, pepper),
        combined_key(secret, pepper.update(at, byte)) == combined_key(secret, pepper).update(
            secret.len() + at,
            byte,
        ),
{
    let changed = combined_key(secret, pepper.update(at, byte));
    assert(changed[secret.len() + at] == byte);
    assert(combined_key(secret, pepper)[secret.len() + at] == pepper[at]);
    assert(changed =~= combined_key(secret, pepper).update(secret.len() + at, byte));
}

/// Calls `zeroize` of the `zeroize` crate on the vector.
///
/// Trusted: the call leaves the vector empty. It also overwrites the bytes
/// and the spare capacity with zeros, which no contract here can see.
#[verifier::external_body]
fn scrub(buffer: &mut Vec<u8>)
    ensures
        final(buffer)@ == Seq::<u8>::empty(),
{
    buffer.zeroize();
}

/// Builds the parameters and the keyed context of the `argon2` crate, calls
/// `hash_password_with_salt` on it and writes the hash out with `to_string`.
///
/// Trusted: where the crate returns a hash, its text is `argon2_phc` of the
/// arguments. Nothing is claimed of when it fails.
#[verifier::external_body]
fn argon2_hash(
    key: &[u8],
    algorithm: &str,
    version: u32,
    m_cost: u32,
    t_cost: u32,
    p_cost: u32,
    output_len: usize,
    password: &[u8],
    salt: &[u8],
) -> (hashed: Result<String, argon2::password_hash::Error>)
    ensures
        hashed matches Ok(phc) ==> phc@ == argon2_phc(
            key@,
            algorithm@,
            version,
            m_cost,
            t_cost,
            p_cost,
            output_len,
            password@,
            salt@,
        ),
{
    let params = ParamsBuilder::new().m_cost(m_cost).t_cost(t_cost).p_cost(p_cost).output_len(
        output_len,
    ).build()?;
    let algorithm = Algorithm::new(algorithm)?;
    let context = Argon2::new_with_secret(key, algorithm, Version::try_from(version)?, params)?;
    Ok(context.hash_password_with_salt(password, salt)?.to_string())
}

/// Tests whether `text` has the shape of a PHC string of this service.
pub fn has_stage_2_shape(text: &str) -> (ok: bool)
    ensures
        ok == is_stage_2_phc(text@),
{
    let header = "$argon2id$v=19$m=65536,t=3,p=1$";
    proof {
        lemma_stage_2_header();
        reveal_strlit("$argon2id$v=19$m=65536,t=3,p=1$");
    }
    has_phc_shape(text, header, 43, 64)
}

/// Tests whether `text` is a PHC string of this service that carries `salt`.
pub fn is_stage_2_phc_for(text: &str, salt: &[u8; 32]) -> (ok: bool)
    ensures
        ok == is_stage_2_phc_of(text@, salt@),
{
    if !has_stage_2_shape(text) {
        return false;
    }
    proof {
        lemma_stage_2_header();
        reveal_strlit("$argon2id$v=19$m=65536,t=3,p=1$");
        lemma_phc_chars_ascii(text@, stage_2_header(), 43, 64);
    }
    field_encodes(text, 31, 43, salt.as_slice())
}

/// Turns what Argon2 returned for `salt` into the result of a hash: the
/// string where it has the expected shape and carries the salt, and the
/// reason where there is none.
pub fn checked_phc(
    hashed: Result<String, argon2::password_hash::Error>,
    salt: &[u8; 32],
) -> (checked: Result<String, HashError>)
    ensures
        match hashed {
            Ok(phc) => if is_stage_2_phc_of(phc@, salt@) {
                checked == Ok::<String, HashError>(phc)
            } else {
                checked == Err::<String, HashError>(HashError::UnexpectedOutput)
            },
            Err(_) => checked == Err::<String, HashError>(HashError::Hashing),
        },
{
    match hashed {
        Ok(phc) => {
            if is_stage_2_phc_for(phc.as_str(), salt) {
                Ok(phc)
            } else {
                Err(HashError::UnexpectedOutput)
            }
        },
        Err(_) => Err(HashError::Hashing),
    }
}

/// Hashes the digest with the salt under `key`, and scrubs `key` whatever
/// comes of it.
pub fn hash_with_key(
    key: &mut Vec<u8>,
    stage_1_digest: &[u8; 32],
    salt: &[u8; 32],
) -> (hashed: Result<String, HashError>)
    ensures
        final(key)@ == Seq::<u8>::empty(),
        keyed_outcome(old(key)@, stage_1_digest@, salt@, hashed),
{
    proof {
        reveal_strlit("argon2id");
        assert("argon2id"@ =~= algorithm_id());
    }
    let outcome = argon2_hash(
        key.as_slice(),
        "argon2id",
        VERSION,
        M_COST,
        T_COST,
        P_COST,
        HASH_LEN,
        stage_1_digest.as_slice(),
        salt.as_slice(),
    );
    scrub(key);
    checked_phc(outcome, salt)
}

/// Hashes the digest with the salt under the secret followed by the pepper,
/// and scrubs the pepper and the key made of both whatever comes of it.
pub fn hash_with_pepper(
    secret: &[u8],
    pepper: &mut Vec<u8>,
    stage_1_digest: &[u8; 32],
    salt: &[u8; 32],
) -> (hashed: Result<String, HashError>)
    ensures
        final(pepper)@ == Seq::<u8>::empty(),
        keyed_outcome(combined_key(secret@, old(pepper)@), stage_1_digest@, salt@, hashed),
{
    let mut key: Vec<u8> = match secret.len().checked_add(pepper.len()) {
        Some(capacity) => Vec::with_capacity(capacity),
        None => Vec::new(),
    };
    key.extend_from_slice(secret);
    key.extend_from_slice(pepper.as_slice());
    assert(key@ =~= combined_key(secret@, pepper@));
    let hashed = hash_with_key(&mut key, stage_1_digest, salt);
    scrub(pepper);
    hashed
}

/// Stage 2 of the password hash: Argon2id over the stage-1 digest with the
/// given salt, keyed with the server secret followed by the pepper, which
/// arrives in base64 as it is configured. Returns the PHC string.
pub fn stage_2_digest(
    stage_1_digest: [u8; 32],
    salt: [u8; 32],
    state: Arc<ServerState>,
    pepper: &str,
) -> (hashed: Result<String, HashError>)
    ensures
        stage_2_outcome(state.secret(), pepper@, stage_1_digest@, salt@, hashed),
{
    match decode_base64(pepper) {
        None => Err(HashError::PepperEncoding),
        Some(pepper_bytes) => {
            let mut pepper_bytes = pepper_bytes;
            hash_with_pepper(state.borrow_secret(), &mut pepper_bytes, &stage_1_digest, &salt)
        },
    }
}

} // verus!
