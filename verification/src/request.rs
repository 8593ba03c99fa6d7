//! The request adapter: what a `POST /phash` body has to hold before it is
//! hashed, and the status and body that answer it.

use crate::encoding::{base64_decoding, decode_base64};
use crate::hash::{stage_2_digest, stage_2_outcome, HashError, BLOCK_LEN};
use crate::state::ServerState;
use std::sync::Arc;
use vstd::prelude::*;

verus! {

/// One of the two fields of a request.
#[derive(Clone, Copy, Debug, PartialEq, Eq, Structural)]
pub enum Field {
    Stage1Digest,
    Salt,
}

/// Why a request got no PHC string.
#[derive(Clone, Copy, Debug, PartialEq, Eq, Structural)]
pub enum PhashError {
    /// The body is not a JSON object with text fields. The library never
    /// returns this one: the layer that reads the body reports it.
    MalformedBody,
    /// The body lacks the field.
    Missing(Field),
    /// The field is not standard base64.
    NotBase64(Field),
    /// The field does not decode to 32 bytes.
    WrongLength(Field),
    /// The inputs were in order and the hasher failed.
    Hash(HashError),
}

/// The body of a request, as it arrived: `None` for a field that it lacks.
#[derive(Clone, Debug, PartialEq, Eq)]
pub struct Phash {
    pub stage_1_digest: Option<String>,
    pub salt: Option<String>,
}

/// The answer to a request.
#[derive(Clone, Debug, PartialEq, Eq)]
pub struct Reply {
    pub status: u16,
    pub body: String,
}

/// The text of a field, if the body has it.
pub open spec fn field_text(field: Option<String>) -> Option<Seq<char>> {
    match field {
        Some(text) => Some(text@),
        None => None,
    }
}

/// The 32 bytes that a field stands for, or what is wrong with it.
pub open spec fn block_of(text: Option<Seq<char>>, field: Field) -> Result<Seq<u8>, PhashError> {
    match text {
        None => Err(PhashError::Missing(field)),
        Some(text) => match base64_decoding(text) {
            None => Err(PhashError::NotBase64(field)),
            Some(bytes) => if bytes.len() == BLOCK_LEN {
                Ok(bytes)
            } else {
                Err(PhashError::WrongLength(field))
            },
        },
    }
}

/// What `phash` may return: the first fault of the digest, else the first
/// fault of the salt, else what the hasher returns for the two blocks.
pub open spec fn phash_outcome(
    secret: Seq<u8>,
    pepper: Seq<char>,
    stage_1_digest: Option<Seq<char>>,
    salt: Option<Seq<char>>,
    answer: Result<String, PhashError>,
) -> bool {
    match block_of(stage_1_digest, Field::Stage1Digest) {
        Err(fault) => answer == Err::<String, PhashError>(fault),
        Ok(digest_bytes) => match block_of(salt, Field::Salt) {
            Err(fault) => answer == Err::<String, PhashError>(fault),
            Ok(salt_bytes) => match answer {
                Ok(phc) => stage_2_outcome(secret, pepper, digest_bytes, salt_bytes, Ok(phc)),
                Err(PhashError::Hash(fault)) => stage_2_outcome(
                    secret,
                    pepper,
                    digest_bytes,
                    salt_bytes,
                    Err(fault),
                ),
                Err(_) => false,
            },
        },
    }
}

/// The status that answers a fault: 400 for a fault of the request, 500 for
/// one of the hasher.
pub open spec fn status_of(fault: PhashError) -> u16 {
    match fault {
        PhashError::Hash(_) => 500,
        _ => 400,
    }
}

/// The body that answers a fault. It names the field at most.
pub open spec fn message_of(fault: PhashError) -> Seq<char> {
    match fault {
        PhashError::MalformedBody => "malformed request body"@,
        PhashError::Missing(Field::Stage1Digest) => "stage_1_digest is missing"@,
        PhashError::Missing(Field::Salt) => "salt is missing"@,
        PhashError::NotBase64(Field::Stage1Digest) => "stage_1_digest is not base64"@,
        PhashError::NotBase64(Field::Salt) => "salt is not base64"@,
        PhashError::WrongLength(Field::Stage1Digest) => "stage_1_digest must decode to 32 bytes"@,
        PhashError::WrongLength(Field::Salt) => "salt must decode to 32 bytes"@,
        PhashError::Hash(_) => "internal error"@,
    }
}

/// The status and body that answer a request: 200 with the PHC string, or
/// the status and message of the fault.
pub open spec fn reply_of(answer: Result<String, PhashError>, reply: Reply) -> bool {
    match answer {
        Ok(phc) => reply.status == 200 && reply.body@ == phc@,
        Err(fault) => reply.status == status_of(fault) && reply.body@ == message_of(fault),
    }
}

impl PhashError {
    /// The HTTP status for this fault.
    pub fn status_code(&self) -> (status: u16)
        ensures
            status == status_of(*self),
    {
        match self {
            PhashError::Hash(_) => 500,
            _ => 400,
        }
    }

    /// The response body for this fault.
    pub fn message(&self) -> (text: String)
        ensures
            text@ == message_of(*self),
    {
        let text = match self {
            PhashError::MalformedBody => "malformed request body",
            PhashError::Missing(Field::Stage1Digest) => "stage_1_digest is missing",
            PhashError::Missing(Field::Salt) => "salt is missing",
            PhashError::NotBase64(Field::Stage1Digest) => "stage_1_digest is not base64",
            PhashError::NotBase64(Field::Salt) => "salt is not base64",
            PhashError::WrongLength(Field::Stage1Digest) => {
                "stage_1_digest must decode to 32 bytes"
            },
            PhashError::WrongLength(Field::Salt) => "salt must decode to 32 bytes",
            PhashError::Hash(_) => "internal error",
        };
        text.to_owned()
    }
}

/// Decodes one field of a request to its 32 bytes.
pub fn decode_block(text: &Option<String>, field: Field) -> (block: Result<[u8; 32], PhashError>)
    ensures
        match block_of(field_text(*text), field) {
            Ok(bytes) => block matches Ok(array) && array@ == bytes,
            Err(fault) => block == Err::<[u8; 32], PhashError>(fault),
        },
{
    let text = match text {
        Some(text) => text,
        None => {
            return Err(PhashError::Missing(field));
        },
    };
    let bytes = match decode_base64(text.as_str()) {
        Some(bytes) => bytes,
        None => {
            return Err(PhashError::NotBase64(field));
        },
    };
    if bytes.len() != BLOCK_LEN {
        return Err(PhashError::WrongLength(field));
    }
    let mut block = [0u8; 32];
    let mut at: usize = 0;
    while at < BLOCK_LEN
        invariant
            at <= BLOCK_LEN,
            bytes@.len() == BLOCK_LEN,
            forall|i: int| 0 <= i < at ==> block@[i] == bytes@[i],
        decreases BLOCK_LEN - at,
    {
        block[at] = bytes[at];
        at += 1;
    }
    assert(block@ =~= bytes@);
    Ok(block)
}

/// Handles one request: decodes and measures both fields, digest first, and
/// hashes them. A field that is missing, is not base64 or does not decode to
/// 32 bytes ends the request before anything is hashed.
pub fn phash(state: Arc<ServerState>, payload: Phash, pepper: &str) -> (answer: Result<
    String,
    PhashError,
>)
    ensures
        phash_outcome(
            state.secret(),
            pepper@,
            field_text(payload.stage_1_digest),
            field_text(payload.salt),
            answer,
        ),
{
    let stage_1_digest = match decode_block(&payload.stage_1_digest, Field::Stage1Digest) {
        Ok(block) => block,
        Err(fault) => {
            return Err(fault);
        },
    };
    let salt = match decode_block(&payload.salt, Field::Salt) {
        Ok(block) => block,
        Err(fault) => {
            return Err(fault);
        },
    };
    match stage_2_digest(stage_1_digest, salt, state, pepper) {
        Ok(phc) => Ok(phc),
        Err(fault) => Err(PhashError::Hash(fault)),
    }
}

/// The status and body for the outcome of a request.
pub fn reply(answer: Result<String, PhashError>) -> (reply: Reply)
    ensures
        reply_of(answer, reply),
{
    match answer {
        Ok(phc) => Reply { status: 200, body: phc },
        Err(fault) => Reply { status: fault.status_code(), body: fault.message() },
    }
}

/// A request whose digest or salt decodes to a length other than 32 bytes is
/// answered with 400 and is never hashed, whatever else the request holds.
pub proof fn lemma_wrong_length_is_rejected(
    secret: Seq<u8>,
    pepper: Seq<char>,
    stage_1_digest: Option<Seq<char>>,
    salt: Option<Seq<char>>,
    answer: Result<String, PhashError>,
)
    requires
        phash_outcome(secret, pepper, stage_1_digest, salt, answer),
        ({
            ||| stage_1_digest matches Some(text) && base64_decoding(text) matches Some(bytes)
                && bytes.len() != 32
            ||| salt matches Some(text) && base64_decoding(text) matches Some(bytes) && bytes.len()
                != 32
        }),
    ensures
        answer matches Err(fault) && status_of(fault) == 400 && !(fault is Hash),
{
}

/// Two requests with the same fields, under one secret and pepper, get the
/// same reply, unless the hasher fails for one of them.
pub proof fn lemma_identical_requests_agree(
    secret: Seq<u8>,
    pepper: Seq<char>,
    stage_1_digest: Option<Seq<char>>,
    salt: Option<Seq<char>>,
    first: Result<String, PhashError>,
    second: Result<String, PhashError>,
    first_reply: Reply,
    second_reply: Reply,
)
    requires
        phash_outcome(secret, pepper, stage_1_digest, salt, first),
        phash_outcome(secret, pepper, stage_1_digest, salt, second),
        reply_of(first, first_reply),
        reply_of(second, second_reply),
        !(first matches Err(PhashError::Hash(_))),
        !(second matches Err(PhashError::Hash(_))),
    ensures
        first_reply.status == second_reply.status,
        first_reply.body@ == second_reply.body@,
{
}

} // verus!
