use phash::hash::{stage_2_digest, HashError};
use phash::request::{decode_block, phash, reply, Field, Phash, PhashError};
use phash::state::ServerState;
use std::sync::Arc;

const REQUEST_PEPPER: &str = "ICEiIyQlJicoKSorLC0uLw==";
const ZEROS_32: &str = "AAAAAAAAAAAAAAAAAAAAAAAAAAAAAAAAAAAAAAAAAAA=";
const ZEROS_31: &str = "AAAAAAAAAAAAAAAAAAAAAAAAAAAAAAAAAAAAAAAAAA==";
const ZEROS_33: &str = "AAAAAAAAAAAAAAAAAAAAAAAAAAAAAAAAAAAAAAAAAAAA";
const FF_32: &str = "//////////////////////////////////////////8=";
const ZERO_PHC: &str = "$argon2id$v=19$m=65536,t=3,p=1$AAAAAAAAAAAAAAAAAAAAAAAAAAAAAAAAAAAAAAAAAAA$eXbusaC4zV2z3etTqFUCLuJDIrJ/W5oIGvSdDgOMU9q9csXxdSXFOnaNyubtYZl+";

fn request_state() -> Arc<ServerState> {
    let secret: Vec<u8> = (0u8..32).collect();
    Arc::new(ServerState { argon_secret: Arc::from(secret) })
}

fn body(stage_1_digest: Option<&str>, salt: Option<&str>) -> Phash {
    Phash {
        stage_1_digest: stage_1_digest.map(|text| text.to_string()),
        salt: salt.map(|text| text.to_string()),
    }
}

#[test]
fn request_is_hashed() {
    let answer = phash(request_state(), body(Some(ZEROS_32), Some(ZEROS_32)), REQUEST_PEPPER);
    assert_eq!(answer, Ok(ZERO_PHC.to_string()));
    let sent = reply(answer);
    assert_eq!(sent.status, 200);
    assert_eq!(sent.body, ZERO_PHC);
}

#[test]
fn request_hashes_decoded_fields() {
    let answer = phash(request_state(), body(Some(ZEROS_32), Some(FF_32)), REQUEST_PEPPER);
    let direct = stage_2_digest([0u8; 32], [0xffu8; 32], request_state(), REQUEST_PEPPER);
    assert_eq!(answer.unwrap(), direct.unwrap());
}

#[test]
fn short_digest_is_bad_request() {
    let answer = phash(request_state(), body(Some(ZEROS_31), Some(ZEROS_32)), REQUEST_PEPPER);
    assert_eq!(answer, Err(PhashError::WrongLength(Field::Stage1Digest)));
    let sent = reply(answer);
    assert_eq!(sent.status, 400);
    assert_eq!(sent.body, "stage_1_digest must decode to 32 bytes");
}

#[test]
fn long_digest_is_bad_request() {
    let answer = phash(request_state(), body(Some(ZEROS_33), Some(ZEROS_32)), REQUEST_PEPPER);
    assert_eq!(answer, Err(PhashError::WrongLength(Field::Stage1Digest)));
    assert_eq!(reply(answer).status, 400);
}

#[test]
fn short_salt_is_bad_request() {
    let answer = phash(request_state(), body(Some(ZEROS_32), Some(ZEROS_31)), REQUEST_PEPPER);
    assert_eq!(answer, Err(PhashError::WrongLength(Field::Salt)));
    let sent = reply(answer);
    assert_eq!(sent.status, 400);
    assert_eq!(sent.body, "salt must decode to 32 bytes");
}

#[test]
fn empty_field_is_bad_request() {
    let answer = phash(request_state(), body(Some(""), Some(ZEROS_32)), REQUEST_PEPPER);
    assert_eq!(answer, Err(PhashError::WrongLength(Field::Stage1Digest)));
}

#[test]
fn missing_salt_is_bad_request() {
    let answer = phash(request_state(), body(Some(ZEROS_32), None), REQUEST_PEPPER);
    assert_eq!(answer, Err(PhashError::Missing(Field::Salt)));
    let sent = reply(answer);
    assert_eq!(sent.status, 400);
    assert_eq!(sent.body, "salt is missing");
}

#[test]
fn missing_digest_is_bad_request() {
    let answer = phash(request_state(), body(None, Some(ZEROS_32)), REQUEST_PEPPER);
    assert_eq!(answer, Err(PhashError::Missing(Field::Stage1Digest)));
    let sent = reply(answer);
    assert_eq!(sent.status, 400);
    assert_eq!(sent.body, "stage_1_digest is missing");
}

#[test]
fn field_that_is_not_base64_is_bad_request() {
    let answer = phash(request_state(), body(Some("****"), Some(ZEROS_32)), REQUEST_PEPPER);
    assert_eq!(answer, Err(PhashError::NotBase64(Field::Stage1Digest)));
    let sent = reply(answer);
    assert_eq!(sent.status, 400);
    assert_eq!(sent.body, "stage_1_digest is not base64");
    let answer = phash(request_state(), body(Some(ZEROS_32), Some("AAA")), REQUEST_PEPPER);
    assert_eq!(answer, Err(PhashError::NotBase64(Field::Salt)));
    let sent = reply(answer);
    assert_eq!(sent.status, 400);
    assert_eq!(sent.body, "salt is not base64");
}

#[test]
fn digest_is_judged_before_salt() {
    let answer = phash(request_state(), body(Some(ZEROS_31), Some("****")), REQUEST_PEPPER);
    assert_eq!(answer, Err(PhashError::WrongLength(Field::Stage1Digest)));
    let answer = phash(request_state(), body(Some("****"), None), REQUEST_PEPPER);
    assert_eq!(answer, Err(PhashError::NotBase64(Field::Stage1Digest)));
    let answer = phash(request_state(), body(None, None), REQUEST_PEPPER);
    assert_eq!(answer, Err(PhashError::Missing(Field::Stage1Digest)));
}

#[test]
fn bad_request_wins_over_bad_pepper() {
    let answer = phash(request_state(), body(Some(ZEROS_32), Some(ZEROS_33)), "not base64!");
    assert_eq!(answer, Err(PhashError::WrongLength(Field::Salt)));
}

#[test]
fn hasher_failure_is_internal_error() {
    let answer = phash(request_state(), body(Some(ZEROS_32), Some(ZEROS_32)), "not base64!");
    assert_eq!(answer, Err(PhashError::Hash(HashError::PepperEncoding)));
    let sent = reply(answer);
    assert_eq!(sent.status, 500);
    assert_eq!(sent.body, "internal error");
}

#[test]
fn status_codes() {
    assert_eq!(PhashError::MalformedBody.status_code(), 400);
    assert_eq!(PhashError::Missing(Field::Salt).status_code(), 400);
    assert_eq!(PhashError::NotBase64(Field::Salt).status_code(), 400);
    assert_eq!(PhashError::WrongLength(Field::Stage1Digest).status_code(), 400);
    assert_eq!(PhashError::Hash(HashError::Hashing).status_code(), 500);
    assert_eq!(PhashError::Hash(HashError::UnexpectedOutput).status_code(), 500);
    assert_eq!(PhashError::Hash(HashError::PepperEncoding).status_code(), 500);
    assert_eq!(PhashError::MalformedBody.message(), "malformed request body");
}

#[test]
fn block_is_decoded() {
    let text = "AAECAwQFBgcICQoLDA0ODxAREhMUFRYXGBkaGxwdHh8=".to_string();
    let expected: Vec<u8> = (0u8..32).collect();
    let block = decode_block(&Some(text), Field::Salt).unwrap();
    assert_eq!(block.to_vec(), expected);
    assert_eq!(decode_block(&None, Field::Salt), Err(PhashError::Missing(Field::Salt)));
}

#[test]
fn identical_requests_agree() {
    let state = request_state();
    let first = phash(state.clone(), body(Some(ZEROS_32), Some(ZEROS_32)), REQUEST_PEPPER);
    let second = phash(state.clone(), body(Some(ZEROS_32), Some(ZEROS_32)), REQUEST_PEPPER);
    let third = phash(state.clone(), body(Some(ZEROS_31), Some(ZEROS_32)), REQUEST_PEPPER);
    assert_eq!(first, Ok(ZERO_PHC.to_string()));
    assert_eq!(second, first);
    assert_eq!(third, Err(PhashError::WrongLength(Field::Stage1Digest)));
    assert_eq!(state.borrow_secret().to_vec(), (0u8..32).collect::<Vec<u8>>());
}
