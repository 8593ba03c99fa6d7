//! Second stage of a two-stage password hash: a peppered, keyed Argon2id over a
//! 32-byte digest and a 32-byte salt, with the checks a request goes through
//! before it is hashed.

mod ascii;
pub mod config;
pub mod encoding;
pub mod hash;
pub mod phc;
pub mod request;
pub mod state;
