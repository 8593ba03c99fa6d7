//! The long-lived secret, as the hasher sees it.

use std::sync::Arc;
use vstd::prelude::*;

verus! {

/// Shared, read-only state of the server.
#[derive(Clone)]
pub struct ServerState {
    /// The Argon2id key, handed to the process once at startup. It is never
    /// copied: every hash reads it through this shared handle.
    pub argon_secret: Arc<[u8]>,
}

impl ServerState {
    /// The bytes of the secret.
    pub open spec fn secret(&self) -> Seq<u8> {
        (*self.argon_secret)@
    }

    /// Borrows the secret without copying it.
    pub fn borrow_secret(&self) -> (secret: &[u8])
        ensures
            secret@ == self.secret(),
    {
        &*self.argon_secret
    }
}

} // verus!
