//! Master-password verification: a single SHA-256 comparison against the
//! stored hash. The host looks the stored hash up; the comparison itself is
//! verified against the digest's name.

use vstd::prelude::*;
use crate::types::view_opt_string;
use sha2::Digest;

verus! {

/// The lower-case hexadecimal SHA-256 digest of a string's UTF-8 bytes.
/// The digest depends on the characters alone.
pub uninterp spec fn sha256_hex_of(s: Seq<char>) -> Seq<char>;

/// Relies on sha2's `Sha256` (`Digest::new`, `Digest::update`,
/// `Digest::finalize`) for the digest of `s`'s UTF-8 bytes, rendered as
/// lower-case hex.
#[verifier::external_body]
fn sha256_hex(s: &str) -> (r: String)
    ensures
        r@ == sha256_hex_of(s@),
{
    let mut hasher = sha2::Sha256::new();
    hasher.update(s.as_bytes());
    format!("{:x}", hasher.finalize())
}

/// A password check request.
pub struct VerifyPasswordArgs {
    pub username: String,
    pub master_password: String,
}

/// A failure of the credential lookup, reported by the host that performed
/// it.
#[derive(Clone, Debug)]
pub enum AuthError {
    Db(String),
}

/// Whether a candidate password matches a stored hash: true exactly when a
/// hash is stored and it equals the candidate's SHA-256 hex digest; an
/// unknown user (no stored hash) never verifies.
pub fn verify_password(stored_hash: &Option<String>, master_password: &str) -> (r: Result<
    bool,
    AuthError,
>)
    ensures
        r is Ok,
        r->Ok_0 == match view_opt_string(*stored_hash) {
            Some(h) => h == sha256_hex_of(master_password@),
            None => false,
        },
{
    match stored_hash {
        Some(h) => {
            let candidate = sha256_hex(master_password);
            Ok(crate::text::str_eq(h.as_str(), candidate.as_str()))
        },
        None => Ok(false),
    }
}

} // verus!
