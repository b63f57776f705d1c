//! Where the secret of an operation comes from.

use vstd::prelude::*;

verus! {

/// Length of a secret that is generated rather than given.
pub const GENERATED_SECRET_LEN: usize = 128;

/// A source of a secret.
#[derive(Clone, Debug, PartialEq, Eq)]
pub enum SecretSource {
    /// A passphrase that the user types.
    Passphrase,
    /// The whole content of the file at this path.
    Keyfile(String),
    /// The value of the environment variable `DEXIOS_KEY`.
    Environment,
    /// Random bytes, generated for the occasion.
    Autogenerate,
}

/// The source that is used: a keyfile where one was named; else the
/// environment where the variable is set; else generation where it was asked
/// for; else the passphrase.
pub open spec fn source_of(keyfile: Option<String>, env_set: bool, autogenerate: bool)
    -> SecretSource {
    match keyfile {
        Some(path) => SecretSource::Keyfile(path),
        None => if env_set {
            SecretSource::Environment
        } else if autogenerate {
            SecretSource::Autogenerate
        } else {
            SecretSource::Passphrase
        },
    }
}

/// Picks the source of the secret from what the command line and the
/// environment offer.
pub fn choose_source(keyfile: Option<String>, env_set: bool, autogenerate: bool) -> (source:
    SecretSource)
    ensures
        source == source_of(keyfile, env_set, autogenerate),
{
    match keyfile {
        Some(path) => SecretSource::Keyfile(path),
        None => if env_set {
            SecretSource::Environment
        } else if autogenerate {
            SecretSource::Autogenerate
        } else {
            SecretSource::Passphrase
        },
    }
}

/// Calls `rand::RngCore::fill_bytes` on the generator that
/// `rand::thread_rng` returns, which fills the whole buffer with random
/// bytes.
#[verifier::external_body]
fn fill_random(len: usize) -> (out: Vec<u8>)
    ensures
        out@.len() == len,
{
    let mut out = vec![0u8; len];
    rand::RngCore::fill_bytes(&mut rand::thread_rng(), &mut out);
    out
}

/// A generated secret: 128 random bytes.
pub fn autogenerate() -> (secret: Vec<u8>)
    ensures
        secret@.len() == 128,
{
    fill_random(GENERATED_SECRET_LEN)
}

} // verus!
