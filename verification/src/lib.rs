//! EdDSA signatures over the Jubjub twisted Edwards curve (the curve of
//! `ark-ed-on-bls12-381`), with keys expanded by BLAKE3, a deterministic
//! nonce, and cofactored verification.
//!
//! The challenge hash (Poseidon over a domain separator and `R, Pk, m`) is
//! computed by the caller:
//! `challenge_input` gives the bytes it reads, and the resulting base field
//! element is passed to `sign` and `verify`.
pub mod bytes;
pub mod field;
pub mod curve;
pub mod hash;
pub mod keys;
pub mod laws;

pub use curve::Point;
pub use field::{Base, Scalar};
pub use keys::{challenge_hash_input, convert_base_to_scalar, EdDSAPrivateKey, EdDSAPublicKey, EdDSASignature, EncodingError};
