//! Threshold secret sharing over a prime-order group, with Feldman-style
//! commitments that let a shareholder check a share against the dealer's
//! published values.
pub mod error;
pub mod field;
pub mod lagrange;
pub mod polynomial;
pub mod random;
pub mod shamir;
pub mod verifiable_secret;
pub mod vss;

pub use error::ShareError;
pub use field::mod_exp;
pub use lagrange::interpolate_at_zero;
pub use polynomial::evaluate;
pub use shamir::SharmirModel;
pub use verifiable_secret::VerifiableSecretSharing;
pub use vss::{VSSCommitments, VSSParams};
