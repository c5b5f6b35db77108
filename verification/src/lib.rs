//! Decentralized multi-client functional encryption for inner products over
//! BLS12-381, with the decentralized sum it is built on, the centralized
//! variant, and the discrete-logarithm solvers that turn a group element back
//! into an integer.
//!
//! Field and group elements are held in their canonical byte encodings. A
//! scalar is modelled by its integer value, a group element by its exponent
//! to the fixed generator of its group, so that every contract of the schemes
//! is a statement of modular arithmetic.

pub mod bytes;
pub mod dlp;
pub mod dsum;
pub mod error;
pub mod field;
pub mod g1;
pub mod g2;
pub mod gt;
pub mod hash;
pub mod ip_mcfe;
pub mod ipdmcfe;
pub mod ipfe;
pub mod label;
pub mod random;
pub mod sums;
pub mod tools;
pub mod types;
