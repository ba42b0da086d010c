//! Validation of signed answers.
pub mod anchor_laws;
pub mod anchors;
pub mod chain;
pub mod names;
pub mod negative;
pub mod records;
pub mod roots;
pub mod rrsets;
pub mod signature_laws;
pub mod verdict;
pub mod verdict_laws;
