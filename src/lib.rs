//! A user-space TCP connection engine over raw IPv4 frames, with its
//! sequence-space arithmetic, segment acceptance test and state machine
//! verified by Verus.
pub mod dup;
pub mod seq;
pub mod tcp;
