//! Framing and message models for a vehicle-terminal protocol.
//!
//! `protocol` frames a byte payload between two `0x7E` flag bytes, escaping
//! the flag and escape bytes inside it and adding an XOR check code;
//! `model` and `message` lay out the message header that travels inside a frame.
use vstd::prelude::*;

pub mod protocol;
pub mod model;
pub mod message;

verus! {

} // verus!
