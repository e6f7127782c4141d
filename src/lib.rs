//! A stateless challenge scheme: answers are derived from a client nonce, a
//! secret and a coarse time window, and laid out as randomly placed glyphs.
use vstd::prelude::*;

pub mod config;
pub mod encoding;
pub mod layout;
pub mod token;

verus! {

} // verus!
