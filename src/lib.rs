//! NTS-KE client core (record codec, response processing, result assembly)
//! and the server-side cookie key rotation engine.

pub mod client;
pub mod records;
pub mod rotation;

use vstd::prelude::*;

verus! {

} // verus!
