//! Verified RigTether interface core: v0 framing, the typed Elecraft CAT core,
//! the audio conversion boundary, and the PTT safety/session model.
use vstd::prelude::*;

pub mod audio;
pub mod cat;
pub mod framing;
pub mod json;
pub mod model;
pub mod radio;
pub mod strict_json;
pub mod text;

verus! {

} // verus!
