//! Parsing of the solar generation feed and lookup of the station nearest to a place.
use vstd::prelude::*;

pub mod solar;
pub mod text;

verus! {

} // verus!
