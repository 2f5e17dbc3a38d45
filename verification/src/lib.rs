use vstd::prelude::*;

pub mod frequency;
pub mod mesh;
pub mod text;
pub mod wav;

verus! {

} // verus!
