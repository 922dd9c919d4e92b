use vstd::prelude::*;

pub mod text;
pub mod dom;
pub mod compiler;
pub mod cli;

verus! {

} // verus!
