use vstd::prelude::*;

pub mod code;
pub mod object;
pub mod heap;
pub mod vm;
pub mod builtins;
pub mod env;
pub mod equality;

verus! {

} // verus!
