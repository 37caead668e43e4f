use vstd::prelude::*;

pub mod value;
pub mod matcher;
pub mod resolver;
pub mod watch;

verus! {

} // verus!
