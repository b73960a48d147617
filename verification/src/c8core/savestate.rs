//! Save state.
use vstd::prelude::*;

verus! {

/// Missing save state.
#[derive(Debug)]
pub struct MissingSaveState(pub String);

} // verus!
