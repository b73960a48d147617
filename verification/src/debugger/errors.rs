//! Debugger errors.
use vstd::prelude::*;

verus! {

/// Bad breakpoint.
#[derive(Debug)]
pub struct BadBreakpoint(pub String);

} // verus!
