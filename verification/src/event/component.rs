use std::collections::HashMap;
use vstd::prelude::*;

verus! {

/// An instance of a user defined structure. Components carry nothing yet.
#[derive(Debug, Clone, Copy, PartialEq, Eq, Structural)]
pub struct Component {}

/// The components by their names.
pub type Components = HashMap<String, Component>;

} // verus!
