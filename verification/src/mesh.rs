//! Recorded layer-to-layer connection rules.

use crate::ids::LayerId;
use vstd::prelude::*;

verus! {

/// A recorded connection from one layer to another. `probability` is a
/// fixed-point number.
#[derive(Copy, Clone, Debug, PartialEq, Eq, Structural)]
pub struct MeshRule {
    pub src: LayerId,
    pub dst: LayerId,
    pub probability: u64,
    pub feedback: bool,
}

} // verus!
