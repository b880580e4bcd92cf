//! Opaque 32-bit handles for layers, neurons and slots.

use vstd::prelude::*;

verus! {

/// Handle of a layer: its position in the region that owns it.
#[derive(Copy, Clone, Debug, PartialEq, Eq, Structural, Hash)]
pub struct LayerId(pub u32);

/// Handle of a neuron: its position in the layer that owns it.
#[derive(Copy, Clone, Debug, PartialEq, Eq, Structural, Hash)]
pub struct NeuronId(pub u32);

/// Handle of a slot inside one slot engine.
#[derive(Copy, Clone, Debug, PartialEq, Eq, Structural, Hash)]
pub struct SlotId(pub u32);

impl SlotId {
    /// The raw value reserved for the fallback sentinel.
    pub const FALLBACK_RAW: u32 = 0xFFFF_FFFF;

    /// The sentinel returned when strict capacity denies a new bin.
    pub open spec fn fallback_spec() -> SlotId {
        SlotId(0xFFFF_FFFF)
    }

    /// The sentinel returned when strict capacity denies a new bin.
    #[verifier::when_used_as_spec(fallback_spec)]
    pub fn fallback() -> (id: SlotId)
        ensures
            id == SlotId::fallback_spec(),
    {
        SlotId(Self::FALLBACK_RAW)
    }

    /// Whether this handle is the fallback sentinel.
    pub open spec fn is_fallback_spec(self) -> bool {
        self == SlotId::fallback_spec()
    }

    /// Whether this handle is the fallback sentinel.
    #[verifier::when_used_as_spec(is_fallback_spec)]
    pub fn is_fallback(self) -> (b: bool)
        ensures
            b == self.is_fallback_spec(),
    {
        self.0 == Self::FALLBACK_RAW
    }
}

} // verus!
