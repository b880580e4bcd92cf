//! A layer: neurons in index order, a lateral bus, and per-neuron growth.

use crate::bus::LateralBus;
use crate::ids::{LayerId, NeuronId};
use crate::neuron::{Neuron, NeuronKind, NeuronState};
use crate::slot_config::SlotConfig;
use crate::slot_engine::SlotDomain;
use vstd::prelude::*;

verus! {

#[derive(Copy, Clone, Debug, PartialEq, Eq, Structural)]
pub enum LayerKind {
    Generic,
    Input2D,
    Output2D,
}

#[derive(Debug)]
pub struct Layer {
    pub id: LayerId,
    pub kind: LayerKind,
    pub neurons: Vec<Neuron>,
    pub bus: LateralBus,
    pub domain: SlotDomain,
    /// `(height, width)` when the layer is a grid.
    pub two_d_shape: Option<(usize, usize)>,
}

/// What a layer holds, as plain values.
pub struct LayerState {
    pub id: LayerId,
    pub kind: LayerKind,
    pub neurons: Seq<NeuronState>,
    pub bus: LateralBus,
    pub domain: SlotDomain,
    pub two_d_shape: Option<(usize, usize)>,
}

/// For each neuron of a list, what it holds.
pub open spec fn neuron_states(neurons: Seq<Neuron>) -> Seq<NeuronState> {
    Seq::new(neurons.len(), |i: int| neurons[i]@)
}

impl LayerState {
    /// The neuron that a layer appends when it copies the kind and options
    /// of `seed`: its handle is its position, and it has observed nothing.
    pub open spec fn offspring(self, seed: NeuronState) -> NeuronState {
        NeuronState::fresh(
            NeuronId(self.neurons.len() as u32),
            seed.kind,
            seed.slot_cfg,
            self.domain,
        )
    }

    /// The layer with one more neuron of the given kind and options.
    pub open spec fn with_neuron(self, kind: NeuronKind, slot_cfg: SlotConfig) -> LayerState {
        LayerState {
            neurons: self.neurons.push(
                NeuronState::fresh(
                    NeuronId(self.neurons.len() as u32),
                    kind,
                    slot_cfg,
                    self.domain,
                ),
            ),
            ..self
        }
    }

    /// Whether `seed` is the first neuron, in index order, that asks for
    /// growth at the current step of the bus.
    pub open spec fn is_growth_seed(self, seed: int) -> bool {
        &&& 0 <= seed < self.neurons.len()
        &&& self.neurons[seed].wants_growth(self.bus.current_step)
        &&& forall|i: int| 0 <= i < seed ==> !(#[trigger] self.neurons[i]).wants_growth(self.bus.current_step)
    }

    /// Whether some neuron asks for growth at the current step of the bus.
    pub open spec fn growth_due(self) -> bool {
        exists|seed: int| self.is_growth_seed(seed)
    }

    /// The neuron that grows this tick, where one does.
    pub open spec fn growth_seed(self) -> int {
        choose|seed: int| self.is_growth_seed(seed)
    }

    /// The layer after the neuron `seed` has grown: a copy of its kind and
    /// options is appended, its streak is reset, and its last growth is
    /// the current step.
    pub open spec fn grown(self, seed: int) -> LayerState {
        LayerState {
            neurons: self.neurons.update(
                seed,
                NeuronState {
                    fallback_streak: 0,
                    last_growth_step: self.bus.current_step,
                    ..self.neurons[seed]
                },
            ).push(self.offspring(self.neurons[seed])),
            ..self
        }
    }

    /// The layer after per-neuron growth: at most one neuron grows, the
    /// first that asks for it.
    pub open spec fn after_growth(self) -> LayerState {
        if self.growth_due() {
            self.grown(self.growth_seed())
        } else {
            self
        }
    }

    /// The layer after its end of tick: growth, then bus decay.
    pub open spec fn ticked(self) -> LayerState {
        LayerState { bus: self.bus.decayed(), ..self.after_growth() }
    }

    /// Total number of slots over the first `upto` neurons.
    pub open spec fn slots_upto(self, upto: int) -> int
        decreases upto,
    {
        if upto <= 0 {
            0
        } else {
            self.slots_upto(upto - 1) + self.neurons[upto - 1].engine.slots.len()
        }
    }

    /// Number of saturated neurons among the first `upto`.
    pub open spec fn saturated_upto(self, upto: int) -> int
        decreases upto,
    {
        if upto <= 0 {
            0
        } else {
            self.saturated_upto(upto - 1) + if self.neurons[upto - 1].saturated() {
                1int
            } else {
                0int
            }
        }
    }

    /// Total number of slots of the layer.
    pub open spec fn total_slots(self) -> int {
        self.slots_upto(self.neurons.len() as int)
    }

    /// Number of saturated neurons of the layer.
    pub open spec fn saturated_count(self) -> int {
        self.saturated_upto(self.neurons.len() as int)
    }
}

impl View for Layer {
    type V = LayerState;

    open spec fn view(&self) -> LayerState {
        LayerState {
            id: self.id,
            kind: self.kind,
            neurons: neuron_states(self.neurons@),
            bus: self.bus,
            domain: self.domain,
            two_d_shape: self.two_d_shape,
        }
    }
}

/// Whether a grid shape has a number of cells that can be counted.
pub open spec fn shape_fits(shape: Option<(usize, usize)>) -> bool {
    shape.is_some() ==> shape.unwrap().0 * shape.unwrap().1 <= usize::MAX
}

impl Layer {
    /// The invariant of a layer: every neuron is well formed, a layer of a
    /// grid kind has a shape, and a shape has a countable number of cells.
    pub open spec fn wf(&self) -> bool {
        &&& forall|i: int| 0 <= i < self.neurons@.len() ==> (#[trigger] self.neurons@[i]).wf()
        &&& self.kind != LayerKind::Generic ==> self.two_d_shape.is_some()
        &&& shape_fits(self.two_d_shape)
    }

    pub fn new_generic(id: LayerId, decay_factor: u64, domain: SlotDomain) -> (layer: Self)
        ensures
            layer.wf(),
            layer@ == (LayerState {
                id,
                kind: LayerKind::Generic,
                neurons: Seq::empty(),
                bus: LateralBus::at_rest(decay_factor),
                domain,
                two_d_shape: None,
            }),
    {
        let layer = Self {
            id,
            kind: LayerKind::Generic,
            neurons: Vec::new(),
            bus: LateralBus::new(decay_factor),
            domain,
            two_d_shape: None,
        };
        assert(neuron_states(layer.neurons@) =~= Seq::empty());
        layer
    }

    pub fn new_2d(id: LayerId, kind: LayerKind, decay_factor: u64, height: usize, width: usize) -> (layer:
        Self)
        requires
            height * width <= usize::MAX,
        ensures
            layer.wf(),
            layer@ == (LayerState {
                id,
                kind,
                neurons: Seq::empty(),
                bus: LateralBus::at_rest(decay_factor),
                domain: SlotDomain::TwoD,
                two_d_shape: Some((height, width)),
            }),
    {
        let layer = Self {
            id,
            kind,
            neurons: Vec::new(),
            bus: LateralBus::new(decay_factor),
            domain: SlotDomain::TwoD,
            two_d_shape: Some((height, width)),
        };
        assert(neuron_states(layer.neurons@) =~= Seq::empty());
        layer
    }

    /// Appends a neuron with the kind and options of the neuron at
    /// `seed_index`, and returns its index.
    pub fn add_neuron_same_kind(&mut self, seed_index: usize) -> (new_index: usize)
        requires
            old(self).wf(),
            seed_index < old(self).neurons@.len(),
        ensures
            final(self).wf(),
            new_index == old(self).neurons@.len(),
            final(self).neurons@.len() == old(self).neurons@.len() + 1,
            final(self)@ == old(self)@.with_neuron(
                old(self)@.neurons[seed_index as int].kind,
                old(self)@.neurons[seed_index as int].slot_cfg,
            ),
    {
        let kind = self.neurons[seed_index].kind;
        let slot_cfg = self.neurons[seed_index].slot_cfg;
        self.push_neuron(kind, slot_cfg)
    }

    /// Appends a neuron of the given kind and options, and returns its
    /// index.
    pub fn push_neuron(&mut self, kind: NeuronKind, slot_cfg: SlotConfig) -> (new_index: usize)
        requires
            old(self).wf(),
        ensures
            final(self).wf(),
            new_index == old(self).neurons@.len(),
            final(self).neurons@.len() == old(self).neurons@.len() + 1,
            final(self)@ == old(self)@.with_neuron(kind, slot_cfg),
    {
        let id = NeuronId(#[verifier::truncate] (self.neurons.len() as u32));
        let neuron = Neuron::new(id, kind, slot_cfg, self.domain);
        self.neurons.push(neuron);
        assert(self@.neurons =~= old(self)@.with_neuron(kind, slot_cfg).neurons);
        self.neurons.len() - 1
    }

    /// Runs every neuron's end of tick, then lets the first neuron that
    /// asks for growth grow. Returns the index of the new neuron, if any.
    pub fn end_tick_and_maybe_grow(&mut self) -> (grown: Option<usize>)
        requires
            old(self).wf(),
        ensures
            final(self).wf(),
            final(self)@ == old(self)@.after_growth(),
            grown.is_some() == old(self)@.growth_due(),
            grown.is_some() ==> grown.unwrap() == old(self).neurons@.len(),
    {
        let mut at: usize = 0;
        while at < self.neurons.len()
            invariant
                self.neurons@ == old(self).neurons@,
                self.bus == old(self).bus,
                self.id == old(self).id,
                self.kind == old(self).kind,
                self.domain == old(self).domain,
                self.two_d_shape == old(self).two_d_shape,
            decreases self.neurons.len() - at,
        {
            self.neurons[at].end_tick(&mut self.bus);
            assert(self.neurons@ =~= old(self).neurons@);
            at = at + 1;
        }
        let current_step = self.bus.current_step;
        let mut index: usize = 0;
        while index < self.neurons.len()
            invariant
                self.neurons@ == old(self).neurons@,
                self.bus == old(self).bus,
                self.id == old(self).id,
                self.kind == old(self).kind,
                self.domain == old(self).domain,
                self.two_d_shape == old(self).two_d_shape,
                self.wf(),
                current_step == self.bus.current_step,
                index <= self.neurons@.len(),
                forall|i: int|
                    0 <= i < index ==> !(#[trigger] self@.neurons[i]).wants_growth(current_step),
            decreases self.neurons.len() - index,
        {
            let eligible = self.neurons[index].slot_cfg.neuron_growth_enabled
                && self.neurons[index].fallback_streak
                >= self.neurons[index].slot_cfg.fallback_growth_threshold
                && current_step.saturating_sub(self.neurons[index].last_growth_step)
                >= self.neurons[index].slot_cfg.neuron_growth_cooldown_ticks;
            assert(eligible == self@.neurons[index as int].wants_growth(current_step));
            if eligible {
                proof {
                    assert(old(self)@.is_growth_seed(index as int));
                    let chosen = old(self)@.growth_seed();
                    assert(old(self)@.is_growth_seed(chosen));
                    assert(chosen == index) by {
                        if chosen < index {
                            assert(!old(self)@.neurons[chosen].wants_growth(current_step));
                        }
                        if chosen > index {
                            assert(!old(self)@.neurons[index as int].wants_growth(current_step));
                        }
                    }
                }
                let new_index = self.add_neuron_same_kind(index);
                let ghost mid = *self;
                self.neurons[index].fallback_streak = 0;
                self.neurons[index].last_growth_step = current_step;
                proof {
                    let target = old(self)@.grown(index as int).neurons;
                    assert(self@.neurons.len() == target.len());
                    assert forall|i: int| 0 <= i < target.len() implies self@.neurons[i]
                        == target[i] by {
                        assert(mid@.neurons[i] == mid.neurons@[i]@);
                        assert(self@.neurons[i] == self.neurons@[i]@);
                        if i != index {
                            assert(self.neurons@[i] == mid.neurons@[i]);
                        }
                    }
                    assert(self@.neurons =~= target);
                    assert forall|i: int| 0 <= i < self.neurons@.len() implies (
                    #[trigger] self.neurons@[i]).wf() by {
                        if i != index {
                        }
                    }
                }
                return Some(new_index);
            }
            index = index + 1;
        }
        proof {
            if old(self)@.growth_due() {
                let chosen = old(self)@.growth_seed();
                assert(old(self)@.is_growth_seed(chosen));
                assert(!old(self)@.neurons[chosen].wants_growth(current_step));
            }
        }
        None
    }

    /// End of tick of the layer: growth, then bus decay.
    pub fn end_tick(&mut self)
        requires
            old(self).wf(),
        ensures
            final(self).wf(),
            final(self)@ == old(self)@.ticked(),
    {
        let _ = self.end_tick_and_maybe_grow();
        self.bus.decay();
    }

    /// The grid position of a neuron index, row-major, where the layer is
    /// a grid.
    pub fn grid_index_to_row_col(&self, neuron_index: usize) -> (position: Option<(usize, usize)>)
        requires
            self.two_d_shape.is_some() ==> self.two_d_shape.unwrap().1 > 0,
        ensures
            position.is_some() == self.two_d_shape.is_some(),
            position.is_some() ==> position.unwrap() == (
                neuron_index / self.two_d_shape.unwrap().1,
                neuron_index % self.two_d_shape.unwrap().1,
            ),
    {
        match self.two_d_shape {
            Some((_height, width)) => Some((neuron_index / width, neuron_index % width)),
            None => None,
        }
    }
}

} // verus!
