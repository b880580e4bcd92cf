//! The region as plain values, and what one tick does to it: injection,
//! propagation, end of tick, region growth.

use crate::fixed::{sat_u64, sat_usize, whole, UNIT};
use crate::ids::{LayerId, NeuronId, SlotId};
use crate::index_map::list_at;
use crate::layer::{LayerKind, LayerState};
use crate::mesh::MeshRule;
use crate::bus::LateralBus;
use crate::neuron::{NeuronKind, NeuronState};
use crate::region::GrowthPolicy;
use crate::slot_config::SlotConfig;
use crate::slot_engine::{lemma_first_position_keeps_its_slot, SlotDomain};
use crate::spatial_metrics::{count_active, SpatialMetrics};
use crate::tract::TractState;
use crate::window::{covered, is_inverse, Padding, WindowGeometry};
use vstd::prelude::*;

verus! {

/// The activation frame that propagation captured: `cells` holds, for each
/// destination cell in row-major order, how many events reached it.
pub struct OutputFrame {
    pub cells: Seq<u64>,
    pub height: usize,
    pub width: usize,
}

/// What propagation has accumulated: the number of delivered events, and
/// the output frame once an output layer was reached.
pub struct Delivery {
    pub delivered: int,
    pub frame: Option<OutputFrame>,
}

/// What a region holds, as plain values.
pub struct RegionState {
    pub layers: Seq<LayerState>,
    pub mesh_rules: Seq<MeshRule>,
    pub tracts: Seq<TractState>,
    /// The state of the region's random stream.
    pub rng_state: u64,
    pub growth_policy: GrowthPolicy,
    pub last_layer_growth_step: u64,
    pub spatial_metrics_enabled: bool,
    /// For each source layer index, the tracts that leave it, in
    /// registration order.
    pub src_to_tracts: Map<usize, Seq<usize>>,
    pub last_output_frame: Option<OutputFrame>,
}

/// A frame of `count` cells that nothing has reached.
pub open spec fn blank_cells(count: int) -> Seq<u64> {
    Seq::new(count as nat, |i: int| 0u64)
}

/// One more event in a cell, held at the largest count.
pub open spec fn one_more(count: u64) -> u64 {
    if count == u64::MAX {
        u64::MAX
    } else {
        (count + 1) as u64
    }
}

/// `cells` after the first `upto` destinations of `dests` were each
/// credited with one event.
pub open spec fn credited(cells: Seq<u64>, dests: Seq<usize>, upto: int) -> Seq<u64>
    decreases upto,
{
    if upto <= 0 {
        cells
    } else {
        let prev = credited(cells, dests, upto - 1);
        let dest = dests[upto - 1] as int;
        if dest < prev.len() {
            prev.update(dest, one_more(prev[dest]))
        } else {
            prev
        }
    }
}

/// What one fired source neuron adds along one tract: the length of its
/// subscriber list to the delivered events and, where the tract ends in
/// an output layer, one event to each subscriber's cell of the frame. The
/// frame is created blank, in the tract's output size, by the first tract
/// that contributes to it.
pub open spec fn through_tract(
    acc: Delivery,
    tract: TractState,
    ends_in_output: bool,
    neuron: usize,
) -> Delivery {
    if tract.reverse.contains_key(neuron) {
        let dests = tract.reverse[neuron];
        Delivery {
            delivered: acc.delivered + dests.len(),
            frame: if ends_in_output {
                let frame = match acc.frame {
                    Some(frame) => frame,
                    None => OutputFrame {
                        cells: blank_cells(tract.out_height * tract.out_width),
                        height: tract.out_height,
                        width: tract.out_width,
                    },
                };
                Some(
                    OutputFrame {
                        cells: credited(frame.cells, dests, dests.len() as int),
                        ..frame
                    },
                )
            } else {
                acc.frame
            },
        }
    } else {
        acc
    }
}

/// Whether every destination of `dests` is a cell of a frame of `cells`
/// cells.
pub open spec fn all_below(dests: Seq<usize>, cells: int) -> bool {
    forall|i: int| 0 <= i < dests.len() ==> dests[i] < cells
}

/// Whether what one fired source neuron sends along one tract stays
/// inside the frame: where the tract ends in an output layer, each of the
/// neuron's subscribers is a cell of the frame captured so far, or of the
/// frame that this tract creates.
pub open spec fn tract_in_range(
    acc: Delivery,
    tract: TractState,
    ends_in_output: bool,
    neuron: usize,
) -> bool {
    tract.reverse.contains_key(neuron) && ends_in_output ==> all_below(
        tract.reverse[neuron],
        match acc.frame {
            Some(frame) => frame.cells.len() as int,
            None => tract.out_height * tract.out_width,
        },
    )
}

impl TractState {
    /// Whether every subscriber that the reverse table lists is a cell of
    /// the tract's own frame.
    pub open spec fn indices_in_frame(self) -> bool {
        forall|s: usize, i: int|
            self.reverse.contains_key(s) && 0 <= i < self.reverse[s].len()
                ==> #[trigger] self.reverse[s][i] < self.out_height * self.out_width
    }

    /// Whether this is the tract that the center rule computes for the
    /// geometry `g`, from layer `src` to layer `dst`.
    pub open spec fn is_tract_of(self, src: usize, dst: usize, g: WindowGeometry) -> bool {
        &&& self.source_layer_index == src
        &&& self.dest_layer_index == dst
        &&& self.geometry == g
        &&& self.out_height == g.out_height()
        &&& self.out_width == g.out_width()
        &&& self.forward == g.forward()
        &&& is_inverse(g.forward(), self.reverse)
        &&& self.unique_source_count == covered(g.forward(), g.dest_count()).len()
    }
}

impl LayerState {
    /// The layer with `count` more neurons of the given kind and options.
    pub open spec fn seeded(self, count: int, kind: NeuronKind, slot_cfg: SlotConfig) -> LayerState {
        LayerState {
            neurons: self.neurons + Seq::new(
                count as nat,
                |j: int|
                    NeuronState::fresh(
                        NeuronId((self.neurons.len() + j) as u32),
                        kind,
                        slot_cfg,
                        self.domain,
                    ),
            ),
            ..self
        }
    }

    /// The number of neurons that a layer is given to be ready for a
    /// frame of `cells` pixels: those that are missing for one neuron per
    /// pixel; a whole further grid where the layer holds more neurons
    /// than pixels.
    pub open spec fn shortfall(self, cells: int) -> int {
        if self.neurons.len() < cells {
            cells - self.neurons.len()
        } else if self.neurons.len() > cells {
            cells
        } else {
            0
        }
    }

    /// The layer made ready for a frame of `cells` pixels: the neurons it
    /// holds stay in place, and excitatory neurons with the default
    /// options are appended until every pixel has its neuron.
    pub open spec fn prepared(self, cells: int) -> LayerState {
        self.seeded(self.shortfall(cells), NeuronKind::Excitatory, SlotConfig::default_spec())
    }

    /// The layer after each of its first `upto` neurons observed its own
    /// grid position in a grid `width` wide.
    pub open spec fn observed_upto(self, width: int, upto: int) -> LayerState {
        LayerState {
            neurons: Seq::new(
                self.neurons.len(),
                |i: int|
                    if i < upto {
                        self.neurons[i].observed_two_d(
                            whole((i / width) as usize),
                            whole((i % width) as usize),
                        )
                    } else {
                        self.neurons[i]
                    },
            ),
            ..self
        }
    }

    /// Whether the neuron at `index` fires when it observes its own grid
    /// position: its engine gives it a slot other than the fallback.
    pub open spec fn fires(self, width: int, index: int) -> bool {
        self.neurons[index].engine.selection_two_d(
            whole((index / width) as usize),
            whole((index % width) as usize),
        ).slot_id != SlotId::fallback()
    }

    /// The neurons among the first `upto` that fire, in index order, each
    /// paired with the index of the layer.
    pub open spec fn fired_upto(self, layer_index: usize, width: int, upto: int) -> Seq<
        (usize, usize),
    >
        decreases upto,
    {
        if upto <= 0 {
            Seq::empty()
        } else if self.fires(width, upto - 1) {
            self.fired_upto(layer_index, width, upto - 1).push((layer_index, (upto - 1) as usize))
        } else {
            self.fired_upto(layer_index, width, upto - 1)
        }
    }

    /// Whether this layer presses harder than `other`: its share of
    /// saturated neurons is strictly larger. A layer without neurons has
    /// share zero.
    pub open spec fn presses_harder_than(self, other: LayerState) -> bool {
        self.saturated_count() * denominator(other.neurons.len() as int) > other.saturated_count()
            * denominator(self.neurons.len() as int)
    }
}

/// The count a share is taken of: `count`, or one where it is zero.
pub open spec fn denominator(count: int) -> int {
    if count == 0 {
        1
    } else {
        count
    }
}

/// Whether the ratio `part / whole_count` reaches the fixed-point
/// `threshold`; a ratio over nothing is zero.
pub open spec fn ratio_reaches(part: int, whole_count: int, threshold: u64) -> bool {
    if whole_count == 0 {
        threshold == 0
    } else {
        part * UNIT >= threshold * whole_count
    }
}

/// The number of steps from `earlier` to `later`, zero where `later` is
/// the earlier one.
pub open spec fn steps_since(later: u64, earlier: u64) -> int {
    if later >= earlier {
        later - earlier
    } else {
        0
    }
}

impl RegionState {
    /// A region without layers, with the default growth policy.
    pub open spec fn fresh(seed: u64) -> RegionState {
        RegionState {
            layers: Seq::empty(),
            mesh_rules: Seq::empty(),
            tracts: Seq::empty(),
            rng_state: seed,
            growth_policy: GrowthPolicy::default_spec(),
            last_layer_growth_step: 0,
            spatial_metrics_enabled: true,
            src_to_tracts: Map::empty(),
            last_output_frame: None,
        }
    }

    /// Whether the tract `t` ends in an output layer.
    pub open spec fn ends_in_output(self, t: int) -> bool {
        self.layers[self.tracts[t].dest_layer_index as int].kind == LayerKind::Output2D
    }

    /// The number of cells of the frame of tract `t`.
    pub open spec fn frame_cells(self, t: int) -> int {
        self.tracts[t].out_height * self.tracts[t].out_width
    }

    /// Whether a tract into layer `dest` with `cells` output cells has a
    /// frame of the size of those of the tracts already registered.
    pub open spec fn accepts_tract(self, dest: int, cells: int) -> bool {
        self.layers[dest].kind == LayerKind::Output2D ==> forall|t: int|
            0 <= t < self.tracts.len() && #[trigger] self.ends_in_output(t) ==> self.frame_cells(t)
                == cells
    }

    /// Whether the tracts that end in output layers all have frames of one
    /// size.
    pub open spec fn frames_agree(self) -> bool {
        forall|t: int, u: int|
            0 <= t < self.tracts.len() && 0 <= u < self.tracts.len() && #[trigger] self.ends_in_output(t)
                && #[trigger] self.ends_in_output(u) ==> self.frame_cells(t) == self.frame_cells(u)
    }

    /// The invariant of the region's wiring: tracts end in layers that
    /// exist, the tract lists name tracts that exist, and a captured frame
    /// holds one count per cell.
    pub open spec fn wired(self) -> bool {
        &&& forall|t: int|
            0 <= t < self.tracts.len() ==> (#[trigger] self.tracts[t]).dest_layer_index
                < self.layers.len()
        &&& forall|k: usize, j: int|
            self.src_to_tracts.contains_key(k) && 0 <= j < self.src_to_tracts[k].len()
                ==> #[trigger] self.src_to_tracts[k][j] < self.tracts.len()
        &&& self.last_output_frame.is_some() ==> self.last_output_frame.unwrap().cells.len()
            == self.last_output_frame.unwrap().height * self.last_output_frame.unwrap().width
    }

    /// The geometry of a windowed connection that leaves layer `src`.
    pub open spec fn window_geometry(
        self,
        src: int,
        kernel_height: usize,
        kernel_width: usize,
        stride_height: usize,
        stride_width: usize,
        padding: Padding,
    ) -> WindowGeometry {
        WindowGeometry {
            source_height: self.layers[src].two_d_shape.unwrap().0,
            source_width: self.layers[src].two_d_shape.unwrap().1,
            kernel_height,
            kernel_width,
            stride_height,
            stride_width,
            padding,
        }
    }

    /// The region with `tract` registered as the next tract that leaves
    /// layer `src`.
    pub open spec fn with_tract(self, src: usize, tract: TractState) -> RegionState {
        RegionState {
            tracts: self.tracts.push(tract),
            src_to_tracts: self.src_to_tracts.insert(
                src,
                list_at(self.src_to_tracts, src).push(self.tracts.len() as usize),
            ),
            ..self
        }
    }

    /// The region with `count` more neurons in the layer at `index`.
    pub open spec fn with_seeded_layer(
        self,
        index: int,
        count: int,
        kind: NeuronKind,
        slot_cfg: SlotConfig,
    ) -> RegionState {
        RegionState {
            layers: self.layers.update(index, self.layers[index].seeded(count, kind, slot_cfg)),
            ..self
        }
    }

    // ----- injection -----
    /// Whether `index` is the last layer of kind `Input2D`.
    pub open spec fn is_input_layer(self, index: int) -> bool {
        &&& 0 <= index < self.layers.len()
        &&& self.layers[index].kind == LayerKind::Input2D
        &&& forall|j: int| index < j < self.layers.len() ==> (#[trigger] self.layers[j]).kind
            != LayerKind::Input2D
    }

    /// Whether the region has a layer of kind `Input2D`.
    pub open spec fn has_input_layer(self) -> bool {
        exists|index: int| self.is_input_layer(index)
    }

    /// The layer that frames are injected into.
    pub open spec fn input_layer(self) -> int {
        choose|index: int| self.is_input_layer(index)
    }

    /// Whether a `height` by `width` frame is injected: there is an input
    /// layer, and it has that shape.
    pub open spec fn injects(self, height: usize, width: usize) -> bool {
        self.has_input_layer() && self.layers[self.input_layer()].two_d_shape == Some(
            (height, width),
        )
    }

    /// The region after a frame was injected: the input layer is prepared
    /// for the frame, and the neuron of each pixel observes its position.
    /// A frame of another shape changes nothing.
    pub open spec fn injected(self, height: usize, width: usize) -> RegionState {
        if self.injects(height, width) {
            let at = self.input_layer();
            RegionState {
                layers: self.layers.update(
                    at,
                    self.layers[at].prepared(height * width).observed_upto(
                        width as int,
                        height * width,
                    ),
                ),
                ..self
            }
        } else {
            self
        }
    }

    /// The neurons that fire when a frame is injected, in row-major pixel
    /// order.
    pub open spec fn fired(self, height: usize, width: usize) -> Seq<(usize, usize)> {
        if self.injects(height, width) {
            let at = self.input_layer();
            self.layers[at].prepared(height * width).fired_upto(
                at as usize,
                width as int,
                height * width,
            )
        } else {
            Seq::empty()
        }
    }

    // ----- propagation -----
    /// What one fired neuron adds along the first `upto` of the tracts
    /// `tract_ids`, in their order.
    pub open spec fn through_tracts(
        self,
        acc: Delivery,
        tract_ids: Seq<usize>,
        neuron: usize,
        upto: int,
    ) -> Delivery
        decreases upto,
    {
        if upto <= 0 {
            acc
        } else {
            let t = tract_ids[upto - 1] as int;
            through_tract(
                self.through_tracts(acc, tract_ids, neuron, upto - 1),
                self.tracts[t],
                self.ends_in_output(t),
                neuron,
            )
        }
    }

    /// What the first `upto` events add, in their order: each along the
    /// tracts that leave its layer.
    pub open spec fn through_events(self, events: Seq<(usize, usize)>, upto: int) -> Delivery
        decreases upto,
    {
        if upto <= 0 {
            Delivery { delivered: 0, frame: None }
        } else {
            let prev = self.through_events(events, upto - 1);
            let event = events[upto - 1];
            if self.src_to_tracts.contains_key(event.0) {
                let tract_ids = self.src_to_tracts[event.0];
                self.through_tracts(prev, tract_ids, event.1, tract_ids.len() as int)
            } else {
                prev
            }
        }
    }

    /// Whether what one fired neuron sends along the first `upto` of the
    /// tracts `tract_ids` stays inside the frame.
    pub open spec fn tracts_in_range(
        self,
        acc: Delivery,
        tract_ids: Seq<usize>,
        neuron: usize,
        upto: int,
    ) -> bool
        decreases upto,
    {
        if upto <= 0 {
            true
        } else {
            let t = tract_ids[upto - 1] as int;
            &&& self.tracts_in_range(acc, tract_ids, neuron, upto - 1)
            &&& tract_in_range(
                self.through_tracts(acc, tract_ids, neuron, upto - 1),
                self.tracts[t],
                self.ends_in_output(t),
                neuron,
            )
        }
    }

    /// Whether what the first `upto` events send stays inside the frame.
    pub open spec fn events_in_range(self, events: Seq<(usize, usize)>, upto: int) -> bool
        decreases upto,
    {
        if upto <= 0 {
            true
        } else {
            let event = events[upto - 1];
            &&& self.events_in_range(events, upto - 1)
            &&& self.src_to_tracts.contains_key(event.0) ==> self.tracts_in_range(
                self.through_events(events, upto - 1),
                self.src_to_tracts[event.0],
                event.1,
                self.src_to_tracts[event.0].len() as int,
            )
        }
    }

    /// Whether propagating `events` credits cells of the captured frame
    /// only: the frame has the size of the first tract that contributes
    /// to it, and no later contribution names a cell beyond it.
    pub open spec fn propagates_in_range(self, events: Seq<(usize, usize)>) -> bool {
        self.events_in_range(events, events.len() as int)
    }

    /// Whether a tick on a `height` by `width` frame credits cells of the
    /// captured frame only.
    pub open spec fn tick_in_range(self, height: usize, width: usize) -> bool {
        self.injected(height, width).propagates_in_range(self.fired(height, width))
    }

    /// What propagating `events` delivers.
    pub open spec fn propagation(self, events: Seq<(usize, usize)>) -> Delivery {
        self.through_events(events, events.len() as int)
    }

    /// The region after `events` were propagated: the captured output
    /// frame is the one this propagation produced, if any.
    pub open spec fn propagated(self, events: Seq<(usize, usize)>) -> RegionState {
        RegionState { last_output_frame: self.propagation(events).frame, ..self }
    }

    // ----- end of tick -----
    /// The region after every layer ran its end of tick.
    pub open spec fn ended(self) -> RegionState {
        RegionState {
            layers: Seq::new(self.layers.len(), |i: int| self.layers[i].ticked()),
            ..self
        }
    }

    // ----- region growth -----
    /// The step of the first layer's bus; zero without layers.
    pub open spec fn current_step(self) -> u64 {
        if self.layers.len() > 0 {
            self.layers[0].bus.current_step
        } else {
            0
        }
    }

    /// Total number of slots over the first `upto` layers.
    pub open spec fn slots_upto(self, upto: int) -> int
        decreases upto,
    {
        if upto <= 0 {
            0
        } else {
            self.slots_upto(upto - 1) + self.layers[upto - 1].total_slots()
        }
    }

    /// Total number of neurons over the first `upto` layers.
    pub open spec fn neurons_upto(self, upto: int) -> int
        decreases upto,
    {
        if upto <= 0 {
            0
        } else {
            self.neurons_upto(upto - 1) + self.layers[upto - 1].neurons.len()
        }
    }

    /// Total number of saturated neurons over the first `upto` layers.
    pub open spec fn saturated_upto(self, upto: int) -> int
        decreases upto,
    {
        if upto <= 0 {
            0
        } else {
            self.saturated_upto(upto - 1) + self.layers[upto - 1].saturated_count()
        }
    }

    /// Total number of slots of the region, held at the largest `usize`.
    pub open spec fn total_slots(self) -> usize {
        sat_usize(self.slots_upto(self.layers.len() as int))
    }

    /// Total number of neurons of the region, held at the largest `usize`.
    pub open spec fn total_neurons(self) -> usize {
        sat_usize(self.neurons_upto(self.layers.len() as int))
    }

    /// Total number of saturated neurons of the region, held at the
    /// largest `usize`.
    pub open spec fn total_saturated(self) -> usize {
        sat_usize(self.saturated_upto(self.layers.len() as int))
    }

    /// Whether growth is permitted at all: the region is below its layer
    /// cap, and the cooldown since its last growth has passed.
    pub open spec fn growth_permitted(self) -> bool {
        &&& self.layers.len() < self.growth_policy.max_layers
        &&& steps_since(self.current_step(), self.last_layer_growth_step)
            >= self.growth_policy.layer_cooldown_ticks
    }

    /// Whether the average number of slots per neuron reaches its
    /// threshold.
    pub open spec fn triggered_by_average(self) -> bool {
        match self.growth_policy.avg_slots_threshold {
            Some(threshold) => ratio_reaches(
                self.total_slots() as int,
                self.total_neurons() as int,
                threshold,
            ),
            None => false,
        }
    }

    /// Whether the share of saturated neurons reaches its threshold.
    pub open spec fn triggered_by_saturation(self) -> bool {
        ratio_reaches(
            self.total_saturated() as int,
            self.total_neurons() as int,
            self.growth_policy.percent_at_cap_fallback_threshold,
        )
    }

    /// Whether `index` is the first of the layers under the highest
    /// pressure.
    pub open spec fn is_pressure_seed(self, index: int) -> bool {
        &&& 0 <= index < self.layers.len()
        &&& forall|j: int|
            0 <= j < index ==> self.layers[index].presses_harder_than(#[trigger] self.layers[j])
        &&& forall|j: int|
            index < j < self.layers.len() ==> !(#[trigger] self.layers[j]).presses_harder_than(
                self.layers[index],
            )
    }

    /// The layer that growth copies.
    pub open spec fn pressure_seed(self) -> int {
        choose|index: int| self.is_pressure_seed(index)
    }

    /// Whether the region grows a layer: growth is permitted, one of the
    /// two triggers holds, and there is a layer to copy.
    pub open spec fn growth_due(self) -> bool {
        &&& self.growth_permitted()
        &&& self.triggered_by_average() || self.triggered_by_saturation()
        &&& self.layers.len() > 0
    }

    /// The layer that growth from `seed` appends: an output grid of the
    /// seed's shape where the seed is a grid, else a generic layer of the
    /// seed's domain; in both cases with the seed's decay factor.
    pub open spec fn spillover(self, seed: int) -> LayerState {
        let origin = self.layers[seed];
        let id = LayerId(self.layers.len() as u32);
        match origin.two_d_shape {
            Some(shape) => LayerState {
                id,
                kind: LayerKind::Output2D,
                neurons: Seq::empty(),
                bus: LateralBus::at_rest(origin.bus.decay_factor),
                domain: SlotDomain::TwoD,
                two_d_shape: Some(shape),
            },
            None => LayerState {
                id,
                kind: LayerKind::Generic,
                neurons: Seq::empty(),
                bus: LateralBus::at_rest(origin.bus.decay_factor),
                domain: origin.domain,
                two_d_shape: None,
            },
        }
    }

    /// The region with the mesh rule `src -> dst` recorded.
    pub open spec fn connected(self, src: int, dst: int, probability: u64, feedback: bool) -> RegionState {
        RegionState {
            mesh_rules: self.mesh_rules.push(
                MeshRule { src: self.layers[src].id, dst: self.layers[dst].id, probability, feedback },
            ),
            src_to_tracts: self.src_to_tracts.insert(
                src as usize,
                list_at(self.src_to_tracts, src as usize),
            ),
            ..self
        }
    }

    /// The region after it grew from the layer `seed`: the spillover
    /// layer is appended, a mesh rule from the seed to it is recorded with
    /// probability one, and the growth step is noted.
    pub open spec fn spilled(self, seed: int) -> RegionState {
        let step = self.current_step();
        let grown = RegionState { layers: self.layers.push(self.spillover(seed)), ..self };
        RegionState {
            last_layer_growth_step: step,
            ..grown.connected(seed, self.layers.len() as int, UNIT, false)
        }
    }

    /// The region after region growth: at most one layer is added.
    pub open spec fn region_grown(self) -> RegionState {
        if self.growth_due() {
            self.spilled(self.pressure_seed())
        } else {
            self
        }
    }

    // ----- metrics -----
    /// Number of subscriptions of tract `t` over its first `upto`
    /// destinations.
    pub open spec fn tract_synapses_upto(self, t: int, upto: int) -> int
        decreases upto,
    {
        if upto <= 0 {
            0
        } else {
            self.tract_synapses_upto(t, upto - 1) + self.tracts[t].forward[upto - 1].len()
        }
    }

    /// Number of subscriptions over the first `upto` tracts.
    pub open spec fn synapses_upto(self, upto: int) -> int
        decreases upto,
    {
        if upto <= 0 {
            0
        } else {
            self.synapses_upto(upto - 1) + self.tract_synapses_upto(
                upto - 1,
                self.tracts[upto - 1].forward.len() as int,
            )
        }
    }

    /// Total number of subscriptions, held at the largest `usize`.
    pub open spec fn total_synapses(self) -> usize {
        sat_usize(self.synapses_upto(self.tracts.len() as int))
    }

    /// Whether the captured output frame is what the spatial summary is
    /// taken of: there is one, and it has an active cell.
    pub open spec fn summarises_output(self) -> bool {
        self.last_output_frame.is_some() && count_active(
            self.last_output_frame.unwrap().cells,
            self.last_output_frame.unwrap().height * self.last_output_frame.unwrap().width,
        ) > 0
    }

    /// Whether `spatial` is the spatial part of the metrics of a tick on
    /// the `height` by `width` frame `image`: none where spatial metrics
    /// are disabled, else the summary of the captured output frame where
    /// that has an active cell, else the summary of the input frame.
    pub open spec fn reports_spatial(
        self,
        spatial: Option<SpatialMetrics>,
        image: Seq<u64>,
        height: usize,
        width: usize,
    ) -> bool {
        if !self.spatial_metrics_enabled {
            spatial.is_none()
        } else if self.summarises_output() {
            spatial.is_some() && spatial.unwrap().is_summary_of(
                self.last_output_frame.unwrap().cells,
                self.last_output_frame.unwrap().height as int,
                self.last_output_frame.unwrap().width as int,
            )
        } else {
            spatial.is_some() && spatial.unwrap().is_summary_of(image, height as int, width as int)
        }
    }

    /// The region after one tick on a `height` by `width` frame:
    /// injection, propagation of what fired, end of tick of every layer,
    /// then region growth.
    pub open spec fn ticked(self, height: usize, width: usize) -> RegionState {
        self.injected(height, width).propagated(self.fired(height, width)).ended().region_grown()
    }

    /// The number of events that one tick delivers, held at the largest
    /// `u64`.
    pub open spec fn tick_delivered(self, height: usize, width: usize) -> u64 {
        sat_u64(self.injected(height, width).propagation(self.fired(height, width)).delivered)
    }
}

/// One growth per layer per tick: the end of tick of a layer appends at
/// most one neuron, keeps every neuron it had in place, and leaves the
/// kind, domain and shape of the layer alone.
pub proof fn lemma_layer_grows_at_most_one_neuron(layer: LayerState)
    ensures
        layer.neurons.len() <= layer.ticked().neurons.len() <= layer.neurons.len() + 1,
        layer.ticked().neurons.len() == layer.neurons.len() + 1 <==> layer.growth_due(),
        layer.ticked().kind == layer.kind,
        layer.ticked().id == layer.id,
        layer.ticked().domain == layer.domain,
        layer.ticked().two_d_shape == layer.two_d_shape,
        layer.ticked().bus == layer.bus.decayed(),
{
    if layer.growth_due() {
        let seed = layer.growth_seed();
        assert(layer.is_growth_seed(seed));
    }
}

/// One growth per region per tick: a tick appends at most one layer and
/// removes none, and it appends one exactly when region growth is due
/// after the end of tick.
pub proof fn lemma_tick_adds_at_most_one_layer(region: RegionState, height: usize, width: usize)
    ensures
        region.layers.len() <= region.ticked(height, width).layers.len() <= region.layers.len()
            + 1,
        region.ticked(height, width).layers.len() == region.layers.len() + 1
            <==> region.injected(height, width).propagated(
            region.fired(height, width),
        ).ended().growth_due(),
        region.ticked(height, width).tracts == region.tracts,
{
    let injected = region.injected(height, width);
    assert(injected.layers.len() == region.layers.len()) by {
        if region.injects(height, width) {
            let at = region.input_layer();
            assert(region.is_input_layer(at));
        }
    }
    let ended = injected.propagated(region.fired(height, width)).ended();
    assert(ended.layers.len() == region.layers.len());
}

/// A tick leaves every layer it had in place: same handle, kind, domain
/// and shape, with a bus that decayed once.
pub proof fn lemma_tick_keeps_layers(region: RegionState, height: usize, width: usize, index: int)
    requires
        0 <= index < region.layers.len(),
    ensures
        region.ticked(height, width).layers[index].id == region.layers[index].id,
        region.ticked(height, width).layers[index].kind == region.layers[index].kind,
        region.ticked(height, width).layers[index].domain == region.layers[index].domain,
        region.ticked(height, width).layers[index].two_d_shape == region.layers[index].two_d_shape,
        region.ticked(height, width).layers[index].bus == region.layers[index].bus.decayed(),
        region.ticked(height, width).layers[index].neurons.len()
            >= region.layers[index].neurons.len(),
{
    let injected = region.injected(height, width);
    if region.injects(height, width) {
        let at = region.input_layer();
        assert(region.is_input_layer(at));
    }
    assert(injected.layers.len() == region.layers.len());
    let propagated = injected.propagated(region.fired(height, width));
    let ended = propagated.ended();
    lemma_layer_grows_at_most_one_neuron(propagated.layers[index]);
    assert(ended.layers[index] == propagated.layers[index].ticked());
}

/// On its first frame, every pixel of a grid without neurons fires: the
/// neurons that injection creates are given their first slot by the
/// bootstrap rule, so the fired sequence lists every pixel in row-major
/// order.
pub proof fn lemma_new_grid_fires_everywhere(
    layer: LayerState,
    layer_index: usize,
    width: int,
    cells: int,
    upto: int,
)
    requires
        layer.neurons.len() == 0,
        0 <= upto <= cells,
    ensures
        layer.prepared(cells).fired_upto(layer_index, width, upto) == Seq::new(
            upto as nat,
            |i: int| (layer_index, i as usize),
        ),
    decreases upto,
{
    let prepared = layer.prepared(cells);
    let listed = Seq::new(upto as nat, |i: int| (layer_index, i as usize));
    assert(layer.shortfall(cells) == cells);
    if upto > 0 {
        lemma_new_grid_fires_everywhere(layer, layer_index, width, cells, upto - 1);
        let at = upto - 1;
        let cfg = SlotConfig::default_spec();
        assert(prepared.neurons[at] == NeuronState::fresh(
            NeuronId((0 + at) as u32),
            NeuronKind::Excitatory,
            cfg,
            layer.domain,
        ));
        lemma_first_position_keeps_its_slot(
            layer.domain,
            cfg.slot_limit,
            cfg.bin_width_pct,
            cfg.epsilon_scale,
            whole((at / width) as usize),
            whole((at % width) as usize),
        );
        assert(prepared.fires(width, at));
        assert(prepared.fired_upto(layer_index, width, upto) =~= listed);
    } else {
        assert(prepared.fired_upto(layer_index, width, upto) =~= listed);
    }
}

/// Injection fills the grid: a layer with at most one neuron per pixel
/// holds exactly one neuron per pixel once it is prepared, and the neurons
/// it held before are still in their places.
pub proof fn lemma_prepared_fills_grid(layer: LayerState, cells: int)
    requires
        layer.neurons.len() <= cells,
    ensures
        layer.prepared(cells).neurons.len() == cells,
        layer.prepared(cells).neurons.subrange(0, layer.neurons.len() as int) == layer.neurons,
        layer.neurons.len() == cells ==> layer.prepared(cells) == layer,
{
    let prepared = layer.prepared(cells);
    assert(prepared.neurons.subrange(0, layer.neurons.len() as int) =~= layer.neurons);
    if layer.neurons.len() == cells {
        assert(prepared.neurons =~= layer.neurons);
    }
}

/// After a frame was injected, the input grid holds one neuron per pixel,
/// provided it held no more than that before.
pub proof fn lemma_injection_fills_grid(region: RegionState, height: usize, width: usize)
    requires
        region.injects(height, width),
        region.layers[region.input_layer()].neurons.len() <= height * width,
    ensures
        region.injected(height, width).layers[region.input_layer()].neurons.len() == height
            * width,
        region.injected(height, width).layers.len() == region.layers.len(),
{
    let at = region.input_layer();
    assert(region.is_input_layer(at));
    lemma_prepared_fills_grid(region.layers[at], height * width);
}

/// Crediting events keeps the number of cells.
pub proof fn lemma_credited_len(cells: Seq<u64>, dests: Seq<usize>, upto: int)
    ensures
        credited(cells, dests, upto).len() == cells.len(),
    decreases upto,
{
    if upto > 0 {
        lemma_credited_len(cells, dests, upto - 1);
    }
}

/// What stays in range over a run of tracts stays in range over every
/// shorter run.
pub proof fn lemma_tracts_in_range_prefix(
    region: RegionState,
    acc: Delivery,
    tract_ids: Seq<usize>,
    neuron: usize,
    upto: int,
    shorter: int,
)
    requires
        shorter <= upto,
        region.tracts_in_range(acc, tract_ids, neuron, upto),
    ensures
        region.tracts_in_range(acc, tract_ids, neuron, shorter),
    decreases upto,
{
    if shorter < upto && upto > 0 {
        lemma_tracts_in_range_prefix(region, acc, tract_ids, neuron, upto - 1, shorter);
    }
}

/// What stays in range over a run of events stays in range over every
/// shorter run.
pub proof fn lemma_events_in_range_prefix(
    region: RegionState,
    events: Seq<(usize, usize)>,
    upto: int,
    shorter: int,
)
    requires
        shorter <= upto,
        region.events_in_range(events, upto),
    ensures
        region.events_in_range(events, shorter),
    decreases upto,
{
    if shorter < upto && upto > 0 {
        lemma_events_in_range_prefix(region, events, upto - 1, shorter);
    }
}

/// Whether a frame captured so far has the size that the tracts into
/// output layers agree on.
pub open spec fn frame_is_common(region: RegionState, frame: Option<OutputFrame>) -> bool {
    frame.is_some() ==> forall|t: int|
        0 <= t < region.tracts.len() && #[trigger] region.ends_in_output(t) ==> region.frame_cells(
            t,
        ) == frame.unwrap().cells.len()
}

/// Where the frames agree, one neuron's events along a run of tracts stay
/// in range, and the frame keeps the common size.
pub proof fn lemma_agreeing_tracts_in_range(
    region: RegionState,
    acc: Delivery,
    tract_ids: Seq<usize>,
    neuron: usize,
    upto: int,
)
    requires
        region.frames_agree(),
        forall|t: int| 0 <= t < region.tracts.len() ==> (#[trigger] region.tracts[t]).indices_in_frame(),
        forall|j: int| 0 <= j < tract_ids.len() ==> tract_ids[j] < region.tracts.len(),
        upto <= tract_ids.len(),
        frame_is_common(region, acc.frame),
    ensures
        region.tracts_in_range(acc, tract_ids, neuron, upto),
        frame_is_common(region, region.through_tracts(acc, tract_ids, neuron, upto).frame),
    decreases upto,
{
    if upto > 0 {
        lemma_agreeing_tracts_in_range(region, acc, tract_ids, neuron, upto - 1);
        let prev = region.through_tracts(acc, tract_ids, neuron, upto - 1);
        let t = tract_ids[upto - 1] as int;
        let tract = region.tracts[t];
        assert(tract.indices_in_frame());
        if tract.reverse.contains_key(neuron) && region.ends_in_output(t) {
            let dests = tract.reverse[neuron];
            let size = match prev.frame {
                Some(frame) => frame.cells.len() as int,
                None => tract.out_height * tract.out_width,
            };
            assert(size == region.frame_cells(t));
            assert forall|i: int| 0 <= i < dests.len() implies dests[i] < size by {
                assert(tract.reverse[neuron][i] < tract.out_height * tract.out_width);
            }
            let start = match prev.frame {
                Some(frame) => frame.cells,
                None => blank_cells(tract.out_height * tract.out_width),
            };
            lemma_credited_len(start, dests, dests.len() as int);
            let next = through_tract(prev, tract, true, neuron);
            assert(next.frame.unwrap().cells.len() == size);
            assert forall|u: int|
                0 <= u < region.tracts.len() && #[trigger] region.ends_in_output(
                    u,
                ) implies region.frame_cells(u) == size by {
                assert(region.ends_in_output(t));
            }
        }
    }
}

/// Where the frames agree, a run of events stays in range, and the frame
/// keeps the common size.
pub proof fn lemma_agreeing_events_in_range(
    region: RegionState,
    events: Seq<(usize, usize)>,
    upto: int,
)
    requires
        region.wired(),
        region.frames_agree(),
        forall|t: int| 0 <= t < region.tracts.len() ==> (#[trigger] region.tracts[t]).indices_in_frame(),
    ensures
        region.events_in_range(events, upto),
        frame_is_common(region, region.through_events(events, upto).frame),
    decreases upto,
{
    if upto > 0 {
        lemma_agreeing_events_in_range(region, events, upto - 1);
        let prev = region.through_events(events, upto - 1);
        let event = events[upto - 1];
        if region.src_to_tracts.contains_key(event.0) {
            let tract_ids = region.src_to_tracts[event.0];
            assert forall|j: int| 0 <= j < tract_ids.len() implies tract_ids[j]
                < region.tracts.len() by {
                assert(region.src_to_tracts[event.0][j] < region.tracts.len());
            }
            lemma_agreeing_tracts_in_range(
                region,
                prev,
                tract_ids,
                event.1,
                tract_ids.len() as int,
            );
        }
    }
}

/// Tracts of one frame size never leave the frame: where every tract that
/// ends in an output layer has the same number of cells, propagation
/// credits cells of the captured frame only, whatever fires.
pub proof fn lemma_agreeing_frames_stay_in_range(region: RegionState, events: Seq<(usize, usize)>)
    requires
        region.wired(),
        region.frames_agree(),
        forall|t: int| 0 <= t < region.tracts.len() ==> (#[trigger] region.tracts[t]).indices_in_frame(),
    ensures
        region.propagates_in_range(events),
{
    lemma_agreeing_events_in_range(region, events, events.len() as int);
}

/// Whether the frames agree depends on the tracts and on the kinds of
/// the layers they end in: a region with the same tracts, whose layers
/// kept their kinds, agrees as well, whatever was appended.
pub proof fn lemma_frames_still_agree(before: RegionState, after: RegionState)
    requires
        before.wired(),
        before.frames_agree(),
        after.tracts == before.tracts,
        after.layers.len() >= before.layers.len(),
        forall|i: int|
            0 <= i < before.layers.len() ==> (#[trigger] after.layers[i]).kind
                == before.layers[i].kind,
    ensures
        after.frames_agree(),
{
    assert forall|t: int, u: int|
        0 <= t < after.tracts.len() && 0 <= u < after.tracts.len() && #[trigger] after.ends_in_output(
            t,
        ) && #[trigger] after.ends_in_output(u) implies after.frame_cells(t) == after.frame_cells(
        u,
    ) by {
        assert(before.tracts[t].dest_layer_index < before.layers.len());
        assert(before.tracts[u].dest_layer_index < before.layers.len());
        assert(before.ends_in_output(t));
        assert(before.ends_in_output(u));
    }
}

/// Injection touches neurons only: the tracts, the tract lists and the
/// kind of every layer are as before.
pub proof fn lemma_injection_keeps_wiring(region: RegionState, height: usize, width: usize)
    ensures
        region.injected(height, width).tracts == region.tracts,
        region.injected(height, width).src_to_tracts == region.src_to_tracts,
        region.injected(height, width).layers.len() == region.layers.len(),
        forall|i: int|
            0 <= i < region.layers.len() ==> (#[trigger] region.injected(
                height,
                width,
            ).layers[i]).kind == region.layers[i].kind,
{
    if region.injects(height, width) {
        let at = region.input_layer();
        assert(region.is_input_layer(at));
    }
}

} // verus!
