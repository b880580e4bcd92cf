//! The region: owner of layers, tracts and wiring, and driver of the
//! two-phase tick.

use crate::bus::LateralBus;
use crate::fixed::{lemma_product_fits, sat_u64, sat_usize, to_fixed, whole, UNIT};
use crate::ids::LayerId;
use crate::index_map::{index_map_contents, list_at, IndexMap};
use crate::layer::{Layer, LayerKind, LayerState};
use crate::mesh::MeshRule;
use crate::neuron::NeuronKind;
use crate::region_model::{
    blank_cells, credited, denominator, lemma_agreeing_frames_stay_in_range,
    lemma_events_in_range_prefix, lemma_frames_still_agree, lemma_injection_keeps_wiring,
    lemma_tick_adds_at_most_one_layer, lemma_tick_keeps_layers, lemma_tracts_in_range_prefix,
    ratio_reaches, through_tract, tract_in_range, Delivery, OutputFrame, RegionState,
};
use crate::rng::DeterministicRng;
use crate::slot_config::SlotConfig;
use crate::slot_engine::SlotDomain;
use crate::spatial_metrics::{compute_spatial_metrics_from_frame, SpatialMetrics};
use crate::tract::{Tract, TractState};
use crate::window::{lemma_cell_index_bound, lemma_cell_index_split, Padding};
use vstd::prelude::*;

verus! {

/// When a region grows a layer. The two thresholds are fixed-point
/// numbers; without an average threshold that trigger never holds.
#[derive(Copy, Clone, Debug, PartialEq, Eq, Structural)]
pub struct GrowthPolicy {
    pub avg_slots_threshold: Option<u64>,
    pub percent_at_cap_fallback_threshold: u64,
    pub max_layers: usize,
    pub layer_cooldown_ticks: u64,
}

impl GrowthPolicy {
    /// The policy of a new region: no average trigger, a saturation
    /// threshold of two (which no share reaches), no cap on layers, and a
    /// cooldown of 500 ticks.
    pub open spec fn default_spec() -> GrowthPolicy {
        GrowthPolicy {
            avg_slots_threshold: None,
            percent_at_cap_fallback_threshold: 2_000_000_000,
            max_layers: usize::MAX,
            layer_cooldown_ticks: 500,
        }
    }
}

impl Default for GrowthPolicy {
    fn default() -> (policy: Self)
        ensures
            policy == GrowthPolicy::default_spec(),
    {
        Self {
            avg_slots_threshold: None,
            percent_at_cap_fallback_threshold: 2_000_000_000,
            max_layers: usize::MAX,
            layer_cooldown_ticks: 500,
        }
    }
}

/// What one tick reports.
#[derive(Copy, Clone, Debug, PartialEq, Eq, Structural)]
pub struct RegionMetrics {
    pub delivered_events: u64,
    pub total_slots: usize,
    pub total_synapses: usize,
    pub spatial: Option<SpatialMetrics>,
}

impl Default for RegionMetrics {
    fn default() -> (metrics: Self)
        ensures
            metrics == (RegionMetrics {
                delivered_events: 0,
                total_slots: 0,
                total_synapses: 0,
                spatial: None,
            }),
    {
        Self { delivered_events: 0, total_slots: 0, total_synapses: 0, spatial: None }
    }
}

#[derive(Debug)]
pub struct Region {
    pub layers: Vec<Layer>,
    pub mesh_rules: Vec<MeshRule>,
    pub tracts: Vec<Tract>,
    pub rng: DeterministicRng,
    pub growth_policy: GrowthPolicy,
    pub last_layer_growth_step: u64,
    pub spatial_metrics_enabled: bool,
    /// For each source layer index, the tracts that leave it.
    pub src_to_tracts: IndexMap,
    /// The output frame that the last propagation captured: `(cells, height, width)`.
    pub last_output_frame: Option<(Vec<u64>, usize, usize)>,
}

/// For each layer of a list, what it holds.
pub open spec fn layer_states(layers: Seq<Layer>) -> Seq<LayerState> {
    Seq::new(layers.len(), |i: int| layers[i]@)
}

/// For each tract of a list, what it holds.
pub open spec fn tract_states(tracts: Seq<Tract>) -> Seq<TractState> {
    Seq::new(tracts.len(), |t: int| tracts[t]@)
}

/// A captured frame as plain values.
pub open spec fn frame_state(frame: Option<(Vec<u64>, usize, usize)>) -> Option<OutputFrame> {
    match frame {
        Some((cells, height, width)) => Some(OutputFrame { cells: cells@, height, width }),
        None => None,
    }
}

impl View for Region {
    type V = RegionState;

    open spec fn view(&self) -> RegionState {
        RegionState {
            layers: layer_states(self.layers@),
            mesh_rules: self.mesh_rules@,
            tracts: tract_states(self.tracts@),
            rng_state: self.rng.state(),
            growth_policy: self.growth_policy,
            last_layer_growth_step: self.last_layer_growth_step,
            spatial_metrics_enabled: self.spatial_metrics_enabled,
            src_to_tracts: index_map_contents(self.src_to_tracts),
            last_output_frame: frame_state(self.last_output_frame),
        }
    }
}

impl Region {
    /// The invariant of a region: every layer and every tract is well
    /// formed, and the wiring is sound.
    pub open spec fn wf(&self) -> bool {
        &&& forall|i: int| 0 <= i < self.layers@.len() ==> (#[trigger] self.layers@[i]).wf()
        &&& forall|t: int| 0 <= t < self.tracts@.len() ==> (#[trigger] self.tracts@[t]).wf()
        &&& self@.wired()
    }

    /// A region without layers, seeded for its random stream.
    pub fn new(seed: u64) -> (region: Self)
        ensures
            region.wf(),
            region@ == RegionState::fresh(seed),
    {
        let region = Self {
            layers: Vec::new(),
            mesh_rules: Vec::new(),
            tracts: Vec::new(),
            rng: DeterministicRng::new(seed),
            growth_policy: GrowthPolicy::default(),
            last_layer_growth_step: 0,
            spatial_metrics_enabled: true,
            src_to_tracts: IndexMap::new(),
            last_output_frame: None,
        };
        assert(region@.layers =~= Seq::empty());
        assert(region@.tracts =~= Seq::empty());
        assert(region@.mesh_rules =~= Seq::empty());
        region
    }

    /// Appends a layer and returns its index.
    fn push_layer(&mut self, layer: Layer) -> (index: usize)
        requires
            old(self).wf(),
            layer.wf(),
        ensures
            final(self).wf(),
            index == old(self)@.layers.len(),
            final(self).layers@.len() == old(self).layers@.len() + 1,
            final(self)@ == (RegionState { layers: old(self)@.layers.push(layer@), ..old(self)@ }),
            old(self)@.frames_agree() ==> final(self)@.frames_agree(),
    {
        self.layers.push(layer);
        proof {
            assert(self@.layers =~= old(self)@.layers.push(layer@));
            assert(self@.tracts =~= old(self)@.tracts);
            assert(self@.wired());
            if old(self)@.frames_agree() {
                lemma_frames_still_agree(old(self)@, self@);
            }
        }
        self.layers.len() - 1
    }

    /// Appends a layer that is no grid and returns its index.
    pub fn add_generic_layer(&mut self, decay_factor: u64, domain: SlotDomain) -> (index: usize)
        requires
            old(self).wf(),
        ensures
            final(self).wf(),
            index == old(self)@.layers.len(),
            final(self).layers@.len() == old(self).layers@.len() + 1,
            final(self)@ == (RegionState {
                layers: old(self)@.layers.push(
                    LayerState {
                        id: LayerId(old(self)@.layers.len() as u32),
                        kind: LayerKind::Generic,
                        neurons: Seq::empty(),
                        bus: LateralBus::at_rest(decay_factor),
                        domain,
                        two_d_shape: None,
                    },
                ),
                ..old(self)@
            }),
            old(self)@.frames_agree() ==> final(self)@.frames_agree(),
    {
        let id = LayerId(#[verifier::truncate] (self.layers.len() as u32));
        let layer = Layer::new_generic(id, decay_factor, domain);
        self.push_layer(layer)
    }

    /// Appends an input grid of the given shape and returns its index.
    pub fn add_input_layer_2d(&mut self, height: usize, width: usize, decay_factor: u64) -> (index:
        usize)
        requires
            old(self).wf(),
            height * width <= usize::MAX,
        ensures
            final(self).wf(),
            index == old(self)@.layers.len(),
            final(self).layers@.len() == old(self).layers@.len() + 1,
            final(self)@ == (RegionState {
                layers: old(self)@.layers.push(
                    LayerState {
                        id: LayerId(old(self)@.layers.len() as u32),
                        kind: LayerKind::Input2D,
                        neurons: Seq::empty(),
                        bus: LateralBus::at_rest(decay_factor),
                        domain: SlotDomain::TwoD,
                        two_d_shape: Some((height, width)),
                    },
                ),
                ..old(self)@
            }),
            old(self)@.frames_agree() ==> final(self)@.frames_agree(),
    {
        let id = LayerId(#[verifier::truncate] (self.layers.len() as u32));
        let layer = Layer::new_2d(id, LayerKind::Input2D, decay_factor, height, width);
        self.push_layer(layer)
    }

    /// Appends an output grid of the given shape and returns its index.
    pub fn add_output_layer_2d(&mut self, height: usize, width: usize, decay_factor: u64) -> (index:
        usize)
        requires
            old(self).wf(),
            height * width <= usize::MAX,
        ensures
            final(self).wf(),
            index == old(self)@.layers.len(),
            final(self).layers@.len() == old(self).layers@.len() + 1,
            final(self)@ == (RegionState {
                layers: old(self)@.layers.push(
                    LayerState {
                        id: LayerId(old(self)@.layers.len() as u32),
                        kind: LayerKind::Output2D,
                        neurons: Seq::empty(),
                        bus: LateralBus::at_rest(decay_factor),
                        domain: SlotDomain::TwoD,
                        two_d_shape: Some((height, width)),
                    },
                ),
                ..old(self)@
            }),
            old(self)@.frames_agree() ==> final(self)@.frames_agree(),
    {
        let id = LayerId(#[verifier::truncate] (self.layers.len() as u32));
        let layer = Layer::new_2d(id, LayerKind::Output2D, decay_factor, height, width);
        self.push_layer(layer)
    }

    /// Records a mesh rule from layer `src` to layer `dst`.
    pub fn connect_layers(&mut self, src: usize, dst: usize, probability: u64, feedback: bool)
        requires
            old(self).wf(),
            src < old(self)@.layers.len(),
            dst < old(self)@.layers.len(),
        ensures
            final(self).wf(),
            final(self)@ == old(self)@.connected(src as int, dst as int, probability, feedback),
            old(self)@.frames_agree() ==> final(self)@.frames_agree(),
    {
        let rule = MeshRule {
            src: self.layers[src].id,
            dst: self.layers[dst].id,
            probability,
            feedback,
        };
        self.mesh_rules.push(rule);
        let _ = self.src_to_tracts.entry_or_default(src);
        proof {
            assert(self@.layers =~= old(self)@.layers);
            assert(self@.tracts =~= old(self)@.tracts);
            assert(self@.wired());
            if old(self)@.frames_agree() {
                lemma_frames_still_agree(old(self)@, self@);
            }
        }
    }

    /// Connects layer `src` to layer `dst` through windows: builds the
    /// tract, registers it for propagation, and returns the number of
    /// distinct source cells that its windows cover.
    pub fn connect_layers_windowed(
        &mut self,
        src: usize,
        dst: usize,
        kernel_height: usize,
        kernel_width: usize,
        stride_height: usize,
        stride_width: usize,
        padding: Padding,
    ) -> (unique_sources: usize)
        requires
            old(self).wf(),
            src < old(self)@.layers.len(),
            dst < old(self)@.layers.len(),
            old(self)@.layers[src as int].two_d_shape.is_some(),
            old(self)@.window_geometry(
                src as int,
                kernel_height,
                kernel_width,
                stride_height,
                stride_width,
                padding,
            ).fits(),
        ensures
            final(self).wf(),
            final(self)@.tracts.len() == old(self)@.tracts.len() + 1,
            final(self)@ == old(self)@.with_tract(src, final(self)@.tracts.last()),
            final(self)@.tracts.last().is_tract_of(
                src,
                dst,
                old(self)@.window_geometry(
                    src as int,
                    kernel_height,
                    kernel_width,
                    stride_height,
                    stride_width,
                    padding,
                ),
            ),
            unique_sources == final(self)@.tracts.last().unique_source_count,
            // a tract whose frame has the size of the frames before it keeps them agreeing
            old(self)@.frames_agree() && old(self)@.accepts_tract(
                dst as int,
                old(self)@.window_geometry(
                    src as int,
                    kernel_height,
                    kernel_width,
                    stride_height,
                    stride_width,
                    padding,
                ).dest_count(),
            ) ==> final(self)@.frames_agree(),
    {
        let (source_height, source_width) = match self.layers[src].two_d_shape {
            Some(shape) => shape,
            None => (0, 0),
        };
        let tract = Tract::new(
            src,
            dst,
            source_height,
            source_width,
            kernel_height,
            kernel_width,
            stride_height,
            stride_width,
            padding,
        );
        let unique_sources = tract.unique_source_count();
        let tract_index = self.tracts.len();
        let ghost added = tract@;
        self.tracts.push(tract);
        self.src_to_tracts.entry_or_default(src).push(tract_index);
        proof {
            assert(self@.layers =~= old(self)@.layers);
            assert(self@.tracts =~= old(self)@.tracts.push(added));
            assert(self@.tracts.last() == added);
            assert forall|t: int| 0 <= t < old(self)@.tracts.len() implies self@.ends_in_output(t)
                == old(self)@.ends_in_output(t) && self@.frame_cells(t) == old(self)@.frame_cells(
                t,
            ) by {}
            assert forall|k: usize, j: int|
                self@.src_to_tracts.contains_key(k) && 0 <= j < self@.src_to_tracts[k].len()
                    implies #[trigger] self@.src_to_tracts[k][j] < self@.tracts.len() by {
                if k == src {
                    if j < list_at(old(self)@.src_to_tracts, src).len() {
                        assert(old(self)@.src_to_tracts[k][j] < old(self)@.tracts.len());
                    }
                } else {
                    assert(old(self)@.src_to_tracts[k][j] < old(self)@.tracts.len());
                }
            }
            assert(self@.wired());
            let cells = old(self)@.window_geometry(
                src as int,
                kernel_height,
                kernel_width,
                stride_height,
                stride_width,
                padding,
            ).dest_count();
            if old(self)@.frames_agree() && old(self)@.accepts_tract(dst as int, cells) {
                assert forall|t: int, u: int|
                    0 <= t < self@.tracts.len() && 0 <= u < self@.tracts.len()
                        && #[trigger] self@.ends_in_output(t) && #[trigger] self@.ends_in_output(
                        u,
                    ) implies self@.frame_cells(t) == self@.frame_cells(u) by {
                    let n = old(self)@.tracts.len() as int;
                    if t < n {
                        assert(old(self)@.ends_in_output(t));
                    }
                    if u < n {
                        assert(old(self)@.ends_in_output(u));
                    }
                }
            }
        }
        unique_sources
    }

    /// Appends `neuron_count` excitatory neurons with the given options to
    /// the layer at `layer_index`.
    pub fn seed_simple_layer(&mut self, layer_index: usize, neuron_count: usize, cfg: SlotConfig)
        requires
            old(self).wf(),
            layer_index < old(self)@.layers.len(),
        ensures
            final(self).wf(),
            final(self)@ == old(self)@.with_seeded_layer(
                layer_index as int,
                neuron_count as int,
                NeuronKind::Excitatory,
                cfg,
            ),
            old(self)@.frames_agree() ==> final(self)@.frames_agree(),
    {
        self.seed_layer(layer_index, neuron_count, NeuronKind::Excitatory, cfg);
        proof {
            if old(self)@.frames_agree() {
                lemma_frames_still_agree(old(self)@, self@);
            }
        }
    }

    /// Appends `count` neurons of one kind and one set of options to the
    /// layer at `layer_index`.
    fn seed_layer(&mut self, layer_index: usize, count: usize, kind: NeuronKind, cfg: SlotConfig)
        requires
            old(self).wf(),
            layer_index < old(self)@.layers.len(),
        ensures
            final(self).wf(),
            final(self).layers@.len() == old(self).layers@.len(),
            final(self)@ == old(self)@.with_seeded_layer(
                layer_index as int,
                count as int,
                kind,
                cfg,
            ),
    {
        let mut done: usize = 0;
        proof {
            let start = old(self)@.layers[layer_index as int];
            assert(start.seeded(0, kind, cfg).neurons =~= start.neurons);
            assert(self@.layers =~= old(self)@.with_seeded_layer(
                layer_index as int,
                0,
                kind,
                cfg,
            ).layers);
        }
        while done < count
            invariant
                done <= count,
                self.wf(),
                layer_index < old(self)@.layers.len(),
                self.layers@.len() == old(self).layers@.len(),
                self@ == old(self)@.with_seeded_layer(layer_index as int, done as int, kind, cfg),
            decreases count - done,
        {
            let ghost before = *self;
            let _ = self.layers[layer_index].push_neuron(kind, cfg);
            proof {
                let start = old(self)@.layers[layer_index as int];
                assert(start.seeded(done as int, kind, cfg).with_neuron(kind, cfg).neurons
                    =~= start.seeded(done + 1, kind, cfg).neurons);
                assert forall|i: int| 0 <= i < self.layers@.len() implies (
                #[trigger] self.layers@[i]).wf() by {
                    if i != layer_index {
                        assert(self.layers@[i] == before.layers@[i]);
                    }
                }
                assert(self@.layers =~= old(self)@.with_seeded_layer(
                    layer_index as int,
                    done + 1,
                    kind,
                    cfg,
                ).layers) by {
                    assert forall|i: int| 0 <= i < self@.layers.len() implies self@.layers[i]
                        == old(self)@.with_seeded_layer(
                        layer_index as int,
                        done + 1,
                        kind,
                        cfg,
                    ).layers[i] by {
                        assert(self@.layers[i] == self.layers@[i]@);
                        assert(before@.layers[i] == before.layers@[i]@);
                        if i != layer_index {
                            assert(self.layers@[i] == before.layers@[i]);
                        } else {
                            assert(before@.layers[i] == start.seeded(done as int, kind, cfg));
                            assert(start.seeded(done as int, kind, cfg).with_neuron(kind, cfg)
                                == start.seeded(done + 1, kind, cfg));
                        }
                    }
                }
                assert(self@.tracts =~= before@.tracts);
                lemma_wiring_ignores_neurons(before@, self@);
            }
            done = done + 1;
        }
    }
}

/// The wiring invariant speaks of layer kinds and tracts only: a region
/// that differs from a wired one in the neurons and buses of its layers
/// alone is wired too.
pub proof fn lemma_wiring_ignores_neurons(before: RegionState, after: RegionState)
    requires
        before.wired(),
        after.layers.len() == before.layers.len(),
        forall|i: int|
            0 <= i < before.layers.len() ==> (#[trigger] after.layers[i]).kind
                == before.layers[i].kind,
        after.tracts == before.tracts,
        after.src_to_tracts == before.src_to_tracts,
        after.last_output_frame == before.last_output_frame,
    ensures
        after.wired(),
{
}

/// Observing the next neuron extends the observed prefix by one.
pub proof fn lemma_observe_next(prepared: LayerState, width: int, upto: int)
    requires
        0 <= upto < prepared.neurons.len(),
    ensures
        prepared.observed_upto(width, upto + 1).neurons == prepared.observed_upto(
            width,
            upto,
        ).neurons.update(
            upto,
            prepared.neurons[upto].observed_two_d(
                whole((upto / width) as usize),
                whole((upto % width) as usize),
            ),
        ),
        prepared.observed_upto(width, upto).neurons[upto] == prepared.neurons[upto],
{
    assert(prepared.observed_upto(width, upto + 1).neurons =~= prepared.observed_upto(
        width,
        upto,
    ).neurons.update(
        upto,
        prepared.neurons[upto].observed_two_d(
            whole((upto / width) as usize),
            whole((upto % width) as usize),
        ),
    ));
}

/// Before any neuron has observed, the layer is as it was prepared.
pub proof fn lemma_observe_none(prepared: LayerState, width: int)
    ensures
        prepared.observed_upto(width, 0) == prepared,
{
    assert(prepared.observed_upto(width, 0).neurons =~= prepared.neurons);
}

impl Region {
    /// Finds the last layer of kind `Input2D`.
    fn find_input_layer(&self) -> (found: Option<usize>)
        ensures
            found.is_some() == self@.has_input_layer(),
            found.is_some() ==> found.unwrap() == self@.input_layer() && self@.is_input_layer(
                found.unwrap() as int,
            ),
    {
        let mut found: Option<usize> = None;
        let mut index: usize = 0;
        while index < self.layers.len()
            invariant
                index <= self.layers@.len(),
                found.is_some() ==> found.unwrap() < index && self@.layers[found.unwrap() as int].kind
                    == LayerKind::Input2D,
                forall|j: int|
                    0 <= j < index && (found.is_none() || j > found.unwrap()) ==> (
                    #[trigger] self@.layers[j]).kind != LayerKind::Input2D,
            decreases self.layers.len() - index,
        {
            assert(self@.layers[index as int] == self.layers@[index as int]@);
            match self.layers[index].kind {
                LayerKind::Input2D => {
                    found = Some(index);
                },
                _ => {},
            }
            index = index + 1;
        }
        proof {
            if found.is_some() {
                let at = found.unwrap() as int;
                assert(self@.is_input_layer(at));
                let chosen = self@.input_layer();
                assert(self@.is_input_layer(chosen));
                if chosen < at {
                    assert(self@.layers[at].kind != LayerKind::Input2D);
                }
                if chosen > at {
                    assert(self@.layers[chosen].kind != LayerKind::Input2D);
                }
            } else {
                if self@.has_input_layer() {
                    let chosen = self@.input_layer();
                    assert(self@.is_input_layer(chosen));
                    assert(self@.layers[chosen].kind != LayerKind::Input2D);
                }
            }
        }
        found
    }

    /// Phase A: injects a frame into the last input grid and returns the
    /// neurons that fired, in row-major pixel order. Each pixel's neuron
    /// observes the pixel's position; the pixel's value plays no part.
    fn phase_a_input_2d(&mut self, _image: &[u64], height: usize, width: usize) -> (fired: Vec<
        (usize, usize),
    >)
        requires
            old(self).wf(),
        ensures
            final(self).wf(),
            final(self)@ == old(self)@.injected(height, width),
            fired@ == old(self)@.fired(height, width),
    {
        let mut fired: Vec<(usize, usize)> = Vec::new();
        let layer_index = match self.find_input_layer() {
            Some(index) => index,
            None => {
                return fired;
            },
        };
        assert(self@.layers[layer_index as int] == self.layers@[layer_index as int]@);
        let (layer_h, layer_w) = match self.layers[layer_index].two_d_shape {
            Some(shape) => shape,
            None => {
                return fired;
            },
        };
        if layer_h != height || layer_w != width {
            return fired;
        }
        assert(old(self)@.injects(height, width));
        let cells: usize = height * width;
        let present: usize = self.layers[layer_index].neurons.len();
        assert(present == old(self)@.layers[layer_index as int].neurons.len());
        let missing: usize = if present < cells {
            cells - present
        } else if present > cells {
            cells
        } else {
            0
        };
        self.seed_layer(layer_index, missing, NeuronKind::Excitatory, SlotConfig::default());
        let ghost prepared = old(self)@.layers[layer_index as int].prepared(cells as int);
        let ghost base = self@;
        proof {
            assert(base.layers[layer_index as int] == prepared);
            assert(base.layers =~= old(self)@.layers.update(layer_index as int, prepared));
            lemma_observe_none(prepared, width as int);
            assert(base.layers =~= base.layers.update(
                layer_index as int,
                prepared.observed_upto(width as int, 0),
            ));
            assert(0 * width == 0) by (nonlinear_arith);
        }
        let mut neuron_index: usize = 0;
        let mut row: usize = 0;
        while row < height
            invariant
                row <= height,
                cells == height * width,
                neuron_index == row * width,
                layer_index < base.layers.len(),
                prepared == base.layers[layer_index as int],
                prepared.neurons.len() >= cells,
                self.wf(),
                self.layers@.len() == base.layers.len(),
                self@ == (RegionState {
                    layers: base.layers.update(
                        layer_index as int,
                        prepared.observed_upto(width as int, neuron_index as int),
                    ),
                    ..base
                }),
                fired@ == prepared.fired_upto(layer_index, width as int, neuron_index as int),
            decreases height - row,
        {
            let mut col: usize = 0;
            while col < width
                invariant
                    row < height,
                    col <= width,
                    cells == height * width,
                    neuron_index == row * width + col,
                    layer_index < base.layers.len(),
                    prepared == base.layers[layer_index as int],
                    prepared.neurons.len() >= cells,
                    self.wf(),
                    self.layers@.len() == base.layers.len(),
                    self@ == (RegionState {
                        layers: base.layers.update(
                            layer_index as int,
                            prepared.observed_upto(width as int, neuron_index as int),
                        ),
                        ..base
                    }),
                    fired@ == prepared.fired_upto(layer_index, width as int, neuron_index as int),
                decreases width - col,
            {
                proof {
                    lemma_cell_index_bound(
                        row as int,
                        col as int,
                        height as int,
                        width as int,
                    );
                    lemma_cell_index_split(row as int, col as int, width as int);
                    lemma_observe_next(prepared, width as int, neuron_index as int);
                }
                let ghost before = *self;
                let ghost k = neuron_index as int;
                assert(before@.layers[layer_index as int] == before.layers@[layer_index as int]@);
                assert(before@.layers[layer_index as int] == prepared.observed_upto(
                    width as int,
                    k,
                ));
                assert(before.layers@[layer_index as int]@.neurons.len()
                    == before.layers@[layer_index as int].neurons@.len());
                assert(k < before.layers@[layer_index as int].neurons@.len());
                assert(before.layers@[layer_index as int].wf());
                assert(before.layers@[layer_index as int]@.neurons[k]
                    == before.layers@[layer_index as int].neurons@[k]@);
                assert(before.layers@[layer_index as int].neurons@[k].wf());
                let fixed_row = to_fixed(row);
                let fixed_col = to_fixed(col);
                let slot_id = self.layers[layer_index].neurons[neuron_index].observe_two_d(
                    fixed_row,
                    fixed_col,
                );
                if !slot_id.is_fallback() {
                    fired.push((layer_index, neuron_index));
                }
                proof {
                    let target = prepared.observed_upto(width as int, k + 1);
                    let now = self.layers@[layer_index as int];
                    let was = before.layers@[layer_index as int];
                    assert(now@.neurons =~= target.neurons) by {
                        assert forall|i: int| 0 <= i < target.neurons.len() implies now@.neurons[i]
                            == target.neurons[i] by {
                            assert(now@.neurons[i] == now.neurons@[i]@);
                            assert(was@.neurons[i] == was.neurons@[i]@);
                            if i != k {
                                assert(now.neurons@[i] == was.neurons@[i]);
                            }
                        }
                    }
                    assert(now@ == target);
                    assert(now.wf()) by {
                        assert forall|i: int| 0 <= i < now.neurons@.len() implies (
                        #[trigger] now.neurons@[i]).wf() by {
                            if i != k {
                                assert(now.neurons@[i] == was.neurons@[i]);
                            }
                        }
                    }
                    assert forall|i: int| 0 <= i < self.layers@.len() implies (
                    #[trigger] self.layers@[i]).wf() by {
                        if i != layer_index {
                            assert(self.layers@[i] == before.layers@[i]);
                        }
                    }
                    assert(self@.layers =~= base.layers.update(layer_index as int, target)) by {
                        assert forall|i: int| 0 <= i < self@.layers.len() implies self@.layers[i]
                            == base.layers.update(layer_index as int, target)[i] by {
                            assert(self@.layers[i] == self.layers@[i]@);
                            assert(before@.layers[i] == before.layers@[i]@);
                            if i != layer_index {
                                assert(self.layers@[i] == before.layers@[i]);
                            }
                        }
                    }
                    assert(self@.tracts =~= before@.tracts);
                    lemma_wiring_ignores_neurons(before@, self@);
                }
                neuron_index = neuron_index + 1;
                col = col + 1;
            }
            proof {
                assert(row * width + width == (row + 1) * width) by (nonlinear_arith);
            }
            row = row + 1;
        }
        proof {
            assert(neuron_index == cells) by (nonlinear_arith)
                requires
                    neuron_index == row * width,
                    row == height,
                    cells == height * width,
            ;
            assert(self@.layers =~= old(self)@.layers.update(
                layer_index as int,
                prepared.observed_upto(width as int, cells as int),
            ));
        }
        fired
    }
}

/// A well-formed tract lists cells of its own frame only.
pub proof fn lemma_tract_indices_in_frame(tract: Tract)
    requires
        tract.wf(),
    ensures
        tract@.indices_in_frame(),
{
    let state = tract@;
    assert forall|s: usize, i: int|
        state.reverse.contains_key(s) && 0 <= i < state.reverse[s].len() implies 
        #[trigger] state.reverse[s][i] < state.out_height * state.out_width by {
        let d = state.reverse[s][i];
        assert(list_at(tract.mapping.reverse(), s).contains(d));
    }
}

/// The frame that a list of cells and its dimensions stand for, if any.
spec fn frame_of(cells: Seq<u64>, dims: Option<(usize, usize)>) -> Option<OutputFrame> {
    match dims {
        Some((height, width)) => Some(OutputFrame { cells, height, width }),
        None => None,
    }
}

/// Whether a captured frame holds one count per cell.
spec fn frame_fits(frame: Option<OutputFrame>) -> bool {
    frame.is_some() ==> frame.unwrap().cells.len() == frame.unwrap().height * frame.unwrap().width
}

/// A frame of `count` cells that nothing has reached.
fn blank_frame(count: usize) -> (cells: Vec<u64>)
    ensures
        cells@ == blank_cells(count as int),
{
    let mut cells: Vec<u64> = Vec::new();
    let mut at: usize = 0;
    while at < count
        invariant
            at <= count,
            cells@ == blank_cells(at as int),
        decreases count - at,
    {
        cells.push(0);
        assert(cells@ =~= blank_cells(at + 1));
        at = at + 1;
    }
    cells
}

/// Credits one event to the cell of each destination.
fn credit_frame(cells: &mut Vec<u64>, dests: &Vec<usize>)
    requires
        forall|i: int| 0 <= i < dests@.len() ==> dests@[i] < old(cells)@.len(),
    ensures
        final(cells)@ == credited(old(cells)@, dests@, dests@.len() as int),
        final(cells)@.len() == old(cells)@.len(),
{
    let mut at: usize = 0;
    while at < dests.len()
        invariant
            at <= dests@.len(),
            cells@.len() == old(cells)@.len(),
            forall|i: int| 0 <= i < dests@.len() ==> dests@[i] < cells@.len(),
            cells@ == credited(old(cells)@, dests@, at as int),
        decreases dests.len() - at,
    {
        let dest: usize = dests[at];
        let count: u64 = cells[dest];
        cells[dest] = count.saturating_add(1);
        assert(cells@ =~= credited(old(cells)@, dests@, at + 1));
        at = at + 1;
    }
}

impl Region {
    /// Delivers what one fired neuron sends along one tract.
    fn deliver_along(
        &self,
        tract_index: usize,
        neuron: usize,
        delivered: &mut u64,
        cells: &mut Vec<u64>,
        dims: &mut Option<(usize, usize)>,
    )
        requires
            self.wf(),
            tract_index < self@.tracts.len(),
            frame_fits(frame_of(old(cells)@, *old(dims))),
            tract_in_range(
                Delivery { delivered: 0, frame: frame_of(old(cells)@, *old(dims)) },
                self@.tracts[tract_index as int],
                self@.ends_in_output(tract_index as int),
                neuron,
            ),
        ensures
            frame_fits(frame_of(final(cells)@, *final(dims))),
            frame_of(final(cells)@, *final(dims)) == through_tract(
                Delivery { delivered: 0, frame: frame_of(old(cells)@, *old(dims)) },
                self@.tracts[tract_index as int],
                self@.ends_in_output(tract_index as int),
                neuron,
            ).frame,
            *final(delivered) == sat_u64(
                *old(delivered) + through_tract(
                    Delivery { delivered: 0, frame: frame_of(old(cells)@, *old(dims)) },
                    self@.tracts[tract_index as int],
                    self@.ends_in_output(tract_index as int),
                    neuron,
                ).delivered,
            ),
    {
        let tract = &self.tracts[tract_index];
        let ghost state = self@.tracts[tract_index as int];
        assert(state == self.tracts@[tract_index as int]@);
        assert(tract.wf());
        if let Some(dest_indices) = tract.mapping.dests_of(neuron) {
            *delivered = delivered.saturating_add(dest_indices.len() as u64);
            let dst_layer_index = tract.dest_layer_index;
            assert(self@.layers[dst_layer_index as int] == self.layers@[dst_layer_index as int]@);
            let is_output = match self.layers[dst_layer_index].kind {
                LayerKind::Output2D => true,
                _ => false,
            };
            if is_output {
                let out_h = tract.mapping.out_height;
                let out_w = tract.mapping.out_width;
                if dims.is_none() {
                    *cells = blank_frame(out_h * out_w);
                    *dims = Some((out_h, out_w));
                }
                assert(self@.ends_in_output(tract_index as int));
                credit_frame(cells, dest_indices);
            }
        }
    }

    /// Phase B: propagates the fired neurons along the tracts that leave
    /// their layers, counts the delivered events, and captures the output
    /// frame.
    fn phase_b_propagate(&mut self, events: &Vec<(usize, usize)>) -> (delivered: u64)
        requires
            old(self).wf(),
            old(self)@.propagates_in_range(events@),
        ensures
            final(self).wf(),
            final(self)@ == old(self)@.propagated(events@),
            delivered == sat_u64(old(self)@.propagation(events@).delivered),
    {
        let mut delivered: u64 = 0;
        let mut cells: Vec<u64> = Vec::new();
        let mut dims: Option<(usize, usize)> = None;
        let ghost mut acc = Delivery { delivered: 0, frame: None };
        let mut at: usize = 0;
        while at < events.len()
            invariant
                at <= events@.len(),
                *self == *old(self),
                self.wf(),
                self@.propagates_in_range(events@),
                acc == self@.through_events(events@, at as int),
                acc.delivered >= 0,
                delivered == sat_u64(acc.delivered),
                acc.frame == frame_of(cells@, dims),
                frame_fits(acc.frame),
            decreases events.len() - at,
        {
            proof {
                lemma_events_in_range_prefix(self@, events@, events@.len() as int, at + 1);
            }
            let (src_layer_index, src_neuron_index) = events[at];
            if let Some(tract_indices) = self.src_to_tracts.get(src_layer_index) {
                let ghost start = acc;
                let ghost ids = tract_indices@;
                assert(ids == self@.src_to_tracts[src_layer_index]);
                let mut pos: usize = 0;
                while pos < tract_indices.len()
                    invariant
                        pos <= tract_indices@.len(),
                        ids == tract_indices@,
                        self.wf(),
                        self@.src_to_tracts.contains_key(src_layer_index),
                        ids == self@.src_to_tracts[src_layer_index],
                        self@.tracts_in_range(start, ids, src_neuron_index, ids.len() as int),
                        acc == self@.through_tracts(start, ids, src_neuron_index, pos as int),
                        acc.delivered >= 0,
                        delivered == sat_u64(acc.delivered),
                        acc.frame == frame_of(cells@, dims),
                        frame_fits(acc.frame),
                    decreases tract_indices.len() - pos,
                {
                    let tract_index: usize = tract_indices[pos];
                    assert(self@.src_to_tracts[src_layer_index][pos as int] < self@.tracts.len());
                    proof {
                        lemma_tracts_in_range_prefix(
                            self@,
                            start,
                            ids,
                            src_neuron_index,
                            ids.len() as int,
                            pos + 1,
                        );
                    }
                    let ghost prior = acc;
                    self.deliver_along(
                        tract_index,
                        src_neuron_index,
                        &mut delivered,
                        &mut cells,
                        &mut dims,
                    );
                    proof {
                        acc =
                        through_tract(
                            prior,
                            self@.tracts[tract_index as int],
                            self@.ends_in_output(tract_index as int),
                            src_neuron_index,
                        );
                    }
                    pos = pos + 1;
                }
            }
            at = at + 1;
        }
        self.last_output_frame = match dims {
            Some((height, width)) => Some((cells, height, width)),
            None => None,
        };
        proof {
            assert(self@.layers =~= old(self)@.layers);
            assert(self@.tracts =~= old(self)@.tracts);
            assert(self@.wired());
        }
        delivered
    }
}

/// Shares compare as fractions do: a share strictly above a second one
/// that is at least a third one is strictly above the third.
pub proof fn lemma_share_order(a: int, b: int, c: int, d: int, e: int, f: int)
    requires
        b > 0,
        d > 0,
        f > 0,
        0 <= a,
        0 <= c,
        0 <= e,
    ensures
        a * d > c * b && c * f >= e * d ==> a * f > e * b,
        a * d >= c * b && c * f > e * d ==> a * f > e * b,
        a * d >= c * b && c * f >= e * d ==> a * f >= e * b,
{
    if a * d > c * b && c * f >= e * d {
        assert(a * d * f > c * b * f) by (nonlinear_arith)
            requires
                a * d > c * b,
                f > 0,
        ;
        assert(c * f * b >= e * d * b) by (nonlinear_arith)
            requires
                c * f >= e * d,
                b > 0,
        ;
        assert(c * b * f == c * f * b) by (nonlinear_arith);
        assert(a * f > e * b) by (nonlinear_arith)
            requires
                a * d * f > e * d * b,
                d > 0,
        ;
    }
    if a * d >= c * b && c * f > e * d {
        assert(a * d * f >= c * b * f) by (nonlinear_arith)
            requires
                a * d >= c * b,
                f > 0,
        ;
        assert(c * f * b > e * d * b) by (nonlinear_arith)
            requires
                c * f > e * d,
                b > 0,
        ;
        assert(c * b * f == c * f * b) by (nonlinear_arith);
        assert(a * f > e * b) by (nonlinear_arith)
            requires
                a * d * f > e * d * b,
                d > 0,
        ;
    }
    if a * d >= c * b && c * f >= e * d {
        assert(a * d * f >= c * b * f) by (nonlinear_arith)
            requires
                a * d >= c * b,
                f > 0,
        ;
        assert(c * f * b >= e * d * b) by (nonlinear_arith)
            requires
                c * f >= e * d,
                b > 0,
        ;
        assert(c * b * f == c * f * b) by (nonlinear_arith);
        assert(a * f >= e * b) by (nonlinear_arith)
            requires
                a * d * f >= e * d * b,
                d > 0,
        ;
    }
}

/// A layer holds no more saturated neurons than neurons.
pub proof fn lemma_saturated_bound(layer: LayerState, upto: int)
    requires
        0 <= upto,
    ensures
        0 <= layer.saturated_upto(upto) <= upto,
        0 <= layer.slots_upto(upto),
    decreases upto,
{
    if upto > 0 {
        lemma_saturated_bound(layer, upto - 1);
    }
}

/// Counts the slots of a layer (held at the largest `usize`) and its
/// saturated neurons.
fn layer_counts(layer: &Layer) -> (counts: (usize, usize))
    ensures
        counts.0 == sat_usize(layer@.total_slots()),
        counts.1 == layer@.saturated_count(),
        counts.1 <= layer.neurons@.len(),
{
    let mut slots: usize = 0;
    let mut saturated: usize = 0;
    let mut at: usize = 0;
    while at < layer.neurons.len()
        invariant
            at <= layer.neurons@.len(),
            slots == sat_usize(layer@.slots_upto(at as int)),
            saturated == layer@.saturated_upto(at as int),
            saturated <= at,
        decreases layer.neurons.len() - at,
    {
        proof {
            lemma_saturated_bound(layer@, at as int);
            assert(layer@.neurons[at as int] == layer.neurons@[at as int]@);
        }
        slots = slots.saturating_add(layer.neurons[at].slot_engine.slots_len());
        if layer.neurons[at].slot_engine.is_at_capacity() && layer.neurons[at].last_slot_used_fallback {
            saturated = saturated + 1;
        }
        at = at + 1;
    }
    (slots, saturated)
}

/// What a pass over the layers of a region counts.
struct Census {
    total_slots: usize,
    total_neurons: usize,
    total_saturated: usize,
    /// The first of the layers under the highest pressure, if there is a layer.
    seed: Option<usize>,
}

/// The region holds no negative counts.
pub proof fn lemma_totals_nonnegative(region: RegionState, upto: int)
    requires
        0 <= upto <= region.layers.len(),
    ensures
        0 <= region.slots_upto(upto),
        0 <= region.neurons_upto(upto),
        0 <= region.saturated_upto(upto),
    decreases upto,
{
    if upto > 0 {
        lemma_totals_nonnegative(region, upto - 1);
        let layer = region.layers[upto - 1];
        lemma_saturated_bound(layer, layer.neurons.len() as int);
    }
}

/// Tests whether the ratio `part / whole_count` reaches `threshold`.
fn reaches(part: usize, whole_count: usize, threshold: u64) -> (reached: bool)
    ensures
        reached == ratio_reaches(part as int, whole_count as int, threshold),
{
    if whole_count == 0 {
        threshold == 0
    } else {
        proof {
            lemma_product_fits(part as int, UNIT as int);
            lemma_product_fits(threshold as int, whole_count as int);
        }
        (part as u128) * (UNIT as u128) >= (threshold as u128) * (whole_count as u128)
    }
}

impl Region {
    /// Runs the end of tick of every layer, in index order.
    fn end_tick_all_layers(&mut self)
        requires
            old(self).wf(),
        ensures
            final(self).wf(),
            final(self)@ == old(self)@.ended(),
    {
        let mut at: usize = 0;
        while at < self.layers.len()
            invariant
                at <= self.layers@.len(),
                self.layers@.len() == old(self).layers@.len(),
                self.wf(),
                self@.layers.len() == old(self)@.layers.len(),
                forall|i: int| 0 <= i < at ==> self@.layers[i] == old(self)@.layers[i].ticked(),
                forall|i: int| at <= i < self@.layers.len() ==> self@.layers[i] == old(self)@.layers[i],
                self@ == (RegionState { layers: self@.layers, ..old(self)@ }),
            decreases self.layers.len() - at,
        {
            let ghost before = *self;
            assert(before@.layers[at as int] == before.layers@[at as int]@);
            self.layers[at].end_tick();
            proof {
                assert forall|i: int| 0 <= i < self.layers@.len() implies (
                #[trigger] self.layers@[i]).wf() by {
                    if i != at {
                        assert(self.layers@[i] == before.layers@[i]);
                    }
                }
                assert forall|i: int| 0 <= i < self@.layers.len() implies self@.layers[i] == (if i
                    == at {
                    before@.layers[i].ticked()
                } else {
                    before@.layers[i]
                }) by {
                    assert(self@.layers[i] == self.layers@[i]@);
                    assert(before@.layers[i] == before.layers@[i]@);
                    if i != at {
                        assert(self.layers@[i] == before.layers@[i]);
                    }
                }
                assert forall|i: int| 0 <= i < before@.layers.len() implies (
                #[trigger] self@.layers[i]).kind == before@.layers[i].kind by {}
                assert(self@.tracts =~= before@.tracts);
                lemma_wiring_ignores_neurons(before@, self@);
            }
            at = at + 1;
        }
        proof {
            assert(self@.layers =~= old(self)@.ended().layers);
        }
    }

    /// Counts slots, neurons and saturated neurons over all layers, and
    /// finds the first layer under the highest pressure.
    fn census(&self) -> (census: Census)
        requires
            self.wf(),
        ensures
            census.total_slots == self@.total_slots(),
            census.total_neurons == self@.total_neurons(),
            census.total_saturated == self@.total_saturated(),
            census.seed.is_some() == (self@.layers.len() > 0),
            census.seed.is_some() ==> self@.is_pressure_seed(census.seed.unwrap() as int)
                && census.seed.unwrap() == self@.pressure_seed(),
    {
        let mut total_slots: usize = 0;
        let mut total_neurons: usize = 0;
        let mut total_saturated: usize = 0;
        let mut seed: Option<usize> = None;
        let mut best_saturated: usize = 0;
        let mut best_neurons: usize = 0;
        let mut at: usize = 0;
        while at < self.layers.len()
            invariant
                at <= self.layers@.len(),
                self@.layers.len() == self.layers@.len(),
                total_slots == sat_usize(self@.slots_upto(at as int)),
                total_neurons == sat_usize(self@.neurons_upto(at as int)),
                total_saturated == sat_usize(self@.saturated_upto(at as int)),
                seed.is_some() == (at > 0),
                seed.is_some() ==> {
                    &&& seed.unwrap() < at
                    &&& best_saturated == self@.layers[seed.unwrap() as int].saturated_count()
                    &&& best_neurons == self@.layers[seed.unwrap() as int].neurons.len()
                    &&& best_saturated <= best_neurons
                    &&& forall|j: int|
                        0 <= j < seed.unwrap() ==> self@.layers[seed.unwrap() as int].presses_harder_than(
                            #[trigger] self@.layers[j],
                        )
                    &&& forall|j: int|
                        seed.unwrap() < j < at ==> !(#[trigger] self@.layers[j]).presses_harder_than(
                            self@.layers[seed.unwrap() as int],
                        )
                },
            decreases self.layers.len() - at,
        {
            let layer = &self.layers[at];
            let ghost state = self@.layers[at as int];
            assert(state == layer@);
            let (layer_slots, layer_saturated) = layer_counts(layer);
            let layer_neurons: usize = layer.neurons.len();
            proof {
                lemma_totals_nonnegative(self@, at as int);
                lemma_saturated_bound(state, state.neurons.len() as int);
            }
            total_slots = total_slots.saturating_add(layer_slots);
            total_neurons = total_neurons.saturating_add(layer_neurons);
            total_saturated = total_saturated.saturating_add(layer_saturated);
            match seed {
                None => {
                    seed = Some(at);
                    best_saturated = layer_saturated;
                    best_neurons = layer_neurons;
                },
                Some(best) => {
                    let own: usize = if layer_neurons == 0 {
                        1
                    } else {
                        layer_neurons
                    };
                    let other: usize = if best_neurons == 0 {
                        1
                    } else {
                        best_neurons
                    };
                    proof {
                        lemma_product_fits(layer_saturated as int, other as int);
                        lemma_product_fits(best_saturated as int, own as int);
                    }
                    let harder = (layer_saturated as u128) * (other as u128) > (
                    best_saturated as u128) * (own as u128);
                    let ghost leader = self@.layers[best as int];
                    assert(harder == state.presses_harder_than(leader));
                    if harder {
                        proof {
                            assert forall|j: int| 0 <= j < at implies state.presses_harder_than(
                                #[trigger] self@.layers[j],
                            ) by {
                                let low = self@.layers[j];
                                lemma_saturated_bound(low, low.neurons.len() as int);
                                let dl = denominator(
                                    low.neurons.len() as int,
                                );
                                if j < best {
                                    assert(leader.presses_harder_than(low));
                                    lemma_share_order(
                                        state.saturated_count(),
                                        own as int,
                                        leader.saturated_count(),
                                        other as int,
                                        low.saturated_count(),
                                        dl,
                                    );
                                } else if j > best {
                                    assert(!low.presses_harder_than(leader));
                                    lemma_share_order(
                                        state.saturated_count(),
                                        own as int,
                                        leader.saturated_count(),
                                        other as int,
                                        low.saturated_count(),
                                        dl,
                                    );
                                }
                            }
                        }
                        seed = Some(at);
                        best_saturated = layer_saturated;
                        best_neurons = layer_neurons;
                    }
                },
            }
            at = at + 1;
        }
        proof {
            if seed.is_some() {
                let found = seed.unwrap() as int;
                assert(self@.is_pressure_seed(found));
                let chosen = self@.pressure_seed();
                assert(self@.is_pressure_seed(chosen));
                if chosen < found {
                    assert(self@.layers[found].presses_harder_than(self@.layers[chosen]));
                    assert(!self@.layers[found].presses_harder_than(self@.layers[chosen]));
                }
                if found < chosen {
                    assert(self@.layers[chosen].presses_harder_than(self@.layers[found]));
                    assert(!self@.layers[chosen].presses_harder_than(self@.layers[found]));
                }
            }
        }
        Census { total_slots, total_neurons, total_saturated, seed }
    }

    /// Region growth: where growth is permitted and one of the two
    /// triggers holds, appends one layer that copies the layer under the
    /// highest pressure. Returns the index of the new layer, if any.
    fn maybe_grow_region(&mut self) -> (grown: Option<usize>)
        requires
            old(self).wf(),
        ensures
            final(self).wf(),
            final(self)@ == old(self)@.region_grown(),
            grown.is_some() == old(self)@.growth_due(),
            grown.is_some() ==> grown.unwrap() == old(self)@.layers.len(),
    {
        if self.layers.len() >= self.growth_policy.max_layers {
            return None;
        }
        let current_step: u64 = if self.layers.len() > 0 {
            assert(self@.layers[0] == self.layers@[0]@);
            self.layers[0].bus.current_step
        } else {
            0
        };
        if current_step.saturating_sub(self.last_layer_growth_step)
            < self.growth_policy.layer_cooldown_ticks {
            return None;
        }
        assert(self@.growth_permitted());
        let census = self.census();
        let trigger_by_avg = match self.growth_policy.avg_slots_threshold {
            Some(threshold) => reaches(census.total_slots, census.total_neurons, threshold),
            None => false,
        };
        let trigger_by_percent = reaches(
            census.total_saturated,
            census.total_neurons,
            self.growth_policy.percent_at_cap_fallback_threshold,
        );
        if trigger_by_avg || trigger_by_percent {
            if let Some(seed_layer_index) = census.seed {
                assert(self@.layers[seed_layer_index as int] == self.layers@[seed_layer_index as int]@);
                assert(self.layers@[seed_layer_index as int].wf());
                let decay = self.layers[seed_layer_index].bus.decay_factor;
                let domain = self.layers[seed_layer_index].domain;
                let new_layer_index = match self.layers[seed_layer_index].two_d_shape {
                    Some((h, w)) => self.add_output_layer_2d(h, w, decay),
                    None => self.add_generic_layer(decay, domain),
                };
                self.connect_layers(seed_layer_index, new_layer_index, UNIT, false);
                self.last_layer_growth_step = current_step;
                proof {
                    let target = old(self)@.spilled(seed_layer_index as int);
                    assert(self@.layers =~= target.layers);
                    assert(self@.mesh_rules =~= target.mesh_rules);
                    assert(self@.src_to_tracts =~= target.src_to_tracts);
                    assert(self@.tracts =~= old(self)@.tracts);
                    assert(self@ == target);
                }
                return Some(new_layer_index);
            }
        }
        None
    }
}

/// A tract holds no negative number of subscriptions.
pub proof fn lemma_tract_synapses_nonnegative(region: RegionState, t: int, upto: int)
    ensures
        0 <= region.tract_synapses_upto(t, upto),
    decreases upto,
{
    if upto > 0 {
        lemma_tract_synapses_nonnegative(region, t, upto - 1);
    }
}

/// A region holds no negative number of subscriptions.
pub proof fn lemma_synapses_nonnegative(region: RegionState, upto: int)
    ensures
        0 <= region.synapses_upto(upto),
    decreases upto,
{
    if upto > 0 {
        lemma_synapses_nonnegative(region, upto - 1);
        lemma_tract_synapses_nonnegative(
            region,
            upto - 1,
            region.tracts[upto - 1].forward.len() as int,
        );
    }
}

impl Region {
    /// Total number of slots over all neurons of all layers.
    fn count_slots(&self) -> (total: usize)
        ensures
            total == self@.total_slots(),
    {
        let mut total: usize = 0;
        let mut at: usize = 0;
        while at < self.layers.len()
            invariant
                at <= self.layers@.len(),
                self@.layers.len() == self.layers@.len(),
                total == sat_usize(self@.slots_upto(at as int)),
            decreases self.layers.len() - at,
        {
            let layer = &self.layers[at];
            assert(self@.layers[at as int] == layer@);
            let (layer_slots, _saturated) = layer_counts(layer);
            proof {
                lemma_totals_nonnegative(self@, at as int);
                lemma_saturated_bound(layer@, layer@.neurons.len() as int);
            }
            total = total.saturating_add(layer_slots);
            at = at + 1;
        }
        total
    }

    /// Total number of subscriptions over all destinations of all tracts.
    fn count_synapses(&self) -> (total: usize)
        ensures
            total == self@.total_synapses(),
    {
        let mut total: usize = 0;
        let mut at: usize = 0;
        while at < self.tracts.len()
            invariant
                at <= self.tracts@.len(),
                self@.tracts.len() == self.tracts@.len(),
                total == sat_usize(self@.synapses_upto(at as int)),
            decreases self.tracts.len() - at,
        {
            let tract = &self.tracts[at];
            let ghost state = self@.tracts[at as int];
            assert(state == tract@);
            let ghost start = self@.synapses_upto(at as int);
            let mut dest: usize = 0;
            proof {
                lemma_synapses_nonnegative(self@, at as int);
            }
            while dest < tract.mapping.dest_to_sources.len()
                invariant
                    dest <= tract.mapping.dest_to_sources@.len(),
                    at < self@.tracts.len(),
                    state == self@.tracts[at as int],
                    state.forward == tract.mapping.forward(),
                    0 <= start,
                    total == sat_usize(start + self@.tract_synapses_upto(at as int, dest as int)),
                decreases tract.mapping.dest_to_sources.len() - dest,
            {
                proof {
                    lemma_tract_synapses_nonnegative(self@, at as int, dest as int);
                    assert(state.forward[dest as int] == tract.mapping.dest_to_sources@[dest as int]@);
                }
                total = total.saturating_add(tract.mapping.dest_to_sources[dest].len());
                dest = dest + 1;
            }
            assert(state.forward.len() == tract.mapping.dest_to_sources@.len());
            at = at + 1;
        }
        total
    }

    /// One tick on a dense `height` by `width` frame: injects the frame
    /// (phase A), propagates what fired (phase B), runs the end of tick of
    /// every layer, lets the region grow by at most one layer, and reports
    /// the metrics of the tick. The pixels are read for the spatial
    /// summary only.
    pub fn tick_2d(&mut self, image: &[u64], height: usize, width: usize) -> (metrics: RegionMetrics)
        requires
            old(self).wf(),
            old(self).spatial_metrics_enabled ==> height * width <= image@.len(),
            // what propagation credits lies in the captured frame, as it
            // always does where the frames of the output tracts agree
            old(self)@.frames_agree() || old(self)@.tick_in_range(height, width),
        ensures
            final(self).wf(),
            final(self)@ == old(self)@.ticked(height, width),
            old(self)@.frames_agree() ==> final(self)@.frames_agree(),
            metrics.delivered_events == old(self)@.tick_delivered(height, width),
            metrics.total_slots == final(self)@.total_slots(),
            metrics.total_synapses == final(self)@.total_synapses(),
            final(self)@.reports_spatial(metrics.spatial, image@, height, width),
    {
        let fired = self.phase_a_input_2d(image, height, width);
        proof {
            if old(self)@.frames_agree() {
                lemma_injection_keeps_wiring(old(self)@, height, width);
                lemma_frames_still_agree(old(self)@, self@);
                assert forall|t: int| 0 <= t < self@.tracts.len() implies (
                #[trigger] self@.tracts[t]).indices_in_frame() by {
                    lemma_tract_indices_in_frame(self.tracts@[t]);
                }
                lemma_agreeing_frames_stay_in_range(self@, fired@);
            }
        }
        let delivered = self.phase_b_propagate(&fired);
        self.end_tick_all_layers();
        let _maybe_layer = self.maybe_grow_region();
        proof {
            if old(self)@.frames_agree() {
                lemma_tick_adds_at_most_one_layer(old(self)@, height, width);
                assert forall|i: int| 0 <= i < old(self)@.layers.len() implies (
                #[trigger] self@.layers[i]).kind == old(self)@.layers[i].kind by {
                    lemma_tick_keeps_layers(old(self)@, height, width, i);
                }
                lemma_frames_still_agree(old(self)@, self@);
            }
        }

        let mut metrics = RegionMetrics::default();
        metrics.delivered_events = delivered;
        metrics.total_slots = self.count_slots();
        metrics.total_synapses = self.count_synapses();

        if self.spatial_metrics_enabled {
            match &self.last_output_frame {
                Some((output_frame, out_h, out_w)) => {
                    let spatial = compute_spatial_metrics_from_frame(
                        output_frame.as_slice(),
                        *out_h,
                        *out_w,
                    );
                    if spatial.active_count > 0 {
                        metrics.spatial = Some(spatial);
                    } else {
                        let spatial = compute_spatial_metrics_from_frame(image, height, width);
                        metrics.spatial = Some(spatial);
                    }
                },
                None => {
                    let spatial = compute_spatial_metrics_from_frame(image, height, width);
                    metrics.spatial = Some(spatial);
                },
            }
        }
        metrics
    }
}

} // verus!
