//! Anchor-relative percent binning with strict slot capacity, a fallback
//! channel and one-shot slot reuse.

use crate::fixed::{lemma_product_fits, UNIT};
use crate::ids::SlotId;
use std::collections::HashMap;
use vstd::prelude::*;

verus! {

/// How an engine picks its anchor: the first observation is latched.
#[derive(Copy, Clone, Debug, PartialEq, Eq, Structural)]
pub enum AnchorMode {
    First,
}

#[derive(Copy, Clone, Debug, PartialEq, Eq, Structural)]
pub enum SlotDomain {
    Scalar,
    TwoD,
}

/// The slot an observation was given, and whether it was the fallback.
#[derive(Copy, Clone, Debug, PartialEq, Eq, Structural)]
pub struct SlotSelection {
    pub slot_id: SlotId,
    pub used_fallback: bool,
}

/// Stride by which the row bin is packed above the column bin in a
/// two-dimensional bin key.
pub const PACK_STRIDE: i64 = 100_000;

/// The largest bin, which stands for every bin at or above it.
pub const MAX_BIN: i64 = 0x7FFF_FFFF_FFFF_FFFF;

/// The distance between two integers.
pub open spec fn distance(a: int, b: int) -> int {
    if a >= b {
        a - b
    } else {
        b - a
    }
}

/// The bin of `value` relative to `anchor`: the distance between them, in
/// percent of the larger of `|anchor|` and `epsilon_scale`, divided by
/// `bin_width_pct` and rounded down. A quotient above [`MAX_BIN`] is held
/// there. Where the divisor is zero the bin is `MAX_BIN`, unless the
/// distance is zero too, which gives bin zero.
pub open spec fn bin_index(value: i64, anchor: i64, epsilon_scale: u64, bin_width_pct: u64) -> i64 {
    let magnitude = distance(anchor as int, 0);
    let denom = if magnitude >= epsilon_scale { magnitude } else { epsilon_scale as int };
    let numerator = distance(value as int, anchor as int) * 100 * UNIT;
    let divisor = denom * bin_width_pct;
    if divisor == 0 {
        if numerator == 0 {
            0
        } else {
            MAX_BIN
        }
    } else if numerator / divisor > MAX_BIN {
        MAX_BIN
    } else {
        (numerator / divisor) as i64
    }
}

/// The key of a pair of bins: `row_bin * PACK_STRIDE + col_bin`, held at
/// the largest `i64`.
pub open spec fn packed_key(row_bin: i64, col_bin: i64) -> i64 {
    let key = row_bin * PACK_STRIDE + col_bin;
    if key > i64::MAX {
        i64::MAX
    } else if key < i64::MIN {
        i64::MIN
    } else {
        key as i64
    }
}

/// The largest number of slots a table can hold: one for every handle
/// but the fallback sentinel.
pub const MAX_SLOTS: usize = 0xFFFF_FFFF;

/// The handle of the slot allocated at position `index`.
pub open spec fn slot_id_at(index: int) -> SlotId {
    SlotId(index as u32)
}

/// Computes [`bin_index`].
pub fn percent_bin(value: i64, anchor: i64, epsilon_scale: u64, bin_width_pct: u64) -> (bin: i64)
    ensures
        bin == bin_index(value, anchor, epsilon_scale, bin_width_pct),
        0 <= bin,
{
    let signed_delta: i128 = value as i128 - anchor as i128;
    let delta: u128 = if signed_delta < 0 {
        (-signed_delta) as u128
    } else {
        signed_delta as u128
    };
    let magnitude: u128 = if anchor < 0 {
        (-(anchor as i128)) as u128
    } else {
        anchor as u128
    };
    let denom: u128 = if magnitude >= epsilon_scale as u128 {
        magnitude
    } else {
        epsilon_scale as u128
    };
    proof {
        lemma_product_fits(delta as int, 100 * UNIT);
        lemma_product_fits(denom as int, bin_width_pct as int);
        assert(delta * 100 * UNIT == delta * (100 * UNIT)) by (nonlinear_arith);
    }
    let numerator: u128 = delta * 100_000_000_000u128;
    let divisor: u128 = denom * (bin_width_pct as u128);
    if divisor == 0 {
        if numerator == 0 {
            0
        } else {
            MAX_BIN
        }
    } else {
        let quotient: u128 = numerator / divisor;
        if quotient > MAX_BIN as u128 {
            MAX_BIN
        } else {
            quotient as i64
        }
    }
}

/// Computes [`packed_key`].
pub fn pack_bins(row_bin: i64, col_bin: i64) -> (key: i64)
    ensures
        key == packed_key(row_bin, col_bin),
{
    let wide: i128 = (row_bin as i128) * 100_000i128 + col_bin as i128;
    if wide > i64::MAX as i128 {
        i64::MAX
    } else if wide < i64::MIN as i128 {
        i64::MIN
    } else {
        wide as i64
    }
}

/// What a slot engine holds, as plain values.
pub struct EngineState {
    pub domain: SlotDomain,
    pub anchor_mode: AnchorMode,
    pub anchor_set: bool,
    pub anchor_scalar: i64,
    pub anchor_row: i64,
    pub anchor_col: i64,
    pub bin_width_pct: u64,
    pub epsilon_scale: u64,
    pub capacity: usize,
    /// The bin keys that own a slot, in allocation order: the key at
    /// position `i` owns the slot `slot_id_at(i)`.
    pub slots: Seq<i64>,
    pub last_slot_used_fallback: bool,
    pub prefer_last_slot_once: bool,
    pub last_slot_id: Option<SlotId>,
    pub frozen_slot: Option<SlotId>,
}

impl EngineState {
    /// An engine that has observed nothing.
    pub open spec fn fresh(
        domain: SlotDomain,
        capacity: usize,
        bin_width_pct: u64,
        epsilon_scale: u64,
    ) -> EngineState {
        EngineState {
            domain,
            anchor_mode: AnchorMode::First,
            anchor_set: false,
            anchor_scalar: 0,
            anchor_row: 0,
            anchor_col: 0,
            bin_width_pct,
            epsilon_scale,
            capacity,
            slots: Seq::empty(),
            last_slot_used_fallback: false,
            prefer_last_slot_once: false,
            last_slot_id: None,
            frozen_slot: None,
        }
    }

    /// The invariant of the slot table: no key owns two slots, the table
    /// holds at most `capacity` slots, or one where the capacity is zero,
    /// and no slot has the handle reserved for the fallback.
    pub open spec fn wf(self) -> bool {
        &&& self.slots.no_duplicates()
        &&& self.slots.len() <= self.capacity || self.slots.len() <= 1
        &&& self.slots.len() <= MAX_SLOTS
    }

    /// Whether a key that owns no slot may be given one: always into an
    /// empty table, else only below capacity; and never the slot whose
    /// handle would be the fallback sentinel.
    pub open spec fn can_allocate(self) -> bool {
        &&& self.slots.len() == 0 || self.slots.len() < self.capacity
        &&& self.slots.len() < MAX_SLOTS
    }

    /// Whether the table has reached its capacity.
    pub open spec fn at_capacity(self) -> bool {
        self.slots.len() >= self.capacity
    }

    /// The slot that an observation with bin key `key` is given: the slot
    /// the key owns, else a new slot where one may be allocated, else the
    /// fallback.
    pub open spec fn selection(self, key: i64) -> SlotSelection {
        if self.slots.contains(key) {
            SlotSelection { slot_id: slot_id_at(self.slots.index_of(key)), used_fallback: false }
        } else if self.can_allocate() {
            SlotSelection { slot_id: slot_id_at(self.slots.len() as int), used_fallback: false }
        } else {
            SlotSelection { slot_id: SlotId::fallback(), used_fallback: true }
        }
    }

    /// The engine after an observation with bin key `key` was given its
    /// slot: a new key is appended where it was allocated, nothing is ever
    /// removed, and the selection is remembered.
    pub open spec fn selected(self, key: i64) -> EngineState {
        let choice = self.selection(key);
        EngineState {
            slots: if !self.slots.contains(key) && self.can_allocate() {
                self.slots.push(key)
            } else {
                self.slots
            },
            last_slot_used_fallback: choice.used_fallback,
            last_slot_id: Some(choice.slot_id),
            ..self
        }
    }

    /// Whether the next observation reuses the frozen slot.
    pub open spec fn reuse_pending(self) -> bool {
        self.frozen_slot.is_some() && self.prefer_last_slot_once
    }

    /// The engine after the frozen slot was reused once.
    pub open spec fn reused(self) -> EngineState {
        EngineState {
            prefer_last_slot_once: false,
            last_slot_used_fallback: false,
            last_slot_id: self.frozen_slot,
            ..self
        }
    }

    /// The engine with its scalar anchor latched to `value`, unless an
    /// anchor was latched before.
    pub open spec fn latched_scalar(self, value: i64) -> EngineState {
        if self.anchor_set {
            self
        } else {
            EngineState { anchor_set: true, anchor_scalar: value, ..self }
        }
    }

    /// The engine with its row and column anchors latched to `(row, col)`,
    /// unless an anchor was latched before.
    pub open spec fn latched_two_d(self, row: i64, col: i64) -> EngineState {
        if self.anchor_set {
            self
        } else {
            EngineState { anchor_set: true, anchor_row: row, anchor_col: col, ..self }
        }
    }

    /// The bin key of a scalar observation, relative to the latched anchor.
    pub open spec fn scalar_key(self, value: i64) -> i64 {
        bin_index(value, self.anchor_scalar, self.epsilon_scale, self.bin_width_pct)
    }

    /// The bin key of a two-dimensional observation: the bins of the two
    /// axes, each relative to its own anchor, packed into one key.
    pub open spec fn two_d_key(self, row: i64, col: i64) -> i64 {
        packed_key(
            bin_index(row, self.anchor_row, self.epsilon_scale, self.bin_width_pct),
            bin_index(col, self.anchor_col, self.epsilon_scale, self.bin_width_pct),
        )
    }

    /// The engine after a scalar observation.
    pub open spec fn observed_scalar(self, value: i64) -> EngineState {
        let latched = self.latched_scalar(value);
        if latched.reuse_pending() {
            latched.reused()
        } else {
            latched.selected(latched.scalar_key(value))
        }
    }

    /// The slot given to a scalar observation.
    pub open spec fn selection_scalar(self, value: i64) -> SlotSelection {
        let latched = self.latched_scalar(value);
        if latched.reuse_pending() {
            SlotSelection { slot_id: latched.frozen_slot.unwrap(), used_fallback: false }
        } else {
            latched.selection(latched.scalar_key(value))
        }
    }

    /// The engine after a two-dimensional observation.
    pub open spec fn observed_two_d(self, row: i64, col: i64) -> EngineState {
        let latched = self.latched_two_d(row, col);
        if latched.reuse_pending() {
            latched.reused()
        } else {
            latched.selected(latched.two_d_key(row, col))
        }
    }

    /// The slot given to a two-dimensional observation.
    pub open spec fn selection_two_d(self, row: i64, col: i64) -> SlotSelection {
        let latched = self.latched_two_d(row, col);
        if latched.reuse_pending() {
            SlotSelection { slot_id: latched.frozen_slot.unwrap(), used_fallback: false }
        } else {
            latched.selection(latched.two_d_key(row, col))
        }
    }
}

#[derive(Debug)]
pub struct SlotEngine {
    domain: SlotDomain,
    anchor_mode: AnchorMode,
    anchor_set: bool,
    anchor_scalar: i64,
    anchor_row: i64,
    anchor_col: i64,
    bin_width_pct: u64,
    epsilon_scale: u64,
    capacity: usize,
    slot_map: HashMap<i64, SlotId>,
    slot_order: Vec<i64>,
    pub last_slot_used_fallback: bool,
    pub prefer_last_slot_once: bool,
    last_slot_id: Option<SlotId>,
    frozen_slot: Option<SlotId>,
}

impl View for SlotEngine {
    type V = EngineState;

    closed spec fn view(&self) -> EngineState {
        EngineState {
            domain: self.domain,
            anchor_mode: self.anchor_mode,
            anchor_set: self.anchor_set,
            anchor_scalar: self.anchor_scalar,
            anchor_row: self.anchor_row,
            anchor_col: self.anchor_col,
            bin_width_pct: self.bin_width_pct,
            epsilon_scale: self.epsilon_scale,
            capacity: self.capacity,
            slots: self.slot_order@,
            last_slot_used_fallback: self.last_slot_used_fallback,
            prefer_last_slot_once: self.prefer_last_slot_once,
            last_slot_id: self.last_slot_id,
            frozen_slot: self.frozen_slot,
        }
    }
}

impl SlotEngine {
    /// Whether the lookup table agrees with the allocation order: it holds
    /// exactly the keys that own a slot, each with the handle of its
    /// position.
    pub closed spec fn table_matches(&self) -> bool {
        &&& forall|k: i64| #[trigger] self.slot_map@.contains_key(k) <==> self.slot_order@.contains(k)
        &&& forall|i: int|
            0 <= i < self.slot_order@.len() ==> self.slot_map@[#[trigger] self.slot_order@[i]]
                == slot_id_at(i)
    }

    /// The invariant of an engine.
    pub open spec fn wf(&self) -> bool {
        &&& self@.wf()
        &&& self.table_matches()
    }

    pub fn new_scalar(capacity: usize, bin_width_pct: u64, epsilon_scale: u64) -> (engine: Self)
        ensures
            engine.wf(),
            engine@ == EngineState::fresh(
                SlotDomain::Scalar,
                capacity,
                bin_width_pct,
                epsilon_scale,
            ),
    {
        let engine = Self {
            domain: SlotDomain::Scalar,
            anchor_mode: AnchorMode::First,
            anchor_set: false,
            anchor_scalar: 0,
            anchor_row: 0,
            anchor_col: 0,
            bin_width_pct,
            epsilon_scale,
            capacity,
            slot_map: HashMap::new(),
            slot_order: Vec::new(),
            last_slot_used_fallback: false,
            prefer_last_slot_once: false,
            last_slot_id: None,
            frozen_slot: None,
        };
        assert(engine.slot_order@ =~= Seq::empty());
        engine
    }

    pub fn new_two_d(capacity: usize, bin_width_pct: u64, epsilon_scale: u64) -> (engine: Self)
        ensures
            engine.wf(),
            engine@ == EngineState::fresh(SlotDomain::TwoD, capacity, bin_width_pct, epsilon_scale),
    {
        Self::new_scalar(capacity, bin_width_pct, epsilon_scale).with_two_d()
    }

    fn with_two_d(self) -> (engine: Self)
        requires
            self.wf(),
        ensures
            engine.wf(),
            engine@ == (EngineState { domain: SlotDomain::TwoD, ..self@ }),
    {
        let mut engine = self;
        engine.domain = SlotDomain::TwoD;
        engine
    }

    pub fn domain(&self) -> (domain: SlotDomain)
        ensures
            domain == self@.domain,
    {
        self.domain
    }

    /// Number of slots allocated so far.
    pub fn slots_len(&self) -> (len: usize)
        ensures
            len == self@.slots.len(),
    {
        self.slot_order.len()
    }

    /// Whether the slot table has reached its capacity.
    pub fn is_at_capacity(&self) -> (full: bool)
        ensures
            full == self@.at_capacity(),
    {
        self.slot_order.len() >= self.capacity
    }

    /// Whether the last selection was the fallback.
    pub fn last_slot_used_fallback(&self) -> (flag: bool)
        ensures
            flag == self@.last_slot_used_fallback,
    {
        self.last_slot_used_fallback
    }

    /// Whether the next observation is asked to reuse the frozen slot.
    pub fn prefer_last_slot_once(&self) -> (flag: bool)
        ensures
            flag == self@.prefer_last_slot_once,
    {
        self.prefer_last_slot_once
    }

    /// Remembers the last selected slot as the frozen slot.
    pub fn freeze_last_slot(&mut self)
        ensures
            final(self)@ == (EngineState { frozen_slot: old(self)@.last_slot_id, ..old(self)@ }),
            old(self).wf() ==> final(self).wf(),
    {
        self.frozen_slot = self.last_slot_id;
    }

    /// Asks for the frozen slot to be reused by the next observation, once.
    /// The frozen slot itself stays frozen.
    pub fn unfreeze_last_slot(&mut self)
        ensures
            final(self)@ == (EngineState { prefer_last_slot_once: true, ..old(self)@ }),
            old(self).wf() ==> final(self).wf(),
    {
        self.prefer_last_slot_once = true;
    }

    fn compute_scalar_bin(&self, value: i64) -> (bin: i64)
        ensures
            bin == self@.scalar_key(value),
    {
        percent_bin(value, self.anchor_scalar, self.epsilon_scale, self.bin_width_pct)
    }

    fn compute_two_d_bins(&self, row: i64, col: i64) -> (bins: (i64, i64))
        ensures
            bins.0 == bin_index(row, self@.anchor_row, self@.epsilon_scale, self@.bin_width_pct),
            bins.1 == bin_index(col, self@.anchor_col, self@.epsilon_scale, self@.bin_width_pct),
    {
        let r_bin = percent_bin(row, self.anchor_row, self.epsilon_scale, self.bin_width_pct);
        let c_bin = percent_bin(col, self.anchor_col, self.epsilon_scale, self.bin_width_pct);
        (r_bin, c_bin)
    }

    /// Observes a scalar: latches the anchor on the first observation,
    /// then reuses the frozen slot if that was asked for, else selects by
    /// the bin of `value`.
    pub fn observe_scalar(&mut self, value: i64) -> (selection: SlotSelection)
        requires
            old(self).wf(),
        ensures
            final(self).wf(),
            final(self)@ == old(self)@.observed_scalar(value),
            selection == old(self)@.selection_scalar(value),
    {
        if !self.anchor_set {
            self.anchor_set = true;
            self.anchor_scalar = value;
        }
        if let Some(slot) = self.frozen_slot {
            if self.prefer_last_slot_once {
                self.prefer_last_slot_once = false;
                self.last_slot_used_fallback = false;
                self.last_slot_id = Some(slot);
                return SlotSelection { slot_id: slot, used_fallback: false };
            }
        }
        let key = self.compute_scalar_bin(value);
        self.select_or_allocate_slot(key)
    }

    /// Observes a grid position: latches the row and column anchors on
    /// the first observation, then reuses the frozen slot if that was
    /// asked for, else selects by the packed bins of the two axes.
    pub fn observe_two_d(&mut self, row: i64, col: i64) -> (selection: SlotSelection)
        requires
            old(self).wf(),
        ensures
            final(self).wf(),
            final(self)@ == old(self)@.observed_two_d(row, col),
            selection == old(self)@.selection_two_d(row, col),
    {
        if !self.anchor_set {
            self.anchor_set = true;
            self.anchor_row = row;
            self.anchor_col = col;
        }
        if let Some(slot) = self.frozen_slot {
            if self.prefer_last_slot_once {
                self.prefer_last_slot_once = false;
                self.last_slot_used_fallback = false;
                self.last_slot_id = Some(slot);
                return SlotSelection { slot_id: slot, used_fallback: false };
            }
        }
        let (r_bin, c_bin) = self.compute_two_d_bins(row, col);
        let key = pack_bins(r_bin, c_bin);
        self.select_or_allocate_slot(key)
    }

    fn select_or_allocate_slot(&mut self, key: i64) -> (selection: SlotSelection)
        requires
            old(self).wf(),
        ensures
            final(self).wf(),
            final(self)@ == old(self)@.selected(key),
            selection == old(self)@.selection(key),
    {
        self.last_slot_used_fallback = false;
        let found = self.slot_map.get(&key);
        if let Some(slot_ref) = found {
            let slot_id = *slot_ref;
            proof {
                let at = self.slot_order@.index_of(key);
                assert(self.slot_order@.contains(key));
                assert(self.slot_order@[at] == key);
            }
            self.last_slot_id = Some(slot_id);
            return SlotSelection { slot_id, used_fallback: false };
        }
        let within_capacity = if self.slot_order.len() == 0 {
            true
        } else {
            self.slot_order.len() < self.capacity
        };
        let can_allocate = within_capacity && self.slot_order.len() < MAX_SLOTS;
        if can_allocate {
            let new_id = SlotId(self.slot_order.len() as u32);
            let ghost prior = self.slot_order@;
            self.slot_map.insert(key, new_id);
            self.slot_order.push(key);
            self.last_slot_id = Some(new_id);
            proof {
                assert(!prior.contains(key));
                assert(self.slot_order@ == prior.push(key));
                assert forall|k: i64| #[trigger]
                    self.slot_map@.contains_key(k) <==> self.slot_order@.contains(k) by {
                    if prior.contains(k) {
                        let i = choose|i: int| 0 <= i < prior.len() && prior[i] == k;
                        assert(self.slot_order@[i] == k);
                    }
                    if k == key {
                        assert(self.slot_order@[prior.len() as int] == k);
                    }
                    if self.slot_order@.contains(k) {
                        let i = choose|i: int|
                            0 <= i < self.slot_order@.len() && self.slot_order@[i] == k;
                        if i < prior.len() {
                            assert(prior[i] == k);
                        }
                    }
                }
                assert forall|i: int| 0 <= i < self.slot_order@.len() implies self.slot_map@[
                #[trigger] self.slot_order@[i]] == slot_id_at(i) by {
                    if i < prior.len() {
                        assert(prior[i] == self.slot_order@[i]);
                        assert(prior.contains(prior[i]));
                    }
                }
                assert forall|i: int, j: int|
                    0 <= i < self.slot_order@.len() && 0 <= j < self.slot_order@.len() && i
                        != j implies self.slot_order@[i] != self.slot_order@[j] by {
                    if i < prior.len() {
                        assert(prior.contains(prior[i]));
                    }
                    if j < prior.len() {
                        assert(prior.contains(prior[j]));
                    }
                }
            }
            SlotSelection { slot_id: new_id, used_fallback: false }
        } else {
            self.last_slot_used_fallback = true;
            self.last_slot_id = Some(SlotId::fallback());
            SlotSelection { slot_id: SlotId::fallback(), used_fallback: true }
        }
    }
}

/// Selection keeps the slot table's invariant and never evicts: the
/// table afterwards starts with the table before, and is longer by at
/// most the one key that was allocated.
pub proof fn lemma_selection_never_evicts(state: EngineState, key: i64)
    requires
        state.wf(),
    ensures
        state.selected(key).wf(),
        state.slots.len() <= state.selected(key).slots.len() <= state.slots.len() + 1,
        state.selected(key).slots.subrange(0, state.slots.len() as int) == state.slots,
        state.selected(key).capacity == state.capacity,
{
    let after = state.selected(key);
    assert(after.slots.subrange(0, state.slots.len() as int) =~= state.slots);
    if !state.slots.contains(key) && state.can_allocate() {
        assert forall|i: int, j: int|
            0 <= i < after.slots.len() && 0 <= j < after.slots.len() && i != j implies after.slots[i]
            != after.slots[j] by {
            if i < state.slots.len() {
                assert(state.slots.contains(state.slots[i]));
            }
            if j < state.slots.len() {
                assert(state.slots.contains(state.slots[j]));
            }
        }
    }
}

/// The handle reserved for the fallback is given to no slot: a selection
/// that is no fallback names the position of its key in the table, which
/// lies below the reserved value.
pub proof fn lemma_slot_is_never_the_sentinel(state: EngineState, key: i64)
    requires
        state.wf(),
        !state.selection(key).used_fallback,
    ensures
        state.selection(key).slot_id != SlotId::fallback(),
        state.selection(key).slot_id.0 < MAX_SLOTS,
        state.selected(key).slots[state.selection(key).slot_id.0 as int] == key,
{
    if state.slots.contains(key) {
        let at = state.slots.index_of(key);
        assert(0 <= at < state.slots.len() && state.slots[at] == key);
    }
}

/// The fallback is given exactly to a key that owns no slot when none may
/// be allocated; it is a value, and the table is left as it was.
pub proof fn lemma_fallback_iff_denied(state: EngineState, key: i64)
    ensures
        state.selection(key).used_fallback <==> (!state.slots.contains(key)
            && !state.can_allocate()),
        state.selection(key).used_fallback ==> state.selection(key).slot_id == SlotId::fallback()
            && state.selected(key).slots == state.slots,
        state.selected(key).last_slot_used_fallback == state.selection(key).used_fallback,
{
}

/// A key that was given a slot owns it from then on: the same key is
/// given the same slot again, whatever was observed in between.
pub proof fn lemma_slot_is_stable(state: EngineState, key: i64, other: i64)
    requires
        state.wf(),
        !state.selection(key).used_fallback,
    ensures
        state.selected(key).selection(key) == state.selection(key),
        state.selected(key).selected(other).selection(key) == state.selection(key),
{
    let first = state.selected(key);
    lemma_selection_never_evicts(state, key);
    lemma_selection_never_evicts(first, other);
    let second = first.selected(other);
    // where the key stands in the table after the first selection
    let at = if state.slots.contains(key) {
        state.slots.index_of(key)
    } else {
        state.slots.len() as int
    };
    assert(0 <= at < first.slots.len() && first.slots[at] == key);
    assert(first.slots.contains(key));
    assert(first.slots.index_of(key) == at) by {
        let found = first.slots.index_of(key);
        assert(first.slots[found] == key);
    }
    assert(second.slots.subrange(0, first.slots.len() as int)[at] == first.slots[at]);
    assert(second.slots[at] == key);
    assert(second.slots.contains(key));
    assert(second.slots.index_of(key) == at) by {
        let found = second.slots.index_of(key);
        assert(second.slots[found] == key);
    }
}

/// The anchor is latched by the first observation and never moves again.
pub proof fn lemma_anchor_latches_once(state: EngineState, first: i64, second: i64)
    ensures
        state.observed_scalar(first).anchor_set,
        !state.anchor_set ==> state.observed_scalar(first).anchor_scalar == first,
        state.observed_scalar(first).observed_scalar(second).anchor_scalar
            == state.observed_scalar(first).anchor_scalar,
        state.observed_two_d(first, second).anchor_set,
        !state.anchor_set ==> state.observed_two_d(first, second).anchor_row == first
            && state.observed_two_d(first, second).anchor_col == second,
        state.observed_two_d(first, second).observed_two_d(second, first).anchor_row
            == state.observed_two_d(first, second).anchor_row,
        state.observed_two_d(first, second).observed_two_d(second, first).anchor_col
            == state.observed_two_d(first, second).anchor_col,
{
}

/// One-shot reuse: with a frozen slot and the preference set, the next
/// observation is given the frozen slot whatever its value, without
/// fallback, and the preference is spent; the frozen slot stays frozen.
pub proof fn lemma_reuse_is_one_shot(state: EngineState, value: i64)
    requires
        state.frozen_slot.is_some(),
        state.prefer_last_slot_once,
    ensures
        state.selection_scalar(value).slot_id == state.frozen_slot.unwrap(),
        !state.selection_scalar(value).used_fallback,
        !state.observed_scalar(value).prefer_last_slot_once,
        !state.observed_scalar(value).reuse_pending(),
        state.observed_scalar(value).frozen_slot == state.frozen_slot,
        state.observed_scalar(value).slots == state.slots,
{
}

/// An observation keeps the slot table's invariant and never evicts.
pub proof fn lemma_observation_keeps_invariant(state: EngineState, value: i64, row: i64, col: i64)
    requires
        state.wf(),
    ensures
        state.observed_scalar(value).wf(),
        state.observed_two_d(row, col).wf(),
        state.slots.len() <= state.observed_scalar(value).slots.len() <= state.slots.len() + 1,
        state.slots.len() <= state.observed_two_d(row, col).slots.len() <= state.slots.len() + 1,
{
    let scalar = state.latched_scalar(value);
    lemma_selection_never_evicts(scalar, scalar.scalar_key(value));
    let grid = state.latched_two_d(row, col);
    lemma_selection_never_evicts(grid, grid.two_d_key(row, col));
}

/// A value equal to the anchor falls in bin zero, whatever the scale.
pub proof fn lemma_anchor_is_bin_zero(anchor: i64, epsilon_scale: u64, bin_width_pct: u64)
    ensures
        bin_index(anchor, anchor, epsilon_scale, bin_width_pct) == 0,
        packed_key(0, 0) == 0,
{
    let magnitude = distance(anchor as int, 0);
    let denom = if magnitude >= epsilon_scale { magnitude } else { epsilon_scale as int };
    let divisor = denom * bin_width_pct;
    assert(distance(anchor as int, anchor as int) * 100 * UNIT == 0) by (nonlinear_arith)
        requires
            distance(anchor as int, anchor as int) == 0,
    ;
    if divisor != 0 {
        assert(0int / divisor == 0) by (nonlinear_arith)
            requires
                divisor != 0,
        ;
    }
}

/// An engine that keeps observing the grid position it observed first
/// never falls back: the first observation is given slot zero by the
/// bootstrap rule, whatever the capacity, and every repetition finds bin
/// zero in that slot and leaves the engine as it is.
pub proof fn lemma_first_position_keeps_its_slot(
    domain: SlotDomain,
    capacity: usize,
    bin_width_pct: u64,
    epsilon_scale: u64,
    row: i64,
    col: i64,
)
    ensures
        ({
            let fresh = EngineState::fresh(domain, capacity, bin_width_pct, epsilon_scale);
            let once = fresh.observed_two_d(row, col);
            &&& fresh.selection_two_d(row, col) == (SlotSelection {
                slot_id: SlotId(0),
                used_fallback: false,
            })
            &&& once.slots == seq![0i64]
            &&& once.selection_two_d(row, col) == fresh.selection_two_d(row, col)
            &&& once.observed_two_d(row, col) == once
        }),
{
    let fresh = EngineState::fresh(domain, capacity, bin_width_pct, epsilon_scale);
    let latched = fresh.latched_two_d(row, col);
    lemma_anchor_is_bin_zero(row, epsilon_scale, bin_width_pct);
    lemma_anchor_is_bin_zero(col, epsilon_scale, bin_width_pct);
    assert(latched.two_d_key(row, col) == 0);
    let once = fresh.observed_two_d(row, col);
    assert(once.slots =~= seq![0i64]);
    assert(once.slots[0] == 0);
    assert(once.slots.contains(0));
    assert(once.slots.index_of(0) == 0) by {
        let found = once.slots.index_of(0);
        assert(once.slots[found] == 0);
    }
    assert(once.two_d_key(row, col) == 0);
}

} // verus!
