//! A tract: the window mapping of one source layer onto one destination
//! layer.

use crate::index_map::{index_map_contents, list_at};
use crate::window::{
    axis_span, compute_window_mapping, lemma_dest_position, lemma_window_in_source, Padding,
    WindowGeometry, WindowMapping,
};
use vstd::prelude::*;

verus! {

#[derive(Debug)]
pub struct Tract {
    pub source_layer_index: usize,
    pub dest_layer_index: usize,
    pub mapping: WindowMapping,
    pub source_height: usize,
    pub source_width: usize,
    pub kernel_height: usize,
    pub kernel_width: usize,
    pub stride_height: usize,
    pub stride_width: usize,
    pub padding: Padding,
}

/// What a tract holds, as plain values.
pub struct TractState {
    pub source_layer_index: usize,
    pub dest_layer_index: usize,
    pub geometry: WindowGeometry,
    pub out_height: usize,
    pub out_width: usize,
    /// For each destination index, the source indices it listens to.
    pub forward: Seq<Seq<usize>>,
    /// For each subscribed source index, its destinations in delivery order.
    pub reverse: Map<usize, Seq<usize>>,
    pub unique_source_count: usize,
}

impl View for Tract {
    type V = TractState;

    open spec fn view(&self) -> TractState {
        TractState {
            source_layer_index: self.source_layer_index,
            dest_layer_index: self.dest_layer_index,
            geometry: self.geometry(),
            out_height: self.mapping.out_height,
            out_width: self.mapping.out_width,
            forward: self.mapping.forward(),
            reverse: self.mapping.reverse(),
            unique_source_count: self.mapping.unique_source_count,
        }
    }
}

/// Whether attaching `source` adds it to the list of destination `dest`:
/// the window of `dest` holds the cell, and the list does not hold it yet.
pub open spec fn attaches(g: WindowGeometry, forward: Seq<Seq<usize>>, source: usize, dest: int) -> bool {
    g.in_window(dest, source) && !forward[dest].contains(source)
}

/// The destinations below `upto` that attaching `source` adds it to, in
/// ascending order.
pub open spec fn attached_dests(
    g: WindowGeometry,
    forward: Seq<Seq<usize>>,
    source: usize,
    upto: int,
) -> Seq<usize>
    decreases upto,
{
    if upto <= 0 {
        Seq::empty()
    } else if attaches(g, forward, source, upto - 1) {
        attached_dests(g, forward, source, upto - 1).push((upto - 1) as usize)
    } else {
        attached_dests(g, forward, source, upto - 1)
    }
}

/// The forward table after `source` was attached.
pub open spec fn forward_with(g: WindowGeometry, forward: Seq<Seq<usize>>, source: usize) -> Seq<
    Seq<usize>,
> {
    Seq::new(
        forward.len(),
        |d: int|
            if attaches(g, forward, source, d) {
                forward[d].push(source)
            } else {
                forward[d]
            },
    )
}

/// The reverse table with `extra` appended to the list of `source`; the
/// table itself where `extra` is empty.
pub open spec fn reverse_with(reverse: Map<usize, Seq<usize>>, source: usize, extra: Seq<usize>) -> Map<
    usize,
    Seq<usize>,
> {
    if extra.len() == 0 {
        reverse
    } else {
        reverse.insert(source, list_at(reverse, source) + extra)
    }
}

impl Tract {
    /// The geometry the tract was built from.
    pub open spec fn geometry(&self) -> WindowGeometry {
        WindowGeometry {
            source_height: self.source_height,
            source_width: self.source_width,
            kernel_height: self.kernel_height,
            kernel_width: self.kernel_width,
            stride_height: self.stride_height,
            stride_width: self.stride_width,
            padding: self.padding,
        }
    }

    /// The invariant of a tract: a geometry that a mapping can be computed
    /// for, and a well-formed mapping of that geometry's output size.
    pub open spec fn wf(&self) -> bool {
        &&& self.geometry().fits()
        &&& self.mapping.out_height == self.geometry().out_height()
        &&& self.mapping.out_width == self.geometry().out_width()
        &&& self.mapping.wf()
    }

    /// Builds the tract between two layers and computes its mapping.
    pub fn new(
        source_layer_index: usize,
        dest_layer_index: usize,
        source_height: usize,
        source_width: usize,
        kernel_height: usize,
        kernel_width: usize,
        stride_height: usize,
        stride_width: usize,
        padding: Padding,
    ) -> (tract: Self)
        requires
            (WindowGeometry {
                source_height,
                source_width,
                kernel_height,
                kernel_width,
                stride_height,
                stride_width,
                padding,
            }).fits(),
        ensures
            tract.wf(),
            tract.mapping.is_mapping_of(tract.geometry()),
            tract.source_layer_index == source_layer_index,
            tract.dest_layer_index == dest_layer_index,
            tract.geometry() == (WindowGeometry {
                source_height,
                source_width,
                kernel_height,
                kernel_width,
                stride_height,
                stride_width,
                padding,
            }),
    {
        let mapping = compute_window_mapping(
            source_height,
            source_width,
            kernel_height,
            kernel_width,
            stride_height,
            stride_width,
            padding,
        );
        Self {
            source_layer_index,
            dest_layer_index,
            mapping,
            source_height,
            source_width,
            kernel_height,
            kernel_width,
            stride_height,
            stride_width,
            padding,
        }
    }

    /// The number of distinct sources that the computed mapping covers.
    pub fn unique_source_count(&self) -> (count: usize)
        ensures
            count == self.mapping.unique_source_count,
    {
        self.mapping.unique_source_count
    }

    /// Subscribes every destination whose window holds the cell
    /// `new_source_index` to it, unless it is subscribed already.
    pub fn attach_source_neuron(&mut self, new_source_index: usize)
        requires
            old(self).wf(),
            old(self).source_width > 0,
        ensures
            final(self).wf(),
            final(self).geometry() == old(self).geometry(),
            final(self).source_layer_index == old(self).source_layer_index,
            final(self).dest_layer_index == old(self).dest_layer_index,
            final(self).mapping.unique_source_count == old(self).mapping.unique_source_count,
            final(self).mapping.forward() == forward_with(
                old(self).geometry(),
                old(self).mapping.forward(),
                new_source_index,
            ),
            final(self).mapping.reverse() == reverse_with(
                old(self).mapping.reverse(),
                new_source_index,
                attached_dests(
                    old(self).geometry(),
                    old(self).mapping.forward(),
                    new_source_index,
                    old(self).mapping.forward().len() as int,
                ),
            ),
    {
        let row: usize = new_source_index / self.source_width;
        let col: usize = new_source_index % self.source_width;
        let out_height: usize = self.mapping.out_height;
        let out_width: usize = self.mapping.out_width;
        let ghost g = self.geometry();
        let ghost forward0 = self.mapping.forward();
        let ghost reverse0 = self.mapping.reverse();
        let dest_count: usize = out_height * out_width;
        let mut dest_index: usize = 0;
        while dest_index < dest_count
            invariant
                g == self.geometry(),
                g == old(self).geometry(),
                g.fits(),
                g.source_width > 0,
                out_height == g.out_height(),
                out_width == g.out_width(),
                dest_count == g.dest_count(),
                self.mapping.out_height == out_height,
                self.mapping.out_width == out_width,
                self.source_layer_index == old(self).source_layer_index,
                self.dest_layer_index == old(self).dest_layer_index,
                self.mapping.unique_source_count == old(self).mapping.unique_source_count,
                row == new_source_index / g.source_width,
                col == new_source_index % g.source_width,
                dest_index <= dest_count,
                forward0.len() == dest_count,
                self.mapping.dest_to_sources@.len() == dest_count,
                forall|d: int|
                    0 <= d < dest_index ==> (#[trigger] self.mapping.dest_to_sources@[d])@ == (
                    if attaches(g, forward0, new_source_index, d) {
                        forward0[d].push(new_source_index)
                    } else {
                        forward0[d]
                    }),
                forall|d: int|
                    dest_index <= d < dest_count ==> (#[trigger] self.mapping.dest_to_sources@[d])@
                        == forward0[d],
                index_map_contents(self.mapping.source_to_dests) == reverse_with(
                    reverse0,
                    new_source_index,
                    attached_dests(g, forward0, new_source_index, dest_index as int),
                ),
            decreases dest_count - dest_index,
        {
            proof {
                lemma_dest_position(dest_index as int, out_height as int, out_width as int);
            }
            let dest_row: usize = dest_index / out_width;
            let dest_col: usize = dest_index % out_width;
            let (start_row, stop_row) = axis_span(
                self.source_height,
                self.kernel_height,
                self.stride_height,
                self.padding,
                dest_row,
            );
            let (start_col, stop_col) = axis_span(
                self.source_width,
                self.kernel_width,
                self.stride_width,
                self.padding,
                dest_col,
            );
            let inside = row >= start_row && row < stop_row && col >= start_col && col < stop_col;
            assert(inside == g.in_window(dest_index as int, new_source_index));
            if inside {
                let present = holds(&self.mapping.dest_to_sources[dest_index], new_source_index);
                if !present {
                    let ghost before = index_map_contents(self.mapping.source_to_dests);
                    let ghost extra = attached_dests(
                        g,
                        forward0,
                        new_source_index,
                        dest_index as int,
                    );
                    self.mapping.dest_to_sources[dest_index].push(new_source_index);
                    self.mapping.source_to_dests.entry_or_default(new_source_index).push(
                        dest_index,
                    );
                    proof {
                        let after = index_map_contents(self.mapping.source_to_dests);
                        let base = list_at(reverse0, new_source_index);
                        assert(list_at(before, new_source_index) == base + extra) by {
                            if extra.len() == 0 {
                                assert(base + extra =~= base);
                            }
                        }
                        assert((base + extra).push(dest_index) =~= base + extra.push(dest_index));
                        assert(after =~= reverse_with(
                            reverse0,
                            new_source_index,
                            extra.push(dest_index),
                        ));
                    }
                }
            }
            dest_index = dest_index + 1;
        }
        proof {
            assert(self.mapping.forward() =~= forward_with(g, forward0, new_source_index));
            lemma_attach_keeps_wf(old(self).mapping, self.mapping, g, new_source_index);
        }
    }
}

/// Whether `list` holds `value`.
fn holds(list: &Vec<usize>, value: usize) -> (found: bool)
    ensures
        found == list@.contains(value),
{
    let mut at: usize = 0;
    while at < list.len()
        invariant
            at <= list.len(),
            forall|i: int| 0 <= i < at ==> list@[i] != value,
        decreases list.len() - at,
    {
        if list[at] == value {
            return true;
        }
        at = at + 1;
    }
    false
}

/// The destinations that attaching adds a source to are below the bound,
/// ascending, and exactly those for which [`attaches`] holds.
pub proof fn lemma_attached_dests(
    g: WindowGeometry,
    forward: Seq<Seq<usize>>,
    source: usize,
    upto: int,
)
    requires
        0 <= upto <= usize::MAX + 1,
    ensures
        forall|d: usize| #[trigger]
            attached_dests(g, forward, source, upto).contains(d) <==> (d < upto && attaches(
                g,
                forward,
                source,
                d as int,
            )),
        forall|i: int, j: int|
            0 <= i < j < attached_dests(g, forward, source, upto).len() ==> attached_dests(
                g,
                forward,
                source,
                upto,
            )[i] < attached_dests(g, forward, source, upto)[j],
        forall|i: int|
            0 <= i < attached_dests(g, forward, source, upto).len() ==> attached_dests(
                g,
                forward,
                source,
                upto,
            )[i] < upto,
    decreases upto,
{
    if upto > 0 {
        lemma_attached_dests(g, forward, source, upto - 1);
        let prev = attached_dests(g, forward, source, upto - 1);
        let cur = attached_dests(g, forward, source, upto);
        if attaches(g, forward, source, upto - 1) {
            assert(cur == prev.push((upto - 1) as usize));
            assert forall|d: usize| #[trigger]
                cur.contains(d) <==> (d < upto && attaches(g, forward, source, d as int)) by {
                if cur.contains(d) {
                    let i = choose|i: int| 0 <= i < cur.len() && cur[i] == d;
                    if i < prev.len() {
                        assert(prev[i] == d);
                        assert(prev.contains(d));
                    }
                }
                if d < upto && attaches(g, forward, source, d as int) {
                    if d == upto - 1 {
                        assert(cur[prev.len() as int] == d);
                    } else {
                        assert(prev.contains(d));
                        let i = choose|i: int| 0 <= i < prev.len() && prev[i] == d;
                        assert(cur[i] == d);
                    }
                }
            }
        } else {
            assert(cur == prev);
        }
    }
}

/// Attaching a source keeps a mapping well formed: the two tables still
/// mirror each other, and no list holds an entry twice.
pub proof fn lemma_attach_keeps_wf(
    before: WindowMapping,
    after: WindowMapping,
    g: WindowGeometry,
    source: usize,
)
    requires
        before.wf(),
        before.forward().len() <= usize::MAX,
        after.out_height == before.out_height,
        after.out_width == before.out_width,
        after.forward() == forward_with(g, before.forward(), source),
        after.reverse() == reverse_with(
            before.reverse(),
            source,
            attached_dests(g, before.forward(), source, before.forward().len() as int),
        ),
    ensures
        after.wf(),
{
    let f0 = before.forward();
    let r0 = before.reverse();
    let n = f0.len() as int;
    let extra = attached_dests(g, f0, source, n);
    let f1 = after.forward();
    let r1 = after.reverse();
    lemma_attached_dests(g, f0, source, n);
    assert(after.dest_to_sources@.len() == f1.len());
    assert(before.dest_to_sources@.len() == f0.len());
    // what the list of each source holds afterwards
    assert forall|s: usize| #[trigger]
        list_at(r1, s) == (if s == source {
            list_at(r0, s) + extra
        } else {
            list_at(r0, s)
        }) by {
        if extra.len() == 0 {
            assert(list_at(r0, s) + extra =~= list_at(r0, s));
        }
    }
    assert forall|d: int| 0 <= d < f1.len() implies (#[trigger] f1[d]).no_duplicates() by {
        assert(f0[d].no_duplicates());
        if attaches(g, f0, source, d) {
            assert forall|i: int, j: int|
                0 <= i < f1[d].len() && 0 <= j < f1[d].len() && i != j implies f1[d][i]
                != f1[d][j] by {
                if i < f0[d].len() {
                    assert(f0[d].contains(f0[d][i]));
                }
                if j < f0[d].len() {
                    assert(f0[d].contains(f0[d][j]));
                }
            }
        }
    }
    assert forall|s: usize| (#[trigger] list_at(r1, s)).no_duplicates() by {
        assert(list_at(r0, s).no_duplicates());
        if s == source {
            let base = list_at(r0, s);
            let joined = base + extra;
            assert forall|i: int, j: int|
                0 <= i < joined.len() && 0 <= j < joined.len() && i != j implies joined[i]
                != joined[j] by {
                if i < base.len() && j >= base.len() {
                    assert(base.contains(base[i]));
                    assert(extra.contains(extra[j - base.len()]));
                }
                if j < base.len() && i >= base.len() {
                    assert(base.contains(base[j]));
                    assert(extra.contains(extra[i - base.len()]));
                }
            }
        }
    }
    assert forall|d: int, s: usize|
        0 <= d < f1.len() && #[trigger] f1[d].contains(s) implies list_at(r1, s).contains(
        d as usize,
    ) by {
        if f0[d].contains(s) {
            assert(list_at(r0, s).contains(d as usize));
            let i = choose|i: int| 0 <= i < list_at(r0, s).len() && list_at(r0, s)[i] == d as usize;
            assert(list_at(r1, s)[i] == d as usize);
        } else {
            let i = choose|i: int| 0 <= i < f1[d].len() && f1[d][i] == s;
            assert(attaches(g, f0, source, d));
            if i < f0[d].len() {
                assert(f0[d][i] == s);
            }
            assert(s == source);
            assert(extra.contains(d as usize));
            let j = choose|j: int| 0 <= j < extra.len() && extra[j] == d as usize;
            assert(list_at(r1, s)[list_at(r0, s).len() + j] == d as usize);
        }
    }
    assert forall|s: usize, d: usize| #[trigger]
        list_at(r1, s).contains(d) implies d < f1.len() && f1[d as int].contains(s) by {
        let i = choose|i: int| 0 <= i < list_at(r1, s).len() && list_at(r1, s)[i] == d;
        if i < list_at(r0, s).len() {
            assert(list_at(r0, s)[i] == d);
            assert(list_at(r0, s).contains(d));
            assert(f0[d as int].contains(s));
            let j = choose|j: int| 0 <= j < f0[d as int].len() && f0[d as int][j] == s;
            assert(f1[d as int][j] == s);
        } else {
            assert(s == source);
            assert(extra[i - list_at(r0, s).len()] == d);
            assert(extra.contains(d));
            assert(attaches(g, f0, source, d as int));
            assert(f1[d as int][f0[d as int].len() as int] == s);
        }
    }
}

/// On the mapping that the center rule computed, attaching a source
/// changes nothing: every cell of a window is subscribed already.
pub proof fn lemma_attach_to_computed_is_noop(g: WindowGeometry, forward: Seq<Seq<usize>>, source: usize)
    requires
        g.fits(),
        g.source_width > 0,
        forward == g.forward(),
    ensures
        forward_with(g, forward, source) == forward,
        attached_dests(g, forward, source, forward.len() as int).len() == 0,
{
    let n = forward.len() as int;
    assert forall|d: int| 0 <= d < n implies !attaches(g, forward, source, d) by {
        lemma_window_in_source(g, d);
    }
    assert(forward_with(g, forward, source) =~= forward);
    lemma_attached_dests(g, forward, source, n);
    let extra = attached_dests(g, forward, source, n);
    if extra.len() > 0 {
        assert(extra.contains(extra[0]));
    }
}

} // verus!
