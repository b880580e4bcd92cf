//! Deterministic index loops.

use vstd::prelude::*;

verus! {

/// Options of an index loop. Neither is consulted by the sequential loop.
#[derive(Copy, Clone, Debug, PartialEq, Eq, Structural)]
pub struct ParallelOptions {
    pub max_workers: Option<usize>,
    pub tile_size: Option<usize>,
}

impl Default for ParallelOptions {
    fn default() -> (opts: Self)
        ensures
            opts == (ParallelOptions { max_workers: None, tile_size: None }),
    {
        Self { max_workers: None, tile_size: None }
    }
}

/// Calls `f` on every index from `start` up to, not including, `end`, in
/// ascending order, on the calling thread. Every call is one that `f`
/// allows, and what `f` ensures of a call holds of every index afterwards.
pub fn parallel_for<F: FnMut(usize)>(start: usize, end: usize, _opts: &ParallelOptions, mut f: F)
    requires
        forall|index: usize| start <= index < end ==> f.requires((index,)),
    ensures
        forall|index: usize| start <= index < end ==> f.ensures((index,), ()),
{
    let mut index: usize = start;
    let ghost given = f;
    while index < end
        invariant
            start <= index,
            f == given,
            forall|i: usize| start <= i < end ==> f.requires((i,)),
            forall|i: usize| start <= i < index ==> f.ensures((i,), ()),
        decreases end - index,
    {
        f(index);
        index = index + 1;
    }
}

/// The number of indices in one tile: the tile size of the options, 64
/// where none is set, and at least one.
pub open spec fn tile_of(opts: ParallelOptions) -> int {
    let asked = match opts.tile_size {
        Some(size) => size as int,
        None => 64,
    };
    if asked < 1 {
        1
    } else {
        asked
    }
}

/// The number of workers: that of the options, one where none is set,
/// and at least one.
pub open spec fn workers_of(opts: ParallelOptions) -> int {
    let asked = match opts.max_workers {
        Some(count) => count as int,
        None => 1,
    };
    if asked < 1 {
        1
    } else {
        asked
    }
}

/// Computes [`workers_of`].
pub fn worker_count(opts: &ParallelOptions) -> (count: usize)
    ensures
        count == workers_of(*opts),
{
    let asked: usize = match opts.max_workers {
        Some(count) => count,
        None => 1,
    };
    if asked < 1 {
        1
    } else {
        asked
    }
}

/// Computes [`tile_of`].
pub fn tile_size(opts: &ParallelOptions) -> (size: usize)
    ensures
        size == tile_of(*opts),
{
    let asked: usize = match opts.tile_size {
        Some(size) => size,
        None => 64,
    };
    if asked < 1 {
        1
    } else {
        asked
    }
}

/// Cuts the range from `start` up to, not including, `end` into tiles
/// `(begin, finish)`: they follow each other without gap from `start` to
/// `end`, none is empty, and each holds a full tile of indices but the
/// last, which holds what is left.
pub fn plan_tiles(start: usize, end: usize, opts: &ParallelOptions) -> (tiles: Vec<(usize, usize)>)
    ensures
        end <= start ==> tiles@.len() == 0,
        start < end ==> tiles@.len() > 0 && tiles@[0].0 == start && tiles@[tiles@.len() - 1].1
            == end,
        forall|k: int|
            0 <= k < tiles@.len() ==> tiles@[k].0 < tiles@[k].1 && tiles@[k].1 - tiles@[k].0
                <= tile_of(*opts),
        forall|k: int| 0 < k < tiles@.len() ==> tiles@[k].0 == tiles@[k - 1].1,
        forall|k: int|
            0 <= k < tiles@.len() - 1 ==> tiles@[k].1 - tiles@[k].0 == tile_of(*opts),
{
    let tile: usize = tile_size(opts);
    let mut tiles: Vec<(usize, usize)> = Vec::new();
    let mut next: usize = start;
    while next < end
        invariant
            tile == tile_of(*opts),
            start <= next,
            start < end ==> next <= end,
            end <= start ==> tiles@.len() == 0,
            tiles@.len() == 0 ==> next == start,
            tiles@.len() > 0 ==> tiles@[0].0 == start && tiles@[tiles@.len() - 1].1 == next,
            forall|k: int|
                0 <= k < tiles@.len() ==> tiles@[k].0 < tiles@[k].1 && tiles@[k].1 - tiles@[k].0
                    <= tile,
            forall|k: int| 0 < k < tiles@.len() ==> tiles@[k].0 == tiles@[k - 1].1,
            forall|k: int|
                0 <= k < tiles@.len() ==> tiles@[k].1 - tiles@[k].0 == tile || tiles@[k].1 == end,
            forall|k: int| 0 <= k < tiles@.len() - 1 ==> tiles@[k].1 - tiles@[k].0 == tile,
        decreases end - next,
    {
        let begin: usize = next;
        let finish: usize = if end - next <= tile {
            end
        } else {
            next + tile
        };
        tiles.push((begin, finish));
        next = finish;
    }
    tiles
}

} // verus!
