use vstd::prelude::*;

use crate::resources::SimState;
use crate::seq_facts::{
    lemma_filter_contains_iff,
    lemma_filter_no_duplicates,
    lemma_flatten_contains,
    lemma_flatten_no_duplicates,
};
use crate::spatial_grid::{
    adjacent,
    is_canonical,
    lemma_adjacent_wrapped,
    lemma_neighbor_keys,
    lemma_wrap_cell,
    neighbor_keys,
    same_cell,
    wrap_cell,
    CellKey,
    SpatialGrid,
};
use crate::torus::lemma_wrap_neg;

verus! {

/// The particles (by index) whose cell is the one named by `k`, in increasing
/// index order:
/// what a grid holds in cell `k` after the particles were inserted in order.
pub open spec fn bucket(cells: Seq<CellKey>, k: CellKey) -> Seq<usize>
    decreases cells.len(),
{
    if cells.len() == 0 {
        Seq::empty()
    } else {
        let rest = bucket(cells.drop_last(), k);
        if same_cell(cells.last(), k) {
            rest.push((cells.len() - 1) as usize)
        } else {
            rest
        }
    }
}

/// Holds of every particle index but `i`.
pub open spec fn other_than(i: int) -> spec_fn(usize) -> bool {
    |j: usize| j != i
}

/// The candidates that particle `i` interacts with: the occupants of the nine
/// cells around its own cell on the torus, cell after cell, without `i`
/// itself.
pub open spec fn neighbors_of(cells: Seq<CellKey>, i: int) -> Seq<usize> {
    neighbor_keys(cells[i]).map_values(|c: CellKey| bucket(cells, c)).flatten().filter(other_than(i))
}

/// The discrete half of one interaction step. Unless the simulation is paused
/// (then nothing happens and `None` comes back), the grid is rebuilt from the
/// particles' cells (particle `i` lives in `cells[i]`) and, for every particle,
/// the list of neighbours whose forces act on it is returned, in the order in
/// which the forces are summed.
pub fn apply_interactions(grid: &mut SpatialGrid, state: &SimState, cells: &Vec<CellKey>) -> (res:
    Option<Vec<Vec<usize>>>)
    ensures
        state.paused ==> res is None && *final(grid) == *old(grid),
        !state.paused ==> {
            &&& res is Some
            &&& forall|k: CellKey| #[trigger] final(grid).cell(k) == bucket(cells@, k)
            &&& res->0.len() == cells.len()
            &&& forall|i: int|
                0 <= i < cells.len() ==> #[trigger] res->0[i]@ == neighbors_of(cells@, i)
        },
{
    if state.paused {
        return None;
    }
    let n = cells.len();
    grid.clear();
    let mut i: usize = 0;
    while i < n
        invariant
            n == cells.len(),
            i <= n,
            forall|k: CellKey| #[trigger] grid.cell(k) == bucket(cells@.take(i as int), k),
        decreases n - i,
    {
        let ghost before = *grid;
        grid.insert(cells[i], i);
        proof {
            let t = cells@.take(i + 1);
            assert(t.drop_last() =~= cells@.take(i as int));
            assert forall|k: CellKey| #[trigger] grid.cell(k) == bucket(t, k) by {
                assert(grid.cell(k) == if same_cell(k, cells@[i as int]) {
                    before.cell(k).push(i)
                } else {
                    before.cell(k)
                });
            }
        }
        i += 1;
    }
    assert(cells@.take(n as int) =~= cells@);
    let mut out: Vec<Vec<usize>> = Vec::new();
    let mut i: usize = 0;
    while i < n
        invariant
            n == cells.len(),
            i <= n,
            forall|k: CellKey| #[trigger] grid.cell(k) == bucket(cells@, k),
            out.len() == i,
            forall|p: int| 0 <= p < i ==> #[trigger] out[p]@ == neighbors_of(cells@, p),
        decreases n - i,
    {
        let candidates = grid.query_neighbors(cells[i]);
        let ghost keys = neighbor_keys(cells@[i as int]);
        assert(keys.map_values(|c: CellKey| grid.cell(c)) =~= keys.map_values(
            |c: CellKey| bucket(cells@, c),
        ));
        let ghost pred = other_than(i as int);
        let mut mine: Vec<usize> = Vec::new();
        let mut j: usize = 0;
        while j < candidates.len()
            invariant
                j <= candidates@.len(),
                pred == other_than(i as int),
                mine@ == candidates@.take(j as int).filter(pred),
            decreases candidates@.len() - j,
        {
            let c = candidates[j];
            proof {
                reveal_with_fuel(Seq::filter, 1);
                assert(candidates@.take(j + 1).drop_last() =~= candidates@.take(j as int));
            }
            if c != i {
                mine.push(c);
            }
            j += 1;
        }
        proof {
            assert(candidates@.take(j as int) =~= candidates@);
            assert(candidates@ == keys.map_values(|c: CellKey| bucket(cells@, c)).flatten());
            assert(mine@ == neighbors_of(cells@, i as int));
        }
        out.push(mine);
        i += 1;
    }
    Some(out)
}

/// A bucket holds each particle of its cell once, and nothing else.
pub proof fn lemma_bucket(cells: Seq<CellKey>, k: CellKey)
    requires
        cells.len() <= usize::MAX,
    ensures
        forall|j: usize| #[trigger]
            bucket(cells, k).contains(j) <==> (j < cells.len() && same_cell(cells[j as int], k)),
        bucket(cells, k).no_duplicates(),
    decreases cells.len(),
{
    if cells.len() > 0 {
        let rest = cells.drop_last();
        lemma_bucket(rest, k);
        let b = bucket(cells, k);
        let last = (cells.len() - 1) as usize;
        assert forall|j: usize| #[trigger]
            b.contains(j) <==> (j < cells.len() && same_cell(cells[j as int], k)) by {
            assert(bucket(rest, k).contains(j) <==> (j < rest.len() && same_cell(rest[j as int], k)));
            if j < cells.len() - 1 {
                assert(cells[j as int] == rest[j as int]);
            }
            if same_cell(cells.last(), k) {
                assert(b == bucket(rest, k).push(last));
                if b.contains(j) && j != last {
                    let c = choose|c: int| 0 <= c < b.len() && b[c] == j;
                    assert(bucket(rest, k)[c] == j);
                }
                if j < cells.len() - 1 && same_cell(cells[j as int], k) {
                    let c = choose|c: int| 0 <= c < bucket(rest, k).len() && bucket(rest, k)[c] == j;
                    assert(b[c] == j);
                }
                if j == last {
                    assert(b[b.len() - 1] == j);
                }
            }
        }
        if same_cell(cells.last(), k) {
            assert(!bucket(rest, k).contains(last));
            assert forall|a: int, c: int| 0 <= a < b.len() && 0 <= c < b.len() && a != c implies b[a]
                != b[c] by {
                if a == b.len() - 1 {
                    assert(bucket(rest, k).contains(b[c]));
                } else if c == b.len() - 1 {
                    assert(bucket(rest, k).contains(b[a]));
                }
            }
        }
    }
}

/// Neighbour search is exact: particle `j` is a neighbour of particle `i`
/// exactly when it is another particle whose cell touches `i`'s cell on the
/// torus (across the edges of the world too).
pub proof fn lemma_neighbors_exact(cells: Seq<CellKey>, i: int, j: usize)
    requires
        cells.len() <= usize::MAX,
        0 <= i < cells.len(),
    ensures
        neighbors_of(cells, i).contains(j) <==> (j < cells.len() && j != i && adjacent(
            cells[i],
            cells[j as int],
        )),
{
    let keys = neighbor_keys(cells[i]);
    let s = keys.map_values(|c: CellKey| bucket(cells, c));
    lemma_filter_contains_iff(s.flatten(), other_than(i), j);
    lemma_flatten_contains(s, j);
    lemma_neighbor_keys(cells[i]);
    if s.flatten().contains(j) {
        let idx = choose|idx: int| 0 <= idx < s.len() && #[trigger] s[idx].contains(j);
        lemma_bucket(cells, keys[idx]);
        assert(keys.contains(keys[idx]));
        lemma_adjacent_wrapped(cells[i], cells[j as int]);
    }
    if j < cells.len() && adjacent(cells[i], cells[j as int]) {
        let c = cells[j as int];
        let w = wrap_cell(c.0 as int, c.1 as int);
        lemma_wrap_cell(c.0 as int, c.1 as int);
        lemma_adjacent_wrapped(cells[i], c);
        assert(keys.contains(w));
        let idx = choose|idx: int| 0 <= idx < keys.len() && keys[idx] == w;
        lemma_bucket(cells, w);
        assert(s[idx].contains(j));
    }
}

/// Interaction is mutual: `j` is among `i`'s neighbours exactly when `i` is
/// among `j`'s.
pub proof fn lemma_neighbors_symmetric(cells: Seq<CellKey>, i: usize, j: usize)
    requires
        cells.len() <= usize::MAX,
        i < cells.len(),
        j < cells.len(),
    ensures
        neighbors_of(cells, i as int).contains(j) <==> neighbors_of(cells, j as int).contains(i),
{
    lemma_neighbors_exact(cells, i as int, j);
    lemma_neighbors_exact(cells, j as int, i);
    let a = cells[i as int];
    let b = cells[j as int];
    if adjacent(a, b) {
        lemma_wrap_neg(a.0 - b.0);
        lemma_wrap_neg(a.1 - b.1);
    }
    if adjacent(b, a) {
        lemma_wrap_neg(b.0 - a.0);
        lemma_wrap_neg(b.1 - a.1);
    }
}

/// No neighbour is counted twice: each neighbour's force is added once.
pub proof fn lemma_neighbors_no_duplicates(cells: Seq<CellKey>, i: int)
    requires
        cells.len() <= usize::MAX,
        0 <= i < cells.len(),
    ensures
        neighbors_of(cells, i).no_duplicates(),
{
    let keys = neighbor_keys(cells[i]);
    let s = keys.map_values(|c: CellKey| bucket(cells, c));
    lemma_neighbor_keys(cells[i]);
    assert forall|a: int| 0 <= a < s.len() implies #[trigger] s[a].no_duplicates() by {
        lemma_bucket(cells, keys[a]);
    }
    assert forall|a: int, b: int| 0 <= a < b < s.len() implies #[trigger] s[a].disjoint(
        #[trigger] s[b],
    ) by {
        lemma_bucket(cells, keys[a]);
        lemma_bucket(cells, keys[b]);
        assert(keys.contains(keys[a]));
        assert(keys.contains(keys[b]));
        assert(is_canonical(keys[a]) && is_canonical(keys[b]));
        assert forall|x: int, y: int| 0 <= x < s[a].len() && 0 <= y < s[b].len() implies s[a][x]
            != s[b][y] by {
            assert(s[a].contains(s[a][x]));
            assert(s[b].contains(s[b][y]));
        }
    }
    lemma_flatten_no_duplicates(s);
    lemma_filter_no_duplicates(s.flatten(), other_than(i));
}

} // verus!
