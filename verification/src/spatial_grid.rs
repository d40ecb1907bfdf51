use std::collections::HashMap;
use vstd::prelude::*;

use crate::config::WORLD_CELLS;
use crate::seq_facts::lemma_flatten_contains;
use crate::torus::{
    lemma_wrap_basic,
    lemma_wrap_small_offsets,
    lemma_wrap_sub,
    lemma_wrap_unique,
    wrap_coord,
    wrap_exec,
};

verus! {

broadcast use vstd::std_specs::hash::group_hash_axioms;

/// A cell of the grid, as (column, row). Columns and rows are taken modulo
/// the width of the toroidal world, so many keys name the same cell.
pub type CellKey = (i32, i32);

/// The canonical key of the cell at column `x`, row `y`.
pub open spec fn wrap_cell(x: int, y: int) -> CellKey {
    (wrap_coord(x) as i32, wrap_coord(y) as i32)
}

/// Two keys name the same cell of the torus.
pub open spec fn same_cell(a: CellKey, b: CellKey) -> bool {
    wrap_cell(a.0 as int, a.1 as int) == wrap_cell(b.0 as int, b.1 as int)
}

/// A key in the canonical range.
pub open spec fn is_canonical(k: CellKey) -> bool {
    wrap_cell(k.0 as int, k.1 as int) == k
}

/// The single `u64` under which a cell is stored.
pub open spec fn cell_code(k: CellKey) -> u64 {
    ((k.0 + 0x8000_0000int) * 0x1_0000_0000int + (k.1 + 0x8000_0000int)) as u64
}

proof fn lemma_cell_code_injective(a: CellKey, b: CellKey)
    requires
        cell_code(a) == cell_code(b),
    ensures
        a == b,
{
    let xa = a.0 + 0x8000_0000int;
    let ya = a.1 + 0x8000_0000int;
    let xb = b.0 + 0x8000_0000int;
    let yb = b.1 + 0x8000_0000int;
    assert(xa * 0x1_0000_0000int + ya == xb * 0x1_0000_0000int + yb);
    if xa < xb {
        assert(xa * 0x1_0000_0000int + 0x1_0000_0000int <= xb * 0x1_0000_0000int);
    } else if xb < xa {
        assert(xb * 0x1_0000_0000int + 0x1_0000_0000int <= xa * 0x1_0000_0000int);
    }
}

fn encode_cell(k: CellKey) -> (r: u64)
    ensures
        r == cell_code(k),
{
    let x: u64 = (k.0 as i64 + 0x8000_0000i64) as u64;
    let y: u64 = (k.1 as i64 + 0x8000_0000i64) as u64;
    x * 0x1_0000_0000u64 + y
}

/// The canonical key of a cell.
fn canonical_key(x: i64, y: i64) -> (k: CellKey)
    requires
        -0x100_0000_0000 < x < 0x100_0000_0000,
        -0x100_0000_0000 < y < 0x100_0000_0000,
    ensures
        k == wrap_cell(x as int, y as int),
{
    (wrap_exec(x), wrap_exec(y))
}

/// The wrapped key names the same cell and is canonical.
pub proof fn lemma_wrap_cell(x: int, y: int)
    ensures
        is_canonical(wrap_cell(x, y)),
        -(WORLD_CELLS / 2) <= wrap_cell(x, y).0 < WORLD_CELLS / 2,
        -(WORLD_CELLS / 2) <= wrap_cell(x, y).1 < WORLD_CELLS / 2,
{
    lemma_wrap_basic(x);
    lemma_wrap_basic(y);
    lemma_wrap_sub(x, 0);
    lemma_wrap_sub(y, 0);
}

/// The nine cells of the torus around `k` (itself included), as canonical
/// keys: column offset outer and row offset inner, each running over
/// -1, 0, 1.
pub open spec fn neighbor_keys(k: CellKey) -> Seq<CellKey> {
    Seq::new(9, |i: int| wrap_cell(k.0 + i / 3 - 1, k.1 + i % 3 - 1))
}

/// Two cells that touch on the torus: they differ by at most one column and
/// one row, counted modulo the world width (a cell touches itself, and the
/// cells on opposite edges of the world touch).
pub open spec fn adjacent(a: CellKey, b: CellKey) -> bool {
    -1 <= wrap_coord(a.0 - b.0) <= 1 && -1 <= wrap_coord(a.1 - b.1) <= 1
}

/// Adjacency does not depend on which key names a cell.
pub proof fn lemma_adjacent_wrapped(q: CellKey, k: CellKey)
    ensures
        adjacent(q, k) <==> adjacent(q, wrap_cell(k.0 as int, k.1 as int)),
{
    lemma_wrap_basic(k.0 as int);
    lemma_wrap_basic(k.1 as int);
    lemma_wrap_sub(q.0 as int, k.0 as int);
    lemma_wrap_sub(q.1 as int, k.1 as int);
}

proof fn lemma_neighbor_key_at(q: CellKey, idx: int)
    requires
        0 <= idx < 9,
    ensures
        is_canonical(neighbor_keys(q)[idx]),
        adjacent(q, neighbor_keys(q)[idx]),
{
    let dx = idx / 3 - 1;
    let dy = idx % 3 - 1;
    assert(-1 <= dx <= 1 && -1 <= dy <= 1);
    assert(neighbor_keys(q)[idx] == wrap_cell(q.0 + dx, q.1 + dy));
    lemma_wrap_cell(q.0 + dx, q.1 + dy);
    lemma_wrap_sub(q.0 + dx, q.0 as int);
    lemma_wrap_sub(q.1 + dy, q.1 as int);
    assert(q.0 as int - (q.0 + dx) == -dx);
    assert(q.1 as int - (q.1 + dy) == -dy);
    lemma_wrap_unique(-dx, -dx);
    lemma_wrap_unique(-dy, -dy);
}

proof fn lemma_neighbor_key_found(q: CellKey, k: CellKey)
    requires
        is_canonical(k),
        adjacent(q, k),
    ensures
        neighbor_keys(q).contains(k),
{
    let dx = -wrap_coord(q.0 - k.0);
    let dy = -wrap_coord(q.1 - k.1);
    lemma_wrap_basic(q.0 - k.0);
    lemma_wrap_basic(q.1 - k.1);
    lemma_wrap_cell(k.0 as int, k.1 as int);
    lemma_wrap_unique(q.0 + dx, k.0 as int);
    lemma_wrap_unique(q.1 + dy, k.1 as int);
    let idx = (dx + 1) * 3 + (dy + 1);
    assert(idx / 3 == dx + 1 && idx % 3 == dy + 1);
    assert(neighbor_keys(q)[idx] == k);
}

proof fn lemma_neighbor_keys_distinct(q: CellKey, a: int, b: int)
    requires
        0 <= a < 9,
        0 <= b < 9,
        neighbor_keys(q)[a] == neighbor_keys(q)[b],
    ensures
        a == b,
{
    assert(a == 3 * (a / 3) + a % 3);
    assert(b == 3 * (b / 3) + b % 3);
    lemma_wrap_cell(q.0 + a / 3 - 1, q.1 + a % 3 - 1);
    lemma_wrap_cell(q.0 + b / 3 - 1, q.1 + b % 3 - 1);
    lemma_wrap_small_offsets(q.0 as int, a / 3 - 1, b / 3 - 1);
    lemma_wrap_small_offsets(q.1 as int, a % 3 - 1, b % 3 - 1);
}

/// `neighbor_keys(q)` lists exactly the canonical keys of the cells touching
/// `q`, each once.
pub proof fn lemma_neighbor_keys(q: CellKey)
    ensures
        forall|k: CellKey| #[trigger]
            neighbor_keys(q).contains(k) <==> (is_canonical(k) && adjacent(q, k)),
        neighbor_keys(q).no_duplicates(),
{
    let keys = neighbor_keys(q);
    assert forall|k: CellKey| #[trigger]
        keys.contains(k) <==> (is_canonical(k) && adjacent(q, k)) by {
        if keys.contains(k) {
            let idx = choose|idx: int| 0 <= idx < keys.len() && keys[idx] == k;
            lemma_neighbor_key_at(q, idx);
        }
        if is_canonical(k) && adjacent(q, k) {
            lemma_neighbor_key_found(q, k);
        }
    }
    assert forall|a: int, b: int| 0 <= a < keys.len() && 0 <= b < keys.len() && a != b implies keys[a]
        != keys[b] by {
        if keys[a] == keys[b] {
            lemma_neighbor_keys_distinct(q, a, b);
        }
    }
}

/// Spatial hash grid over the toroidal world: every cell holds, in insertion
/// order, the items (particle indices) that were inserted into it.
pub struct SpatialGrid {
    cells: HashMap<u64, Vec<usize>>,
}

impl SpatialGrid {
    /// What the grid holds in the cell named by `k`, in insertion order.
    pub closed spec fn cell(self, k: CellKey) -> Seq<usize> {
        let c = cell_code(wrap_cell(k.0 as int, k.1 as int));
        if self.cells@.contains_key(c) {
            self.cells@[c]@
        } else {
            Seq::empty()
        }
    }

    /// Keys that name the same cell see the same contents.
    pub proof fn lemma_cell_wrapped(self, k: CellKey)
        ensures
            self.cell(k) == self.cell(wrap_cell(k.0 as int, k.1 as int)),
    {
        lemma_wrap_cell(k.0 as int, k.1 as int);
    }

    /// The items of the nine cells around `k`, cell after cell in the order
    /// of `neighbor_keys`, each cell in insertion order.
    pub open spec fn neighborhood(self, k: CellKey) -> Seq<usize> {
        neighbor_keys(k).map_values(|c: CellKey| self.cell(c)).flatten()
    }

    /// `after` is `self` with `item` appended to the cell named by `key`.
    pub open spec fn is_insertion(self, after: SpatialGrid, key: CellKey, item: usize) -> bool {
        forall|k: CellKey| #[trigger]
            after.cell(k) == if same_cell(k, key) {
                self.cell(k).push(item)
            } else {
                self.cell(k)
            }
    }

    /// Every cell is empty.
    pub open spec fn is_empty(self) -> bool {
        forall|k: CellKey| #[trigger] self.cell(k) == Seq::<usize>::empty()
    }

    /// An empty grid.
    pub fn new() -> (grid: SpatialGrid)
        ensures
            grid.is_empty(),
    {
        SpatialGrid { cells: HashMap::new() }
    }

    /// Empties every cell.
    pub fn clear(&mut self)
        ensures
            final(self).is_empty(),
    {
        self.cells.clear();
    }

    /// Appends `item` to the cell named by `key`; every other cell is
    /// unchanged.
    pub fn insert(&mut self, key: CellKey, item: usize)
        ensures
            old(self).is_insertion(*final(self), key, item),
    {
        let ck = canonical_key(key.0 as i64, key.1 as i64);
        let code = encode_cell(ck);
        let mut items = match self.cells.remove(&code) {
            Some(v) => v,
            None => Vec::new(),
        };
        items.push(item);
        self.cells.insert(code, items);
        proof {
            assert forall|k: CellKey| #[trigger]
                self.cell(k) == if same_cell(k, key) {
                    old(self).cell(k).push(item)
                } else {
                    old(self).cell(k)
                } by {
                let wk = wrap_cell(k.0 as int, k.1 as int);
                if cell_code(wk) == cell_code(ck) {
                    lemma_cell_code_injective(wk, ck);
                }
            }
        }
    }

    /// Items of the nine cells around `key` on the torus, the item's own cell
    /// included (callers filter themselves out).
    pub fn query_neighbors(&self, key: CellKey) -> (res: Vec<usize>)
        ensures
            res@ == self.neighborhood(key),
    {
        let ghost keys = neighbor_keys(key);
        let ghost f = |c: CellKey| self.cell(c);
        let mut res: Vec<usize> = Vec::new();
        let mut i: usize = 0;
        assert(keys.take(0).map_values(f) =~= Seq::<Seq<usize>>::empty());
        while i < 9
            invariant
                i <= 9,
                keys == neighbor_keys(key),
                f == (|c: CellKey| self.cell(c)),
                res@ == keys.take(i as int).map_values(f).flatten(),
            decreases 9 - i,
        {
            let dx: i64 = (i / 3) as i64 - 1;
            let dy: i64 = (i % 3) as i64 - 1;
            let k: CellKey = canonical_key(key.0 as i64 + dx, key.1 as i64 + dy);
            assert(k == keys[i as int]);
            proof {
                lemma_wrap_cell(key.0 + dx, key.1 + dy);
            }
            let ghost before = res@;
            match self.cells.get(&encode_cell(k)) {
                Some(items) => {
                    let mut j: usize = 0;
                    while j < items.len()
                        invariant
                            j <= items@.len(),
                            res@ == before + items@.take(j as int),
                        decreases items@.len() - j,
                    {
                        res.push(items[j]);
                        j += 1;
                        assert(items@.take(j as int) =~= items@.take(j - 1).push(items@[j - 1]));
                    }
                    assert(items@.take(j as int) =~= items@);
                    assert(items@ == self.cell(k));
                },
                None => {
                    assert(self.cell(k) == Seq::<usize>::empty());
                    assert(res@ =~= before + self.cell(k));
                },
            }
            assert(res@ == before + f(k));
            proof {
                assert(keys.take(i + 1).map_values(f) =~= keys.take(i as int).map_values(f).push(f(k)));
                keys.take(i as int).map_values(f).lemma_flatten_push(f(k));
            }
            i += 1;
        }
        assert(keys.take(9) =~= keys);
        res
    }

    /// An item is in the neighbourhood of a cell exactly when it lies in one
    /// of the nine cells touching it on the torus.
    pub proof fn lemma_neighborhood_contains(self, q: CellKey, x: usize)
        ensures
            self.neighborhood(q).contains(x) <==> exists|k: CellKey|
                adjacent(q, k) && #[trigger] self.cell(k).contains(x),
    {
        let keys = neighbor_keys(q);
        let s = keys.map_values(|c: CellKey| self.cell(c));
        lemma_neighbor_keys(q);
        lemma_flatten_contains(s, x);
        if self.neighborhood(q).contains(x) {
            let idx = choose|idx: int| 0 <= idx < s.len() && #[trigger] s[idx].contains(x);
            assert(keys.contains(keys[idx]));
            assert(self.cell(keys[idx]).contains(x));
        }
        if exists|k: CellKey| adjacent(q, k) && #[trigger] self.cell(k).contains(x) {
            let k = choose|k: CellKey| adjacent(q, k) && #[trigger] self.cell(k).contains(x);
            let wk = wrap_cell(k.0 as int, k.1 as int);
            lemma_adjacent_wrapped(q, k);
            lemma_wrap_cell(k.0 as int, k.1 as int);
            self.lemma_cell_wrapped(k);
            assert(keys.contains(wk));
            let idx = choose|idx: int| 0 <= idx < keys.len() && keys[idx] == wk;
            assert(s[idx].contains(x));
        }
    }
}

/// What was inserted is found again: after `item` goes into cell `key`, a
/// neighbour query from `key` or from any cell touching it on the torus
/// returns `item`.
pub proof fn lemma_insert_then_query(
    before: SpatialGrid,
    after: SpatialGrid,
    key: CellKey,
    item: usize,
    q: CellKey,
)
    requires
        before.is_insertion(after, key, item),
        adjacent(q, key),
    ensures
        after.neighborhood(q).contains(item),
{
    assert(after.cell(key) == before.cell(key).push(item));
    assert(after.cell(key).last() == item);
    assert(after.cell(key).contains(item));
    after.lemma_neighborhood_contains(q, item);
}

/// A neighbour query returns the contents of the queried cell itself, so the
/// querying item finds itself.
pub proof fn lemma_query_includes_own_cell(grid: SpatialGrid, q: CellKey, x: usize)
    requires
        grid.cell(q).contains(x),
    ensures
        grid.neighborhood(q).contains(x),
{
    lemma_wrap_basic(0);
    lemma_wrap_unique(0, 0);
    grid.lemma_neighborhood_contains(q, x);
}

/// Cells on opposite edges of the world touch: the grid has no walls.
pub proof fn lemma_opposite_edges_touch(row: i32)
    ensures
        adjacent(
            ((-(WORLD_CELLS / 2)) as i32, row),
            ((WORLD_CELLS / 2 - 1) as i32, row),
        ),
        adjacent(
            (row, (-(WORLD_CELLS / 2)) as i32),
            (row, (WORLD_CELLS / 2 - 1) as i32),
        ),
{
    lemma_wrap_unique(-(WORLD_CELLS as int) + 1, 1);
    lemma_wrap_unique(0, 0);
}

/// An emptied grid answers every neighbour query with nothing.
pub proof fn lemma_empty_grid_query(grid: SpatialGrid, q: CellKey)
    requires
        grid.is_empty(),
    ensures
        grid.neighborhood(q) == Seq::<usize>::empty(),
{
    if grid.neighborhood(q).len() > 0 {
        let x = grid.neighborhood(q)[0];
        assert(grid.neighborhood(q).contains(x));
        grid.lemma_neighborhood_contains(q, x);
        let k = choose|k: CellKey| adjacent(q, k) && #[trigger] grid.cell(k).contains(x);
        assert(grid.cell(k) == Seq::<usize>::empty());
    }
}

impl Default for SpatialGrid {
    /// An empty grid.
    fn default() -> (grid: Self)
        ensures
            grid.is_empty(),
    {
        SpatialGrid::new()
    }
}

} // verus!
