use vstd::prelude::*;

use crate::config::WORLD_CELLS;

verus! {

/// A cell coordinate brought into the canonical range
/// `-WORLD_CELLS / 2 .. WORLD_CELLS / 2` of the toroidal world.
pub open spec fn wrap_coord(c: int) -> int {
    (c + WORLD_CELLS / 2) % (WORLD_CELLS as int) - WORLD_CELLS / 2
}

/// The wrapped coordinate lies in the canonical range and differs from the
/// coordinate by a whole number of world widths.
pub proof fn lemma_wrap_basic(c: int)
    ensures
        -(WORLD_CELLS / 2) <= wrap_coord(c) < WORLD_CELLS / 2,
        (c - wrap_coord(c)) % (WORLD_CELLS as int) == 0,
{
}

/// A canonical coordinate congruent to `c` is `c`'s wrapped coordinate.
pub proof fn lemma_wrap_unique(c: int, r: int)
    requires
        -(WORLD_CELLS / 2) <= r < WORLD_CELLS / 2,
        (c - r) % (WORLD_CELLS as int) == 0,
    ensures
        wrap_coord(c) == r,
{
}

/// Wrapping ignores whole world widths in a difference.
pub proof fn lemma_wrap_sub(a: int, b: int)
    ensures
        wrap_coord(a - wrap_coord(b)) == wrap_coord(a - b),
        wrap_coord(wrap_coord(a) - b) == wrap_coord(a - b),
        wrap_coord(wrap_coord(a)) == wrap_coord(a),
{
}

/// Wrapping is symmetric on differences of at most one cell.
pub proof fn lemma_wrap_neg(d: int)
    requires
        -1 <= wrap_coord(d) <= 1,
    ensures
        wrap_coord(-d) == -wrap_coord(d),
{
}

/// Two coordinates within one cell of a third wrap to the same place only
/// if they are equal.
pub proof fn lemma_wrap_small_offsets(c: int, a: int, b: int)
    requires
        -1 <= a <= 1,
        -1 <= b <= 1,
        wrap_coord(c + a) == wrap_coord(c + b),
    ensures
        a == b,
{
}

/// Brings a coordinate into the canonical range.
pub fn wrap_exec(c: i64) -> (r: i32)
    requires
        -0x100_0000_0000 < c < 0x100_0000_0000,
    ensures
        r == wrap_coord(c as int),
{
    let width: i64 = WORLD_CELLS as i64;
    let shifted: u64 = (c + width / 2 + width * 0x100_0000_0000) as u64;
    ((shifted % (width as u64)) as i64 - width / 2) as i32
}

} // verus!
