//! Cell arithmetic: every cell is a byte, and adding to it or
//! subtracting from it wraps modulo 256.

use vstd::prelude::*;

verus! {

/// `cell` plus `n`, modulo 256.
pub open spec fn wrap_add(cell: u8, n: int) -> u8 {
    ((cell + n) % 256) as u8
}

/// `cell` minus `n`, modulo 256.
pub open spec fn wrap_sub(cell: u8, n: int) -> u8 {
    ((cell - n) % 256) as u8
}

/// Any integer is a multiple of 256 plus its remainder.
proof fn lemma_split(x: int) -> (q: int)
    ensures
        x == 256 * q + x % 256,
        0 <= x % 256 < 256,
{
    x / 256
}

/// The remainder is the only byte that differs from `x` by a multiple
/// of 256.
proof fn lemma_remainder(x: int, q: int, r: int)
    requires
        x == 256 * q + r,
        0 <= r < 256,
    ensures
        x % 256 == r,
{
    let p = lemma_split(x);
    assert(256 * (p - q) == r - x % 256);
    assert(p == q);
}

/// Cell arithmetic wraps: one more than 255 is 0 and one less than 0 is
/// 255; what was added can be subtracted again, and the other way round;
/// a full turn of 256 changes nothing.
pub proof fn lemma_cell_wraps(cell: u8, n: int)
    ensures
        wrap_add(255, 1) == 0,
        wrap_sub(0, 1) == 255,
        wrap_sub(wrap_add(cell, n), n) == cell,
        wrap_add(wrap_sub(cell, n), n) == cell,
        wrap_add(cell, n + 256) == wrap_add(cell, n),
        wrap_sub(cell, n + 256) == wrap_sub(cell, n),
{
    lemma_remainder(256, 1, 0);
    lemma_remainder(-1, -1, 255);
    let up = lemma_split(cell + n);
    lemma_remainder(wrap_add(cell, n) - n, -up, cell as int);
    lemma_remainder(cell + n + 256, up + 1, wrap_add(cell, n) as int);
    let down = lemma_split(cell - n);
    lemma_remainder(wrap_sub(cell, n) + n, -down, cell as int);
    lemma_remainder(cell - (n + 256), down - 1, wrap_sub(cell, n) as int);
}

/// Adding in several steps is adding the sum, and so for subtracting.
pub proof fn lemma_wrap_steps(cell: u8, a: int, b: int)
    ensures
        wrap_add(wrap_add(cell, a), b) == wrap_add(cell, a + b),
        wrap_sub(wrap_sub(cell, a), b) == wrap_sub(cell, a + b),
{
    let up = lemma_split(cell + a);
    let up_all = lemma_split(cell + a + b);
    lemma_remainder(wrap_add(cell, a) + b, up_all - up, wrap_add(cell, a + b) as int);
    let down = lemma_split(cell - a);
    let down_all = lemma_split(cell - (a + b));
    lemma_remainder(wrap_sub(cell, a) - b, down_all - down, wrap_sub(cell, a + b) as int);
}

/// Adds `n` to a cell, modulo 256.
pub fn add_wrapping(cell: u8, n: usize) -> (r: u8)
    ensures
        r == wrap_add(cell, n as int),
{
    let sum: usize = (cell as usize + n % 256) % 256;
    proof {
        let q = lemma_split(n as int);
        let p = lemma_split(cell + n % 256);
        lemma_remainder(cell + n, q + p, sum as int);
    }
    sum as u8
}

/// Subtracts `n` from a cell, modulo 256.
pub fn sub_wrapping(cell: u8, n: usize) -> (r: u8)
    ensures
        r == wrap_sub(cell, n as int),
{
    let difference: usize = (cell as usize + 256 - n % 256) % 256;
    proof {
        let q = lemma_split(n as int);
        let p = lemma_split(cell + 256 - n % 256);
        lemma_remainder(cell - n, p - q - 1, difference as int);
    }
    difference as u8
}

} // verus!
