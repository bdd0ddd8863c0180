//! The eight sliding directions, each a shift and an edge guard, and the
//! ray walk that sliding pieces use.
use vstd::prelude::*;
use crate::bits::{is_square, lemma_shift_square, lemma_square_in};

verus! {

/// The h-file (file index 0).
pub const FILE_H: u64 = 0x0101_0101_0101_0101;

/// The a-file (file index 7).
pub const FILE_A: u64 = 0x8080_8080_8080_8080;

/// Directions as seen from White's side of the board.
#[derive(Clone, Copy, Debug, PartialEq, Eq, Structural)]
pub enum Direction {
    NorthWest,
    NorthEast,
    SouthEast,
    SouthWest,
    West,
    North,
    East,
    South,
}

/// The direction table: diagonals at 0..4, orthogonals at 4..8.
pub open spec fn direction(i: u64) -> Direction {
    if i == 0 {
        Direction::NorthWest
    } else if i == 1 {
        Direction::NorthEast
    } else if i == 2 {
        Direction::SouthEast
    } else if i == 3 {
        Direction::SouthWest
    } else if i == 4 {
        Direction::West
    } else if i == 5 {
        Direction::North
    } else if i == 6 {
        Direction::East
    } else {
        Direction::South
    }
}

/// The mask `x` moved `n` squares toward `d` (squares that leave the board
/// through the top or bottom drop out).
pub open spec fn step(d: Direction, x: u64, n: u64) -> u64 {
    match d {
        Direction::NorthWest => x << ((9 * n) as u64),
        Direction::NorthEast => x << ((7 * n) as u64),
        Direction::SouthEast => x >> ((9 * n) as u64),
        Direction::SouthWest => x >> ((7 * n) as u64),
        Direction::West => x << n,
        Direction::North => x << ((8 * n) as u64),
        Direction::East => x >> n,
        Direction::South => x >> ((8 * n) as u64),
    }
}

/// Squares that a step toward `d` can only reach by wrapping around a side
/// edge of the board.
pub open spec fn guard(d: Direction) -> u64 {
    match d {
        Direction::NorthWest => FILE_H,
        Direction::NorthEast => FILE_A,
        Direction::SouthEast => FILE_A,
        Direction::SouthWest => FILE_H,
        Direction::West => FILE_H,
        Direction::North => 0,
        Direction::East => FILE_A,
        Direction::South => 0,
    }
}

/// The ray from `o` toward `d`, from distance `n` on: the nearest square not
/// in `seen`. The ray ends (no target) at the board's edge, at a square of
/// `own`, and at a square of `enemy` already in `seen`; a square of `enemy`
/// not in `seen` is the target itself.
pub open spec fn ray_target(d: Direction, o: u64, own: u64, enemy: u64, seen: u64, n: u64) -> u64
    decreases 8 - n,
{
    if n < 1 || n > 7 {
        0
    } else {
        let s = step(d, o, n);
        if s == 0 || s & guard(d) != 0 || s & own != 0 {
            0
        } else if s & seen == 0 {
            s
        } else if s & enemy != 0 {
            0
        } else {
            ray_target(d, o, own, enemy, seen, (n + 1) as u64)
        }
    }
}

/// The first nonempty ray target among table directions `i..end`.
pub open spec fn slide_target(o: u64, own: u64, enemy: u64, seen: u64, i: u64, end: u64) -> u64
    decreases end - i,
{
    if i >= end || i >= 8 {
        0
    } else {
        let r = ray_target(direction(i), o, own, enemy, seen, 1);
        if r != 0 {
            r
        } else {
            slide_target(o, own, enemy, seen, (i + 1) as u64, end)
        }
    }
}

pub fn direction_at(i: u64) -> (r: Direction)
    ensures
        r == direction(i),
{
    if i == 0 {
        Direction::NorthWest
    } else if i == 1 {
        Direction::NorthEast
    } else if i == 2 {
        Direction::SouthEast
    } else if i == 3 {
        Direction::SouthWest
    } else if i == 4 {
        Direction::West
    } else if i == 5 {
        Direction::North
    } else if i == 6 {
        Direction::East
    } else {
        Direction::South
    }
}

/// Moves `x` by `n` squares toward `d`.
pub fn shift(d: Direction, x: u64, n: u64) -> (r: u64)
    requires
        1 <= n <= 7,
    ensures
        r == step(d, x, n),
{
    match d {
        Direction::NorthWest => x << (9 * n),
        Direction::NorthEast => x << (7 * n),
        Direction::SouthEast => x >> (9 * n),
        Direction::SouthWest => x >> (7 * n),
        Direction::West => x << n,
        Direction::North => x << (8 * n),
        Direction::East => x >> n,
        Direction::South => x >> (8 * n),
    }
}

pub fn edge_guard(d: Direction) -> (r: u64)
    ensures
        r == guard(d),
{
    match d {
        Direction::NorthWest => FILE_H,
        Direction::NorthEast => FILE_A,
        Direction::SouthEast => FILE_A,
        Direction::SouthWest => FILE_H,
        Direction::West => FILE_H,
        Direction::North => 0,
        Direction::East => FILE_A,
        Direction::South => 0,
    }
}

/// Walks the ray from `o` toward `d` and returns its target (0: none).
pub fn cross(d: Direction, o: u64, own: u64, enemy: u64, seen: u64) -> (r: u64)
    ensures
        r == ray_target(d, o, own, enemy, seen, 1),
{
    let g = edge_guard(d);
    let mut n: u64 = 1;
    while n <= 7
        invariant
            1 <= n <= 8,
            g == guard(d),
            ray_target(d, o, own, enemy, seen, n) == ray_target(d, o, own, enemy, seen, 1),
        decreases 8 - n,
    {
        let s = shift(d, o, n);
        if s == 0 || s & g != 0 || s & own != 0 {
            return 0;
        } else if s & seen == 0 {
            return s;
        } else if s & enemy != 0 {
            return 0;
        }
        n = n + 1;
    }
    0
}

/// The first ray target among table directions `first..end`.
pub fn slide(o: u64, own: u64, enemy: u64, seen: u64, first: u64, end: u64) -> (r: u64)
    requires
        end <= 8,
    ensures
        r == slide_target(o, own, enemy, seen, first, end),
{
    let mut i = first;
    while i < end
        invariant
            end <= 8,
            slide_target(o, own, enemy, seen, i, end) == slide_target(o, own, enemy, seen, first, end),
        decreases end - i,
    {
        let r = cross(direction_at(i), o, own, enemy, seen);
        if r != 0 {
            return r;
        }
        i = i + 1;
    }
    0
}

/// A step of 1 to 7 squares from a square gives a square or nothing, never
/// the origin.
pub proof fn lemma_step_square(d: Direction, o: u64, n: u64)
    requires
        is_square(o),
        1 <= n <= 7,
    ensures
        step(d, o, n) == 0 || is_square(step(d, o, n)),
        step(d, o, n) != o,
{
    match d {
        Direction::NorthWest | Direction::SouthEast => lemma_shift_square(o, (9 * n) as u64),
        Direction::NorthEast | Direction::SouthWest => lemma_shift_square(o, (7 * n) as u64),
        Direction::North | Direction::South => lemma_shift_square(o, (8 * n) as u64),
        Direction::West | Direction::East => lemma_shift_square(o, n),
    }
}

/// A ray target is a square that is neither the origin, nor in `own`, nor
/// in `seen`; every square that the ray passes over before it is empty.
pub proof fn lemma_ray_target(d: Direction, o: u64, own: u64, enemy: u64, seen: u64, n: u64)
    requires
        is_square(o),
    ensures
        ({
            let r = ray_target(d, o, own, enemy, seen, n);
            r != 0 ==> {
                &&& is_square(r)
                &&& r != o
                &&& r & own == 0
                &&& r & seen == 0
                &&& exists|k: u64|
                    n <= k <= 7 && r == step(d, o, k) && forall|j: u64|
                        n <= j < k ==> #[trigger] step(d, o, j) & (own | enemy) == 0
            }
        }),
    decreases 8 - n,
{
    let r = ray_target(d, o, own, enemy, seen, n);
    if 1 <= n <= 7 {
        let s = step(d, o, n);
        lemma_step_square(d, o, n);
        if s == 0 || s & guard(d) != 0 || s & own != 0 {
        } else if s & seen == 0 {
            assert(n <= n <= 7 && r == step(d, o, n));
        } else if s & enemy != 0 {
        } else {
            lemma_ray_target(d, o, own, enemy, seen, (n + 1) as u64);
            if r != 0 {
                lemma_square_in(s, own, enemy);
                let k = choose|k: u64|
                    n + 1 <= k <= 7 && r == step(d, o, k) && forall|j: u64|
                        n + 1 <= j < k ==> #[trigger] step(d, o, j) & (own | enemy) == 0;
                assert forall|j: u64| n <= j < k implies #[trigger] step(d, o, j) & (own | enemy)
                    == 0 by {
                    if j == n {
                    }
                }
            }
        }
    }
}

/// A sliding piece never moves past the first piece in its way: when the
/// square at distance `j` is occupied, the ray's target lies at distance at
/// most `j`; and the target is never the origin.
pub proof fn lemma_ray_stops_at_blocker(
    d: Direction,
    o: u64,
    own: u64,
    enemy: u64,
    seen: u64,
    j: u64,
)
    requires
        is_square(o),
        1 <= j <= 7,
        step(d, o, j) & (own | enemy) != 0,
        ray_target(d, o, own, enemy, seen, 1) != 0,
    ensures
        exists|k: u64|
            1 <= k <= j && ray_target(d, o, own, enemy, seen, 1) == #[trigger] step(d, o, k),
        ray_target(d, o, own, enemy, seen, 1) != o,
{
    lemma_ray_target(d, o, own, enemy, seen, 1);
    let r = ray_target(d, o, own, enemy, seen, 1);
    let k = choose|k: u64|
        1 <= k <= 7 && r == step(d, o, k) && forall|i: u64|
            1 <= i < k ==> #[trigger] step(d, o, i) & (own | enemy) == 0;
    assert(k <= j);
}

/// A slide target has the properties of a ray target.
pub proof fn lemma_slide_target(o: u64, own: u64, enemy: u64, seen: u64, i: u64, end: u64)
    requires
        is_square(o),
    ensures
        ({
            let r = slide_target(o, own, enemy, seen, i, end);
            r != 0 ==> is_square(r) && r != o && r & own == 0 && r & seen == 0
        }),
    decreases end - i,
{
    if i < end && i < 8 {
        lemma_ray_target(direction(i), o, own, enemy, seen, 1);
        lemma_slide_target(o, own, enemy, seen, (i + 1) as u64, end);
    }
}

} // verus!
