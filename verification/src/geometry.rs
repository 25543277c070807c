use vstd::prelude::*;

verus! {

/// A tile position on the world grid.
#[derive(Debug, Clone, Copy, PartialEq, Eq, Structural)]
pub struct Position {
    pub x: u32,
    pub y: u32,
}

impl Position {
    /// A position at `(x, y)`.
    pub fn new(x: u32, y: u32) -> (p: Position)
        ensures
            p.x == x,
            p.y == y,
    {
        Position { x, y }
    }

    /// The position as a tile coordinate.
    pub open spec fn tile(self) -> (u32, u32) {
        (self.x, self.y)
    }
}

/// Absolute difference of two unsigned coordinates, as a mathematical integer.
pub open spec fn abs_diff_spec(a: u32, b: u32) -> int {
    if a >= b { a - b } else { b - a }
}

/// Chebyshev (king-move) distance between two tiles: the larger of the two
/// axis-aligned distances.
pub open spec fn chebyshev_spec(a: (u32, u32), b: (u32, u32)) -> int {
    let dx = abs_diff_spec(a.0, b.0);
    let dy = abs_diff_spec(a.1, b.1);
    if dx >= dy { dx } else { dy }
}

/// Manhattan (taxicab) distance between two tiles.
pub open spec fn manhattan_spec(a: (u32, u32), b: (u32, u32)) -> int {
    abs_diff_spec(a.0, b.0) + abs_diff_spec(a.1, b.1)
}

/// Chebyshev distance between two tile coordinates.
pub fn chebyshev(a: (u32, u32), b: (u32, u32)) -> (d: u32)
    ensures
        d == chebyshev_spec(a, b),
        d == chebyshev_spec(b, a),
        d == 0 <==> a == b,
        a.0 as int - d <= b.0 <= a.0 as int + d && a.1 as int - d <= b.1 <= a.1 as int + d,
        b.0 == a.0 as int + d || b.0 == a.0 as int - d || b.1 == a.1 as int + d || b.1 == a.1 as int - d,
{
    let dx = if a.0 >= b.0 { a.0 - b.0 } else { b.0 - a.0 };
    let dy = if a.1 >= b.1 { a.1 - b.1 } else { b.1 - a.1 };
    if dx >= dy { dx } else { dy }
}

/// Manhattan distance between two tile coordinates (never overflows `u64`).
pub fn manhattan(a: (u32, u32), b: (u32, u32)) -> (d: u64)
    ensures
        d == manhattan_spec(a, b),
        d == manhattan_spec(b, a),
        d == 0 <==> a == b,
        d >= chebyshev_spec(a, b) && d <= 2 * chebyshev_spec(a, b),
        d == (if a.0 >= b.0 { a.0 - b.0 } else { b.0 - a.0 }) + (if a.1 >= b.1 { a.1 - b.1 } else { b.1 - a.1 }),
{
    let dx = if a.0 >= b.0 { a.0 - b.0 } else { b.0 - a.0 };
    let dy = if a.1 >= b.1 { a.1 - b.1 } else { b.1 - a.1 };
    dx as u64 + dy as u64
}

/// Chebyshev distance is symmetric, zero exactly on equal tiles, and bounded
/// by the Manhattan distance.
pub proof fn lemma_chebyshev_metric(a: (u32, u32), b: (u32, u32))
    ensures
        chebyshev_spec(a, b) == chebyshev_spec(b, a),
        chebyshev_spec(a, b) >= 0,
        (chebyshev_spec(a, b) == 0) <==> (a == b),
        chebyshev_spec(a, b) <= manhattan_spec(a, b),
        manhattan_spec(a, b) == manhattan_spec(b, a),
{
}

/// Chebyshev distance obeys the triangle inequality.
pub proof fn lemma_chebyshev_triangle(a: (u32, u32), b: (u32, u32), c: (u32, u32))
    ensures
        chebyshev_spec(a, c) <= chebyshev_spec(a, b) + chebyshev_spec(b, c),
{
}

} // verus!
