//! Grid coordinates and the Moore neighbourhood.

use vstd::prelude::*;

verus! {

/// Square of the minimum distance that two starting selections must keep.
pub const MIN_SELECTION_DISTANCE_SQUARED: i32 = 100;

/// A cell coordinate on the field.
#[derive(Clone, Copy, Debug, PartialEq, Eq, Hash, Structural)]
pub struct Position {
    pub x: i16,
    pub y: i16,
}

/// The offset of the `k`-th of the eight neighbours, in row-major order.
pub open spec fn neighbor_offset(k: int) -> (int, int) {
    if k == 0 {
        (-1, -1)
    } else if k == 1 {
        (0, -1)
    } else if k == 2 {
        (1, -1)
    } else if k == 3 {
        (-1, 0)
    } else if k == 4 {
        (1, 0)
    } else if k == 5 {
        (-1, 1)
    } else if k == 6 {
        (0, 1)
    } else {
        (1, 1)
    }
}

/// The `k`-th neighbour of the cell with key `p`.
pub open spec fn neighbor_key(p: (int, int), k: int) -> (int, int) {
    (p.0 + neighbor_offset(k).0, p.1 + neighbor_offset(k).1)
}

/// Whether a mathematical coordinate pair can be held by a `Position`.
pub open spec fn key_fits(k: (int, int)) -> bool {
    i16::MIN <= k.0 <= i16::MAX && i16::MIN <= k.1 <= i16::MAX
}

/// The squared Euclidean distance between two keys.
pub open spec fn distance_squared(a: (int, int), b: (int, int)) -> int {
    (a.0 - b.0) * (a.0 - b.0) + (a.1 - b.1) * (a.1 - b.1)
}

/// Whether two starting selections are closer than the minimum distance of 10.
pub open spec fn too_close_spec(a: (int, int), b: (int, int)) -> bool {
    distance_squared(a, b) < MIN_SELECTION_DISTANCE_SQUARED
}

/// The keys of the first `k` neighbours of `p` that fit in the coordinate range, in order.
pub open spec fn fitting_neighbors(p: (int, int), k: int) -> Seq<(int, int)>
    decreases k,
{
    if k <= 0 {
        seq![]
    } else {
        let rest = fitting_neighbors(p, k - 1);
        if key_fits(neighbor_key(p, k - 1)) {
            rest.push(neighbor_key(p, k - 1))
        } else {
            rest
        }
    }
}

/// The keys of the local group of `p`: `p` followed by its neighbours.
pub open spec fn local_group_keys(p: (int, int)) -> Seq<(int, int)> {
    seq![p] + fitting_neighbors(p, 8)
}

/// The keys of a sequence of positions.
pub open spec fn keys_of(s: Seq<Position>) -> Seq<(int, int)> {
    s.map_values(|q: Position| q.key())
}

/// Executable form of `neighbor_offset`.
pub fn neighbor_offset_exec(k: usize) -> (r: (i32, i32))
    requires
        k < 8,
    ensures
        (r.0 as int, r.1 as int) == neighbor_offset(k as int),
{
    if k == 0 {
        (-1, -1)
    } else if k == 1 {
        (0, -1)
    } else if k == 2 {
        (1, -1)
    } else if k == 3 {
        (-1, 0)
    } else if k == 4 {
        (1, 0)
    } else if k == 5 {
        (-1, 1)
    } else if k == 6 {
        (0, 1)
    } else {
        (1, 1)
    }
}

impl Position {
    /// The mathematical coordinate pair of this position.
    pub open spec fn key(self) -> (int, int) {
        (self.x as int, self.y as int)
    }

    pub fn new(x: i16, y: i16) -> (r: Position)
        ensures
            r.x == x,
            r.y == y,
    {
        Position { x, y }
    }

    /// The `k`-th neighbour, or `None` where it leaves the coordinate range.
    pub fn neighbor(&self, k: usize) -> (r: Option<Position>)
        requires
            k < 8,
        ensures
            r.is_some() == key_fits(neighbor_key(self.key(), k as int)),
            r.is_some() ==> r.unwrap().key() == neighbor_key(self.key(), k as int),
    {
        let (dx, dy) = neighbor_offset_exec(k);
        let nx = self.x as i32 + dx;
        let ny = self.y as i32 + dy;
        if nx < i16::MIN as i32 || nx > i16::MAX as i32 || ny < i16::MIN as i32 || ny
            > i16::MAX as i32 {
            None
        } else {
            Some(Position { x: nx as i16, y: ny as i16 })
        }
    }

    /// The local group: this position followed by those of its eight neighbours that
    /// fit in the coordinate range.
    pub fn local_group(&self) -> (r: Vec<Position>)
        ensures
            keys_of(r@) == local_group_keys(self.key()),
    {
        let mut r: Vec<Position> = Vec::new();
        r.push(*self);
        let mut k: usize = 0;
        assert(keys_of(r@) =~= seq![self.key()] + fitting_neighbors(self.key(), 0));
        while k < 8
            invariant
                k <= 8,
                keys_of(r@) == seq![self.key()] + fitting_neighbors(self.key(), k as int),
            decreases 8 - k,
        {
            let n = self.neighbor(k);
            let ghost before = r@;
            if let Some(q) = n {
                r.push(q);
                assert(keys_of(r@) =~= keys_of(before).push(q.key()));
            }
            k = k + 1;
            assert(keys_of(r@) =~= seq![self.key()] + fitting_neighbors(self.key(), k as int));
        }
        r
    }

    /// Whether `other` lies closer than the minimum selection distance (10, Euclidean).
    pub fn too_close(&self, other: &Position) -> (r: bool)
        ensures
            r == too_close_spec(self.key(), other.key()),
    {
        let dx: i32 = self.x as i32 - other.x as i32;
        let dy: i32 = self.y as i32 - other.y as i32;
        if dx >= 10 || dx <= -10 || dy >= 10 || dy <= -10 {
            assert(distance_squared(self.key(), other.key()) >= 100) by (nonlinear_arith)
                requires
                    dx >= 10 || dx <= -10 || dy >= 10 || dy <= -10,
                    dx == self.x - other.x,
                    dy == self.y - other.y,
            ;
            false
        } else {
            assert(0 <= dx * dx < 100 && 0 <= dy * dy < 100) by (nonlinear_arith)
                requires
                    -10 < dx < 10,
                    -10 < dy < 10,
            ;
            dx * dx + dy * dy < MIN_SELECTION_DISTANCE_SQUARED
        }
    }
}

} // verus!
