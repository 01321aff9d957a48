//! A field of tiles of any kind: the sparse grid of handles together with the tile each
//! handle stands for.

use vstd::prelude::*;
use crate::grid::{Minefield, field_density_spec};
use crate::position::{Position, key_fits, keys_of};
use crate::shape::FieldShape;

verus! {

/// The tiles of a field, each behind the handle that its grid stores.
pub struct TileGrid<T> {
    grid: Minefield,
    tiles: Vec<T>,
}

impl<T: Copy> TileGrid<T> {
    /// The tile of every occupied cell.
    pub closed spec fn board(&self) -> Map<(int, int), T> {
        Map::new(
            |k: (int, int)| self.grid.cells().contains_key(k),
            |k: (int, int)| self.tiles@[self.grid.cells()[k] as int],
        )
    }

    /// Blank cells still to be revealed.
    pub closed spec fn remaining(&self) -> nat {
        self.grid.remaining()
    }

    /// The number of occupied cells.
    pub closed spec fn cell_count(&self) -> nat {
        self.grid.len()
    }

    pub closed spec fn wf(&self) -> bool {
        &&& self.grid.wf()
        &&& self.tiles@.len() == self.grid.len()
    }

    pub proof fn lemma_wf(&self)
        requires
            self.wf(),
        ensures
            self.board().dom().finite(),
            self.board().dom().len() == self.cell_count(),
            self.remaining() <= self.cell_count(),
            forall|k: (int, int)| #[trigger] self.board().contains_key(k) ==> key_fits(k),
    {
        self.grid.lemma_wf();
        assert(self.board().dom() =~= self.grid.cells().dom());
    }

    /// A field of `template` with `blank` on every cell.
    pub fn new_shaped(template: &FieldShape, blank: T) -> (r: TileGrid<T>)
        ensures
            r.wf(),
            r.board().dom() == keys_of(template.cells_spec()).to_set(),
            forall|k: (int, int)| #[trigger] r.board().contains_key(k) ==> r.board()[k] == blank,
            r.remaining() == field_density_spec(r.cell_count()),
    {
        let grid = Minefield::new_shaped(template);
        let n = grid.occupied_count();
        let mut tiles: Vec<T> = Vec::new();
        while tiles.len() < n
            invariant
                tiles@.len() <= n,
                forall|i: int| 0 <= i < tiles@.len() ==> tiles@[i] == blank,
            decreases n - tiles@.len(),
        {
            tiles.push(blank);
        }
        let r = TileGrid { grid, tiles };
        proof {
            r.grid.lemma_wf();
            assert(r.board().dom() =~= r.grid.cells().dom());
        }
        r
    }

    /// The field's cells.
    pub fn minefield(&self) -> (r: &Minefield)
        ensures
            r.cells().dom() == self.board().dom(),
            self.wf() ==> r.wf(),
            r.remaining() == self.remaining(),
            r.len() == self.cell_count(),
    {
        assert(self.board().dom() =~= self.grid.cells().dom());
        &self.grid
    }

    /// The tile at `pos`, if it is on the field.
    pub fn tile_at(&self, pos: &Position) -> (r: Option<T>)
        requires
            self.wf(),
        ensures
            r.is_some() == self.board().contains_key(pos.key()),
            r.is_some() ==> r.unwrap() == self.board()[pos.key()],
    {
        proof {
            self.grid.lemma_wf();
        }
        match self.grid.get(pos) {
            Some(h) => Some(self.tiles[h]),
            None => None,
        }
    }

    /// Blank cells still to be revealed.
    pub fn remaining_blank(&self) -> (r: usize)
        ensures
            r == self.remaining(),
    {
        self.grid.remaining_blank()
    }

    /// Replaces the tile at `pos`; returns whether `pos` is on the field.
    pub fn set_tile(&mut self, pos: &Position, tile: T) -> (r: bool)
        requires
            old(self).wf(),
        ensures
            final(self).wf(),
            r == old(self).board().contains_key(pos.key()),
            final(self).board() == (if r {
                old(self).board().insert(pos.key(), tile)
            } else {
                old(self).board()
            }),
            final(self).remaining() == old(self).remaining(),
            final(self).cell_count() == old(self).cell_count(),
    {
        proof {
            self.grid.lemma_wf();
        }
        match self.grid.get(pos) {
            Some(h) => {
                self.tiles.set(h, tile);
                proof {
                    let b0 = old(self).board();
                    let b1 = self.board();
                    assert forall|k: (int, int)| #[trigger]
                        b1.contains_key(k) && k != pos.key() implies b1[k] == b0[k] by {
                        assert(self.grid.cells()[k] != self.grid.cells()[pos.key()]);
                    }
                    assert(b1 =~= b0.insert(pos.key(), tile));
                }
                true
            },
            None => false,
        }
    }

    /// Counts one more blank cell as revealed; the count never drops below zero.
    pub fn count_revealed(&mut self)
        requires
            old(self).wf(),
        ensures
            final(self).wf(),
            final(self).board() == old(self).board(),
            final(self).cell_count() == old(self).cell_count(),
            final(self).remaining() == (if old(self).remaining() > 0 {
                (old(self).remaining() - 1) as nat
            } else {
                0
            }),
    {
        self.grid.count_revealed();
    }
}

} // verus!
