//! The sparse mine field: a map from occupied coordinates to occupant handles, kept in
//! gridly_grids' `SparseGrid`, plus the count of blank cells still to be revealed.

use vstd::prelude::*;
use gridly::grid::Grid;
use gridly::vector::{Columns, Rows};
use gridly_grids::SparseGrid;
use rand::seq::IteratorRandom;
use crate::position::{Position, neighbor_key, keys_of};
use crate::shape::FieldShape;

verus! {

#[verifier::external_type_specification]
#[verifier::external_body]
#[verifier::reject_recursive_types(T)]
pub struct ExSparseGrid<T: Clone + PartialEq>(SparseGrid<T>);

/// The occupied cells of a sparse grid of handles: each stored `Some(h)` at row `y` and
/// column `x` appears as the entry `(x, y) -> h`.
pub uninterp spec fn grid_cells(g: SparseGrid<Option<usize>>) -> Map<(int, int), usize>;

/// Relies on `SparseGrid::new_default`: a grid whose default is `None` starts with no
/// occupied cell.
#[verifier::external_body]
fn sparse_new() -> (r: SparseGrid<Option<usize>>)
    ensures
        grid_cells(r) =~= Map::empty(),
{
    SparseGrid::new_default((Rows(10), Columns(10)), None)
}

/// Relies on `SparseGrid::insert`: storing a non-default value at a location grows the
/// bounds to cover it and replaces whatever the location held.
#[verifier::external_body]
fn sparse_insert(g: &mut SparseGrid<Option<usize>>, x: i16, y: i16, h: usize)
    ensures
        grid_cells(*final(g)) == grid_cells(*old(g)).insert((x as int, y as int), h),
{
    g.insert((y as isize, x as isize), Some(h));
}

/// Relies on `Grid::get` of `SparseGrid`: inside the bounds it yields the stored value or
/// the default `None`, outside them an error; every stored location is inside the bounds.
#[verifier::external_body]
fn sparse_get(g: &SparseGrid<Option<usize>>, x: i16, y: i16) -> (r: Option<usize>)
    ensures
        r.is_some() == grid_cells(*g).contains_key((x as int, y as int)),
        r.is_some() ==> r.unwrap() == grid_cells(*g)[(x as int, y as int)],
{
    g.get((y as isize, x as isize)).ok().copied().flatten()
}

/// Relies on `SparseGrid::occupied_entries`: every stored non-default entry exactly once,
/// in the order of the underlying hash map.
#[verifier::external_body]
fn sparse_entries(g: &SparseGrid<Option<usize>>) -> (r: Vec<(i16, i16, usize)>)
    ensures
        forall|i: int|
            #![trigger r@[i]]
            0 <= i < r@.len() ==> grid_cells(*g).contains_key((r@[i].0 as int, r@[i].1 as int))
                && grid_cells(*g)[(r@[i].0 as int, r@[i].1 as int)] == r@[i].2,
        forall|k: (int, int)|
            #![trigger grid_cells(*g).contains_key(k)]
            grid_cells(*g).contains_key(k) ==> exists|i: int|
                0 <= i < r@.len() && (r@[i].0 as int, r@[i].1 as int) == k,
        forall|i: int, j: int|
            0 <= i < j < r@.len() ==> (r@[i].0, r@[i].1) != (r@[j].0, r@[j].1),
{
    g.occupied_entries().filter_map(|(loc, cell)| cell.map(|h| (loc.column.0 as i16, loc.row.0 as i16, h))).collect()
}

/// Relies on rand's `IteratorRandom::choose_multiple` over `0..n`, drawn from the thread
/// generator: with `amount <= n` it returns `amount` distinct items of the range.
#[verifier::external_body]
fn sample_indices(n: usize, amount: usize) -> (r: Vec<usize>)
    requires
        amount <= n,
    ensures
        r@.len() == amount,
        r@.no_duplicates(),
        forall|i: int| 0 <= i < r@.len() ==> r@[i] < n,
{
    (0..n).choose_multiple(&mut rand::thread_rng(), amount)
}

/// The number of cells without mines on a field of `n` cells: 80%, rounded down.
pub open spec fn field_density_spec(n: nat) -> nat {
    n * 8 / 10
}

/// Computes `field_density_spec` without an intermediate product that could overflow.
pub fn field_density(val: usize) -> (r: usize)
    ensures
        r == field_density_spec(val as nat),
{
    let q = val / 10;
    let rem = val % 10;
    assert(q * 8 + rem * 8 / 10 == val * 8 / 10 && q * 8 <= val) by (nonlinear_arith)
        requires
            q == val / 10,
            rem == val % 10,
            val >= 0,
    ;
    q * 8 + rem * 8 / 10
}

/// The keys of the first `k` neighbours of `p` that are occupied in `cells`, in order.
pub open spec fn present_neighbors(dom: Set<(int, int)>, p: (int, int), k: int) -> Seq<(int, int)>
    decreases k,
{
    if k <= 0 {
        seq![]
    } else {
        let rest = present_neighbors(dom, p, k - 1);
        if dom.contains(neighbor_key(p, k - 1)) {
            rest.push(neighbor_key(p, k - 1))
        } else {
            rest
        }
    }
}

/// Every key that `present_neighbors` lists is occupied.
pub proof fn lemma_present_neighbors_occupied(dom: Set<(int, int)>, p: (int, int), k: int)
    ensures
        forall|j: int|
            #![trigger present_neighbors(dom, p, k)[j]]
            0 <= j < present_neighbors(dom, p, k).len() ==> dom.contains(
                present_neighbors(dom, p, k)[j],
            ),
    decreases k,
{
    if k > 0 {
        lemma_present_neighbors_occupied(dom, p, k - 1);
        let rest = present_neighbors(dom, p, k - 1);
        assert forall|j: int|
            #![trigger present_neighbors(dom, p, k)[j]]
            0 <= j < present_neighbors(dom, p, k).len() implies dom.contains(
            present_neighbors(dom, p, k)[j],
        ) by {
            if j < rest.len() {
                assert(present_neighbors(dom, p, k)[j] == rest[j]);
            }
        }
    }
}

/// The keys of the occupied neighbours of `p`.
pub open spec fn neighbors_in(dom: Set<(int, int)>, p: (int, int)) -> Seq<(int, int)> {
    present_neighbors(dom, p, 8)
}

/// The number of occupied cells that are not listed in `exclude`.
pub open spec fn eligible_count(dom: Set<(int, int)>, exclude: Seq<Position>) -> nat {
    dom.filter(|k: (int, int)| !listed(exclude, k)).len()
}

/// Whether the key `k` is one of the positions in `s`.
pub open spec fn listed(s: Seq<Position>, k: (int, int)) -> bool {
    keys_of(s).contains(k)
}

/// A key is listed in a concatenation iff it is listed in one of the parts.
pub proof fn lemma_listed_concat(a: Seq<Position>, b: Seq<Position>)
    ensures
        forall|k: (int, int)| #[trigger] listed(a + b, k) == (listed(a, k) || listed(b, k)),
{
    assert(keys_of(a + b) =~= keys_of(a) + keys_of(b));
    assert forall|k: (int, int)| #[trigger] listed(a + b, k) == (listed(a, k) || listed(b, k)) by {
        let ka = keys_of(a);
        let kb = keys_of(b);
        if (ka + kb).contains(k) {
            let j = choose|j: int| 0 <= j < (ka + kb).len() && (ka + kb)[j] == k;
            if j < ka.len() {
                assert(ka[j] == k);
            } else {
                assert(kb[j - ka.len()] == k);
            }
        }
        if ka.contains(k) {
            let j = choose|j: int| 0 <= j < ka.len() && ka[j] == k;
            assert((ka + kb)[j] == k);
        }
        if kb.contains(k) {
            let j = choose|j: int| 0 <= j < kb.len() && kb[j] == k;
            assert((ka + kb)[j + ka.len()] == k);
        }
    }
}

/// Whether `pos` is one of the positions in `s`.
pub fn contains_position(s: &Vec<Position>, pos: &Position) -> (r: bool)
    ensures
        r == listed(s@, pos.key()),
{
    let mut i: usize = 0;
    while i < s.len()
        invariant
            i <= s@.len(),
            forall|j: int| 0 <= j < i ==> s@[j].key() != pos.key(),
        decreases s@.len() - i,
    {
        if s[i].x == pos.x && s[i].y == pos.y {
            assert(keys_of(s@)[i as int] == pos.key());
            return true;
        }
        i = i + 1;
    }
    assert(!keys_of(s@).contains(pos.key())) by {
        if keys_of(s@).contains(pos.key()) {
            let j = choose|j: int| 0 <= j < keys_of(s@).len() && keys_of(s@)[j] == pos.key();
            assert(s@[j].key() == pos.key());
        }
    }
    false
}

/// A sparse field of occupied cells, each holding a handle to its tile record.
pub struct Minefield {
    field: SparseGrid<Option<usize>>,
    remaining_blank: usize,
    size: usize,
}

impl Minefield {
    /// The occupied cells and their handles.
    pub closed spec fn cells(&self) -> Map<(int, int), usize> {
        grid_cells(self.field)
    }

    /// The number of occupied cells.
    pub closed spec fn len(&self) -> nat {
        self.size as nat
    }

    /// Blank cells still to be revealed.
    pub closed spec fn remaining(&self) -> nat {
        self.remaining_blank as nat
    }

    /// The handles are `0..len()`, one per occupied cell, and every occupied key fits a
    /// `Position`.
    pub closed spec fn wf(&self) -> bool {
        &&& self.cells().dom().finite()
        &&& self.cells().dom().len() == self.size
        &&& self.remaining_blank <= self.size
        &&& forall|k: (int, int)| #[trigger]
            self.cells().contains_key(k) ==> crate::position::key_fits(k) && self.cells()[k]
                < self.size
        &&& forall|a: (int, int), b: (int, int)|
            #![trigger self.cells()[a], self.cells()[b]]
            self.cells().contains_key(a) && self.cells().contains_key(b) && self.cells()[a]
                == self.cells()[b] ==> a == b
    }

    pub proof fn lemma_wf(&self)
        requires
            self.wf(),
        ensures
            self.cells().dom().finite(),
            self.cells().dom().len() == self.len(),
            self.remaining() <= self.len(),
            forall|k: (int, int)| #[trigger]
                self.cells().contains_key(k) ==> crate::position::key_fits(k) && self.cells()[k]
                    < self.len(),
            forall|a: (int, int), b: (int, int)|
                #![trigger self.cells()[a], self.cells()[b]]
                self.cells().contains_key(a) && self.cells().contains_key(b) && self.cells()[a]
                    == self.cells()[b] ==> a == b,
    {
    }

    /// Builds the field of a template: each playable coordinate is occupied once, with
    /// the handles `0..len()` given in order of first appearance, and the blank count is
    /// set to 80% of the occupied cells.
    pub fn new_shaped(template: &FieldShape) -> (r: Minefield)
        ensures
            r.wf(),
            r.cells().dom() == keys_of(template.cells_spec()).to_set(),
            r.remaining() == field_density_spec(r.len()),
    {
        let positions = template.decode();
        let mut field = sparse_new();
        let mut n: usize = 0;
        let mut i: usize = 0;
        while i < positions.len()
            invariant
                i <= positions@.len(),
                n <= i,
                positions@ == template.cells_spec(),
                grid_cells(field).dom().finite(),
                grid_cells(field).dom().len() == n,
                grid_cells(field).dom() == keys_of(positions@.take(i as int)).to_set(),
                forall|k: (int, int)| #[trigger]
                    grid_cells(field).contains_key(k) ==> crate::position::key_fits(k)
                        && grid_cells(field)[k] < n,
                forall|a: (int, int), b: (int, int)|
                    #![trigger grid_cells(field)[a], grid_cells(field)[b]]
                    grid_cells(field).contains_key(a) && grid_cells(field).contains_key(b)
                        && grid_cells(field)[a] == grid_cells(field)[b] ==> a == b,
            decreases positions@.len() - i,
        {
            let p = positions[i];
            let ghost before = keys_of(positions@.take(i as int));
            assert(keys_of(positions@.take(i as int + 1)) =~= before.push(p.key()));
            assert(before.push(p.key()).to_set() =~= before.to_set().insert(p.key())) by {
                assert forall|x: (int, int)| #[trigger]
                    before.push(p.key()).contains(x) implies before.contains(x) || x == p.key() by {
                    let j = choose|j: int|
                        0 <= j < before.push(p.key()).len() && before.push(p.key())[j] == x;
                    if j < before.len() {
                        assert(before[j] == x);
                    }
                }
                assert forall|x: (int, int)| before.contains(x) implies #[trigger] before.push(
                    p.key(),
                ).contains(x) by {
                    let j = choose|j: int| 0 <= j < before.len() && before[j] == x;
                    assert(before.push(p.key())[j] == x);
                }
                assert(before.push(p.key())[before.len() as int] == p.key());
            }
            if sparse_get(&field, p.x, p.y).is_none() {
                sparse_insert(&mut field, p.x, p.y, n);
                n = n + 1;
            }
            i = i + 1;
            assert(grid_cells(field).dom() =~= keys_of(positions@.take(i as int)).to_set());
        }
        assert(positions@.take(positions@.len() as int) =~= positions@);
        Minefield { remaining_blank: field_density(n), field, size: n }
    }

    /// Whether `pos` is an occupied cell.
    pub fn is_contained(&self, pos: &Position) -> (r: bool)
        ensures
            r == self.cells().contains_key(pos.key()),
    {
        sparse_get(&self.field, pos.x, pos.y).is_some()
    }

    /// The handle stored at `pos`, if it is occupied.
    pub fn get(&self, pos: &Position) -> (r: Option<usize>)
        ensures
            r.is_some() == self.cells().contains_key(pos.key()),
            r.is_some() ==> r.unwrap() == self.cells()[pos.key()],
    {
        sparse_get(&self.field, pos.x, pos.y)
    }

    /// The number of blank cells still to be revealed.
    pub fn remaining_blank(&self) -> (r: usize)
        ensures
            r == self.remaining(),
    {
        self.remaining_blank
    }

    /// The number of occupied cells.
    pub fn occupied_count(&self) -> (r: usize)
        ensures
            r == self.len(),
    {
        self.size
    }

    /// Counts one more blank cell as revealed; the count never drops below zero.
    pub fn count_revealed(&mut self)
        requires
            old(self).wf(),
        ensures
            final(self).wf(),
            final(self).cells() == old(self).cells(),
            final(self).len() == old(self).len(),
            final(self).remaining() == (if old(self).remaining() > 0 {
                old(self).remaining() - 1
            } else {
                0
            }),
    {
        if self.remaining_blank > 0 {
            self.remaining_blank = self.remaining_blank - 1;
        }
    }

    /// Every occupied cell once, in no particular order.
    pub fn iter_positions(&self) -> (r: Vec<Position>)
        requires
            self.wf(),
        ensures
            keys_of(r@).to_set() == self.cells().dom(),
            keys_of(r@).no_duplicates(),
    {
        let entries = sparse_entries(&self.field);
        let mut r: Vec<Position> = Vec::new();
        let mut i: usize = 0;
        while i < entries.len()
            invariant
                i <= entries@.len(),
                r@.len() == i,
                forall|j: int|
                    0 <= j < i ==> r@[j].key() == (entries@[j].0 as int, entries@[j].1 as int),
            decreases entries@.len() - i,
        {
            r.push(Position { x: entries[i].0, y: entries[i].1 });
            i = i + 1;
        }
        assert(keys_of(r@).to_set() =~= self.cells().dom()) by {
            assert forall|k: (int, int)| self.cells().contains_key(k) implies keys_of(
                r@,
            ).contains(k) by {
                let j = choose|j: int|
                    0 <= j < entries@.len() && (entries@[j].0 as int, entries@[j].1 as int) == k;
                assert(keys_of(r@)[j] == k);
            }
            assert forall|k: (int, int)| keys_of(r@).contains(k) implies self.cells().contains_key(
                k,
            ) by {
                let j = choose|j: int| 0 <= j < keys_of(r@).len() && keys_of(r@)[j] == k;
                assert(entries@[j] == entries@[j]);
            }
        }
        assert forall|a: int, b: int|
            0 <= a < keys_of(r@).len() && 0 <= b < keys_of(r@).len() && a != b implies keys_of(
            r@,
        )[a] != keys_of(r@)[b] by {
            if a < b {
                assert((entries@[a].0, entries@[a].1) != (entries@[b].0, entries@[b].1));
            } else {
                assert((entries@[b].0, entries@[b].1) != (entries@[a].0, entries@[a].1));
            }
        }
        r
    }

    /// The occupied neighbours of `pos` with their handles, in the fixed neighbour
    /// order; cells outside the field are skipped.
    pub fn iter_neighbors_enumerated(&self, pos: Position) -> (r: Vec<(Position, usize)>)
        requires
            self.wf(),
        ensures
            r@.len() == neighbors_in(self.cells().dom(), pos.key()).len(),
            forall|i: int|
                #![trigger r@[i]]
                0 <= i < r@.len() ==> r@[i].0.key() == neighbors_in(self.cells().dom(), pos.key())[i]
                    && r@[i].1 == self.cells()[r@[i].0.key()],
    {
        let mut r: Vec<(Position, usize)> = Vec::new();
        let mut k: usize = 0;
        while k < 8
            invariant
                k <= 8,
                self.wf(),
                r@.len() == present_neighbors(self.cells().dom(), pos.key(), k as int).len(),
                forall|i: int|
                    #![trigger r@[i]]
                    0 <= i < r@.len() ==> r@[i].0.key() == present_neighbors(
                        self.cells().dom(),
                        pos.key(),
                        k as int,
                    )[i] && r@[i].1 == self.cells()[r@[i].0.key()],
            decreases 8 - k,
        {
            proof {
                self.lemma_wf();
            }
            if let Some(q) = pos.neighbor(k) {
                if let Some(h) = self.get(&q) {
                    r.push((q, h));
                }
            }
            k = k + 1;
        }
        r
    }

    /// The occupied neighbours of `pos`, in the fixed neighbour order.
    pub fn iter_neighbor_positions(&self, pos: Position) -> (r: Vec<Position>)
        requires
            self.wf(),
        ensures
            keys_of(r@) == neighbors_in(self.cells().dom(), pos.key()),
    {
        let enumerated = self.iter_neighbors_enumerated(pos);
        let mut r: Vec<Position> = Vec::new();
        let mut i: usize = 0;
        while i < enumerated.len()
            invariant
                i <= enumerated@.len(),
                r@.len() == i,
                forall|j: int| 0 <= j < i ==> r@[j] == enumerated@[j].0,
            decreases enumerated@.len() - i,
        {
            r.push(enumerated[i].0);
            i = i + 1;
        }
        assert(keys_of(r@) =~= neighbors_in(self.cells().dom(), pos.key()));
        r
    }

    /// Draws, uniformly at random and without replacement, as many occupied cells
    /// outside `exclude` as the field should hold mines (`len() - remaining()`), or all
    /// of them where there are fewer; each comes with its handle.
    pub fn choose_multiple(&self, exclude: &Vec<Position>) -> (r: Vec<(Position, usize)>)
        requires
            self.wf(),
        ensures
            r@.len() == vstd::math::min(
                self.len() - self.remaining(),
                eligible_count(self.cells().dom(), exclude@) as int,
            ),
            forall|i: int|
                #![trigger r@[i]]
                0 <= i < r@.len() ==> self.cells().contains_key(r@[i].0.key()) && r@[i].1
                    == self.cells()[r@[i].0.key()] && !listed(exclude@, r@[i].0.key()),
            forall|i: int, j: int|
                0 <= i < j < r@.len() ==> r@[i].0.key() != r@[j].0.key(),
    {
        let positions = self.iter_positions();
        let mut eligible: Vec<(Position, usize)> = Vec::new();
        let ghost dom = self.cells().dom();
        let ghost pred = |k: (int, int)| !listed(exclude@, k);
        let mut i: usize = 0;
        while i < positions.len()
            invariant
                self.wf(),
                i <= positions@.len(),
                dom == self.cells().dom(),
                pred == (|k: (int, int)| !listed(exclude@, k)),
                keys_of(positions@).to_set() == dom,
                keys_of(positions@).no_duplicates(),
                forall|j: int|
                    #![trigger eligible@[j]]
                    0 <= j < eligible@.len() ==> self.cells().contains_key(eligible@[j].0.key())
                        && eligible@[j].1 == self.cells()[eligible@[j].0.key()] && pred(
                        eligible@[j].0.key(),
                    ) && keys_of(positions@.take(i as int)).contains(eligible@[j].0.key()),
                forall|a: int, b: int|
                    0 <= a < b < eligible@.len() ==> eligible@[a].0.key() != eligible@[b].0.key(),
                forall|k: (int, int)|
                    #![trigger keys_of(positions@.take(i as int)).contains(k)]
                    keys_of(positions@.take(i as int)).contains(k) && pred(k) ==> exists|j: int|
                        0 <= j < eligible@.len() && eligible@[j].0.key() == k,
            decreases positions@.len() - i,
        {
            let p = positions[i];
            let ghost before = keys_of(positions@.take(i as int));
            assert(keys_of(positions@.take(i as int + 1)) =~= before.push(p.key()));
            assert(keys_of(positions@)[i as int] == p.key());
            assert(dom.contains(p.key()));
            assert(!before.contains(p.key())) by {
                if before.contains(p.key()) {
                    let j = choose|j: int| 0 <= j < before.len() && before[j] == p.key();
                    assert(keys_of(positions@)[j] == p.key());
                }
            }
            if !contains_position(exclude, &p) {
                let h = self.get(&p).unwrap();
                let ghost el_before = eligible@;
                eligible.push((p, h));
                assert forall|k: (int, int)|
                    #![trigger keys_of(positions@.take(i as int + 1)).contains(k)]
                    keys_of(positions@.take(i as int + 1)).contains(k) && pred(k) implies exists|
                    j: int,
                | 0 <= j < eligible@.len() && eligible@[j].0.key() == k by {
                    let m = choose|m: int| 0 <= m < before.len() + 1 && before.push(p.key())[m] == k;
                    if m < before.len() {
                        assert(before[m] == k);
                        assert(before.contains(k));
                        let j = choose|j: int| 0 <= j < el_before.len() && el_before[j].0.key() == k;
                        assert(eligible@[j] == el_before[j]);
                    } else {
                        assert(eligible@[el_before.len() as int].0.key() == k);
                    }
                }
                assert forall|j: int|
                    #![trigger eligible@[j]]
                    0 <= j < eligible@.len() implies keys_of(positions@.take(i as int + 1)).contains(
                    eligible@[j].0.key(),
                ) by {
                    if j < el_before.len() {
                        assert(el_before[j] == eligible@[j]);
                        let m = choose|m: int| 0 <= m < before.len() && before[m] == eligible@[j].0.key();
                        assert(before.push(p.key())[m] == eligible@[j].0.key());
                    } else {
                        assert(before.push(p.key())[before.len() as int] == p.key());
                    }
                }
            } else {
                assert forall|k: (int, int)|
                    #![trigger keys_of(positions@.take(i as int + 1)).contains(k)]
                    keys_of(positions@.take(i as int + 1)).contains(k) && pred(k) implies exists|
                    j: int,
                | 0 <= j < eligible@.len() && eligible@[j].0.key() == k by {
                    let m = choose|m: int| 0 <= m < before.len() + 1 && before.push(p.key())[m] == k;
                    if m < before.len() {
                        assert(before[m] == k);
                        assert(before.contains(k));
                    }
                }
                assert forall|j: int|
                    #![trigger eligible@[j]]
                    0 <= j < eligible@.len() implies keys_of(positions@.take(i as int + 1)).contains(
                    eligible@[j].0.key(),
                ) by {
                    let m = choose|m: int| 0 <= m < before.len() && before[m] == eligible@[j].0.key();
                    assert(before.push(p.key())[m] == eligible@[j].0.key());
                }
            }
            i = i + 1;
        }
        let ghost el_keys = eligible@.map_values(|e: (Position, usize)| e.0.key());
        proof {
            assert(positions@.take(positions@.len() as int) =~= positions@);
            assert(el_keys.to_set() =~= dom.filter(pred)) by {
                assert forall|k: (int, int)| #[trigger] dom.filter(pred).contains(k) implies el_keys.contains(k) by {
                    assert(keys_of(positions@).contains(k));
                    assert(keys_of(positions@.take(positions@.len() as int)).contains(k));
                    let j = choose|j: int| 0 <= j < eligible@.len() && eligible@[j].0.key() == k;
                    assert(el_keys[j] == k);
                }
                assert forall|k: (int, int)| #[trigger] el_keys.contains(k) implies dom.filter(pred).contains(k) by {
                    let j = choose|j: int| 0 <= j < el_keys.len() && el_keys[j] == k;
                    assert(eligible@[j].0.key() == k);
                }
            }
            assert(el_keys.no_duplicates()) by {
                assert forall|a: int, b: int| 0 <= a < el_keys.len() && 0 <= b < el_keys.len() && a != b implies el_keys[a] != el_keys[b] by {
                    if a < b {
                        assert(eligible@[a].0.key() != eligible@[b].0.key());
                    } else {
                        assert(eligible@[b].0.key() != eligible@[a].0.key());
                    }
                }
            }
            el_keys.unique_seq_to_set();
            self.lemma_wf();
        }
        let target = self.size - self.remaining_blank;
        let amount = if target < eligible.len() {
            target
        } else {
            eligible.len()
        };
        let picks = sample_indices(eligible.len(), amount);
        let mut r: Vec<(Position, usize)> = Vec::new();
        let mut j: usize = 0;
        while j < picks.len()
            invariant
                j <= picks@.len(),
                r@.len() == j,
                picks@.no_duplicates(),
                forall|t: int| 0 <= t < picks@.len() ==> picks@[t] < eligible@.len(),
                forall|t: int| 0 <= t < j ==> r@[t] == eligible@[picks@[t] as int],
            decreases picks@.len() - j,
        {
            r.push(eligible[picks[j]]);
            j = j + 1;
        }
        assert forall|a: int, b: int| 0 <= a < b < r@.len() implies r@[a].0.key() != r@[b].0.key() by {
            assert(picks@[a] != picks@[b]);
            let (pa, pb) = (picks@[a] as int, picks@[b] as int);
            if pa < pb {
                assert(eligible@[pa].0.key() != eligible@[pb].0.key());
            } else {
                assert(eligible@[pb].0.key() != eligible@[pa].0.key());
            }
        }
        assert forall|t: int|
            #![trigger r@[t]]
            0 <= t < r@.len() implies self.cells().contains_key(r@[t].0.key()) && r@[t].1
                == self.cells()[r@[t].0.key()] && !listed(exclude@, r@[t].0.key()) by {
            assert(r@[t] == eligible@[picks@[t] as int]);
        }
        r
    }
}

/// Where a cursor starts: the template's centre, or, where it names none, an occupied
/// cell of the field.
pub fn starting_position(shape: &FieldShape, field: &Minefield) -> (r: Position)
    requires
        field.wf(),
        field.cells().dom().len() > 0 || shape.center_spec() is Some,
    ensures
        shape.center_spec() is Some ==> Some(r) == shape.center_spec(),
        shape.center_spec() is None ==> field.cells().contains_key(r.key()),
{
    match shape.center() {
        Some(c) => c,
        None => {
            let all = field.iter_positions();
            proof {
                field.lemma_wf();
                if all@.len() == 0 {
                    assert(keys_of(all@).to_set() =~= Set::empty());
                }
            }
            let first = all[0];
            assert(keys_of(all@)[0] == first.key());
            assert(keys_of(all@).to_set().contains(first.key()));
            first
        },
    }
}

} // verus!
