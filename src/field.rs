use crate::cell::{cells_of, contains_cell, fits, next_alive, offset, shift, alive_among, Cell, Vec2};
use vstd::prelude::*;

verus! {

/// The state of the simulation.
pub struct Field {
    /// The visible window; it does not bound where cells may live.
    pub size: Vec2,
    /// The living cells, each position at most once.
    pub cells: Vec<Cell>,
    /// The cells as they were before the first step of the current run.
    pub backuped_cells: Option<Vec<Cell>>,
    pub is_auto_play_enabled: bool,
    /// Generations advanced since the last clear or restore.
    pub step_count: u32,
}

/// No position occurs twice in `s`.
pub open spec fn distinct(s: Seq<Cell>) -> bool {
    forall|i: int, j: int| 0 <= i < j < s.len() ==> #[trigger] s[i]@ != #[trigger] s[j]@
}

/// The coordinates named by a sequence of position pairs.
pub open spec fn positions_of(s: Seq<(i32, i32)>) -> Set<(int, int)> {
    Set::new(|p: (int, int)| exists|i: int| 0 <= i < s.len() && (#[trigger] s[i]).0 as int == p.0 && s[i].1 as int == p.1)
}

/// The generation that follows `alive`: every coordinate of the `i32` plane
/// on which the rule says a cell lives.
pub open spec fn next_generation(alive: Set<(int, int)>) -> Set<(int, int)> {
    Set::new(|p: (int, int)| fits(p) && next_alive(p, alive))
}

proof fn lemma_cells_of_push(s: Seq<Cell>, c: Cell)
    ensures
        cells_of(s.push(c)) == cells_of(s).insert(c@),
{
    let t = s.push(c);
    assert forall|p: (int, int)| cells_of(t).contains(p) implies cells_of(s).insert(c@).contains(p) by {
        let i = choose|i: int| 0 <= i < t.len() && #[trigger] t[i]@ == p;
        if i < s.len() {
            assert(s[i]@ == p);
        }
    }
    assert forall|p: (int, int)| cells_of(s).insert(c@).contains(p) implies cells_of(t).contains(p) by {
        if p == c@ {
            assert(t[s.len() as int]@ == p);
        } else {
            let i = choose|i: int| 0 <= i < s.len() && #[trigger] s[i]@ == p;
            assert(t[i]@ == p);
        }
    }
    assert(cells_of(t) =~= cells_of(s).insert(c@));
}

proof fn lemma_cells_fit(s: Seq<Cell>, p: (int, int))
    requires
        cells_of(s).contains(p),
    ensures
        fits(p),
{
    let i = choose|i: int| 0 <= i < s.len() && #[trigger] s[i]@ == p;
}

/// A coordinate with a living neighbour among the first `n` has one at some
/// offset below `n`.
proof fn lemma_some_neighbor_alive(p: (int, int), alive: Set<(int, int)>, n: int)
    requires
        alive_among(p, alive, n) > 0,
    ensures
        exists|k: int| 0 <= k < n && alive.contains(#[trigger] shift(p, k)),
    decreases n,
{
    if !alive.contains(shift(p, n - 1)) {
        lemma_some_neighbor_alive(p, alive, n - 1);
    }
}

/// Stepping to neighbour `k` and then to neighbour `(k + 4) % 8` leads back.
proof fn lemma_shift_back(p: (int, int), k: int)
    requires
        0 <= k < 8,
    ensures
        shift(shift(p, k), (k + 4) % 8) == p,
{
    assert(offset(0) == (0int, -1int));
    assert(offset(4) == (0int, 1int));
    assert(offset(1) == (1int, 1int));
    assert(offset(5) == (-1int, -1int));
    assert(offset(2) == (1int, 0int));
    assert(offset(6) == (-1int, 0int));
    assert(offset(3) == (1int, -1int));
    assert(offset(7) == (-1int, 1int));
}

/// Adds `c` to `v` unless a cell at its position is already there.
fn push_unique(v: &mut Vec<Cell>, c: Cell)
    ensures
        cells_of(final(v)@) == cells_of(old(v)@).insert(c@),
        distinct(old(v)@) ==> distinct(final(v)@),
{
    if !contains_cell(v, &c) {
        proof {
            lemma_cells_of_push(v@, c);
        }
        let ghost before = v@;
        v.push(c);
        proof {
            assert forall|i: int| 0 <= i < before.len() implies #[trigger] before[i]@ != c@ by {
                if before[i]@ == c@ {
                    assert(cells_of(before).contains(c@));
                }
            }
        }
    } else {
        assert(cells_of(v@).insert(c@) =~= cells_of(v@));
    }
}

/// A copy of `v`, element for element.
fn copy_cells(v: &Vec<Cell>) -> (r: Vec<Cell>)
    ensures
        r@ == v@,
{
    let mut r: Vec<Cell> = Vec::new();
    let mut i: usize = 0;
    while i < v.len()
        invariant
            i <= v.len(),
            r@ == v@.subrange(0, i as int),
        decreases v.len() - i,
    {
        r.push(v[i]);
        i += 1;
        assert(r@ =~= v@.subrange(0, i as int));
    }
    assert(r@ =~= v@);
    r
}

impl Field {
    /// The set of living coordinates.
    pub open spec fn alive(&self) -> Set<(int, int)> {
        cells_of(self.cells@)
    }

    /// The saved set of living coordinates, if any.
    pub open spec fn saved(&self) -> Option<Set<(int, int)>> {
        match self.backuped_cells {
            Some(b) => Some(cells_of(b@)),
            None => None,
        }
    }

    /// Neither the living cells nor the saved ones repeat a position.
    pub open spec fn wf(&self) -> bool {
        &&& distinct(self.cells@)
        &&& match self.backuped_cells {
            Some(b) => distinct(b@),
            None => true,
        }
    }

    /// The window size and the mode are as in `other`.
    pub open spec fn same_settings(&self, other: &Field) -> bool {
        &&& self.size == other.size
        &&& self.is_auto_play_enabled == other.is_auto_play_enabled
    }

    /// A field of the given window size, with the given cells alive.
    pub fn new(size: (i32, i32), default_alive_cell_positions: Option<Vec<(i32, i32)>>) -> (r:
        Self)
        ensures
            r.size.x == size.0,
            r.size.y == size.1,
            r.alive() == match default_alive_cell_positions {
                Some(positions) => positions_of(positions@),
                None => Set::<(int, int)>::empty(),
            },
            r.backuped_cells is None,
            !r.is_auto_play_enabled,
            r.step_count == 0,
            r.wf(),
    {
        let mut field = Field {
            size: Vec2::new(size.0, size.1),
            is_auto_play_enabled: false,
            step_count: 0,
            cells: Vec::new(),
            backuped_cells: None,
        };
        assert(field.alive() =~= Set::<(int, int)>::empty());
        if let Some(positions) = default_alive_cell_positions {
            field.add_cells(positions);
            assert(field.alive() =~= positions_of(positions@));
        }
        field
    }

    /// What the saved copy is after a backup of this field.
    pub open spec fn saved_after_backup(&self) -> Option<Set<(int, int)>> {
        match self.saved() {
            None => Some(self.alive()),
            Some(b) => Some(b),
        }
    }

    /// `next` is this field advanced by one generation.
    pub open spec fn steps_to(&self, next: &Field) -> bool {
        &&& next.alive() == next_generation(self.alive())
        &&& next.saved() == self.saved_after_backup()
        &&& next.step_count == self.step_count + 1
        &&& next.same_settings(self)
    }

    /// `next` is this field with its saved cells put back, if it held any.
    pub open spec fn restores_to(&self, next: &Field) -> bool {
        &&& match self.saved() {
            Some(b) => {
                &&& next.alive() == b
                &&& next.step_count == 0
            },
            None => {
                &&& next.cells@ == self.cells@
                &&& next.step_count == self.step_count
            },
        }
        &&& next.backuped_cells is None
        &&& next.same_settings(self)
    }

    /// `next` is this field emptied, with no saved copy and no steps counted.
    pub open spec fn clears_to(&self, next: &Field) -> bool {
        &&& next.alive() == Set::<(int, int)>::empty()
        &&& next.backuped_cells is None
        &&& next.step_count == 0
        &&& next.same_settings(self)
    }

    /// `next` holds the same state as this field.
    pub open spec fn unchanged_in(&self, next: &Field) -> bool {
        &&& next.cells@ == self.cells@
        &&& next.backuped_cells == self.backuped_cells
        &&& next.step_count == self.step_count
        &&& next.same_settings(self)
    }

    pub fn add_cell(&mut self, spawn_position: &(i32, i32))
        ensures
            final(self).alive() == old(self).alive().insert(
                (spawn_position.0 as int, spawn_position.1 as int),
            ),
            final(self).backuped_cells == old(self).backuped_cells,
            final(self).step_count == old(self).step_count,
            final(self).same_settings(old(self)),
            old(self).wf() ==> final(self).wf(),
    {
        push_unique(&mut self.cells, Cell::new(*spawn_position));
    }

    /// Saves a copy of the living cells, unless a copy is already held.
    pub fn backup(&mut self)
        ensures
            final(self).saved() == old(self).saved_after_backup(),
            final(self).backuped_cells is Some,
            old(self).backuped_cells is Some ==> final(self).backuped_cells
                == old(self).backuped_cells,
            final(self).cells@ == old(self).cells@,
            final(self).step_count == old(self).step_count,
            final(self).same_settings(old(self)),
            old(self).wf() ==> final(self).wf(),
    {
        if self.backuped_cells.is_none() {
            self.backuped_cells = Some(copy_cells(&self.cells));
        }
    }

    /// Advances one generation, saving the cells first if no copy is held.
    pub fn step(&mut self)
        requires
            old(self).step_count < u32::MAX,
        ensures
            old(self).steps_to(final(self)),
            old(self).backuped_cells is Some ==> final(self).backuped_cells
                == old(self).backuped_cells,
            distinct(final(self).cells@),
            old(self).wf() ==> final(self).wf(),
    {
        self.backup();
        self.step_count += 1;
        let ghost alive = self.alive();

        // Every living cell and each of its neighbours, once.
        let mut target_cells: Vec<Cell> = Vec::new();
        let mut i: usize = 0;
        while i < self.cells.len()
            invariant
                i <= self.cells.len(),
                alive == self.alive(),
                forall|p: (int, int)| cells_of(target_cells@).contains(p) ==> fits(p),
                forall|j: int|
                    0 <= j < i ==> cells_of(target_cells@).contains(#[trigger] self.cells@[j]@),
                forall|j: int, k: int|
                    0 <= j < i && 0 <= k < 8 && fits(shift(self.cells@[j]@, k)) ==> cells_of(
                        target_cells@,
                    ).contains(#[trigger] shift(self.cells@[j]@, k)),
            decreases self.cells.len() - i,
        {
            let cell = self.cells[i];
            push_unique(&mut target_cells, cell);
            let mut k: usize = 0;
            while k < 8
                invariant
                    i < self.cells.len(),
                    k <= 8,
                    cell == self.cells@[i as int],
                    forall|p: (int, int)| cells_of(target_cells@).contains(p) ==> fits(p),
                    forall|j: int|
                        0 <= j <= i ==> cells_of(target_cells@).contains(
                            #[trigger] self.cells@[j]@,
                        ),
                    forall|j: int, m: int|
                        0 <= j < i && 0 <= m < 8 && fits(shift(self.cells@[j]@, m)) ==> cells_of(
                            target_cells@,
                        ).contains(#[trigger] shift(self.cells@[j]@, m)),
                    forall|m: int|
                        0 <= m < k && fits(shift(cell@, m)) ==> cells_of(target_cells@).contains(
                            #[trigger] shift(cell@, m),
                        ),
                decreases 8 - k,
            {
                match cell.neighbor(k) {
                    Some(n) => {
                        push_unique(&mut target_cells, n);
                    },
                    None => {},
                }
                k += 1;
            }
            i += 1;
        }

        // Those of them that live on, judged against the unchanged generation.
        let mut next_cells: Vec<Cell> = Vec::new();
        let mut t: usize = 0;
        while t < target_cells.len()
            invariant
                t <= target_cells.len(),
                alive == self.alive(),
                distinct(next_cells@),
                cells_of(next_cells@) == cells_of(target_cells@.subrange(0, t as int)).filter(
                    |p: (int, int)| next_alive(p, alive),
                ),
            decreases target_cells.len() - t,
        {
            let cell = target_cells[t];
            proof {
                assert(target_cells@.subrange(0, t + 1) =~= target_cells@.subrange(
                    0,
                    t as int,
                ).push(cell));
                lemma_cells_of_push(target_cells@.subrange(0, t as int), cell);
            }
            if cell.is_next_alive(self) {
                push_unique(&mut next_cells, cell);
            }
            assert(cells_of(next_cells@) =~= cells_of(target_cells@.subrange(0, t + 1)).filter(
                |p: (int, int)| next_alive(p, alive),
            ));
            t += 1;
        }
        assert(target_cells@.subrange(0, t as int) =~= target_cells@);

        proof {
            let next = next_generation(alive);
            assert forall|p: (int, int)| cells_of(next_cells@).contains(p) implies next.contains(p) by {
                assert(cells_of(target_cells@).contains(p));
            }
            assert forall|p: (int, int)| next.contains(p) implies cells_of(next_cells@).contains(p) by {
                if !alive.contains(p) {
                    lemma_some_neighbor_alive(p, alive, 8);
                    let k = choose|k: int| 0 <= k < 8 && alive.contains(#[trigger] shift(p, k));
                    let j = choose|j: int| 0 <= j < self.cells@.len() && #[trigger] self.cells@[j]@
                        == shift(p, k);
                    lemma_shift_back(p, k);
                    assert(cells_of(target_cells@).contains(shift(self.cells@[j]@, (k + 4) % 8)));
                } else {
                    let j = choose|j: int| 0 <= j < self.cells@.len() && #[trigger] self.cells@[j]@
                        == p;
                    assert(cells_of(target_cells@).contains(self.cells@[j]@));
                }
            }
            assert(cells_of(next_cells@) =~= next);
        }
        self.cells = next_cells;
    }

    pub fn add_cells(&mut self, spawn_positions: Vec<(i32, i32)>)
        ensures
            final(self).alive() == old(self).alive().union(positions_of(spawn_positions@)),
            final(self).backuped_cells == old(self).backuped_cells,
            final(self).step_count == old(self).step_count,
            final(self).same_settings(old(self)),
            old(self).wf() ==> final(self).wf(),
    {
        let mut i: usize = 0;
        while i < spawn_positions.len()
            invariant
                i <= spawn_positions.len(),
                self.alive() == old(self).alive().union(
                    positions_of(spawn_positions@.subrange(0, i as int)),
                ),
                self.backuped_cells == old(self).backuped_cells,
                self.step_count == old(self).step_count,
                self.same_settings(old(self)),
                old(self).wf() ==> self.wf(),
            decreases spawn_positions.len() - i,
        {
            let position = spawn_positions[i];
            self.add_cell(&position);
            proof {
                let before = spawn_positions@.subrange(0, i as int);
                let after = spawn_positions@.subrange(0, i + 1);
                assert forall|p: (int, int)| #[trigger] positions_of(after).contains(p) <==> (
                positions_of(before).contains(p) || p == (position.0 as int, position.1 as int)) by {
                    if positions_of(before).contains(p) {
                        let j = choose|j: int|
                            0 <= j < before.len() && (#[trigger] before[j]).0 as int == p.0
                                && before[j].1 as int == p.1;
                        assert(after[j] == before[j]);
                    }
                    if p == (position.0 as int, position.1 as int) {
                        assert(after[i as int] == position);
                    }
                    if positions_of(after).contains(p) {
                        let j = choose|j: int|
                            0 <= j < after.len() && (#[trigger] after[j]).0 as int == p.0
                                && after[j].1 as int == p.1;
                        if j < i {
                            assert(before[j] == after[j]);
                        }
                    }
                }
                assert(self.alive() =~= old(self).alive().union(positions_of(after)));
            }
            i += 1;
        }
        assert(spawn_positions@.subrange(0, i as int) =~= spawn_positions@);
    }

    pub fn remove_cell(&mut self, position: &(i32, i32))
        ensures
            final(self).alive() == old(self).alive().remove((position.0 as int, position.1 as int)),
            final(self).backuped_cells == old(self).backuped_cells,
            final(self).step_count == old(self).step_count,
            final(self).same_settings(old(self)),
            distinct(final(self).cells@),
            old(self).wf() ==> final(self).wf(),
    {
        let cell = Cell::new(*position);
        let ghost gone = cell@;
        let mut kept: Vec<Cell> = Vec::new();
        let mut i: usize = 0;
        while i < self.cells.len()
            invariant
                i <= self.cells.len(),
                gone == cell@,
                distinct(kept@),
                cells_of(kept@) == cells_of(self.cells@.subrange(0, i as int)).remove(gone),
            decreases self.cells.len() - i,
        {
            let c = self.cells[i];
            proof {
                assert(self.cells@.subrange(0, i + 1) =~= self.cells@.subrange(0, i as int).push(c));
                lemma_cells_of_push(self.cells@.subrange(0, i as int), c);
            }
            if c.position.x != cell.position.x || c.position.y != cell.position.y {
                push_unique(&mut kept, c);
            } else {
                assert(c@ == gone);
            }
            assert(cells_of(kept@) =~= cells_of(self.cells@.subrange(0, i + 1)).remove(gone));
            i += 1;
        }
        assert(self.cells@.subrange(0, i as int) =~= self.cells@);
        self.cells = kept;
    }

    /// Removes every cell and the saved copy, and restarts the step count.
    pub fn clear(&mut self)
        ensures
            old(self).clears_to(final(self)),
            final(self).wf(),
    {
        self.cells = Vec::new();
        self.backuped_cells = None;
        self.step_count = 0;
        assert(self.alive() =~= Set::<(int, int)>::empty());
    }

    pub fn toggle_auto_play(&mut self)
        ensures
            final(self).is_auto_play_enabled == !old(self).is_auto_play_enabled,
            final(self).size == old(self).size,
            final(self).cells@ == old(self).cells@,
            final(self).backuped_cells == old(self).backuped_cells,
            final(self).step_count == old(self).step_count,
            old(self).wf() ==> final(self).wf(),
    {
        self.is_auto_play_enabled = !self.is_auto_play_enabled;
    }

    /// Puts the saved cells back, if a copy is held, and restarts the step count.
    pub fn restore_backup(&mut self)
        ensures
            old(self).restores_to(final(self)),
            old(self).wf() ==> final(self).wf(),
    {
        if let Some(backuped_cells) = self.backuped_cells.take() {
            self.cells = backuped_cells;
            self.step_count = 0;
        }
    }

    /// Whether a cell lives at `(x, y)`.
    pub fn has_cell(&self, x: i32, y: i32) -> (r: bool)
        ensures
            r == self.alive().contains((x as int, y as int)),
    {
        contains_cell(&self.cells, &Cell::new((x, y)))
    }
}

} // verus!
