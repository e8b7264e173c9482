//! Cells and the Game-of-Life rule. The plane is that of `i32` pairs: a
//! neighbour beyond that range does not exist, and counts as dead.
use crate::field::Field;
use vstd::prelude::*;

verus! {

/// A position on the plane (also used for the size of the visible window).
#[derive(PartialEq, Eq, Structural, Clone, Copy, Debug, Hash)]
pub struct Vec2 {
    pub x: i32,
    pub y: i32,
}

impl Vec2 {
    pub fn new(x: i32, y: i32) -> (r: Vec2)
        ensures
            r.x == x,
            r.y == y,
    {
        Vec2 { x, y }
    }
}

/// A cell of the plane, identified by its position alone.
#[derive(PartialEq, Eq, Structural, Clone, Copy, Debug, Hash)]
pub struct Cell {
    pub position: Vec2,
}

impl View for Cell {
    type V = (int, int);

    open spec fn view(&self) -> (int, int) {
        (self.position.x as int, self.position.y as int)
    }
}

/// Whether a mathematical coordinate pair can be held by a `Cell`.
pub open spec fn fits(p: (int, int)) -> bool {
    i32::MIN <= p.0 <= i32::MAX && i32::MIN <= p.1 <= i32::MAX
}

/// The eight neighbour offsets, in the order the neighbours are visited.
pub open spec fn offset(k: int) -> (int, int) {
    if k == 0 {
        (0, -1)
    } else if k == 1 {
        (1, 1)
    } else if k == 2 {
        (1, 0)
    } else if k == 3 {
        (1, -1)
    } else if k == 4 {
        (0, 1)
    } else if k == 5 {
        (-1, -1)
    } else if k == 6 {
        (-1, 0)
    } else {
        (-1, 1)
    }
}

/// The `k`-th neighbour of `p`.
pub open spec fn shift(p: (int, int), k: int) -> (int, int) {
    (p.0 + offset(k).0, p.1 + offset(k).1)
}

/// The coordinates held by a sequence of cells.
pub open spec fn cells_of(s: Seq<Cell>) -> Set<(int, int)> {
    Set::new(|p: (int, int)| exists|i: int| 0 <= i < s.len() && #[trigger] s[i]@ == p)
}

/// How many of the first `n` neighbours of `p` are alive.
pub open spec fn alive_among(p: (int, int), alive: Set<(int, int)>, n: int) -> nat
    decreases n,
{
    if n <= 0 {
        0
    } else {
        alive_among(p, alive, n - 1) + if alive.contains(shift(p, n - 1)) {
            1nat
        } else {
            0nat
        }
    }
}

/// How many of the eight neighbours of `p` are alive.
pub open spec fn neighbor_count(p: (int, int), alive: Set<(int, int)>) -> nat {
    alive_among(p, alive, 8)
}

/// The Game-of-Life rule: a living cell survives with two or three living
/// neighbours, a dead one is born with exactly three.
pub open spec fn next_alive(p: (int, int), alive: Set<(int, int)>) -> bool {
    if alive.contains(p) {
        neighbor_count(p, alive) == 2 || neighbor_count(p, alive) == 3
    } else {
        neighbor_count(p, alive) == 3
    }
}

/// The neighbour offset with index `k`.
fn direction(k: usize) -> (r: (i32, i32))
    requires
        k < 8,
    ensures
        (r.0 as int, r.1 as int) == offset(k as int),
{
    match k {
        0 => (0, -1),
        1 => (1, 1),
        2 => (1, 0),
        3 => (1, -1),
        4 => (0, 1),
        5 => (-1, -1),
        6 => (-1, 0),
        _ => (-1, 1),
    }
}

/// Whether `cells` holds a cell at the position of `c`.
pub fn contains_cell(cells: &Vec<Cell>, c: &Cell) -> (r: bool)
    ensures
        r == cells_of(cells@).contains(c@),
{
    let mut i: usize = 0;
    while i < cells.len()
        invariant
            i <= cells.len(),
            forall|j: int| 0 <= j < i ==> cells@[j]@ != c@,
        decreases cells.len() - i,
    {
        if cells[i].position.x == c.position.x && cells[i].position.y == c.position.y {
            assert(cells@[i as int]@ == c@);
            return true;
        }
        i += 1;
    }
    false
}

impl Cell {
    pub fn new(position: (i32, i32)) -> (r: Cell)
        ensures
            r.position.x == position.0,
            r.position.y == position.1,
    {
        Cell { position: Vec2 { x: position.0, y: position.1 } }
    }

    /// The `k`-th neighbour, or `None` where it lies beyond the `i32` range.
    pub fn neighbor(&self, k: usize) -> (r: Option<Cell>)
        requires
            k < 8,
        ensures
            match r {
                Some(c) => c@ == shift(self@, k as int),
                None => !fits(shift(self@, k as int)),
            },
    {
        let (dx, dy) = direction(k);
        let x: i64 = self.position.x as i64 + dx as i64;
        let y: i64 = self.position.y as i64 + dy as i64;
        if i32::MIN as i64 <= x && x <= i32::MAX as i64 && i32::MIN as i64 <= y && y
            <= i32::MAX as i64 {
            Some(Cell { position: Vec2 { x: x as i32, y: y as i32 } })
        } else {
            None
        }
    }

    /// Whether this cell is alive in the generation after the one held by `field`.
    pub fn is_next_alive(&self, field: &Field) -> (r: bool)
        ensures
            r == next_alive(self@, field.alive()),
    {
        let lived_cell_num = self.count_around_lived_cell(field);
        let is_currently_alive = contains_cell(&field.cells, self);
        if is_currently_alive {
            2 <= lived_cell_num && lived_cell_num <= 3
        } else {
            lived_cell_num == 3
        }
    }

    fn count_around_lived_cell(&self, field: &Field) -> (r: u32)
        ensures
            r == neighbor_count(self@, field.alive()),
    {
        let mut sum: u32 = 0;
        let mut k: usize = 0;
        while k < 8
            invariant
                k <= 8,
                sum == alive_among(self@, field.alive(), k as int),
                sum <= k,
            decreases 8 - k,
        {
            match self.neighbor(k) {
                Some(n) => {
                    if contains_cell(&field.cells, &n) {
                        sum += 1;
                    }
                },
                None => {
                    assert(!field.alive().contains(shift(self@, k as int)));
                },
            }
            k += 1;
        }
        sum
    }
}

} // verus!
