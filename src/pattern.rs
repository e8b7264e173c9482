use vstd::prelude::*;

verus! {

/// A sequence of `i32` pairs read as mathematical pairs.
pub open spec fn pairs(s: Seq<(i32, i32)>) -> Seq<(int, int)> {
    s.map_values(|t: (i32, i32)| (t.0 as int, t.1 as int))
}

/// The positions `(column, row)` of the ones among the first `n` entries of
/// `row`, which is row number `y`, from left to right.
pub open spec fn row_positions(row: Seq<i32>, y: int, n: int) -> Seq<(int, int)>
    decreases n,
{
    if n <= 0 {
        Seq::empty()
    } else if row[n - 1] == 1 {
        row_positions(row, y, n - 1).push((n - 1, y))
    } else {
        row_positions(row, y, n - 1)
    }
}

/// The positions of the ones in the first `m` rows of `grid`, row by row.
pub open spec fn grid_positions(grid: Seq<Vec<i32>>, m: int) -> Seq<(int, int)>
    decreases m,
{
    if m <= 0 {
        Seq::empty()
    } else {
        grid_positions(grid, m - 1) + row_positions(grid[m - 1]@, m - 1, grid[m - 1]@.len() as int)
    }
}

/// Reads a pattern drawn as rows of zeros and ones: each `1` in column `x` of
/// row `y` gives the position `(x, y)`, row by row, left to right.
pub fn into_coordinates(grid: Vec<Vec<i32>>) -> (r: Vec<(i32, i32)>)
    requires
        grid@.len() <= i32::MAX + 1,
        forall|y: int| 0 <= y < grid@.len() ==> #[trigger] grid@[y]@.len() <= i32::MAX + 1,
    ensures
        pairs(r@) == grid_positions(grid@, grid@.len() as int),
{
    let mut r: Vec<(i32, i32)> = Vec::new();
    let mut i: usize = 0;
    while i < grid.len()
        invariant
            i <= grid@.len(),
            grid@.len() <= i32::MAX + 1,
            forall|y: int| 0 <= y < grid@.len() ==> #[trigger] grid@[y]@.len() <= i32::MAX + 1,
            pairs(r@) == grid_positions(grid@, i as int),
        decreases grid.len() - i,
    {
        let row = &grid[i];
        let mut j: usize = 0;
        assert(grid_positions(grid@, i as int) + row_positions(row@, i as int, 0) =~= grid_positions(
            grid@,
            i as int,
        ));
        while j < row.len()
            invariant
                i < grid@.len(),
                grid@.len() <= i32::MAX + 1,
                row@ == grid@[i as int]@,
                row@.len() <= i32::MAX + 1,
                j <= row@.len(),
                pairs(r@) == grid_positions(grid@, i as int) + row_positions(row@, i as int, j as int),
            decreases row.len() - j,
        {
            if row[j] == 1 {
                let ghost before = r@;
                r.push((j as i32, i as i32));
                assert(pairs(r@) =~= pairs(before).push((j as int, i as int)));
            }
            j += 1;
        }
        i += 1;
    }
    r
}

} // verus!
