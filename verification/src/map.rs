//! Procedurally generated terrain map: a random seed grid smoothed by a
//! cellular automaton, a derived obstacle mask, and point-to-point path
//! queries over it.

use vstd::prelude::*;

use crate::GameCoord;
use crate::MAP_COLS;
use crate::MAP_ROWS;
use crate::exports::TileE;
use crate::grid::Grid;
use crate::pathfinding::bds;
use crate::pathfinding::in_bounds;
use crate::pathfinding::passable;
use crate::pathfinding::path_ok;
use rand::Rng;
use std::collections::VecDeque;

verus! {

/// Number of smoothing iterations applied to the seed grid.
pub const CA_ITER: usize = 5;

/// Percentage of interior cells seeded as water.
pub const PERCENT_ARE_WALLS: u8 = 20;

/// Relies on rand::Rng::random_range over the inclusive range 1..=100: the
/// result always lies inside that range.
#[verifier::external_body]
fn random_percent() -> (r: u8)
    ensures
        1 <= r <= 100,
{
    rand::rng().random_range(1..=100)
}

/// One when the cell exists and holds water, zero otherwise.
pub open spec fn water_at(t: Grid<TileE>, y: int, x: int) -> int {
    if 0 <= y < t.rows && 0 <= x < t.cols && t.at(y, x) is Water {
        1
    } else {
        0
    }
}

/// How many of a cell's eight neighbors hold water.
pub open spec fn water_neighbors(t: Grid<TileE>, y: int, x: int) -> int {
    water_at(t, y - 1, x - 1) + water_at(t, y - 1, x) + water_at(t, y - 1, x + 1) + water_at(
        t,
        y,
        x - 1,
    ) + water_at(t, y, x + 1) + water_at(t, y + 1, x - 1) + water_at(t, y + 1, x) + water_at(
        t,
        y + 1,
        x + 1,
    )
}

/// The smoothing rule: a cell becomes water when at least four of its eight
/// neighbors hold water, grass when at most two do, and otherwise keeps its
/// tile.
pub open spec fn smoothed(t: Grid<TileE>, y: int, x: int) -> TileE {
    if water_neighbors(t, y, x) >= 4 {
        TileE::Water
    } else if water_neighbors(t, y, x) <= 2 {
        TileE::Grass
    } else {
        t.at(y, x)
    }
}

/// Two co-indexed grids: terrain tiles, and the obstacle mask derived from
/// them once at construction.
#[derive(Clone, Debug)]
pub struct GameMap {
    pub tiles: Grid<TileE>,
    pub obstacles: Grid<bool>,
}

impl GameMap {
    /// Tiles and obstacles have one shape, and a cell is an obstacle exactly
    /// when its tile is water.
    pub open spec fn wf(&self) -> bool {
        &&& self.tiles.wf()
        &&& self.obstacles.wf()
        &&& self.obstacles.rows == self.tiles.rows
        &&& self.obstacles.cols == self.tiles.cols
        &&& forall|y: int, x: int|
            0 <= y < self.tiles.rows && 0 <= x < self.tiles.cols ==> (
            #[trigger] self.obstacles.at(y, x)) == (self.tiles.at(y, x) is Water)
    }

    /// Both endpoints of a path query lie on the grid and off the water.
    pub open spec fn valid_endpoints(&self, start: GameCoord, end: GameCoord) -> bool {
        &&& in_bounds(start, self.tiles.rows as int, self.tiles.cols as int)
        &&& in_bounds(end, self.tiles.rows as int, self.tiles.cols as int)
        &&& passable(self.obstacles, start)
        &&& passable(self.obstacles, end)
    }

    /// A freshly generated map of the configured dimensions; generation is
    /// total and yields only water and grass tiles.
    pub fn new() -> (r: Self)
        ensures
            r.wf(),
            r.tiles.rows == MAP_ROWS,
            r.tiles.cols == MAP_COLS,
            forall|y: int, x: int|
                0 <= y < MAP_ROWS && 0 <= x < MAP_COLS ==> (#[trigger] r.tiles.at(y, x)) is Water
                    || r.tiles.at(y, x) is Grass,
    {
        Self::new_sized(MAP_ROWS, MAP_COLS)
    }

    /// A freshly generated map of the given dimensions; generation is total
    /// and yields only water and grass tiles.
    pub fn new_sized(rows: usize, cols: usize) -> (r: Self)
        requires
            rows >= 1,
            cols >= 1,
            rows * cols <= usize::MAX,
        ensures
            r.wf(),
            r.tiles.rows == rows,
            r.tiles.cols == cols,
            forall|y: int, x: int|
                0 <= y < rows && 0 <= x < cols ==> (#[trigger] r.tiles.at(y, x)) is Water
                    || r.tiles.at(y, x) is Grass,
    {
        let tiles = cellular_automata(rows, cols);
        let obstacles = derive_obstacles(&tiles);
        Self { tiles, obstacles }
    }

    /// A map over the given rectangular tile grid, deriving the obstacle
    /// mask; rejects a grid that is empty, ragged, or too large to index.
    pub fn from_tiles(tiles: &Vec<Vec<TileE>>) -> (r: Option<Self>)
        ensures
            r matches Some(m) ==> {
                &&& m.wf()
                &&& m.tiles.rows == tiles@.len()
                &&& m.tiles.cols == tiles@[0]@.len()
                &&& forall|y: int, x: int|
                    0 <= y < tiles@.len() && 0 <= x < tiles@[0]@.len() ==> #[trigger] m.tiles.at(
                        y,
                        x,
                    ) == tiles@[y]@[x]
            },
            ({
                &&& tiles@.len() >= 1
                &&& tiles@[0]@.len() >= 1
                &&& tiles@.len() * tiles@[0]@.len() <= usize::MAX
                &&& forall|y: int|
                    0 <= y < tiles@.len() ==> (#[trigger] tiles@[y]@).len() == tiles@[0]@.len()
            }) == (r is Some),
    {
        let rows = tiles.len();
        if rows == 0 {
            return None;
        }
        let cols = tiles[0].len();
        if cols == 0 {
            return None;
        }
        let prod = rows.checked_mul(cols);
        if prod.is_none() {
            return None;
        }
        let mut i: usize = 0;
        while i < rows
            invariant
                i <= rows,
                rows == tiles@.len(),
                cols == tiles@[0]@.len(),
                forall|y: int| 0 <= y < i ==> (#[trigger] tiles@[y]@).len() == cols,
            decreases rows - i,
        {
            if tiles[i].len() != cols {
                return None;
            }
            i = i + 1;
        }

        let mut grid: Grid<TileE> = Grid::new(rows, cols, TileE::Grass);
        let mut y: usize = 0;
        while y < rows
            invariant
                y <= rows,
                rows == tiles@.len(),
                cols == tiles@[0]@.len(),
                forall|r2: int| 0 <= r2 < rows ==> (#[trigger] tiles@[r2]@).len() == cols,
                grid.wf(),
                grid.rows == rows,
                grid.cols == cols,
                forall|y2: int, x2: int|
                    0 <= y2 < y && 0 <= x2 < cols ==> #[trigger] grid.at(y2, x2)
                        == tiles@[y2]@[x2],
            decreases rows - y,
        {
            let mut x: usize = 0;
            while x < cols
                invariant
                    y < rows,
                    x <= cols,
                    rows == tiles@.len(),
                    cols == tiles@[0]@.len(),
                    forall|r2: int| 0 <= r2 < rows ==> (#[trigger] tiles@[r2]@).len() == cols,
                    grid.wf(),
                    grid.rows == rows,
                    grid.cols == cols,
                    forall|y2: int, x2: int|
                        0 <= y2 < y && 0 <= x2 < cols ==> #[trigger] grid.at(y2, x2)
                            == tiles@[y2]@[x2],
                    forall|x2: int|
                        0 <= x2 < x ==> #[trigger] grid.at(y as int, x2) == tiles@[y as int]@[x2],
                decreases cols - x,
            {
                grid.set(y, x, tiles[y][x]);
                x = x + 1;
            }
            y = y + 1;
        }
        let obstacles = derive_obstacles(&grid);
        Some(Self { tiles: grid, obstacles })
    }

    /// Snapshot of the full tile grid, row by row.
    pub fn export(&self) -> (r: Vec<Vec<TileE>>)
        requires
            self.wf(),
        ensures
            r@.len() == self.tiles.rows,
            forall|y: int|
                0 <= y < self.tiles.rows ==> (#[trigger] r@[y]@).len() == self.tiles.cols,
            forall|y: int, x: int|
                0 <= y < self.tiles.rows && 0 <= x < self.tiles.cols ==> #[trigger] r@[y]@[x]
                    == self.tiles.at(y, x),
    {
        let rows = self.tiles.rows;
        let cols = self.tiles.cols;
        let mut out: Vec<Vec<TileE>> = Vec::new();
        let mut y: usize = 0;
        while y < rows
            invariant
                y <= rows,
                self.wf(),
                rows == self.tiles.rows,
                cols == self.tiles.cols,
                out@.len() == y,
                forall|y2: int| 0 <= y2 < y ==> (#[trigger] out@[y2]@).len() == cols,
                forall|y2: int, x2: int|
                    0 <= y2 < y && 0 <= x2 < cols ==> #[trigger] out@[y2]@[x2] == self.tiles.at(
                        y2,
                        x2,
                    ),
            decreases rows - y,
        {
            let mut line: Vec<TileE> = Vec::new();
            let mut x: usize = 0;
            while x < cols
                invariant
                    y < rows,
                    x <= cols,
                    self.wf(),
                    rows == self.tiles.rows,
                    cols == self.tiles.cols,
                    line@.len() == x,
                    forall|x2: int|
                        0 <= x2 < x ==> #[trigger] line@[x2] == self.tiles.at(y as int, x2),
                decreases cols - x,
            {
                line.push(self.tiles.get(y, x));
                x = x + 1;
            }
            out.push(line);
            y = y + 1;
        }
        out
    }

    /// Route a path between two cells over the obstacle mask. An endpoint
    /// off the grid or on the water is unreachable; a start equal to the end
    /// yields the single-cell path; any returned path is a well-formed
    /// obstacle-free 8-directional path from start to end; and whenever any
    /// such path exists at all, one is found.
    pub fn find_path(&self, start: GameCoord, end: GameCoord) -> (r: Option<VecDeque<GameCoord>>)
        requires
            self.wf(),
        ensures
            r matches Some(p) ==> path_ok(p@, self.obstacles, start, end),
            !self.valid_endpoints(start, end) ==> r is None,
            self.valid_endpoints(start, end) && start == end ==> (r matches Some(p) && p@
                == seq![start]),
            (exists|p: Seq<GameCoord>| path_ok(p, self.obstacles, start, end)) ==> r is Some,
    {
        let rows = self.obstacles.rows;
        let cols = self.obstacles.cols;
        if start.y >= rows || start.x >= cols || end.y >= rows || end.x >= cols {
            proof {
                assert forall|p: Seq<GameCoord>| !path_ok(p, self.obstacles, start, end) by {
                    if path_ok(p, self.obstacles, start, end) {
                        assert(in_bounds(p[0], rows as int, cols as int));
                        assert(in_bounds(p[p.len() - 1], rows as int, cols as int));
                    }
                }
            }
            return None;
        }
        if self.obstacles.get(start.y, start.x) || self.obstacles.get(end.y, end.x) {
            proof {
                assert forall|p: Seq<GameCoord>| !path_ok(p, self.obstacles, start, end) by {
                    if path_ok(p, self.obstacles, start, end) {
                        assert(passable(self.obstacles, p[0]));
                        assert(passable(self.obstacles, p[p.len() - 1]));
                    }
                }
            }
            return None;
        }
        if start.x == end.x && start.y == end.y {
            let mut single: VecDeque<GameCoord> = VecDeque::new();
            single.push_back(start);
            proof {
                assert(single@ =~= seq![start]);
            }
            return Some(single);
        }
        bds(start, end, &self.obstacles)
    }
}

/// The obstacle mask of a tile grid: a cell is impassable exactly when its
/// tile is water.
fn derive_obstacles(tiles: &Grid<TileE>) -> (r: Grid<bool>)
    requires
        tiles.wf(),
    ensures
        r.wf(),
        r.rows == tiles.rows,
        r.cols == tiles.cols,
        forall|y: int, x: int|
            0 <= y < tiles.rows && 0 <= x < tiles.cols ==> (#[trigger] r.at(y, x)) == (tiles.at(
                y,
                x,
            ) is Water),
{
    let rows = tiles.rows;
    let cols = tiles.cols;
    let mut out: Grid<bool> = Grid::new(rows, cols, false);
    let mut y: usize = 0;
    while y < rows
        invariant
            y <= rows,
            tiles.wf(),
            rows == tiles.rows,
            cols == tiles.cols,
            out.wf(),
            out.rows == rows,
            out.cols == cols,
            forall|y2: int, x2: int|
                0 <= y2 < y && 0 <= x2 < cols ==> (#[trigger] out.at(y2, x2)) == (tiles.at(
                    y2,
                    x2,
                ) is Water),
        decreases rows - y,
    {
        let mut x: usize = 0;
        while x < cols
            invariant
                y < rows,
                x <= cols,
                tiles.wf(),
                rows == tiles.rows,
                cols == tiles.cols,
                out.wf(),
                out.rows == rows,
                out.cols == cols,
                forall|y2: int, x2: int|
                    0 <= y2 < y && 0 <= x2 < cols ==> (#[trigger] out.at(y2, x2)) == (tiles.at(
                        y2,
                        x2,
                    ) is Water),
                forall|x2: int|
                    0 <= x2 < x ==> (#[trigger] out.at(y as int, x2)) == (tiles.at(
                        y as int,
                        x2,
                    ) is Water),
            decreases cols - x,
        {
            let w = matches!(tiles.get(y, x), TileE::Water);
            out.set(y, x, w);
            x = x + 1;
        }
        y = y + 1;
    }
    out
}

/// Seed the grid: the border becomes water, and each interior cell becomes
/// water with the configured probability; every other cell keeps its tile.
fn fill_random(tiles: &mut Grid<TileE>)
    requires
        old(tiles).wf(),
    ensures
        final(tiles).wf(),
        final(tiles).rows == old(tiles).rows,
        final(tiles).cols == old(tiles).cols,
        forall|y: int, x: int|
            0 <= y < old(tiles).rows && 0 <= x < old(tiles).cols ==> (#[trigger] final(tiles).at(
                y,
                x,
            )) is Water || final(tiles).at(y, x) == old(tiles).at(y, x),
        forall|y: int, x: int|
            0 <= y < old(tiles).rows && 0 <= x < old(tiles).cols && (y == 0 || x == 0 || y == old(
                tiles,
            ).rows - 1 || x == old(tiles).cols - 1) ==> (#[trigger] final(tiles).at(y, x)) is Water,
{
    let rows = tiles.rows;
    let cols = tiles.cols;
    let mut y: usize = 0;
    while y < rows
        invariant
            y <= rows,
            tiles.wf(),
            rows == tiles.rows,
            cols == tiles.cols,
            forall|y2: int, x2: int|
                0 <= y2 < rows && 0 <= x2 < cols ==> (#[trigger] tiles.at(y2, x2)) is Water
                    || tiles.at(y2, x2) == old(tiles).at(y2, x2),
            forall|y2: int, x2: int|
                0 <= y2 < y && 0 <= x2 < cols && (y2 == 0 || x2 == 0 || y2 == rows - 1 || x2
                    == cols - 1) ==> (#[trigger] tiles.at(y2, x2)) is Water,
        decreases rows - y,
    {
        let mut x: usize = 0;
        while x < cols
            invariant
                y < rows,
                x <= cols,
                tiles.wf(),
                rows == tiles.rows,
                cols == tiles.cols,
                forall|y2: int, x2: int|
                    0 <= y2 < rows && 0 <= x2 < cols ==> (#[trigger] tiles.at(y2, x2)) is Water
                        || tiles.at(y2, x2) == old(tiles).at(y2, x2),
                forall|y2: int, x2: int|
                    0 <= y2 < y && 0 <= x2 < cols && (y2 == 0 || x2 == 0 || y2 == rows - 1 || x2
                        == cols - 1) ==> (#[trigger] tiles.at(y2, x2)) is Water,
                forall|x2: int|
                    0 <= x2 < x && (y == 0 || x2 == 0 || y == rows - 1 || x2 == cols - 1) ==> (
                    #[trigger] tiles.at(y as int, x2)) is Water,
            decreases cols - x,
        {
            if y == 0 || x == 0 || y == rows - 1 || x == cols - 1 || random_percent()
                <= PERCENT_ARE_WALLS {
                tiles.set(y, x, TileE::Water);
            }
            x = x + 1;
        }
        y = y + 1;
    }
}

/// Count how many of a cell's eight neighbors hold water.
#[verifier::rlimit(80)]
fn count_water_neighbors(tiles: &Grid<TileE>, y: usize, x: usize) -> (r: u8)
    requires
        tiles.wf(),
        y < tiles.rows,
        x < tiles.cols,
    ensures
        r == water_neighbors(*tiles, y as int, x as int),
{
    let rows = tiles.rows;
    let cols = tiles.cols;
    let mut count: u8 = 0;
    if y > 0 && x > 0 && matches!(tiles.get(y - 1, x - 1), TileE::Water) {
        count = count + 1;
    }
    if y > 0 && matches!(tiles.get(y - 1, x), TileE::Water) {
        count = count + 1;
    }
    if y > 0 && x + 1 < cols && matches!(tiles.get(y - 1, x + 1), TileE::Water) {
        count = count + 1;
    }
    if x > 0 && matches!(tiles.get(y, x - 1), TileE::Water) {
        count = count + 1;
    }
    if x + 1 < cols && matches!(tiles.get(y, x + 1), TileE::Water) {
        count = count + 1;
    }
    if y + 1 < rows && x > 0 && matches!(tiles.get(y + 1, x - 1), TileE::Water) {
        count = count + 1;
    }
    if y + 1 < rows && matches!(tiles.get(y + 1, x), TileE::Water) {
        count = count + 1;
    }
    if y + 1 < rows && x + 1 < cols && matches!(tiles.get(y + 1, x + 1), TileE::Water) {
        count = count + 1;
    }
    count
}

/// One smoothing pass: every cell of the result follows the smoothing rule
/// applied to the input grid.
fn step_life(tiles: &Grid<TileE>) -> (r: Grid<TileE>)
    requires
        tiles.wf(),
    ensures
        r.wf(),
        r.rows == tiles.rows,
        r.cols == tiles.cols,
        forall|y: int, x: int|
            0 <= y < tiles.rows && 0 <= x < tiles.cols ==> #[trigger] r.at(y, x) == smoothed(
                *tiles,
                y,
                x,
            ),
{
    let rows = tiles.rows;
    let cols = tiles.cols;
    let mut out: Grid<TileE> = Grid::new(rows, cols, TileE::Grass);
    let mut y: usize = 0;
    while y < rows
        invariant
            y <= rows,
            tiles.wf(),
            rows == tiles.rows,
            cols == tiles.cols,
            out.wf(),
            out.rows == rows,
            out.cols == cols,
            forall|y2: int, x2: int|
                0 <= y2 < y && 0 <= x2 < cols ==> #[trigger] out.at(y2, x2) == smoothed(
                    *tiles,
                    y2,
                    x2,
                ),
        decreases rows - y,
    {
        let mut x: usize = 0;
        while x < cols
            invariant
                y < rows,
                x <= cols,
                tiles.wf(),
                rows == tiles.rows,
                cols == tiles.cols,
                out.wf(),
                out.rows == rows,
                out.cols == cols,
                forall|y2: int, x2: int|
                    0 <= y2 < y && 0 <= x2 < cols ==> #[trigger] out.at(y2, x2) == smoothed(
                        *tiles,
                        y2,
                        x2,
                    ),
                forall|x2: int|
                    0 <= x2 < x ==> #[trigger] out.at(y as int, x2) == smoothed(
                        *tiles,
                        y as int,
                        x2,
                    ),
            decreases cols - x,
        {
            let count = count_water_neighbors(tiles, y, x);
            if count >= 4 {
                out.set(y, x, TileE::Water);
            } else if count <= 2 {
                out.set(y, x, TileE::Grass);
            } else {
                out.set(y, x, tiles.get(y, x));
            }
            x = x + 1;
        }
        y = y + 1;
    }
    out
}

/// Generate terrain: seed a grass grid with random water, then smooth it a
/// fixed number of times. Generation is total and yields only water and
/// grass tiles.
fn cellular_automata(rows: usize, cols: usize) -> (r: Grid<TileE>)
    requires
        rows >= 1,
        cols >= 1,
        rows * cols <= usize::MAX,
    ensures
        r.wf(),
        r.rows == rows,
        r.cols == cols,
        forall|y: int, x: int|
            0 <= y < rows && 0 <= x < cols ==> (#[trigger] r.at(y, x)) is Water || r.at(
                y,
                x,
            ) is Grass,
{
    let mut tiles: Grid<TileE> = Grid::new(rows, cols, TileE::Grass);
    fill_random(&mut tiles);
    let mut i: usize = 0;
    while i < CA_ITER
        invariant
            tiles.wf(),
            tiles.rows == rows,
            tiles.cols == cols,
            forall|y: int, x: int|
                0 <= y < rows && 0 <= x < cols ==> (#[trigger] tiles.at(y, x)) is Water || tiles.at(
                    y,
                    x,
                ) is Grass,
        decreases CA_ITER - i,
    {
        tiles = step_life(&tiles);
        i = i + 1;
    }
    tiles
}

} // verus!
