//! The grid: a fixed-width, fixed-height boolean lattice with bounded
//! neighbor counting and the pure Game of Life transition rule.

use vstd::prelude::*;

verus! {

/// Mathematical value of a grid: its dimensions and a matrix of cells,
/// stored as a sequence of rows, each row a sequence of cells.
#[verifier::ext_equal]
pub struct GridView {
    pub width: nat,
    pub height: nat,
    pub cells: Seq<Seq<bool>>,
}

impl GridView {
    /// The matrix has exactly `height` rows of exactly `width` cells each.
    pub open spec fn wf(self) -> bool {
        &&& self.cells.len() == self.height
        &&& forall|y: int| 0 <= y < self.height ==> (#[trigger] self.cells[y]).len() == self.width
    }

    pub open spec fn in_bounds(self, x: int, y: int) -> bool {
        0 <= x < self.width && 0 <= y < self.height
    }

    /// Whether the cell at column `x` of row `y` is alive.
    pub open spec fn cell(self, x: int, y: int) -> bool {
        self.cells[y][x]
    }

    /// 1 if `(x, y)` lies on the grid and is alive, 0 otherwise.
    /// Coordinates off the grid count as dead: the lattice does not wrap.
    pub open spec fn occupancy(self, x: int, y: int) -> int {
        if self.in_bounds(x, y) && self.cell(x, y) {
            1
        } else {
            0
        }
    }

    /// Number of live cells among the eight Moore neighbors of `(x, y)`,
    /// counting only neighbors that lie on the grid.
    pub open spec fn neighbor_count(self, x: int, y: int) -> int {
        self.occupancy(x - 1, y - 1) + self.occupancy(x, y - 1) + self.occupancy(x + 1, y - 1)
            + self.occupancy(x - 1, y) + self.occupancy(x + 1, y) + self.occupancy(x - 1, y + 1)
            + self.occupancy(x, y + 1) + self.occupancy(x + 1, y + 1)
    }

    /// The transition rule for one cell: alive in the next generation iff it
    /// is alive with two or three live neighbors, or dead with exactly three.
    pub open spec fn next_cell(self, x: int, y: int) -> bool {
        let n = self.neighbor_count(x, y);
        (self.cell(x, y) && (n == 2 || n == 3)) || (!self.cell(x, y) && n == 3)
    }

    /// The successor grid: the same dimensions, every cell stepped by the
    /// transition rule, each read taken from `self` alone.
    pub open spec fn step(self) -> GridView {
        GridView {
            width: self.width,
            height: self.height,
            cells: Seq::new(
                self.height,
                |y: int| Seq::new(self.width, |x: int| self.next_cell(x, y)),
            ),
        }
    }

    pub open spec fn all_dead(self) -> bool {
        forall|x: int, y: int| self.in_bounds(x, y) ==> !self.cell(x, y)
    }
}

/// The successor grid is well-formed and keeps the dimensions of its source.
pub proof fn lemma_step_preserves_shape(g: GridView)
    ensures
        g.step().wf(),
        g.step().width == g.width,
        g.step().height == g.height,
{
}

/// Stepping is deterministic: the successor is a function of the grid value
/// alone, so two step results over the same grid are identical.
pub proof fn lemma_step_deterministic(g: GridView, a: GridView, b: GridView)
    requires
        a == g.step(),
        b == g.step(),
    ensures
        a == b,
{
}

/// A cell with no live in-bounds neighbors is dead in the successor,
/// whether or not it is alive now.
pub proof fn lemma_isolated_cell_dies(g: GridView, x: int, y: int)
    requires
        g.in_bounds(x, y),
        g.neighbor_count(x, y) == 0,
    ensures
        !g.step().cell(x, y),
{
}

/// An all-dead grid steps to an all-dead grid.
pub proof fn lemma_all_dead_stays_dead(g: GridView)
    requires
        g.all_dead(),
    ensures
        g.step().all_dead(),
{
    assert forall|x: int, y: int| g.step().in_bounds(x, y) implies !g.step().cell(x, y) by {
        assert(g.neighbor_count(x, y) == 0);
    }
}

/// A dense boolean lattice of fixed dimensions, stored row by row.
pub struct Screen {
    width: usize,
    height: usize,
    data: Vec<Vec<bool>>,
}

impl View for Screen {
    type V = GridView;

    closed spec fn view(&self) -> GridView {
        GridView {
            width: self.width as nat,
            height: self.height as nat,
            cells: self.data@.map_values(|row: Vec<bool>| row@),
        }
    }
}

impl Screen {
    /// A grid of the given dimensions with every cell dead.
    pub fn new(width: usize, height: usize) -> (r: Screen)
        ensures
            r@.wf(),
            r@.width == width as nat,
            r@.height == height as nat,
            r@.all_dead(),
    {
        let mut data: Vec<Vec<bool>> = Vec::new();
        let mut y: usize = 0;
        while y < height
            invariant
                y <= height,
                data@.len() == y as nat,
                forall|j: int| 0 <= j < y ==> (#[trigger] data@[j])@.len() == width as nat,
                forall|j: int, i: int|
                    0 <= j < y && 0 <= i < width ==> !(#[trigger] data@[j]@[i]),
            decreases height - y,
        {
            let mut row: Vec<bool> = Vec::new();
            let mut x: usize = 0;
            while x < width
                invariant
                    x <= width,
                    row@.len() == x as nat,
                    forall|i: int| 0 <= i < x ==> !(#[trigger] row@[i]),
                decreases width - x,
            {
                row.push(false);
                x = x + 1;
            }
            data.push(row);
            y = y + 1;
        }
        Screen { width, height, data }
    }

    pub fn width(&self) -> (r: usize)
        ensures
            r as nat == self@.width,
    {
        self.width
    }

    pub fn height(&self) -> (r: usize)
        ensures
            r as nat == self@.height,
    {
        self.height
    }

    /// An all-dead grid with the dimensions of another grid.
    pub fn with_dimensions_of(other: &Screen) -> (r: Screen)
        ensures
            r@.wf(),
            r@.width == other@.width,
            r@.height == other@.height,
            r@.all_dead(),
    {
        Screen::new(other.width, other.height)
    }

    /// Read one cell. Out-of-bounds coordinates are a caller error.
    pub fn at(&self, x: usize, y: usize) -> (r: bool)
        requires
            self@.wf(),
            self@.in_bounds(x as int, y as int),
        ensures
            r == self@.cell(x as int, y as int),
    {
        proof {
            // The view's shape carries over to the vectors behind it.
            assert(self@.cells[y as int] == self.data@[y as int]@);
        }
        self.data[y][x]
    }

    /// Write one cell. Out-of-bounds coordinates are a caller error.
    pub fn set(&mut self, x: usize, y: usize, value: bool)
        requires
            old(self)@.wf(),
            old(self)@.in_bounds(x as int, y as int),
        ensures
            final(self)@.wf(),
            final(self)@.width == old(self)@.width,
            final(self)@.height == old(self)@.height,
            final(self)@.cells == old(self)@.cells.update(
                y as int,
                old(self)@.cells[y as int].update(x as int, value),
            ),
    {
        proof {
            assert(self@.cells[y as int] == self.data@[y as int]@);
        }
        self.data[y][x] = value;
        proof {
            assert(self@.cells =~= old(self)@.cells.update(
                y as int,
                old(self)@.cells[y as int].update(x as int, value),
            ));
        }
    }

    /// A mutable borrow of one cell. Out-of-bounds coordinates are a caller
    /// error. Whatever the caller writes through the borrow becomes the
    /// cell's value; the dimensions and every other cell stay as they were.
    pub fn at_mut(&mut self, x: usize, y: usize) -> (cell: &mut bool)
        requires
            old(self)@.wf(),
            old(self)@.in_bounds(x as int, y as int),
        ensures
            *cell == old(self)@.cell(x as int, y as int),
            final(self)@.wf(),
            final(self)@.width == old(self)@.width,
            final(self)@.height == old(self)@.height,
            final(self)@.cells == old(self)@.cells.update(
                y as int,
                old(self)@.cells[y as int].update(x as int, *final(cell)),
            ),
    {
        proof {
            assert(self@.cells[y as int] == self.data@[y as int]@);
        }
        let row: &mut Vec<bool> = &mut self.data[y];
        let cell: &mut bool = &mut row[x];
        proof {
            assert(after_borrow(*self)@.cells =~= old(self)@.cells.update(
                y as int,
                old(self)@.cells[y as int].update(x as int, *final(cell)),
            ));
        }
        cell
    }

    /// The successor grid under the Game of Life rule, computed cell by cell
    /// from `self` alone; `self` is left untouched.
    pub fn step(&self) -> (r: Screen)
        requires
            self@.wf(),
        ensures
            r@ == self@.step(),
            r@.wf(),
    {
        let width = self.width;
        let height = self.height;
        let mut data: Vec<Vec<bool>> = Vec::new();
        let mut y: usize = 0;
        while y < height
            invariant
                self@.wf(),
                width as nat == self@.width,
                height as nat == self@.height,
                y <= height,
                data@.len() == y as nat,
                forall|j: int| 0 <= j < y ==> (#[trigger] data@[j])@.len() == width as nat,
                forall|j: int, i: int|
                    0 <= j < y && 0 <= i < width
                        ==> (#[trigger] data@[j]@[i]) == self@.next_cell(i, j),
            decreases height - y,
        {
            let mut row: Vec<bool> = Vec::new();
            let mut x: usize = 0;
            while x < width
                invariant
                    self@.wf(),
                    width as nat == self@.width,
                    height as nat == self@.height,
                    y < height,
                    x <= width,
                    row@.len() == x as nat,
                    forall|i: int| 0 <= i < x ==> (#[trigger] row@[i]) == self@.next_cell(i, y as int),
                decreases width - x,
            {
                let alive = self.at(x, y);
                let neighbors = self.neighbourhood_at(x, y);
                row.push((alive && (neighbors == 2 || neighbors == 3)) || (!alive && neighbors == 3));
                x = x + 1;
            }
            data.push(row);
            y = y + 1;
        }
        let r = Screen { width, height, data };
        proof {
            assert(r@ =~~= self@.step());
        }
        r
    }

    /// Number of live cells among the eight Moore neighbors of `(x, y)`.
    /// Offsets that fall off the grid are skipped, never read.
    pub fn neighbourhood_at(&self, x: usize, y: usize) -> (r: i32)
        requires
            self@.wf(),
            self@.in_bounds(x as int, y as int),
        ensures
            r as int == self@.neighbor_count(x as int, y as int),
            0 <= r <= 8,
    {
        let mut result: i32 = 0;
        if x > 0 && y > 0 && self.at(x - 1, y - 1) {
            result = result + 1;
        }
        if y > 0 && self.at(x, y - 1) {
            result = result + 1;
        }
        if x + 1 < self.width && y > 0 && self.at(x + 1, y - 1) {
            result = result + 1;
        }
        if x > 0 && self.at(x - 1, y) {
            result = result + 1;
        }
        if x + 1 < self.width && self.at(x + 1, y) {
            result = result + 1;
        }
        if x > 0 && y + 1 < self.height && self.at(x - 1, y + 1) {
            result = result + 1;
        }
        if y + 1 < self.height && self.at(x, y + 1) {
            result = result + 1;
        }
        if x + 1 < self.width && y + 1 < self.height && self.at(x + 1, y + 1) {
            result = result + 1;
        }
        result
    }
}

} // verus!
