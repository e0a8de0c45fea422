//! The toroidal grid of symbols that machines read and write.

use vstd::prelude::*;

verus! {

/// What a grid holds: its size and its cells, row by row.
pub ghost struct GridModel {
    pub width: nat,
    pub height: nat,
    pub cells: Seq<u8>,
}

impl GridModel {
    pub open spec fn wf(self) -> bool {
        &&& self.width > 0
        &&& self.height > 0
        &&& self.cells.len() == self.width * self.height
    }

    /// Position in `cells` of the cell at column `x`, row `y`.
    pub open spec fn index(self, x: nat, y: nat) -> int {
        (y * self.width + x) as int
    }

    /// The cell that the address `(x, y)` names, taken modulo the grid's size.
    pub open spec fn cell(self, x: nat, y: nat) -> u8 {
        self.cells[self.index(x % self.width, y % self.height)]
    }

    /// The grid with the cell that `(x, y)` names set to `v`.
    pub open spec fn with_cell(self, x: nat, y: nat, v: u8) -> GridModel {
        GridModel {
            cells: self.cells.update(self.index(x % self.width, y % self.height), v),
            ..self
        }
    }

    /// The same grid with every cell back at the blank symbol.
    pub open spec fn cleared(self) -> GridModel {
        GridModel { cells: Seq::new(self.cells.len(), |i: int| 0u8), ..self }
    }

    /// The grid after one fading tick: every non-zero cell is one lower.
    pub open spec fn decayed(self) -> GridModel {
        GridModel {
            cells: Seq::new(
                self.cells.len(),
                |i: int|
                    if self.cells[i] > 0 {
                        (self.cells[i] - 1) as u8
                    } else {
                        0u8
                    },
            ),
            ..self
        }
    }

    /// Every cell holds a symbol below `bound`.
    pub open spec fn symbols_below(self, bound: nat) -> bool {
        forall|i: int| 0 <= i < self.cells.len() ==> (#[trigger] self.cells[i]) < bound
    }
}

/// Row-major addresses of a grid stay inside it.
pub proof fn lemma_index_in_bounds(x: nat, y: nat, width: nat, height: nat)
    requires
        x < width,
        y < height,
    ensures
        y * width + x < width * height,
{
    assert(y * width + x < width * height) by (nonlinear_arith)
        requires
            x < width,
            y < height,
    ;
}

/// A grid of `width * height` symbols whose edges wrap around.
pub struct Grid {
    width: usize,
    height: usize,
    cells: Vec<u8>,
}

impl View for Grid {
    type V = GridModel;

    closed spec fn view(&self) -> GridModel {
        GridModel { width: self.width as nat, height: self.height as nat, cells: self.cells@ }
    }
}

impl Grid {
    /// A grid of the given size with every cell blank.
    pub fn new(width: usize, height: usize) -> (g: Grid)
        requires
            width > 0,
            height > 0,
            width * height <= usize::MAX,
        ensures
            g@.wf(),
            g@.width == width,
            g@.height == height,
            g@.cells == Seq::new((width * height) as nat, |i: int| 0u8),
    {
        let n = width * height;
        let cells = vec![0u8; n];
        let g = Grid { width, height, cells };
        assert(g@.cells =~= Seq::new((width * height) as nat, |i: int| 0u8));
        g
    }

    pub fn width(&self) -> (r: usize)
        ensures
            r == self@.width,
    {
        self.width
    }

    pub fn height(&self) -> (r: usize)
        ensures
            r == self@.height,
    {
        self.height
    }

    /// The cells row by row, for display.
    pub fn cells(&self) -> (r: &[u8])
        ensures
            r@ == self@.cells,
    {
        self.cells.as_slice()
    }

    fn position(&self, x: usize, y: usize) -> (i: usize)
        requires
            self@.wf(),
        ensures
            i == self@.index(x as nat % self@.width, y as nat % self@.height),
            i < self@.cells.len(),
    {
        let n = self.cells.len();
        let cx = x % self.width;
        let cy = y % self.height;
        proof {
            lemma_index_in_bounds(cx as nat, cy as nat, self.width as nat, self.height as nat);
        }
        assert(cy * self.width + cx < n);
        cy * self.width + cx
    }

    /// The symbol at `(x, y)`, each coordinate taken modulo the grid's size.
    pub fn read(&self, x: usize, y: usize) -> (v: u8)
        requires
            self@.wf(),
        ensures
            v == self@.cell(x as nat, y as nat),
    {
        let i = self.position(x, y);
        self.cells[i]
    }

    /// Writes `v` at `(x, y)`, each coordinate taken modulo the grid's size.
    pub fn write(&mut self, x: usize, y: usize, v: u8)
        requires
            old(self)@.wf(),
        ensures
            final(self)@ == old(self)@.with_cell(x as nat, y as nat, v),
    {
        let i = self.position(x, y);
        self.cells.set(i, v);
    }

    /// Sets every cell back to the blank symbol, in place.
    pub fn reset(&mut self)
        requires
            old(self)@.wf(),
        ensures
            final(self)@ == old(self)@.cleared(),
    {
        let n = self.cells.len();
        let mut i: usize = 0;
        while i < n
            invariant
                self.width == old(self).width,
                self.height == old(self).height,
                self.cells@.len() == n,
                n == old(self).cells@.len(),
                0 <= i <= n,
                forall|j: int| 0 <= j < i ==> self.cells@[j] == 0u8,
            decreases n - i,
        {
            self.cells.set(i, 0);
            i = i + 1;
        }
        assert(self@.cells =~= old(self)@.cleared().cells);
    }

    /// Lowers every non-zero cell by one: the trail that machines leave fades.
    pub fn decay_tick(&mut self)
        requires
            old(self)@.wf(),
        ensures
            final(self)@ == old(self)@.decayed(),
    {
        let n = self.cells.len();
        let mut i: usize = 0;
        while i < n
            invariant
                self.width == old(self).width,
                self.height == old(self).height,
                self.cells@.len() == n,
                n == old(self).cells@.len(),
                0 <= i <= n,
                forall|j: int| 0 <= j < i ==> self.cells@[j] == old(self)@.decayed().cells[j],
                forall|j: int| i <= j < n ==> self.cells@[j] == old(self).cells@[j],
            decreases n - i,
        {
            let c = self.cells[i];
            if c > 0 {
                self.cells.set(i, c - 1);
            }
            i = i + 1;
        }
        assert(self@.cells =~= old(self)@.decayed().cells);
    }
}

} // verus!
