//! The simulation core: the double-buffered grid, the blocked-cell mask,
//! the position iteration, and the step (`evolve`) discipline.

use vstd::prelude::*;
use vstd::pervasive::VecAdditionalExecFns;
use crate::cell::Cell;
use crate::cell::Position;
use crate::error::SimError;

verus! {

/// A position lies in the domain of a `width` x `height` grid iff both of
/// its coordinates are at least zero and below the respective dimension.
pub open spec fn in_domain(width: int, height: int, p: Position) -> bool {
    0 <= p.x < width && 0 <= p.y < height
}

/// The row-major buffer slot of an in-domain position.
pub open spec fn index_of(width: int, p: Position) -> int {
    p.x + p.y * width
}

/// The position stored at row-major slot `k` of a grid of the given width.
pub open spec fn pos_at(width: int, k: int) -> Position {
    Position { x: (k % width) as i32, y: (k / width) as i32 }
}

/// How many positions a `width` x `height` domain holds: none at all when
/// either dimension is non-positive.
pub open spec fn domain_size(width: int, height: int) -> int {
    if width <= 0 || height <= 0 {
        0
    } else {
        width * height
    }
}

/// Row-major iteration visits every domain position exactly once: slot
/// numbers `0..width * height` and domain positions are in bijection, with
/// `pos_at` and `index_of` as the two directions, and slot order is
/// row-major order.
pub proof fn lemma_row_major_bijection(width: int, height: int)
    requires
        1 <= width <= i32::MAX,
        1 <= height <= i32::MAX,
    ensures
        forall|k: int|
            0 <= k < width * height ==> in_domain(width, height, #[trigger] pos_at(width, k)),
        forall|k: int|
            0 <= k < width * height ==> index_of(width, #[trigger] pos_at(width, k)) == k,
        forall|p: Position|
            in_domain(width, height, p) ==> pos_at(width, index_of(width, p)) == p,
        forall|p: Position|
            in_domain(width, height, p) ==> 0 <= #[trigger] index_of(width, p) < width * height,
{
    assert forall|k: int| 0 <= k < width * height implies in_domain(
        width,
        height,
        #[trigger] pos_at(width, k),
    ) && index_of(width, pos_at(width, k)) == k by {
        assert(0 <= k % width < width && 0 <= k / width < height && (k % width) + (k / width)
            * width == k) by (nonlinear_arith)
            requires
                1 <= width,
                1 <= height,
                0 <= k < width * height,
        ;
    }
    assert forall|p: Position| in_domain(width, height, p) implies pos_at(
        width,
        index_of(width, p),
    ) == p && 0 <= index_of(width, p) < width * height by {
        assert((p.x + p.y * width) % width == p.x && (p.x + p.y * width) / width == p.y && 0 <= p.x
            + p.y * width < width * height) by (nonlinear_arith)
            requires
                1 <= width,
                0 <= p.x < width,
                0 <= p.y < height,
        ;
    }
}

/// Reads outside the domain always observe the zero-state outside cell,
/// whatever the grid's dimensions, contents or step history.
pub proof fn lemma_outside_reads_zero(g: GridView, p: Position)
    requires
        !g.in_domain(p),
    ensures
        g.at(p) == Cell::zero(),
{
}

/// What a well-formed grid guarantees its callers: positive dimensions
/// that fit in `i32`, and both buffers covering the domain exactly.
pub proof fn lemma_grid_wf_facts(g: &Grid)
    requires
        g.wf(),
    ensures
        1 <= g@.width <= i32::MAX,
        1 <= g@.height <= i32::MAX,
        g@.cells.len() == g@.width * g@.height,
        g.back_view().len() == g@.width * g@.height,
{
}

/// How many flags of a mask sequence are set.
pub open spec fn count_trues(s: Seq<bool>) -> int
    decreases s.len(),
{
    if s.len() == 0 {
        0
    } else {
        count_trues(s.drop_last()) + if s.last() {
            1int
        } else {
            0int
        }
    }
}

/// The readable state of a grid: its dimensions and the front buffer in
/// row-major order. Reads outside the domain resolve to the zero cell.
pub ghost struct GridView {
    pub width: int,
    pub height: int,
    pub cells: Seq<Cell>,
}

impl GridView {
    pub open spec fn in_domain(self, p: Position) -> bool {
        in_domain(self.width, self.height, p)
    }

    /// What a read at `p` observes: the front-buffer cell when `p` is
    /// in-domain, the zero-state outside cell otherwise.
    pub open spec fn at(self, p: Position) -> Cell {
        if self.in_domain(p) {
            self.cells[index_of(self.width, p)]
        } else {
            Cell::zero()
        }
    }
}

/// A rectangular domain of cells held in two complete row-major buffers:
/// the readable front buffer and the writable back buffer. The two swap
/// roles in O(1) at the end of every step.
pub struct Grid {
    pub width: i32,
    pub height: i32,
    front: Vec<Cell>,
    back: Vec<Cell>,
    outside_cell: Cell,
}

impl View for Grid {
    type V = GridView;

    closed spec fn view(&self) -> GridView {
        GridView { width: self.width as int, height: self.height as int, cells: self.front@ }
    }
}

impl Grid {
    /// Well-formedness: positive dimensions, both buffers cover the whole
    /// domain, and the outside cell is the zero state.
    pub closed spec fn wf(&self) -> bool {
        &&& 1 <= self.width
        &&& 1 <= self.height
        &&& self.front@.len() == self.width * self.height
        &&& self.back@.len() == self.width * self.height
        &&& self.outside_cell == Cell::zero()
    }

    /// The back (staging) buffer in row-major order.
    pub closed spec fn back_view(&self) -> Seq<Cell> {
        self.back@
    }

    /// Allocates both buffers and fills every in-domain slot of both with
    /// the zero cell. Rejects non-positive dimensions.
    pub fn new(width: i32, height: i32) -> (r: Result<Grid, SimError>)
        requires
            1 <= width && 1 <= height ==> width * height <= usize::MAX,
        ensures
            (width <= 0 || height <= 0) <==> r is Err,
            r is Err ==> r == Err::<Grid, SimError>(SimError::InvalidDimensions),
            r is Ok ==> ({
                let g = r->Ok_0;
                &&& g.wf()
                &&& g@.width == width
                &&& g@.height == height
                &&& g@.cells.len() == width * height
                &&& g.back_view().len() == width * height
                &&& forall|p: Position| g@.at(p) == Cell::zero()
                &&& forall|j: int| 0 <= j < g.back_view().len() ==> g.back_view()[j] == Cell::zero()
            }),
    {
        if width <= 0 || height <= 0 {
            return Err(SimError::InvalidDimensions);
        }
        proof {
            assert((width as int) * (height as int)
                <= 0x7fff_ffff * 0x7fff_ffff) by (nonlinear_arith)
                requires
                    1 <= width as int <= 0x7fff_ffff,
                    1 <= height as int <= 0x7fff_ffff,
            ;
        }
        let n: usize = ((width as u64) * (height as u64)) as usize;
        let mut front: Vec<Cell> = Vec::new();
        let mut back: Vec<Cell> = Vec::new();
        let mut i: usize = 0;
        while i < n
            invariant
                i <= n,
                front@.len() == i,
                back@.len() == i,
                forall|j: int| 0 <= j < i ==> front@[j] == Cell::zero(),
                forall|j: int| 0 <= j < i ==> back@[j] == Cell::zero(),
            decreases n - i,
        {
            front.push(Cell::new());
            back.push(Cell::new());
            i = i + 1;
        }
        let grid = Grid { width, height, front, back, outside_cell: Cell::new() };
        proof {
            assert forall|p: Position| grid@.at(p) == Cell::zero() by {
                if grid@.in_domain(p) {
                    assert(0 <= p.x + p.y * (width as int) < (width as int) * (height
                        as int)) by (nonlinear_arith)
                        requires
                            0 <= p.x < width as int,
                            0 <= p.y < height as int,
                    ;
                }
            }
        }
        Ok(grid)
    }

    /// The row-major slot of an in-domain position.
    fn slot(&self, position: &Position) -> (i: usize)
        requires
            self.wf(),
            self@.in_domain(*position),
        ensures
            i == index_of(self@.width, *position),
            i < self@.cells.len(),
            i < self.back_view().len(),
    {
        let len: usize = self.front.len();
        proof {
            assert(0 <= position.x + position.y * (self.width as int) < (self.width as int) * (
            self.height as int) && position.y * (self.width as int) <= position.x + position.y * (
            self.width as int)) by (nonlinear_arith)
                requires
                    0 <= position.x < self.width as int,
                    0 <= position.y < self.height as int,
            ;
        }
        (position.x as usize) + (position.y as usize) * (self.width as usize)
    }

    /// Returns the front-buffer cell at `position` when it is in-domain,
    /// and the zero-state outside cell otherwise. Never fails.
    pub fn get(&self, position: &Position) -> (cell: &Cell)
        requires
            self.wf(),
        ensures
            *cell == self@.at(*position),
    {
        if position.x >= 0 && position.x < self.width && position.y >= 0 && position.y
            < self.height {
            let i: usize = self.slot(position);
            &self.front[i]
        } else {
            &self.outside_cell
        }
    }

    /// Writes `cell` into the back buffer at `position`; an out-of-domain
    /// write is rejected and leaves the grid unchanged. The readable state
    /// is never affected.
    pub fn set(&mut self, position: Position, cell: Cell) -> (r: Result<(), SimError>)
        requires
            old(self).wf(),
        ensures
            final(self).wf(),
            final(self)@ == old(self)@,
            old(self)@.in_domain(position) ==> r == Ok::<(), SimError>(())
                && final(self).back_view() == old(self).back_view().update(
                index_of(old(self)@.width, position),
                cell,
            ),
            !old(self)@.in_domain(position) ==> r == Err::<(), SimError>(
                SimError::OutOfDomainWrite,
            ) && *final(self) == *old(self),
    {
        if position.x >= 0 && position.x < self.width && position.y >= 0 && position.y
            < self.height {
            let i: usize = self.slot(&position);
            self.back.set(i, cell);
            Ok(())
        } else {
            Err(SimError::OutOfDomainWrite)
        }
    }

    /// Exchanges the roles of the front and the back buffer: an O(1)
    /// ownership exchange, never a copy.
    pub fn swap(&mut self)
        requires
            old(self).wf(),
        ensures
            final(self).wf(),
            final(self)@.width == old(self)@.width,
            final(self)@.height == old(self)@.height,
            final(self)@.cells == old(self).back_view(),
            final(self).back_view() == old(self)@.cells,
    {
        core::mem::swap(&mut self.front, &mut self.back);
    }

    /// A fresh row-major iterator over every position of this grid's domain.
    pub fn iter(&self) -> (it: GridIterator)
        ensures
            it.wf(),
            it.spec_width() == self@.width,
            it.spec_height() == self@.height,
            it.cursor() == 0,
            it.total() == domain_size(self@.width, self@.height),
    {
        GridIterator::new(self.width, self.height)
    }
}

/// A lazy, finite, restartable generator of every position of a
/// `width` x `height` domain, in row-major order: for each row `y` from 0
/// upward, every column `x` from 0 upward.
pub struct GridIterator {
    width: i32,
    height: i32,
    x: i32,
    y: i32,
}

impl GridIterator {
    /// The iterator's cursor: how many positions have been yielded so far.
    pub closed spec fn cursor(&self) -> int {
        if self.width <= 0 || self.height <= 0 {
            0
        } else {
            self.y * self.width + self.x
        }
    }

    /// How many positions the iterator yields in total: one per domain
    /// position, none at all for a degenerate (empty) domain.
    pub closed spec fn total(&self) -> int {
        if self.width <= 0 || self.height <= 0 {
            0
        } else {
            self.width * self.height
        }
    }

    pub closed spec fn spec_width(&self) -> int {
        self.width as int
    }

    pub closed spec fn spec_height(&self) -> int {
        self.height as int
    }

    pub closed spec fn wf(&self) -> bool {
        1 <= self.width && 1 <= self.height ==> {
            &&& 0 <= self.x < self.width
            &&& 0 <= self.y <= self.height
            &&& self.y == self.height ==> self.x == 0
        }
    }

    pub fn new(width: i32, height: i32) -> (it: GridIterator)
        ensures
            it.wf(),
            it.spec_width() == width,
            it.spec_height() == height,
            it.cursor() == 0,
            it.total() == domain_size(width as int, height as int),
    {
        GridIterator { width, height, x: 0, y: 0 }
    }

    /// Yields the next position in row-major order, or `None` once every
    /// domain position has been yielded (immediately so on an empty domain).
    pub fn next(&mut self) -> (r: Option<Position>)
        requires
            old(self).wf(),
        ensures
            final(self).wf(),
            final(self).spec_width() == old(self).spec_width(),
            final(self).spec_height() == old(self).spec_height(),
            final(self).total() == old(self).total(),
            old(self).cursor() < old(self).total() ==> r == Some(
                pos_at(old(self).spec_width(), old(self).cursor()),
            ) && final(self).cursor() == old(self).cursor() + 1,
            old(self).cursor() >= old(self).total() ==> r == None::<Position> && *final(self)
                == *old(self),
    {
        if self.width <= 0 || self.height <= 0 {
            return None;
        }
        if self.y >= self.height {
            return None;
        }
        let p = Position::new(self.x, self.y);
        proof {
            let w = self.width as int;
            let h = self.height as int;
            let c = self.y * w + self.x;
            assert(c % w == self.x as int && c / w == self.y as int && 0 <= c && c + 1 <= w * h && (
            self.y + 1) * w == self.y * w + w) by (nonlinear_arith)
                requires
                    1 <= w,
                    0 <= self.x < w,
                    0 <= self.y < h,
                    c == self.y * w + self.x,
            ;
            assert(p == pos_at(self.spec_width(), self.cursor()));
        }
        self.x = self.x + 1;
        if self.x >= self.width {
            self.x = 0;
            self.y = self.y + 1;
        }
        Some(p)
    }
}

/// The static set of blocked (solid, impassable) positions, one flag per
/// domain position in row-major order, computed once from an RGBA mask
/// image and immutable thereafter.
pub struct BlockedMask {
    width: i32,
    height: i32,
    blocked: Vec<bool>,
    blocked_count: usize,
}

impl BlockedMask {
    pub closed spec fn spec_width(&self) -> int {
        self.width as int
    }

    pub closed spec fn spec_height(&self) -> int {
        self.height as int
    }

    /// The per-slot flags in row-major order.
    pub closed spec fn flags(&self) -> Seq<bool> {
        self.blocked@
    }

    pub closed spec fn wf(&self) -> bool {
        &&& 1 <= self.width
        &&& 1 <= self.height
        &&& self.blocked@.len() == self.width * self.height
        &&& self.blocked_count == count_trues(self.blocked@)
    }

    /// A position is blocked iff it is in-domain and its flag is set;
    /// positions outside the domain are never blocked.
    pub open spec fn spec_blocked(&self, p: Position) -> bool {
        in_domain(self.spec_width(), self.spec_height(), p) && self.flags()[index_of(
            self.spec_width(),
            p,
        )]
    }

    /// Builds the mask from a `width` x `height` RGBA image: 4 bytes per
    /// pixel, row-major, red channel first. A position is blocked iff the
    /// red channel byte of its pixel is exactly 0. Rejects non-positive
    /// dimensions and an image buffer shorter than `4 * width * height`.
    pub fn new(width: i32, height: i32, image: &Vec<u8>) -> (r: Result<BlockedMask, SimError>)
        ensures
            (width <= 0 || height <= 0) ==> r == Err::<BlockedMask, SimError>(
                SimError::InvalidDimensions,
            ),
            (1 <= width && 1 <= height && image@.len() < 4 * width * height) ==> r == Err::<
                BlockedMask,
                SimError,
            >(SimError::MaskSizeMismatch),
            (1 <= width && 1 <= height && image@.len() >= 4 * width * height) ==> ({
                let m = r->Ok_0;
                &&& r is Ok
                &&& m.wf()
                &&& m.spec_width() == width
                &&& m.spec_height() == height
                &&& forall|p: Position|
                    m.spec_blocked(p) <==> (in_domain(width as int, height as int, p) && image@[4
                        * index_of(width as int, p)] == 0)
            }),
    {
        if width <= 0 || height <= 0 {
            return Err(SimError::InvalidDimensions);
        }
        proof {
            assert(0 <= (width as int) * (height as int) <= 0x7fff_ffff * 0x7fff_ffff && 4 * ((
            width as int) * (height as int)) < 0xffff_ffff_ffff_ffff && 4 * ((width as int) * (
            height as int)) == 4 * (width as int) * (height as int)) by (nonlinear_arith)
                requires
                    1 <= width as int <= 0x7fff_ffff,
                    1 <= height as int <= 0x7fff_ffff,
            ;
        }
        let image_len: usize = image.len();
        let nn: u64 = (width as u64) * (height as u64);
        let need: u64 = 4u64 * nn;
        if (image_len as u64) < need {
            return Err(SimError::MaskSizeMismatch);
        }
        let n: usize = nn as usize;
        let mut blocked: Vec<bool> = Vec::new();
        let mut blocked_count: usize = 0;
        let mut k: usize = 0;
        while k < n
            invariant
                k <= n,
                blocked@.len() == k,
                blocked_count <= k,
                blocked_count == count_trues(blocked@),
                n == (width as int) * (height as int),
                4 * n <= image_len,
                image_len == image@.len(),
                forall|j: int| 0 <= j < k ==> (blocked@[j] <==> image@[4 * j] == 0),
            decreases n - k,
        {
            let ghost prev = blocked@;
            let b: bool = image[4 * k] == 0;
            blocked.push(b);
            if b {
                blocked_count = blocked_count + 1;
            }
            proof {
                assert(blocked@.drop_last() =~= prev);
            }
            k = k + 1;
        }
        let mask = BlockedMask { width, height, blocked, blocked_count };
        proof {
            assert forall|p: Position|
                mask.spec_blocked(p) <==> (in_domain(width as int, height as int, p) && image@[4
                    * index_of(width as int, p)] == 0) by {
                if in_domain(width as int, height as int, p) {
                    assert(0 <= p.x + p.y * (width as int) < (width as int) * (height
                        as int)) by (nonlinear_arith)
                        requires
                            0 <= p.x < width as int,
                            0 <= p.y < height as int,
                    ;
                }
            }
        }
        Ok(mask)
    }

    /// Reports whether `position` is blocked.
    pub fn contains(&self, position: &Position) -> (r: bool)
        requires
            self.wf(),
        ensures
            r == self.spec_blocked(*position),
    {
        if position.x >= 0 && position.x < self.width && position.y >= 0 && position.y
            < self.height {
            let len: usize = self.blocked.len();
            proof {
                assert(0 <= position.x + position.y * (self.width as int) < (self.width as int) * (
                self.height as int) && position.y * (self.width as int) <= position.x + position.y
                    * (self.width as int)) by (nonlinear_arith)
                    requires
                        0 <= position.x < self.width as int,
                        0 <= position.y < self.height as int,
                ;
            }
            let i: usize = (position.x as usize) + (position.y as usize) * (self.width as usize);
            self.blocked[i]
        } else {
            false
        }
    }

    /// How many positions the mask blocks.
    pub fn len(&self) -> (c: usize)
        requires
            self.wf(),
        ensures
            c == count_trues(self.flags()),
    {
        self.blocked_count
    }
}

/// A local update rule, supplied by the caller: computes a cell's next
/// state from its position and read-only access to the current grid state.
pub trait Solver {
    /// The next-state cell this rule produces, as a function of the
    /// position and the readable grid state alone.
    spec fn spec_solve(&self, position: Position, view: GridView) -> Cell;

    /// Computes the next-state cell. It may read any position through
    /// `Grid::get`, including out-of-domain neighbours, which resolve to
    /// the zero-state outside cell; it cannot mutate the grid.
    fn solve(&self, position: &Position, grid: &Grid) -> (cell: Cell)
        requires
            grid.wf(),
        ensures
            cell == self.spec_solve(*position, grid@),
    ;
}

/// A solver that assigns one fixed cell to every position it is asked about.
pub struct ConstantSolver {
    pub cell: Cell,
}

impl Solver for ConstantSolver {
    open spec fn spec_solve(&self, position: Position, view: GridView) -> Cell {
        self.cell
    }

    fn solve(&self, position: &Position, grid: &Grid) -> (cell: Cell) {
        self.cell
    }
}

/// A solver that carries every cell's current state forward unchanged.
pub struct IdentitySolver {}

impl Solver for IdentitySolver {
    open spec fn spec_solve(&self, position: Position, view: GridView) -> Cell {
        view.at(position)
    }

    fn solve(&self, position: &Position, grid: &Grid) -> (cell: Cell) {
        *grid.get(position)
    }
}

/// One grid and one blocked mask of matching dimensions, stepped together:
/// each step applies a solver to every non-blocked position, carries
/// blocked positions forward, and commits by swapping the buffers.
pub struct Simulation {
    pub grid: Grid,
    blocked_cells: BlockedMask,
}

impl Simulation {
    pub closed spec fn wf(&self) -> bool {
        &&& self.grid.wf()
        &&& self.blocked_cells.wf()
        &&& self.blocked_cells.spec_width() == self.grid@.width
        &&& self.blocked_cells.spec_height() == self.grid@.height
    }

    /// The readable state of the owned grid.
    pub closed spec fn grid_view(&self) -> GridView {
        self.grid@
    }

    /// Whether the mask blocks `p`.
    pub closed spec fn spec_is_blocked(&self, p: Position) -> bool {
        self.blocked_cells.spec_blocked(p)
    }

    /// How many domain positions are blocked.
    pub open spec fn spec_blocked_count(&self) -> int {
        count_trues(
            Seq::new(
                (self.grid_view().width * self.grid_view().height) as nat,
                |j: int| self.spec_is_blocked(pos_at(self.grid_view().width, j)),
            ),
        )
    }

    /// Builds the grid and the blocked mask together. Rejects non-positive
    /// dimensions, then an image buffer shorter than the domain requires.
    pub fn new(width: i32, height: i32, image: Vec<u8>) -> (r: Result<Simulation, SimError>)
        ensures
            (width <= 0 || height <= 0) ==> r == Err::<Simulation, SimError>(
                SimError::InvalidDimensions,
            ),
            (1 <= width && 1 <= height && image@.len() < 4 * width * height) ==> r == Err::<
                Simulation,
                SimError,
            >(SimError::MaskSizeMismatch),
            (1 <= width && 1 <= height && image@.len() >= 4 * width * height) ==> ({
                let s = r->Ok_0;
                &&& r is Ok
                &&& s.wf()
                &&& s.grid_view().width == width
                &&& s.grid_view().height == height
                &&& forall|p: Position| s.grid_view().at(p) == Cell::zero()
                &&& forall|p: Position|
                    s.spec_is_blocked(p) <==> (in_domain(width as int, height as int, p) && image@[
                        4 * index_of(width as int, p)] == 0)
            }),
    {
        if width <= 0 || height <= 0 {
            return Err(SimError::InvalidDimensions);
        }
        let image_len: usize = image.len();
        let mask = match BlockedMask::new(width, height, &image) {
            Ok(m) => m,
            Err(e) => {
                return Err(e);
            },
        };
        proof {
            assert(0 <= (width as int) * (height as int) && (width as int) * (height as int) <= 4
                * (width as int) * (height as int)) by (nonlinear_arith)
                requires
                    1 <= width as int,
                    1 <= height as int,
            ;
            assert(image@.len() == image_len);
        }
        let grid = match Grid::new(width, height) {
            Ok(g) => g,
            Err(e) => {
                // dimensions were validated above, so this arm is not taken
                return Err(e);
            },
        };
        Ok(Simulation { grid, blocked_cells: mask })
    }

    /// Reads a cell through the owned grid: the front-buffer value for an
    /// in-domain position, the zero-state outside cell otherwise.
    pub fn get(&self, position: &Position) -> (cell: &Cell)
        requires
            self.wf(),
        ensures
            *cell == self.grid_view().at(*position),
    {
        self.grid.get(position)
    }

    /// Delegates to the blocked mask; stepping never changes the answer.
    pub fn is_blocked(&self, position: &Position) -> (r: bool)
        requires
            self.wf(),
        ensures
            r == self.spec_is_blocked(*position),
    {
        self.blocked_cells.contains(position)
    }

    /// The total number of domain cells, reported for observability.
    pub fn total_cells(&self) -> (n: u64)
        requires
            self.wf(),
        ensures
            n == self.grid_view().width * self.grid_view().height,
    {
        proof {
            assert((self.grid.width as int) * (self.grid.height as int) <= 0x7fff_ffff
                * 0x7fff_ffff) by (nonlinear_arith)
                requires
                    1 <= self.grid.width as int <= 0x7fff_ffff,
                    1 <= self.grid.height as int <= 0x7fff_ffff,
            ;
        }
        (self.grid.width as u64) * (self.grid.height as u64)
    }

    /// The number of blocked domain cells, reported for observability.
    pub fn blocked_count(&self) -> (c: usize)
        requires
            self.wf(),
        ensures
            c == self.spec_blocked_count(),
    {
        proof {
            let w = self.grid_view().width;
            let h = self.grid_view().height;
            lemma_row_major_bijection(w, h);
            assert(self.blocked_cells.flags() =~= Seq::new(
                (w * h) as nat,
                |j: int| self.spec_is_blocked(pos_at(w, j)),
            ));
        }
        self.blocked_cells.len()
    }

    /// The black-and-white visualization of the blocked mask: 4 RGBA bytes
    /// per domain cell in row-major order, an opaque black pixel for each
    /// blocked position and an opaque white one for each open position.
    pub fn render_rgba(&self) -> (rgba: Vec<u8>)
        requires
            self.wf(),
        ensures
            rgba@.len() == 4 * (self.grid_view().width * self.grid_view().height),
            forall|j: int|
                0 <= j < self.grid_view().width * self.grid_view().height ==> ({
                    let v: u8 = if self.spec_is_blocked(
                        #[trigger] pos_at(self.grid_view().width, j),
                    ) {
                        0
                    } else {
                        255
                    };
                    &&& rgba@[4 * j] == v
                    &&& rgba@[4 * j + 1] == v
                    &&& rgba@[4 * j + 2] == v
                    &&& rgba@[4 * j + 3] == 255u8
                }),
    {
        let ghost n: int = self.grid_view().width * self.grid_view().height;
        let mut rgba: Vec<u8> = Vec::new();
        let mut iter = self.grid.iter();
        loop
            invariant
                self.wf(),
                iter.wf(),
                iter.spec_width() == self.grid_view().width,
                iter.spec_height() == self.grid_view().height,
                iter.total() == n,
                0 <= iter.cursor() <= n,
                rgba@.len() == 4 * iter.cursor(),
                forall|j: int|
                    0 <= j < iter.cursor() ==> ({
                        let v: u8 = if self.spec_is_blocked(
                            #[trigger] pos_at(self.grid_view().width, j),
                        ) {
                            0
                        } else {
                            255
                        };
                        &&& rgba@[4 * j] == v
                        &&& rgba@[4 * j + 1] == v
                        &&& rgba@[4 * j + 2] == v
                        &&& rgba@[4 * j + 3] == 255u8
                    }),
            ensures
                rgba@.len() == 4 * n,
                forall|j: int|
                    0 <= j < n ==> ({
                        let v: u8 = if self.spec_is_blocked(
                            #[trigger] pos_at(self.grid_view().width, j),
                        ) {
                            0
                        } else {
                            255
                        };
                        &&& rgba@[4 * j] == v
                        &&& rgba@[4 * j + 1] == v
                        &&& rgba@[4 * j + 2] == v
                        &&& rgba@[4 * j + 3] == 255u8
                    }),
            decreases n - iter.cursor(),
        {
            let position = match iter.next() {
                Some(p) => p,
                None => {
                    break ;
                },
            };
            let v: u8 = if self.is_blocked(&position) {
                0
            } else {
                255
            };
            rgba.push(v);
            rgba.push(v);
            rgba.push(v);
            rgba.push(255);
        }
        rgba
    }

    /// Runs one full step. Compute phase: for every domain position in
    /// row-major order, stage into the back buffer the solver's next state,
    /// or, for a blocked position, its current value carried forward
    /// unchanged. Commit phase: swap the buffers. The solver only ever sees
    /// the front buffer as it stood when the step began, and is never
    /// invoked for a blocked position.
    pub fn evolve<S: Solver>(&mut self, solver: S)
        requires
            old(self).wf(),
        ensures
            final(self).wf(),
            final(self).grid_view().width == old(self).grid_view().width,
            final(self).grid_view().height == old(self).grid_view().height,
            forall|p: Position| final(self).spec_is_blocked(p) == old(self).spec_is_blocked(p),
            forall|p: Position|
                final(self).grid_view().in_domain(p) == old(self).grid_view().in_domain(p),
            forall|p: Position|
                old(self).grid_view().in_domain(p) ==> final(self).grid_view().at(p) == (if old(
                    self,
                ).spec_is_blocked(p) {
                    old(self).grid_view().at(p)
                } else {
                    solver.spec_solve(p, old(self).grid_view())
                }),
            forall|p: Position|
                !old(self).grid_view().in_domain(p) ==> final(self).grid_view().at(p)
                    == Cell::zero(),
    {
        let ghost g0: GridView = self.grid@;
        let ghost m0: BlockedMask = self.blocked_cells;
        let ghost n: int = g0.width * g0.height;
        let mut iter = self.grid.iter();
        loop
            invariant
                self.wf(),
                self.blocked_cells == m0,
                self.grid@ == g0,
                iter.wf(),
                iter.spec_width() == g0.width,
                iter.spec_height() == g0.height,
                iter.total() == n,
                0 <= iter.cursor() <= n,
                self.grid.back_view().len() == n,
                forall|j: int|
                    0 <= j < iter.cursor() ==> self.grid.back_view()[j] == ({
                        let p = pos_at(g0.width, j);
                        if m0.spec_blocked(p) {
                            g0.at(p)
                        } else {
                            solver.spec_solve(p, g0)
                        }
                    }),
            ensures
                self.wf(),
                self.blocked_cells == m0,
                self.grid@ == g0,
                self.grid.back_view().len() == n,
                forall|j: int|
                    0 <= j < n ==> self.grid.back_view()[j] == ({
                        let p = pos_at(g0.width, j);
                        if m0.spec_blocked(p) {
                            g0.at(p)
                        } else {
                            solver.spec_solve(p, g0)
                        }
                    }),
            decreases n - iter.cursor(),
        {
            let position = match iter.next() {
                Some(p) => p,
                None => {
                    break ;
                },
            };
            proof {
                lemma_row_major_bijection(g0.width, g0.height);
            }
            let cell: Cell = if self.is_blocked(&position) {
                *self.grid.get(&position)
            } else {
                solver.solve(&position, &self.grid)
            };
            let _ = self.grid.set(position, cell);
        }
        self.grid.swap();
        proof {
            lemma_row_major_bijection(g0.width, g0.height);
            assert forall|p: Position| g0.in_domain(p) implies self.grid@.at(p) == (if m0.spec_blocked(p) {
                g0.at(p)
            } else {
                solver.spec_solve(p, g0)
            }) by {
                let j = index_of(g0.width, p);
                assert(0 <= j < n);
                assert(pos_at(g0.width, j) == p);
            }
        }
    }
}

} // verus!

