use vstd::prelude::*;
use vstd::arithmetic::div_mod::{lemma_fundamental_div_mod, lemma_fundamental_div_mod_converse};
use crate::ant_sim_frame::{
    AntPosition, AntSim, AntSimCell, NonMaxU16, in_grid, empty_path, non_max, lemma_non_max, sat_sub,
};

verus! {

/// The largest number of cells a grid may hold, so that cell indices fit a signed index.
pub const MAX_CELLS: usize = usize::MAX / 2;

/// A cell packed into two 16-bit fields.
///
/// `p2 == u16::MAX` marks food (amount in `p1`); otherwise `p1 == u16::MAX` marks a blocker
/// (`p2 == 0`) or a home (any other `p2`); otherwise the cell is a path holding
/// `(pheromone_food, pheromone_home) == (p1, p2)`.
#[derive(Clone, Copy, Debug)]
pub struct AntSimCellImpl {
    pub(crate) p1: u16,
    pub(crate) p2: u16,
}

/// The cell that the two fields stand for.
pub open spec fn unpack(p1: u16, p2: u16) -> AntSimCell {
    if p2 == u16::MAX {
        AntSimCell::Food { amount: p1 }
    } else if p1 == u16::MAX {
        if p2 == 0 {
            AntSimCell::Blocker
        } else {
            AntSimCell::Home
        }
    } else {
        AntSimCell::Path { pheromone_food: non_max(p1), pheromone_home: non_max(p2) }
    }
}

/// The two fields that store a cell.
pub open spec fn pack(cell: AntSimCell) -> (u16, u16) {
    match cell {
        AntSimCell::Path { pheromone_food, pheromone_home } => (pheromone_food@, pheromone_home@),
        AntSimCell::Blocker => (u16::MAX, 0),
        AntSimCell::Home => (u16::MAX, 1),
        AntSimCell::Food { amount } => (amount, u16::MAX),
    }
}

/// A cell after its pheromones decayed by `amount`: path levels drop by `amount`, stopping at
/// zero; the other kinds stay as they are.
pub open spec fn decay_cell(cell: AntSimCell, amount: u16) -> AntSimCell {
    match cell {
        AntSimCell::Path { pheromone_food, pheromone_home } => AntSimCell::Path {
            pheromone_food: non_max(sat_sub(pheromone_food@, amount)),
            pheromone_home: non_max(sat_sub(pheromone_home@, amount)),
        },
        other => other,
    }
}

/// Unpacking a packed cell gives the cell back, for each of the four kinds.
pub proof fn lemma_pack_round_trip(cell: AntSimCell)
    requires
        cell.wf(),
    ensures
        unpack(pack(cell).0, pack(cell).1) == cell,
{
    if let AntSimCell::Path { pheromone_food, pheromone_home } = cell {
        lemma_non_max(pheromone_food@);
    }
}

/// Every pair of fields unpacks to a well-formed cell.
pub proof fn lemma_unpack_wf(p1: u16, p2: u16)
    ensures
        unpack(p1, p2).wf(),
{
    lemma_non_max(p1);
    lemma_non_max(p2);
}

impl View for AntSimCellImpl {
    type V = AntSimCell;

    open(crate) spec fn view(&self) -> AntSimCell {
        unpack(self.p1, self.p2)
    }
}

impl AntSimCellImpl {
    pub fn to_cell(&self) -> (r: AntSimCell)
        ensures
            r == self@,
    {
        if self.p2 == u16::MAX {
            AntSimCell::Food { amount: self.p1 }
        } else if self.p1 == u16::MAX {
            if self.p2 == 0 {
                AntSimCell::Blocker
            } else {
                AntSimCell::Home
            }
        } else {
            AntSimCell::Path {
                pheromone_food: NonMaxU16::new(self.p1),
                pheromone_home: NonMaxU16::new(self.p2),
            }
        }
    }

    pub fn from_cell(cell: AntSimCell) -> (r: AntSimCellImpl)
        ensures
            r@ == cell,
    {
        match cell {
            AntSimCell::Path { pheromone_food, pheromone_home } => {
                let r = AntSimCellImpl { p1: pheromone_food.get(), p2: pheromone_home.get() };
                proof {
                    lemma_non_max(r.p1);
                }
                r
            },
            AntSimCell::Blocker => AntSimCellImpl { p1: u16::MAX, p2: 0 },
            AntSimCell::Home => AntSimCellImpl { p1: u16::MAX, p2: 1 },
            AntSimCell::Food { amount } => AntSimCellImpl { p1: amount, p2: u16::MAX },
        }
    }

    /// The cell with both pheromone levels of a path decreased by `amount`, stopping at zero.
    pub fn with_decreased_pheromone(&self, amount: u16) -> (r: AntSimCellImpl)
        ensures
            r@ == decay_cell(self@, amount),
    {
        let dec_by: u16 = if self.p1 != u16::MAX && self.p2 != u16::MAX {
            amount
        } else {
            0
        };
        AntSimCellImpl { p1: self.p1.saturating_sub(dec_by), p2: self.p2.saturating_sub(dec_by) }
    }
}

/// Why a grid could not be built.
#[derive(Debug, Clone, Copy, PartialEq, Eq, Structural)]
pub enum NewAntSimVecImplError {
    DimensionZero,
    DimensionTooLarge,
    OutOfMemory,
}

/// The handle of a cell of an [`AntSimVecImpl`]: its row-major index.
#[derive(Debug, Copy, Clone, PartialEq, Eq, Hash, Structural)]
pub struct AntPositionImpl(pub usize);

/// A grid stored as one row-major vector of packed cells.
#[derive(Clone, Debug)]
pub struct AntSimVecImpl {
    pub(crate) contains: Vec<AntSimCellImpl>,
    pub(crate) height: usize,
    pub(crate) width: usize,
}

/// Row-major indexing: in-bounds coordinates map to in-range indices and back.
pub proof fn lemma_row_major(x: int, y: int, w: int, h: int)
    requires
        0 <= x < w,
        0 <= y < h,
    ensures
        0 <= y * w + x < w * h,
        (y * w + x) % w == x,
        (y * w + x) / w == y,
{
    lemma_fundamental_div_mod_converse(y * w + x, w, y, x);
    assert(0 <= y * w) by (nonlinear_arith)
        requires
            0 <= y,
            0 <= w,
    ;
    assert(y * w + x < w * h) by (nonlinear_arith)
        requires
            0 <= x < w,
            0 <= y < h,
    ;
}

/// Row-major indexing: in-range indices map to in-bounds coordinates and back.
pub proof fn lemma_index(i: int, w: int, h: int)
    requires
        0 <= i < w * h,
        0 < w,
    ensures
        0 <= i % w < w,
        0 <= i / w < h,
        (i / w) * w + i % w == i,
{
    lemma_fundamental_div_mod(i, w);
    assert(0 <= i % w < w) by {
        vstd::arithmetic::div_mod::lemma_mod_bound(i, w);
    }
    assert(0 <= i / w) by {
        vstd::arithmetic::div_mod::lemma_div_pos_is_pos(i, w);
    }
    let q = i / w;
    let m = i % w;
    assert(q < h) by (nonlinear_arith)
        requires
            i == w * q + m,
            0 <= m,
            i < w * h,
            0 < w,
    ;
    assert((i / w) * w == w * (i / w)) by (nonlinear_arith);
}

impl AntSimVecImpl {
    /// The cells, row by row.
    pub open(crate) spec fn view_cells(&self) -> Seq<AntSimCell> {
        self.contains@.map_values(|c: AntSimCellImpl| c@)
    }

    /// The cell at an index, as the row-major list shows it.
    pub proof fn lemma_view_cells(&self)
        requires
            self.wf(),
        ensures
            self.view_cells().len() == self.view_width() * self.view_height(),
            forall|i: int| 0 <= i < self.view_cells().len() ==> #[trigger] self.view_cells()[i]
                == self.cell_at(i % self.view_width() as int, i / self.view_width() as int),
    {
        assert forall|i: int| 0 <= i < self.view_cells().len() implies #[trigger] self.view_cells()[i]
            == self.cell_at(i % self.view_width() as int, i / self.view_width() as int) by {
            lemma_index(i, self.width as int, self.height as int);
        }
    }

    /// What `set_cell` promises, restated over the row-major list of cells.
    pub proof fn lemma_cells_after_set(old_grid: AntSimVecImpl, new_grid: AntSimVecImpl, p: AntPositionImpl, cell: AntSimCell)
        requires
            old_grid.wf(),
            new_grid.wf(),
            new_grid.view_width() == old_grid.view_width(),
            new_grid.view_height() == old_grid.view_height(),
            forall|x: int, y: int|
                in_grid(x, y, old_grid.view_width(), old_grid.view_height())
                    ==> #[trigger] new_grid.cell_at(x, y) == if old_grid.valid_pos(p)
                    && old_grid.coord_of(p) == (AntPosition { x: x as usize, y: y as usize })
                {
                    cell
                } else {
                    old_grid.cell_at(x, y)
                },
        ensures
            old_grid.valid_pos(p) ==> new_grid.view_cells() == old_grid.view_cells().update(p.0 as int, cell),
            !old_grid.valid_pos(p) ==> new_grid.view_cells() == old_grid.view_cells(),
    {
        let w = old_grid.width as int;
        let h = old_grid.height as int;
        old_grid.lemma_view_cells();
        new_grid.lemma_view_cells();
        if old_grid.valid_pos(p) {
            lemma_index(p.0 as int, w, h);
        }
        assert forall|i: int| 0 <= i < new_grid.view_cells().len() implies #[trigger] new_grid.view_cells()[i]
            == if old_grid.valid_pos(p) { old_grid.view_cells().update(p.0 as int, cell)[i] } else { old_grid.view_cells()[i] } by {
            lemma_index(i, w, h);
            lemma_row_major(i % w, i / w, w, h);
            if old_grid.valid_pos(p) {
                lemma_row_major(p.0 as int % w, p.0 as int / w, w, h);
            }
            assert(new_grid.cell_at(i % w, i / w) == new_grid.view_cells()[i]);
        }
        if old_grid.valid_pos(p) {
            assert(new_grid.view_cells() =~= old_grid.view_cells().update(p.0 as int, cell));
        } else {
            assert(new_grid.view_cells() =~= old_grid.view_cells());
        }
    }

    /// Builds a `width` by `height` grid of empty paths.
    ///
    /// Fails with `DimensionZero` when a dimension is zero, with `DimensionTooLarge` when the
    /// cell count exceeds [`MAX_CELLS`], and with `OutOfMemory` when the storage cannot be had.
    pub fn new(width: usize, height: usize) -> (r: Result<AntSimVecImpl, NewAntSimVecImplError>)
        ensures
            (width == 0 || height == 0) <==> (r matches Err(NewAntSimVecImplError::DimensionZero)),
            (width > 0 && height > 0 && width * height > MAX_CELLS) <==> (r matches Err(
                NewAntSimVecImplError::DimensionTooLarge,
            )),
            r matches Ok(g) ==> g.wf() && g.view_width() == width && g.view_height() == height
                && forall|x: int, y: int|
                in_grid(x, y, width as nat, height as nat) ==> #[trigger] g.cell_at(x, y)
                    == empty_path(),
    {
        if width == 0 || height == 0 {
            return Err(NewAntSimVecImplError::DimensionZero);
        }
        let size = match width.checked_mul(height) {
            Some(s) => s,
            None => {
                return Err(NewAntSimVecImplError::DimensionTooLarge);
            },
        };
        if size > MAX_CELLS {
            return Err(NewAntSimVecImplError::DimensionTooLarge);
        }
        let mut contains: Vec<AntSimCellImpl> = Vec::new();
        if contains.try_reserve(size).is_err() {
            return Err(NewAntSimVecImplError::OutOfMemory);
        }
        let empty = AntSimCellImpl::from_cell(
            AntSimCell::Path { pheromone_food: NonMaxU16::new(0), pheromone_home: NonMaxU16::new(0) },
        );
        let mut i: usize = 0;
        while i < size
            invariant
                i <= size,
                contains@.len() == i,
                forall|j: int| 0 <= j < i ==> #[trigger] contains@[j] == empty,
                empty@ == empty_path(),
            decreases size - i,
        {
            contains.push(empty);
            i += 1;
        }
        let g = AntSimVecImpl { contains, height, width };
        assert forall|x: int, y: int| in_grid(x, y, width as nat, height as nat) implies #[trigger] g.cell_at(x, y)
            == empty_path() by {
            lemma_row_major(x, y, width as int, height as int);
        }
        Ok(g)
    }

    /// Writes into `on` every cell of `self` with its pheromones decayed by `by`.
    pub fn decay_pheromones_on(&self, on: &mut AntSimVecImpl, by: u16)
        requires
            self.wf(),
            old(on).wf(),
            self.view_width() == old(on).view_width(),
            self.view_height() == old(on).view_height(),
        ensures
            final(on).wf(),
            final(on).view_width() == self.view_width(),
            final(on).view_height() == self.view_height(),
            forall|x: int, y: int|
                in_grid(x, y, self.view_width(), self.view_height())
                    ==> #[trigger] final(on).cell_at(x, y) == decay_cell(self.cell_at(x, y), by),
    {
        let n = self.contains.len();
        let mut i: usize = 0;
        while i < n
            invariant
                self.wf(),
                n == self.contains@.len(),
                on.wf(),
                on.width == self.width,
                on.height == self.height,
                0 <= i <= n,
                forall|j: int| 0 <= j < i ==> #[trigger] on.contains@[j]@ == decay_cell(self.contains@[j]@, by),
            decreases n - i,
        {
            let c = self.contains[i].with_decreased_pheromone(by);
            on.contains.set(i, c);
            i += 1;
        }
        assert forall|x: int, y: int| in_grid(x, y, self.view_width(), self.view_height()) implies #[trigger] on.cell_at(x, y)
            == decay_cell(self.cell_at(x, y), by) by {
            lemma_row_major(x, y, self.width as int, self.height as int);
        }
    }
}

impl AntSim for AntSimVecImpl {
    type Position = AntPositionImpl;

    open(crate) spec fn wf(&self) -> bool {
        &&& self.width > 0
        &&& self.height > 0
        &&& self.width * self.height <= MAX_CELLS
        &&& self.contains@.len() == self.width * self.height
    }

    open(crate) spec fn view_width(&self) -> nat {
        self.width as nat
    }

    open(crate) spec fn view_height(&self) -> nat {
        self.height as nat
    }

    open(crate) spec fn cell_at(&self, x: int, y: int) -> AntSimCell {
        self.contains@[y * self.width + x]@
    }

    open(crate) spec fn valid_pos(&self, p: AntPositionImpl) -> bool {
        p.0 < self.contains@.len()
    }

    open(crate) spec fn pos_of(&self, x: int, y: int) -> AntPositionImpl {
        AntPositionImpl((y * self.width + x) as usize)
    }

    open(crate) spec fn coord_of(&self, p: AntPositionImpl) -> AntPosition {
        AntPosition { x: (p.0 % self.width) as usize, y: (p.0 / self.width) as usize }
    }

    proof fn lemma_pos_of(&self, x: int, y: int) {
        lemma_row_major(x, y, self.width as int, self.height as int);
    }

    proof fn lemma_coord_of(&self, p: AntPositionImpl) {
        lemma_index(p.0 as int, self.width as int, self.height as int);
    }

    fn check_compatible(&self, other: &Self) -> (r: bool) {
        self.contains.len() == other.contains.len() && self.height == other.height && self.width
            == other.width
    }

    fn decode(&self, position: &AntPositionImpl) -> (r: AntPosition) {
        AntPosition { y: position.0 / self.width, x: position.0 % self.width }
    }

    fn encode(&self, position: AntPosition) -> (r: Option<AntPositionImpl>) {
        if position.x < self.width && position.y < self.height {
            proof {
                lemma_row_major(position.x as int, position.y as int, self.width as int, self.height as int);
            }
            Some(AntPositionImpl(position.y * self.width + position.x))
        } else {
            None
        }
    }

    fn cell(&self, position: &AntPositionImpl) -> (r: Option<AntSimCell>) {
        if position.0 < self.contains.len() {
            proof {
                lemma_index(position.0 as int, self.width as int, self.height as int);
            }
            Some(self.contains[position.0].to_cell())
        } else {
            None
        }
    }

    fn set_cell(&mut self, position: &AntPositionImpl, cell: AntSimCell) {
        if position.0 < self.contains.len() {
            let c = AntSimCellImpl::from_cell(cell);
            self.contains.set(position.0, c);
            proof {
                lemma_index(position.0 as int, self.width as int, self.height as int);
                assert forall|x: int, y: int| in_grid(x, y, self.view_width(), self.view_height()) implies
                    #[trigger] self.cell_at(x, y) == if old(self).coord_of(*position) == (AntPosition { x: x as usize, y: y as usize }) {
                        cell
                    } else {
                        old(self).cell_at(x, y)
                    } by {
                    lemma_row_major(x, y, self.width as int, self.height as int);
                }
            }
        }
    }

    fn cells(&self) -> (r: Vec<(AntSimCell, AntPositionImpl)>) {
        let n = self.contains.len();
        let mut r: Vec<(AntSimCell, AntPositionImpl)> = Vec::new();
        let mut i: usize = 0;
        while i < n
            invariant
                self.wf(),
                n == self.contains@.len(),
                0 <= i <= n,
                r@.len() == i,
                forall|j: int| 0 <= j < i ==> #[trigger] r@[j] == (self.contains@[j]@, AntPositionImpl(j as usize)),
            decreases n - i,
        {
            r.push((self.contains[i].to_cell(), AntPositionImpl(i)));
            i += 1;
        }
        assert forall|j: int| 0 <= j < r@.len() implies (#[trigger] r@[j]).1 == self.pos_of(
                    j % self.view_width() as int,
                    j / self.view_width() as int,
                ) && r@[j].0 == self.cell_at(
                    j % self.view_width() as int,
                    j / self.view_width() as int,
                ) by {
            lemma_index(j, self.width as int, self.height as int);
        }
        r
    }

    fn width(&self) -> (r: usize) {
        self.width
    }

    fn height(&self) -> (r: usize) {
        self.height
    }

    fn cell_count(&self) -> (r: usize) {
        self.width * self.height
    }
}

} // verus!
