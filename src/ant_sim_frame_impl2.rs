use vstd::prelude::*;
use vstd::arithmetic::div_mod::{lemma_fundamental_div_mod, lemma_fundamental_div_mod_converse};
use crate::ant_sim_frame::{AntPosition, AntSim, AntSimCell, NonMaxU16, empty_path, in_grid, lemma_non_max};
use crate::ant_sim_frame_impl::{AntSimCellImpl, MAX_CELLS};

verus! {

/// The width of a fold: a square block of cells stored together.
pub const FOLD_WIDTH: usize = 8;

/// The height of a fold.
pub const FOLD_HEIGHT: usize = 8;

/// The number of cells in a fold.
pub const FOLD_SIZE: usize = 64;

/// Why a folded grid could not be built.
#[derive(Debug, Clone, Copy, PartialEq, Eq, Structural)]
pub enum NewAntSimFoldImplError {
    DimensionZero,
    DimensionTooLarge,
    OutOfMemory,
}

/// The handle of a cell of an [`AntSimFoldImpl`]: its index in fold-major storage.
#[derive(Debug, Copy, Clone, PartialEq, Eq, Hash, Structural)]
pub struct AntPositionImplFold(pub usize);

/// A grid stored as 8 by 8 folds, each fold's cells contiguous (row by row inside the fold),
/// the folds themselves row by row. Folds on the right and bottom edges may hold padding.
#[derive(Clone, Debug)]
pub struct AntSimFoldImpl {
    pub(crate) width: usize,
    pub(crate) height: usize,
    pub(crate) content: Vec<AntSimCellImpl>,
}

/// `div / by`, rounded up.
pub open spec fn div_round_up_spec(div: int, by: int) -> int {
    div / by + if div % by != 0 { 1int } else { 0int }
}

fn div_round_up(div: usize, by: usize) -> (r: usize)
    requires
        by > 0,
    ensures
        r == div_round_up_spec(div as int, by as int),
{
    proof {
        lemma_fundamental_div_mod(div as int, by as int);
        assert(div / by <= div) by {
            vstd::arithmetic::div_mod::lemma_div_is_ordered_by_denominator(div as int, 1, by as int);
        }
    }
    if div % by != 0 {
        assert(div / by < div) by {
            if div / by == div {
                assert(by * (div / by) >= div) by (nonlinear_arith)
                    requires
                        by >= 1,
                        div / by >= 0,
                        div / by == div,
                ;
            }
        }
    }
    div / by + if div % by != 0 { 1 } else { 0 }
}

/// Where the cell `(x, y)` is stored on a grid `fw` folds wide.
pub open spec fn fold_index(x: int, y: int, fw: int) -> int {
    ((y / 8) * fw + x / 8) * 64 + (y % 8) * 8 + x % 8
}

/// The cell that storage index `p` stands for on a grid `fw` folds wide.
pub open spec fn fold_coord(p: int, fw: int) -> (int, int) {
    ((p / 64 % fw) * 8 + p % 64 % 8, (p / 64 / fw) * 8 + p % 64 / 8)
}

proof fn lemma_round_up(v: int)
    requires
        0 <= v,
    ensures
        v <= div_round_up_spec(v, 8) * 8,
        0 <= div_round_up_spec(v, 8),
        v > 0 ==> div_round_up_spec(v, 8) > 0,
        div_round_up_spec(v, 8) * 8 <= v + 7,
{
    lemma_fundamental_div_mod(v, 8);
}

/// In-bounds cells are stored inside the folds and decode back to themselves.
proof fn lemma_fold(x: int, y: int, w: int, h: int)
    requires
        0 <= x < w,
        0 <= y < h,
    ensures
        0 <= fold_index(x, y, div_round_up_spec(w, 8)) < div_round_up_spec(w, 8) * div_round_up_spec(h, 8) * 64,
        fold_coord(fold_index(x, y, div_round_up_spec(w, 8)), div_round_up_spec(w, 8)) == (x, y),
{
    let fw = div_round_up_spec(w, 8);
    let fh = div_round_up_spec(h, 8);
    lemma_round_up(w);
    lemma_round_up(h);
    lemma_fundamental_div_mod(x, 8);
    lemma_fundamental_div_mod(y, 8);
    let f = (y / 8) * fw + x / 8;
    let o = (y % 8) * 8 + x % 8;
    assert(x / 8 < fw) by {
        vstd::arithmetic::div_mod::lemma_div_is_ordered(x, fw * 8 - 1, 8);
        lemma_fundamental_div_mod_converse(fw * 8 - 1, 8, fw - 1, 7);
    }
    assert(y / 8 < fh) by {
        vstd::arithmetic::div_mod::lemma_div_is_ordered(y, fh * 8 - 1, 8);
        lemma_fundamental_div_mod_converse(fh * 8 - 1, 8, fh - 1, 7);
    }
    assert(0 <= y / 8) by {
        vstd::arithmetic::div_mod::lemma_div_pos_is_pos(y, 8);
    }
    assert(0 <= x / 8) by {
        vstd::arithmetic::div_mod::lemma_div_pos_is_pos(x, 8);
    }
    assert(0 <= o < 64);
    assert(0 <= f < fw * fh) by (nonlinear_arith)
        requires
            f == (y / 8) * fw + x / 8,
            0 <= y / 8 < fh,
            0 <= x / 8 < fw,
    ;
    assert(f * 64 + o < fw * fh * 64) by (nonlinear_arith)
        requires
            0 <= f < fw * fh,
            0 <= o < 64,
    ;
    assert(0 <= f * 64) by (nonlinear_arith)
        requires
            0 <= f,
    ;
    lemma_fundamental_div_mod_converse(f * 64 + o, 64, f, o);
    lemma_fundamental_div_mod_converse(o, 8, y % 8, x % 8);
    lemma_fundamental_div_mod_converse(f, fw, y / 8, x / 8);
}

/// A storage index whose decoded cell is in bounds is where that cell is stored.
proof fn lemma_unfold(p: int, w: int, h: int)
    requires
        0 <= p,
        0 < w,
        0 <= fold_coord(p, div_round_up_spec(w, 8)).0 < w,
        0 <= fold_coord(p, div_round_up_spec(w, 8)).1 < h,
    ensures
        fold_index(fold_coord(p, div_round_up_spec(w, 8)).0, fold_coord(p, div_round_up_spec(w, 8)).1, div_round_up_spec(w, 8)) == p,
{
    let fw = div_round_up_spec(w, 8);
    lemma_round_up(w);
    let f = p / 64;
    let o = p % 64;
    lemma_fundamental_div_mod(p, 64);
    lemma_fundamental_div_mod(f, fw);
    lemma_fundamental_div_mod(o, 8);
    assert(0 <= f) by {
        vstd::arithmetic::div_mod::lemma_div_pos_is_pos(p, 64);
    }
    assert(0 <= f / fw) by {
        vstd::arithmetic::div_mod::lemma_div_pos_is_pos(f, fw);
    }
    let x = (f % fw) * 8 + o % 8;
    let y = (f / fw) * 8 + o / 8;
    assert(0 <= o / 8 < 8);
    lemma_fundamental_div_mod_converse(x, 8, f % fw, o % 8);
    lemma_fundamental_div_mod_converse(y, 8, f / fw, o / 8);
    assert((f / fw) * fw + f % fw == f) by (nonlinear_arith)
        requires
            f == fw * (f / fw) + f % fw,
    ;
    assert(((y / 8) * fw + x / 8) * 64 + (y % 8) * 8 + x % 8 == f * 64 + o) by (nonlinear_arith)
        requires
            y / 8 == f / fw,
            x / 8 == f % fw,
            y % 8 == o / 8,
            x % 8 == o % 8,
            (f / fw) * fw + f % fw == f,
            o == 8 * (o / 8) + o % 8,
    ;
}

/// The number of cells that the folds of a `width` by `height` grid hold, padding included.
pub open spec fn fold_cells(width: int, height: int) -> int {
    div_round_up_spec(width, 8) * div_round_up_spec(height, 8) * 64
}

impl AntSimFoldImpl {
    /// Builds a `width` by `height` grid of empty paths.
    ///
    /// Fails with `DimensionZero` when a dimension is zero, with `DimensionTooLarge` when the
    /// cells or the folds holding them exceed [`MAX_CELLS`], and with `OutOfMemory` when the
    /// storage cannot be had.
    pub fn new(width: usize, height: usize) -> (r: Result<AntSimFoldImpl, NewAntSimFoldImplError>)
        ensures
            (width == 0 || height == 0) <==> (r matches Err(NewAntSimFoldImplError::DimensionZero)),
            (width > 0 && height > 0 && (width * height > MAX_CELLS || fold_cells(width as int, height as int)
                > MAX_CELLS)) <==> (r matches Err(NewAntSimFoldImplError::DimensionTooLarge)),
            r matches Ok(g) ==> g.wf() && g.view_width() == width && g.view_height() == height
                && forall|x: int, y: int|
                in_grid(x, y, width as nat, height as nat) ==> #[trigger] g.cell_at(x, y)
                    == empty_path(),
    {
        if width == 0 || height == 0 {
            return Err(NewAntSimFoldImplError::DimensionZero);
        }
        let cells = match width.checked_mul(height) {
            Some(c) => c,
            None => {
                proof {
                    lemma_round_up(width as int);
                    lemma_round_up(height as int);
                    assert(fold_cells(width as int, height as int) >= width * height) by (nonlinear_arith)
                        requires
                            width <= div_round_up_spec(width as int, 8) * 8,
                            height <= div_round_up_spec(height as int, 8) * 8,
                            0 <= width,
                            0 <= height,
                    ;
                }
                return Err(NewAntSimFoldImplError::DimensionTooLarge);
            },
        };
        if cells > MAX_CELLS {
            return Err(NewAntSimFoldImplError::DimensionTooLarge);
        }
        let fold_count = match Self::fold_count(width, height) {
            Some(f) => f,
            None => {
                return Err(NewAntSimFoldImplError::DimensionTooLarge);
            },
        };
        let size = fold_count * FOLD_SIZE;
        let mut content: Vec<AntSimCellImpl> = Vec::new();
        if content.try_reserve(size).is_err() {
            return Err(NewAntSimFoldImplError::OutOfMemory);
        }
        let fill = AntSimCellImpl::from_cell(
            AntSimCell::Path { pheromone_food: NonMaxU16::new(0), pheromone_home: NonMaxU16::new(0) },
        );
        proof {
            lemma_non_max(0);
        }
        let mut i: usize = 0;
        while i < size
            invariant
                i <= size,
                content@.len() == i,
                forall|j: int| 0 <= j < i ==> #[trigger] content@[j] == fill,
                fill@ == empty_path(),
            decreases size - i,
        {
            content.push(fill);
            i += 1;
        }
        let g = AntSimFoldImpl { width, height, content };
        assert forall|x: int, y: int| in_grid(x, y, width as nat, height as nat) implies #[trigger] g.cell_at(x, y)
            == empty_path() by {
            lemma_fold(x, y, width as int, height as int);
        }
        Ok(g)
    }

    /// The number of folds that cover a `width` by `height` grid, or `None` when their cells
    /// would exceed [`MAX_CELLS`].
    fn fold_count(width: usize, height: usize) -> (r: Option<usize>)
        ensures
            r is None <==> fold_cells(width as int, height as int) > MAX_CELLS,
            r matches Some(f) ==> f * 64 == fold_cells(width as int, height as int),
    {
        let fold_width = div_round_up(width, FOLD_WIDTH);
        let fold_height = div_round_up(height, FOLD_HEIGHT);
        proof {
            lemma_round_up(width as int);
            lemma_round_up(height as int);
        }
        match fold_width.checked_mul(fold_height) {
            Some(f) => {
                if f > MAX_CELLS / FOLD_SIZE {
                    None
                } else {
                    Some(f)
                }
            },
            None => {
                assert(fold_width * fold_height * 64 > MAX_CELLS) by (nonlinear_arith)
                    requires
                        fold_width * fold_height > usize::MAX,
                ;
                None
            },
        }
    }

    /// The cell that storage index `p` stands for.
    fn coord_of_index(&self, p: usize) -> (r: (usize, usize))
        requires
            self.wf(),
            p < self.content@.len(),
        ensures
            r.0 == fold_coord(p as int, div_round_up_spec(self.width as int, 8)).0,
            r.1 == fold_coord(p as int, div_round_up_spec(self.width as int, 8)).1,
    {
        let fw = div_round_up(self.width, FOLD_WIDTH);
        proof {
            lemma_round_up(self.width as int);
            lemma_round_up(self.height as int);
            let f = p as int / 64;
            lemma_fundamental_div_mod(p as int, 64);
            lemma_fundamental_div_mod(f, fw as int);
            vstd::arithmetic::div_mod::lemma_div_pos_is_pos(f, fw as int);
            assert(f / fw as int <= f) by {
                vstd::arithmetic::div_mod::lemma_div_is_ordered_by_denominator(f, 1, fw as int);
            }
            assert(f % fw as int * 8 + 7 <= fw * 8) by (nonlinear_arith)
                requires
                    f % fw as int <= fw - 1,
            ;
            assert(f <= p);
            assert((f / fw as int) * 8 + 7 <= p * 8 + 7) by (nonlinear_arith)
                requires
                    0 <= f / fw as int <= f,
                    f <= p,
            ;
        }
        let fold_num = p / FOLD_SIZE;
        let fold_off = p % FOLD_SIZE;
        let x = (fold_num % fw) * FOLD_WIDTH + fold_off % FOLD_WIDTH;
        let y = (fold_num / fw) * FOLD_HEIGHT + fold_off / FOLD_WIDTH;
        (x, y)
    }
}

impl AntSim for AntSimFoldImpl {
    type Position = AntPositionImplFold;

    open(crate) spec fn wf(&self) -> bool {
        &&& self.width > 0
        &&& self.height > 0
        &&& self.width * self.height <= MAX_CELLS
        &&& fold_cells(self.width as int, self.height as int) <= MAX_CELLS
        &&& self.content@.len() == fold_cells(self.width as int, self.height as int)
    }

    open(crate) spec fn view_width(&self) -> nat {
        self.width as nat
    }

    open(crate) spec fn view_height(&self) -> nat {
        self.height as nat
    }

    open(crate) spec fn cell_at(&self, x: int, y: int) -> AntSimCell {
        self.content@[fold_index(x, y, div_round_up_spec(self.width as int, 8))]@
    }

    open(crate) spec fn valid_pos(&self, p: AntPositionImplFold) -> bool {
        &&& p.0 < self.content@.len()
        &&& in_grid(
            fold_coord(p.0 as int, div_round_up_spec(self.width as int, 8)).0,
            fold_coord(p.0 as int, div_round_up_spec(self.width as int, 8)).1,
            self.width as nat,
            self.height as nat,
        )
    }

    open(crate) spec fn pos_of(&self, x: int, y: int) -> AntPositionImplFold {
        AntPositionImplFold(fold_index(x, y, div_round_up_spec(self.width as int, 8)) as usize)
    }

    open(crate) spec fn coord_of(&self, p: AntPositionImplFold) -> AntPosition {
        AntPosition {
            x: fold_coord(p.0 as int, div_round_up_spec(self.width as int, 8)).0 as usize,
            y: fold_coord(p.0 as int, div_round_up_spec(self.width as int, 8)).1 as usize,
        }
    }

    proof fn lemma_pos_of(&self, x: int, y: int) {
        lemma_fold(x, y, self.width as int, self.height as int);
    }

    proof fn lemma_coord_of(&self, p: AntPositionImplFold) {
        lemma_unfold(p.0 as int, self.width as int, self.height as int);
    }

    fn check_compatible(&self, other: &Self) -> (r: bool) {
        self.width == other.width && self.height == other.height
    }

    fn decode(&self, position: &AntPositionImplFold) -> (r: AntPosition) {
        let (x, y) = self.coord_of_index(position.0);
        AntPosition { x, y }
    }

    fn encode(&self, position: AntPosition) -> (r: Option<AntPositionImplFold>) {
        if position.x < self.width && position.y < self.height {
            proof {
                lemma_fold(position.x as int, position.y as int, self.width as int, self.height as int);
                lemma_round_up(self.width as int);
            }
            let fw = div_round_up(self.width, FOLD_WIDTH);
            let fold_num = (position.y / FOLD_HEIGHT) * fw + (position.x / FOLD_WIDTH);
            let fold_off = (position.y % FOLD_HEIGHT) * FOLD_WIDTH + position.x % FOLD_WIDTH;
            Some(AntPositionImplFold(fold_num * FOLD_SIZE + fold_off))
        } else {
            None
        }
    }

    fn cell(&self, position: &AntPositionImplFold) -> (r: Option<AntSimCell>) {
        if position.0 < self.content.len() {
            let (x, y) = self.coord_of_index(position.0);
            if x < self.width && y < self.height {
                proof {
                    lemma_unfold(position.0 as int, self.width as int, self.height as int);
                }
                Some(self.content[position.0].to_cell())
            } else {
                None
            }
        } else {
            None
        }
    }

    fn set_cell(&mut self, position: &AntPositionImplFold, cell: AntSimCell) {
        if position.0 < self.content.len() {
            let (x, y) = self.coord_of_index(position.0);
            if x < self.width && y < self.height {
                let c = AntSimCellImpl::from_cell(cell);
                self.content.set(position.0, c);
                proof {
                    let fw = div_round_up_spec(self.width as int, 8);
                    lemma_unfold(position.0 as int, self.width as int, self.height as int);
                    assert forall|x: int, y: int| in_grid(x, y, self.view_width(), self.view_height()) implies
                        #[trigger] self.cell_at(x, y) == if old(self).coord_of(*position) == (AntPosition { x: x as usize, y: y as usize }) {
                            cell
                        } else {
                            old(self).cell_at(x, y)
                        } by {
                        lemma_fold(x, y, self.width as int, self.height as int);
                    }
                }
            }
        }
    }

    fn cells(&self) -> (r: Vec<(AntSimCell, AntPositionImplFold)>) {
        let n = self.width * self.height;
        let mut r: Vec<(AntSimCell, AntPositionImplFold)> = Vec::new();
        let mut i: usize = 0;
        while i < n
            invariant
                self.wf(),
                n == self.width * self.height,
                0 <= i <= n,
                r@.len() == i,
                forall|j: int| 0 <= j < i ==> (#[trigger] r@[j]).1 == self.pos_of(
                    j % self.view_width() as int,
                    j / self.view_width() as int,
                ) && r@[j].0 == self.cell_at(
                    j % self.view_width() as int,
                    j / self.view_width() as int,
                ),
            decreases n - i,
        {
            proof {
                crate::ant_sim_frame_impl::lemma_index(i as int, self.width as int, self.height as int);
            }
            let p = self.encode(AntPosition { x: i % self.width, y: i / self.width });
            if let Some(p) = p {
                proof {
                    lemma_fold(i as int % self.width as int, i as int / self.width as int, self.width as int, self.height as int);
                }
                r.push((self.content[p.0].to_cell(), p));
            }
            i += 1;
        }
        r
    }

    fn width(&self) -> (r: usize) {
        self.width
    }

    fn height(&self) -> (r: usize) {
        self.height
    }

    fn cell_count(&self) -> (r: usize) {
        self.width * self.height
    }
}

} // verus!
