use vstd::prelude::*;
use crate::ant_sim::{AntSimConfig, AntSimulator, AntVisualRangeBuffer, expected_size_spec};
use crate::ant_sim_ant::{Ant, AntState, EXPLORE_ONE, point_ok};
use crate::ant_sim_frame::{AntPosition, AntSim, AntSimCell, NonMaxU16, empty_path, in_grid, lemma_non_max, non_max};
use crate::ant_sim_frame_impl::{AntPositionImpl, AntSimVecImpl};

verus! {

/// The largest visual range a saved simulation may ask for.
pub const MAX_SAVED_VISUAL_RANGE: u8 = 20;

/// The board dimensions as a save stores them.
#[derive(Debug, Copy, Clone, PartialEq, Eq, Structural)]
pub struct Dimensions {
    pub width: u64,
    pub height: u64,
}

/// Why saved data does not describe a simulation.
#[derive(Debug, Clone, Copy, PartialEq, Eq, Structural)]
pub enum SaveDataError {
    InvalidDimensions,
    InvalidAntPosition(usize),
    InvalidAntLastPosition(usize),
    InvalidAntExploration(usize),
    BlockerPosition(usize),
    HomePosition(usize),
    FoodPosition(usize),
    PathPosition(usize),
    InvalidFoodPheromone(usize),
    InvalidHomePheromone(usize),
    VisualRangeTooLarge,
    VisualRangeZero,
    InvalidPoints,
}

/// Why a save could not be read.
#[derive(Debug, Clone, PartialEq, Eq)]
pub enum DecodeSaveError {
    InvalidFormat(String),
    InvalidData(SaveDataError),
    FailedToRead(String),
}

/// Why a save could not be written.
#[derive(Debug, Clone, PartialEq, Eq)]
pub enum EncodeSaveError {
    FailedToWrite(String),
    InvalidData,
}

/// The coordinate that a saved linear index stands for, if it lies on the saved board.
pub open spec fn dims_decode(d: Dimensions, pos: u64) -> Option<(int, int)> {
    if d.width > 0 && pos / d.width < d.height && pos % d.width <= usize::MAX && pos / d.width
        <= usize::MAX {
        Some(((pos % d.width) as int, (pos / d.width) as int))
    } else {
        None
    }
}

impl Dimensions {
    /// The coordinate of a saved linear index; fails when it lies off the saved board.
    pub fn decode(&self, pos: u64) -> (r: Result<AntPosition, ()>)
        ensures
            r is Ok <==> dims_decode(*self, pos) is Some,
            r matches Ok(p) ==> dims_decode(*self, pos) == Some((p.x as int, p.y as int)),
    {
        if self.width == 0 {
            return Err(());
        }
        let x = pos % self.width;
        let y = pos / self.width;
        if y >= self.height || x > usize::MAX as u64 || y > usize::MAX as u64 {
            return Err(());
        }
        Ok(AntPosition { x: x as usize, y: y as usize })
    }

    /// The saved linear index of a coordinate; fails when it lies off the saved board.
    pub fn encode(&self, ant_pos: AntPosition) -> (r: Result<u64, ()>)
        ensures
            r is Ok <==> ant_pos.x < self.width && ant_pos.y < self.height && ant_pos.y * self.width
                + ant_pos.x <= u64::MAX,
            r matches Ok(v) ==> v == ant_pos.y * self.width + ant_pos.x,
    {
        let x = ant_pos.x as u64;
        let y = ant_pos.y as u64;
        if x >= self.width || y >= self.height {
            return Err(());
        }
        match y.checked_mul(self.width) {
            Some(row) => match row.checked_add(x) {
                Some(v) => Ok(v),
                None => Err(()),
            },
            None => {
                assert(y * self.width + x > u64::MAX) by (nonlinear_arith)
                    requires
                        y * self.width > u64::MAX,
                        x >= 0,
                ;
                Err(())
            },
        }
    }
}

/// The pheromone levels of a saved path cell.
#[derive(Debug, Copy, Clone, PartialEq, Eq, Structural)]
pub struct AntSimPathPheromoneData {
    pub p_h: u16,
    pub p_f: u16,
}

/// What a saved ant carries.
#[derive(Debug, Copy, Clone, PartialEq, Eq, Structural)]
pub enum AntSimAntStateData {
    Foraging,
    Hauling { amount: u16 },
}

/// A saved ant: linear indices of its positions, its explore weight (a fraction of
/// `EXPLORE_ONE`) and its state.
#[derive(Debug, Copy, Clone, PartialEq, Eq, Structural)]
pub struct AntSimAntData {
    pub position: u64,
    pub last_position: u64,
    pub exploration_factor: u16,
    pub state: AntSimAntStateData,
}

/// The non-default cells of a saved board; paths without pheromones are left out.
#[derive(Debug, Clone, PartialEq, Eq)]
pub struct AntSimBoardData {
    pub blockers: Vec<u64>,
    pub homes: Vec<u64>,
    pub foods: Vec<(u64, u16)>,
    pub paths_with_pheromones: Vec<(u64, AntSimPathPheromoneData)>,
}

/// The saved settings of a run.
#[derive(Debug, Clone, PartialEq, Eq)]
pub struct AntSimEnv {
    pub seed: u64,
    pub decay_rate: u16,
    pub haul_amount: u16,
    pub points: [(i64, i64); 8],
    pub ant_visual_range: u8,
    pub dimensions: Dimensions,
}

/// A saved simulation.
#[derive(Debug, Clone, PartialEq, Eq)]
pub struct AntSimData {
    pub env: AntSimEnv,
    pub ants: Vec<AntSimAntData>,
    pub board: AntSimBoardData,
}

/// The handle on `board` of a saved linear index, if it lies on both the saved and the
/// actual board.
pub open spec fn board_pos(d: Dimensions, board: AntSimVecImpl, pos: u64) -> Option<AntPositionImpl> {
    match dims_decode(d, pos) {
        Some((x, y)) => if in_grid(x, y, board.view_width(), board.view_height()) {
            Some(board.pos_of(x, y))
        } else {
            None
        },
        None => None,
    }
}

/// `cells` after the first `k` writes, in order.
pub open spec fn apply_writes(cells: Seq<AntSimCell>, ws: Seq<(AntPositionImpl, AntSimCell)>, k: int) -> Seq<AntSimCell>
    decreases k,
{
    if k <= 0 {
        cells
    } else {
        apply_writes(cells, ws, k - 1).update(ws[k - 1].0.0 as int, ws[k - 1].1)
    }
}

/// The first index from `i` on whose position does not lie on the board, or the length.
pub open spec fn first_bad(positions: Seq<u64>, d: Dimensions, board: AntSimVecImpl, i: int) -> int
    decreases positions.len() - i,
{
    if i >= positions.len() || i < 0 {
        positions.len() as int
    } else if board_pos(d, board, positions[i]) is None {
        i
    } else {
        first_bad(positions, d, board, i + 1)
    }
}

/// Whether a saved path entry is usable: on the board, with levels below the maximum.
pub open spec fn path_ok(e: (u64, AntSimPathPheromoneData), d: Dimensions, board: AntSimVecImpl) -> bool {
    board_pos(d, board, e.0) is Some && e.1.p_f < u16::MAX && e.1.p_h < u16::MAX
}

/// The first path entry from `i` on that is not usable, or the length.
pub open spec fn first_bad_path(paths: Seq<(u64, AntSimPathPheromoneData)>, d: Dimensions, board: AntSimVecImpl, i: int) -> int
    decreases paths.len() - i,
{
    if i >= paths.len() || i < 0 {
        paths.len() as int
    } else if !path_ok(paths[i], d, board) {
        i
    } else {
        first_bad_path(paths, d, board, i + 1)
    }
}

/// The error for an unusable path entry `i`.
pub open spec fn path_error(e: (u64, AntSimPathPheromoneData), d: Dimensions, board: AntSimVecImpl, i: int) -> SaveDataError {
    if board_pos(d, board, e.0) is None {
        SaveDataError::PathPosition(i as usize)
    } else if e.1.p_f == u16::MAX {
        SaveDataError::InvalidFoodPheromone(i as usize)
    } else {
        SaveDataError::InvalidHomePheromone(i as usize)
    }
}

/// The writes that a list of positions of one kind of cell makes.
pub open spec fn kind_writes(positions: Seq<u64>, d: Dimensions, board: AntSimVecImpl, cell: AntSimCell) -> Seq<(AntPositionImpl, AntSimCell)> {
    Seq::new(positions.len(), |i: int| (board_pos(d, board, positions[i])->Some_0, cell))
}

pub open spec fn food_writes(foods: Seq<(u64, u16)>, d: Dimensions, board: AntSimVecImpl) -> Seq<(AntPositionImpl, AntSimCell)> {
    Seq::new(foods.len(), |i: int| (board_pos(d, board, foods[i].0)->Some_0, AntSimCell::Food { amount: foods[i].1 }))
}

pub open spec fn path_writes(paths: Seq<(u64, AntSimPathPheromoneData)>, d: Dimensions, board: AntSimVecImpl) -> Seq<(AntPositionImpl, AntSimCell)> {
    Seq::new(
        paths.len(),
        |i: int|
            (
                board_pos(d, board, paths[i].0)->Some_0,
                AntSimCell::Path { pheromone_food: non_max(paths[i].1.p_f), pheromone_home: non_max(paths[i].1.p_h) },
            ),
    )
}

/// The saved positions of a list of pairs.
pub open spec fn firsts<T>(s: Seq<(u64, T)>) -> Seq<u64> {
    Seq::new(s.len(), |i: int| s[i].0)
}

/// `cells` after the saved blockers, homes, foods and paths are written in that order.
pub open spec fn stage(
    cells: Seq<AntSimCell>,
    b: Seq<u64>,
    h: Seq<u64>,
    f: Seq<(u64, u16)>,
    p: Seq<(u64, AntSimPathPheromoneData)>,
    d: Dimensions,
    board: AntSimVecImpl,
) -> Seq<AntSimCell> {
    let c1 = apply_writes(cells, kind_writes(b, d, board, AntSimCell::Blocker), b.len() as int);
    let c2 = apply_writes(c1, kind_writes(h, d, board, AntSimCell::Home), h.len() as int);
    let c3 = apply_writes(c2, food_writes(f, d, board), f.len() as int);
    apply_writes(c3, path_writes(p, d, board), p.len() as int)
}

/// What applying saved board data to `board` gives: the cells after blockers, homes, foods
/// and paths are written in that order, or the first entry that cannot be applied.
pub open spec fn board_result(data: AntSimBoardData, d: Dimensions, board: AntSimVecImpl) -> Result<Seq<AntSimCell>, SaveDataError> {
    let b = data.blockers@;
    let h = data.homes@;
    let f = data.foods@;
    let p = data.paths_with_pheromones@;
    if first_bad(b, d, board, 0) < b.len() {
        Err(SaveDataError::BlockerPosition(first_bad(b, d, board, 0) as usize))
    } else if first_bad(h, d, board, 0) < h.len() {
        Err(SaveDataError::HomePosition(first_bad(h, d, board, 0) as usize))
    } else if first_bad(firsts(f), d, board, 0) < f.len() {
        Err(SaveDataError::FoodPosition(first_bad(firsts(f), d, board, 0) as usize))
    } else if first_bad_path(p, d, board, 0) < p.len() {
        Err(path_error(p[first_bad_path(p, d, board, 0)], d, board, first_bad_path(p, d, board, 0)))
    } else {
        Ok(stage(board.view_cells(), b, h, f, p, d, board))
    }
}

proof fn lemma_first_bad_le(positions: Seq<u64>, d: Dimensions, board: AntSimVecImpl, i: int)
    requires
        0 <= i,
    ensures
        first_bad(positions, d, board, i) <= positions.len(),
    decreases positions.len() - i,
{
    if i < positions.len() {
        lemma_first_bad_le(positions, d, board, i + 1);
    }
}

proof fn lemma_first_bad_path_le(paths: Seq<(u64, AntSimPathPheromoneData)>, d: Dimensions, board: AntSimVecImpl, i: int)
    requires
        0 <= i,
    ensures
        first_bad_path(paths, d, board, i) <= paths.len(),
    decreases paths.len() - i,
{
    if i < paths.len() {
        lemma_first_bad_path_le(paths, d, board, i + 1);
    }
}

proof fn lemma_first_bad_same(positions: Seq<u64>, d: Dimensions, a: AntSimVecImpl, b: AntSimVecImpl, i: int)
    requires
        0 <= i,
        a.width == b.width,
        a.height == b.height,
    ensures
        first_bad(positions, d, a, i) == first_bad(positions, d, b, i),
    decreases positions.len() - i,
{
    if i < positions.len() {
        lemma_first_bad_same(positions, d, a, b, i + 1);
    }
}

proof fn lemma_first_bad_path_same(paths: Seq<(u64, AntSimPathPheromoneData)>, d: Dimensions, a: AntSimVecImpl, b: AntSimVecImpl, i: int)
    requires
        0 <= i,
        a.width == b.width,
        a.height == b.height,
    ensures
        first_bad_path(paths, d, a, i) == first_bad_path(paths, d, b, i),
    decreases paths.len() - i,
{
    if i < paths.len() {
        lemma_first_bad_path_same(paths, d, a, b, i + 1);
    }
}

/// The handle on `board` of a saved linear index, if it lies on both boards.
fn decode_pos(d: &Dimensions, board: &AntSimVecImpl, pos: u64) -> (r: Option<AntPositionImpl>)
    requires
        board.wf(),
    ensures
        r == board_pos(*d, *board, pos),
{
    match d.decode(pos) {
        Ok(p) => board.encode(p),
        Err(()) => None,
    }
}

impl AntSimPathPheromoneData {
    /// The path cell with these levels; a level at the reserved maximum is refused, the food
    /// level first. `i` names the entry in the error.
    pub fn to_cell(&self, i: usize) -> (r: Result<AntSimCell, SaveDataError>)
        ensures
            self.p_f == u16::MAX ==> r == Err::<AntSimCell, _>(SaveDataError::InvalidFoodPheromone(i)),
            self.p_f < u16::MAX && self.p_h == u16::MAX ==> r == Err::<AntSimCell, _>(SaveDataError::InvalidHomePheromone(i)),
            self.p_f < u16::MAX && self.p_h < u16::MAX ==> r == Ok::<_, SaveDataError>(AntSimCell::Path {
                pheromone_food: non_max(self.p_f),
                pheromone_home: non_max(self.p_h),
            }),
    {
        let p_food = match NonMaxU16::try_new(self.p_f) {
            Ok(v) => v,
            Err(()) => {
                return Err(SaveDataError::InvalidFoodPheromone(i));
            },
        };
        let p_home = match NonMaxU16::try_new(self.p_h) {
            Ok(v) => v,
            Err(()) => {
                return Err(SaveDataError::InvalidHomePheromone(i));
            },
        };
        proof {
            lemma_non_max(p_food@);
        }
        Ok(AntSimCell::Path { pheromone_food: p_food, pheromone_home: p_home })
    }
}

/// Writes `cell` at each saved position in turn; stops at the first one that is not on the board and returns its index.
fn apply_positions(board: &mut AntSimVecImpl, d: &Dimensions, entries: &Vec<u64>, cell: AntSimCell) -> (r: Option<usize>)
    requires
        old(board).wf(),
    ensures
        final(board).wf(),
        final(board).view_width() == old(board).view_width(),
        final(board).view_height() == old(board).view_height(),
        r is None <==> first_bad(entries@, *d, *old(board), 0) == entries@.len(),
        r matches Some(i) ==> i == first_bad(entries@, *d, *old(board), 0),
        r is None ==> final(board).view_cells() == apply_writes(old(board).view_cells(), kind_writes(entries@, *d, *old(board), cell), entries@.len() as int),
{
    let ghost start = *board;
    let mut i: usize = 0;
    while i < entries.len()
        invariant
            board.wf(),
            start == *old(board),
            board.width == start.width,
            board.height == start.height,
            start.wf(),
            i <= entries@.len(),
            first_bad(entries@, *d, start, 0) == first_bad(entries@, *d, start, i as int),
            forall|k: int| 0 <= k < i ==> board_pos(*d, start, #[trigger] entries@[k]) is Some,
            board.view_cells() == apply_writes(start.view_cells(), kind_writes(entries@, *d, *old(board), cell), i as int),
        decreases entries@.len() - i,
    {
        let e = entries[i];
        match decode_pos(d, board, e) {
            Some(p) => {
                proof {
                    let xy = dims_decode(*d, e)->Some_0;
                    start.lemma_pos_of(xy.0, xy.1);
                }
                let ghost before = *board;
                board.set_cell(&p, cell);
                proof {
                    AntSimVecImpl::lemma_cells_after_set(before, *board, p, cell);
                }
            },
            None => {
                return Some(i);
            },
        }
        i += 1;
    }
    None
}

/// Writes each saved food cell in turn; stops at the first one that is not on the board and returns its index.
fn apply_foods(board: &mut AntSimVecImpl, d: &Dimensions, entries: &Vec<(u64, u16)>) -> (r: Option<usize>)
    requires
        old(board).wf(),
    ensures
        final(board).wf(),
        final(board).view_width() == old(board).view_width(),
        final(board).view_height() == old(board).view_height(),
        r is None <==> first_bad(firsts(entries@), *d, *old(board), 0) == entries@.len(),
        r matches Some(i) ==> i == first_bad(firsts(entries@), *d, *old(board), 0),
        r is None ==> final(board).view_cells() == apply_writes(old(board).view_cells(), food_writes(entries@, *d, *old(board)), entries@.len() as int),
{
    let ghost start = *board;
    let mut i: usize = 0;
    while i < entries.len()
        invariant
            board.wf(),
            start == *old(board),
            board.width == start.width,
            board.height == start.height,
            start.wf(),
            i <= entries@.len(),
            first_bad(firsts(entries@), *d, start, 0) == first_bad(firsts(entries@), *d, start, i as int),
            forall|k: int| 0 <= k < i ==> board_pos(*d, start, #[trigger] firsts(entries@)[k]) is Some,
            board.view_cells() == apply_writes(start.view_cells(), food_writes(entries@, *d, *old(board)), i as int),
        decreases entries@.len() - i,
    {
        let e = entries[i];
        match decode_pos(d, board, e.0) {
            Some(p) => {
                proof {
                    let xy = dims_decode(*d, e.0)->Some_0;
                    start.lemma_pos_of(xy.0, xy.1);
                }
                let ghost before = *board;
                board.set_cell(&p, AntSimCell::Food { amount: e.1 });
                proof {
                    AntSimVecImpl::lemma_cells_after_set(before, *board, p, AntSimCell::Food { amount: e.1 });
                }
            },
            None => {
                return Some(i);
            },
        }
        i += 1;
    }
    None
}

/// Writes each saved path in turn; stops at the first one that cannot be applied and returns
/// its error.
fn apply_paths(board: &mut AntSimVecImpl, d: &Dimensions, entries: &Vec<(u64, AntSimPathPheromoneData)>) -> (r: Option<SaveDataError>)
    requires
        old(board).wf(),
    ensures
        final(board).wf(),
        final(board).view_width() == old(board).view_width(),
        final(board).view_height() == old(board).view_height(),
        r is None <==> first_bad_path(entries@, *d, *old(board), 0) == entries@.len(),
        r matches Some(e) ==> e == path_error(
            entries@[first_bad_path(entries@, *d, *old(board), 0)],
            *d,
            *old(board),
            first_bad_path(entries@, *d, *old(board), 0),
        ),
        r is None ==> final(board).view_cells() == apply_writes(old(board).view_cells(), path_writes(entries@, *d, *old(board)), entries@.len() as int),
{
    let ghost start = *board;
    let mut i: usize = 0;
    while i < entries.len()
        invariant
            board.wf(),
            start == *old(board),
            board.width == start.width,
            board.height == start.height,
            start.wf(),
            i <= entries@.len(),
            first_bad_path(entries@, *d, start, 0) == first_bad_path(entries@, *d, start, i as int),
            forall|k: int| 0 <= k < i ==> path_ok(#[trigger] entries@[k], *d, start),
            board.view_cells() == apply_writes(start.view_cells(), path_writes(entries@, *d, start), i as int),
        decreases entries@.len() - i,
    {
        let (pos, data) = entries[i];
        match decode_pos(d, board, pos) {
            Some(p) => {
                match data.to_cell(i) {
                    Ok(cell) => {
                        proof {
                            let xy = dims_decode(*d, pos)->Some_0;
                            start.lemma_pos_of(xy.0, xy.1);
                        }
                        let ghost before = *board;
                        board.set_cell(&p, cell);
                        proof {
                            AntSimVecImpl::lemma_cells_after_set(before, *board, p, cell);
                        }
                    },
                    Err(e) => {
                        return Some(e);
                    },
                }
            },
            None => {
                return Some(SaveDataError::PathPosition(i));
            },
        }
        i += 1;
    }
    None
}

impl AntSimBoardData {
    /// Writes the saved cells onto `board`: blockers, homes, foods, then paths, each list in
    /// order. Fails on the first entry whose position is off either board, or whose pheromone
    /// level is the reserved maximum; the board may then be partly written.
    pub fn try_apply_to_board(&self, board: &mut AntSimVecImpl, dimensions: &Dimensions) -> (r: Result<(), SaveDataError>)
        requires
            old(board).wf(),
        ensures
            final(board).wf(),
            final(board).view_width() == old(board).view_width(),
            final(board).view_height() == old(board).view_height(),
            r is Ok <==> board_result(*self, *dimensions, *old(board)) is Ok,
            r matches Err(e) ==> board_result(*self, *dimensions, *old(board)) == Err::<Seq<AntSimCell>, _>(e),
            r is Ok ==> board_result(*self, *dimensions, *old(board)) == Ok::<_, SaveDataError>(final(board).view_cells()),
    {
        let ghost b0 = *board;
        proof {
            lemma_first_bad_le(self.blockers@, *dimensions, b0, 0);
            lemma_first_bad_le(self.homes@, *dimensions, b0, 0);
            lemma_first_bad_le(firsts(self.foods@), *dimensions, b0, 0);
            lemma_first_bad_path_le(self.paths_with_pheromones@, *dimensions, b0, 0);
        }
        if let Some(i) = apply_positions(board, dimensions, &self.blockers, AntSimCell::Blocker) {
            assert(first_bad(self.blockers@, *dimensions, b0, 0) < self.blockers@.len());
            assert(board_result(*self, *dimensions, b0) == Err::<Seq<AntSimCell>, _>(SaveDataError::BlockerPosition(i)));
            return Err(SaveDataError::BlockerPosition(i));
        }
        let ghost b1 = *board;
        proof {
            lemma_first_bad_same(self.homes@, *dimensions, b0, b1, 0);
        }
        if let Some(i) = apply_positions(board, dimensions, &self.homes, AntSimCell::Home) {
            return Err(SaveDataError::HomePosition(i));
        }
        let ghost b2 = *board;
        proof {
            lemma_first_bad_same(firsts(self.foods@), *dimensions, b0, b2, 0);
        }
        if let Some(i) = apply_foods(board, dimensions, &self.foods) {
            return Err(SaveDataError::FoodPosition(i));
        }
        let ghost b3 = *board;
        proof {
            lemma_first_bad_path_same(self.paths_with_pheromones@, *dimensions, b0, b3, 0);
        }
        if let Some(e) = apply_paths(board, dimensions, &self.paths_with_pheromones) {
            return Err(e);
        }
        proof {
            assert(kind_writes(self.homes@, *dimensions, b1, AntSimCell::Home) == kind_writes(self.homes@, *dimensions, b0, AntSimCell::Home));
            assert(food_writes(self.foods@, *dimensions, b2) == food_writes(self.foods@, *dimensions, b0));
            assert(path_writes(self.paths_with_pheromones@, *dimensions, b3) == path_writes(self.paths_with_pheromones@, *dimensions, b0));
        }
        Ok(())
    }
}

/// The ant that saved ant `i` describes on `board`, or why it cannot stand there.
pub open spec fn ant_result(a: AntSimAntData, d: Dimensions, board: AntSimVecImpl, i: int) -> Result<Ant, SaveDataError> {
    if board_pos(d, board, a.position) is None {
        Err(SaveDataError::InvalidAntPosition(i as usize))
    } else if board_pos(d, board, a.last_position) is None {
        Err(SaveDataError::InvalidAntLastPosition(i as usize))
    } else if a.exploration_factor > EXPLORE_ONE {
        Err(SaveDataError::InvalidAntExploration(i as usize))
    } else {
        Ok(
            Ant {
                position: board_pos(d, board, a.position)->Some_0,
                last_position: board_pos(d, board, a.last_position)->Some_0,
                explore_weight: a.exploration_factor,
                state: match a.state {
                    AntSimAntStateData::Foraging => AntState::Foraging,
                    AntSimAntStateData::Hauling { amount } => AntState::Hauling { amount },
                },
            },
        )
    }
}

/// The saved form of cell `i`, if it is not a path without pheromones.
pub open spec fn extract(cells: Seq<AntSimCell>, k: int) -> (Seq<u64>, Seq<u64>, Seq<(u64, u16)>, Seq<(u64, AntSimPathPheromoneData)>)
    decreases k,
{
    if k <= 0 {
        (Seq::empty(), Seq::empty(), Seq::empty(), Seq::empty())
    } else {
        let prev = extract(cells, k - 1);
        let i = (k - 1) as u64;
        match cells[k - 1] {
            AntSimCell::Blocker => (prev.0.push(i), prev.1, prev.2, prev.3),
            AntSimCell::Home => (prev.0, prev.1.push(i), prev.2, prev.3),
            AntSimCell::Food { amount } => (prev.0, prev.1, prev.2.push((i, amount)), prev.3),
            AntSimCell::Path { pheromone_food, pheromone_home } => if pheromone_food@ != 0 || pheromone_home@ != 0 {
                (prev.0, prev.1, prev.2, prev.3.push((i, AntSimPathPheromoneData { p_h: pheromone_home@, p_f: pheromone_food@ })))
            } else {
                prev
            },
        }
    }
}

impl AntSimAntData {
    /// The ant this saved ant describes on `on`; fails when a position is off either board or
    /// the explore weight exceeds one. `i` names the ant in the error.
    pub fn try_into_ant(&self, on: &AntSimVecImpl, dimensions: &Dimensions, i: usize) -> (r: Result<Ant, SaveDataError>)
        requires
            on.wf(),
        ensures
            r == ant_result(*self, *dimensions, *on, i as int),
    {
        let pos = match decode_pos(dimensions, on, self.position) {
            Some(p) => p,
            None => {
                return Err(SaveDataError::InvalidAntPosition(i));
            },
        };
        let last_pos = match decode_pos(dimensions, on, self.last_position) {
            Some(p) => p,
            None => {
                return Err(SaveDataError::InvalidAntLastPosition(i));
            },
        };
        if self.exploration_factor > EXPLORE_ONE {
            return Err(SaveDataError::InvalidAntExploration(i));
        }
        let state = match self.state {
            AntSimAntStateData::Foraging => AntState::Foraging,
            AntSimAntStateData::Hauling { amount } => AntState::Hauling { amount },
        };
        Ok(Ant::new(pos, last_pos, self.exploration_factor, state))
    }

    /// The saved form of an ant: its positions as linear indices of the board.
    pub fn try_from_ant(ant: &Ant) -> (r: AntSimAntData)
        ensures
            r.position == ant.position.0,
            r.last_position == ant.last_position.0,
            r.exploration_factor == ant.explore_weight,
            r.state == match ant.state {
                AntState::Foraging => AntSimAntStateData::Foraging,
                AntState::Hauling { amount } => AntSimAntStateData::Hauling { amount },
            },
    {
        let state = match ant.state() {
            AntState::Foraging => AntSimAntStateData::Foraging,
            AntState::Hauling { amount } => AntSimAntStateData::Hauling { amount: *amount },
        };
        AntSimAntData {
            position: ant.position().0 as u64,
            last_position: ant.last_position().0 as u64,
            exploration_factor: ant.exploration_weight(),
            state,
        }
    }
}

impl AntSimBoardData {
    /// The saved form of a board: the linear indices of its blockers, homes, foods (with
    /// their amounts) and paths that carry pheromones, each in row-major order.
    pub fn try_from_board(board: &AntSimVecImpl) -> (r: AntSimBoardData)
        requires
            board.wf(),
        ensures
            (r.blockers@, r.homes@, r.foods@, r.paths_with_pheromones@) == extract(
                board.view_cells(),
                board.view_cells().len() as int,
            ),
    {
        let mut result = AntSimBoardData {
            blockers: Vec::new(),
            homes: Vec::new(),
            foods: Vec::new(),
            paths_with_pheromones: Vec::new(),
        };
        let cells = board.cells();
        proof {
            board.lemma_view_cells();
        }
        let mut i: usize = 0;
        while i < cells.len()
            invariant
                board.wf(),
                cells@.len() == board.view_cells().len(),
                forall|k: int| 0 <= k < cells@.len() ==> (#[trigger] cells@[k]).0 == board.view_cells()[k],
                i <= cells@.len(),
                (result.blockers@, result.homes@, result.foods@, result.paths_with_pheromones@) == extract(board.view_cells(), i as int),
            decreases cells@.len() - i,
        {
            let (cell, _) = cells[i];
            let pos = i as u64;
            match cell {
                AntSimCell::Path { pheromone_food, pheromone_home } => {
                    let pheromone_food = pheromone_food.get();
                    let pheromone_home = pheromone_home.get();
                    if pheromone_food != 0 || pheromone_home != 0 {
                        result.paths_with_pheromones.push((pos, AntSimPathPheromoneData { p_h: pheromone_home, p_f: pheromone_food }));
                    }
                },
                AntSimCell::Blocker => result.blockers.push(pos),
                AntSimCell::Home => result.homes.push(pos),
                AntSimCell::Food { amount } => result.foods.push((pos, amount)),
            }
            i += 1;
        }
        result
    }
}

/// The saved form of an ant.
pub open spec fn ant_data(ant: Ant) -> AntSimAntData {
    AntSimAntData {
        position: ant.position.0 as u64,
        last_position: ant.last_position.0 as u64,
        exploration_factor: ant.explore_weight,
        state: match ant.state {
            AntState::Foraging => AntSimAntStateData::Foraging,
            AntState::Hauling { amount } => AntSimAntStateData::Hauling { amount },
        },
    }
}

/// Whether every check of a save passes on a board `g` of the saved dimensions: each ant and
/// each board entry can be placed, the visual range is between 1 and
/// [`MAX_SAVED_VISUAL_RANGE`], and the direction points are in range.
pub open spec fn save_fits(d: AntSimData, g: AntSimVecImpl) -> bool {
    &&& forall|i: int| 0 <= i < d.ants@.len() ==> #[trigger] ant_result(d.ants@[i], d.env.dimensions, g, i) is Ok
    &&& board_result(d.board, d.env.dimensions, g) is Ok
    &&& 1 <= d.env.ant_visual_range <= MAX_SAVED_VISUAL_RANGE
    &&& forall|k: int| 0 <= k < 8 ==> point_ok(#[trigger] d.env.points@[k])
}

/// Whether a save's checks pass depends on the board's dimensions only.
proof fn lemma_save_fits_same(d: AntSimData, a: AntSimVecImpl, b: AntSimVecImpl)
    requires
        a.width == b.width,
        a.height == b.height,
    ensures
        save_fits(d, a) == save_fits(d, b),
{
    let dims = d.env.dimensions;
    lemma_first_bad_same(d.board.blockers@, dims, a, b, 0);
    lemma_first_bad_same(d.board.homes@, dims, a, b, 0);
    lemma_first_bad_same(firsts(d.board.foods@), dims, a, b, 0);
    lemma_first_bad_path_same(d.board.paths_with_pheromones@, dims, a, b, 0);
    assert forall|i: int| 0 <= i < d.ants@.len() implies #[trigger] ant_result(d.ants@[i], dims, a, i) is Ok
        == ant_result(d.ants@[i], dims, b, i) is Ok by {
        assert(board_pos(dims, a, d.ants@[i].position) == board_pos(dims, b, d.ants@[i].position));
        assert(board_pos(dims, a, d.ants@[i].last_position) == board_pos(dims, b, d.ants@[i].last_position));
    }
    assert(board_result(d.board, dims, a) is Ok == board_result(d.board, dims, b) is Ok);
    if forall|i: int| 0 <= i < d.ants@.len() ==> #[trigger] ant_result(d.ants@[i], dims, a, i) is Ok {
        assert forall|i: int| 0 <= i < d.ants@.len() implies #[trigger] ant_result(d.ants@[i], dims, b, i) is Ok by {
            assert(ant_result(d.ants@[i], dims, a, i) is Ok);
        }
    }
    if forall|i: int| 0 <= i < d.ants@.len() ==> #[trigger] ant_result(d.ants@[i], dims, b, i) is Ok {
        assert forall|i: int| 0 <= i < d.ants@.len() implies #[trigger] ant_result(d.ants@[i], dims, a, i) is Ok by {
            assert(ant_result(d.ants@[i], dims, b, i) is Ok);
        }
    }
}

/// Whether `d` is the saved form of `s`: its settings, dimensions and seed, each ant as
/// `ant_data` gives it, and the board as `extract` lists it.
pub open spec fn saved_form(s: AntSimulator, d: AntSimData) -> bool {
    &&& d.env.seed == s.seed
    &&& d.env.decay_rate == s.config.pheromone_decay_amount
    &&& d.env.haul_amount == s.config.food_haul_amount
    &&& d.env.points == s.config.distance_points
    &&& d.env.ant_visual_range == s.config.visual_range.view_range()
    &&& d.env.dimensions.width == s.sim.view_width()
    &&& d.env.dimensions.height == s.sim.view_height()
    &&& d.ants@ == s.ants@.map_values(|a: Ant| ant_data(a))
    &&& (d.board.blockers@, d.board.homes@, d.board.foods@, d.board.paths_with_pheromones@) == extract(
        s.sim.view_cells(),
        s.sim.view_cells().len() as int,
    )
}

/// Whether `g` is a well-formed board of the saved dimensions holding only empty paths.
pub open spec fn empty_board(g: AntSimVecImpl, d: Dimensions) -> bool {
    &&& g.wf()
    &&& g.view_width() == d.width
    &&& g.view_height() == d.height
    &&& forall|x: int, y: int| in_grid(x, y, g.view_width(), g.view_height()) ==> #[trigger] g.cell_at(x, y) == empty_path()
}

/// The first ant from `i` on that cannot be placed on `g`, or the number of ants.
pub open spec fn first_bad_ant(d: AntSimData, g: AntSimVecImpl, i: int) -> int
    decreases d.ants@.len() - i,
{
    if i >= d.ants@.len() || i < 0 {
        d.ants@.len() as int
    } else if ant_result(d.ants@[i], d.env.dimensions, g, i) is Err {
        i
    } else {
        first_bad_ant(d, g, i + 1)
    }
}

/// The first check of a save that fails on board `g`: the ants in order, the board contents,
/// the visual range (too large, then zero), then the direction points.
pub open spec fn place_error(d: AntSimData, g: AntSimVecImpl) -> SaveDataError {
    let k = first_bad_ant(d, g, 0);
    if k < d.ants@.len() {
        ant_result(d.ants@[k], d.env.dimensions, g, k)->Err_0
    } else if board_result(d.board, d.env.dimensions, g) is Err {
        board_result(d.board, d.env.dimensions, g)->Err_0
    } else if d.env.ant_visual_range > MAX_SAVED_VISUAL_RANGE {
        SaveDataError::VisualRangeTooLarge
    } else if d.env.ant_visual_range == 0 {
        SaveDataError::VisualRangeZero
    } else {
        SaveDataError::InvalidPoints
    }
}

/// Whether `s` is the simulation that save `d` describes when placed on board `g`.
pub open spec fn loaded(d: AntSimData, s: AntSimulator, g: AntSimVecImpl) -> bool {
    &&& s.wf()
    &&& s.sim.view_width() == d.env.dimensions.width
    &&& s.sim.view_height() == d.env.dimensions.height
    &&& s.seed == d.env.seed
    &&& s.config.food_haul_amount == d.env.haul_amount
    &&& s.config.pheromone_decay_amount == d.env.decay_rate
    &&& s.config.seed_step == d.ants@.len()
    &&& s.config.distance_points == d.env.points
    &&& s.config.visual_range.view_range() == d.env.ant_visual_range
    &&& s.ants@.len() == d.ants@.len()
    &&& forall|i: int| 0 <= i < s.ants@.len() ==> Ok::<_, SaveDataError>(#[trigger] s.ants@[i])
        == ant_result(d.ants@[i], d.env.dimensions, g, i)
    &&& board_result(d.board, d.env.dimensions, g) == Ok::<_, SaveDataError>(s.sim.view_cells())
}

impl AntSimData {
    /// The simulation this save describes, placed on the empty board `a`: the ants and the
    /// board contents are checked and placed (the first bad entry is reported), then the
    /// visual range (at most [`MAX_SAVED_VISUAL_RANGE`], at least 1) and the direction points
    /// are checked. The seed advances by the number of ants per tick.
    pub fn place_on(&self, board: AntSimVecImpl) -> (r: Result<AntSimulator, SaveDataError>)
        requires
            empty_board(board, self.env.dimensions),
        ensures
            r is Ok <==> save_fits(*self, board),
            r matches Err(e) ==> e == place_error(*self, board),
            r matches Ok(s) ==> loaded(*self, s, board),
    {
        let dims = self.env.dimensions;
        let ghost g = board;
        let mut a = board;
        let mut ants: Vec<Ant> = Vec::new();
        let mut i: usize = 0;
        while i < self.ants.len()
            invariant
                a == g,
                g == board,
                g.wf(),
                dims == self.env.dimensions,
                i <= self.ants@.len(),
                ants@.len() == i,
                first_bad_ant(*self, g, 0) == first_bad_ant(*self, g, i as int),
                forall|k: int| 0 <= k < i ==> Ok::<_, SaveDataError>(#[trigger] ants@[k]) == ant_result(self.ants@[k], dims, g, k),
            decreases self.ants@.len() - i,
        {
            match self.ants[i].try_into_ant(&a, &dims, i) {
                Ok(ant) => ants.push(ant),
                Err(e) => {
                    proof {
                        let ghost d = *self;
                        assert(d.ants@[i as int] == self.ants@[i as int]);
                        assert(ant_result(d.ants@[i as int], d.env.dimensions, g, i as int) is Err);
                        assert(!save_fits(d, g));
                    }
                    return Err(e);
                },
            }
            i += 1;
        }
        assert forall|k: int| 0 <= k < self.ants@.len() implies #[trigger] ant_result(self.ants@[k], dims, g, k) is Ok by {
            assert(Ok::<_, SaveDataError>(ants@[k]) == ant_result(self.ants@[k], dims, g, k));
        }
        match self.board.try_apply_to_board(&mut a, &dims) {
            Ok(()) => {},
            Err(e) => {
                return Err(e);
            },
        }
        let range = self.env.ant_visual_range;
        if range > MAX_SAVED_VISUAL_RANGE {
            return Err(SaveDataError::VisualRangeTooLarge);
        }
        if range == 0 {
            return Err(SaveDataError::VisualRangeZero);
        }
        assert(first_bad_ant(*self, board, 0) == self.ants@.len());
        let mut k: usize = 0;
        while k < 8
            invariant
                k <= 8,
                forall|m: int| 0 <= m < k ==> point_ok(#[trigger] self.env.points@[m]),
                first_bad_ant(*self, board, 0) == self.ants@.len(),
                board_result(self.board, dims, board) is Ok,
                dims == self.env.dimensions,
                1 <= self.env.ant_visual_range <= MAX_SAVED_VISUAL_RANGE,
            decreases 8 - k,
        {
            let (px, py) = self.env.points[k];
            if px < -crate::ant_sim_ant::POINT_LIMIT || px > crate::ant_sim_ant::POINT_LIMIT || py < -crate::ant_sim_ant::POINT_LIMIT
                || py > crate::ant_sim_ant::POINT_LIMIT {
                return Err(SaveDataError::InvalidPoints);
            }
            k += 1;
        }
        assert(expected_size_spec(range as int) <= usize::MAX) by (nonlinear_arith)
            requires
                range <= 20,
        ;
        let config = AntSimConfig {
            distance_points: self.env.points,
            food_haul_amount: self.env.haul_amount,
            pheromone_decay_amount: self.env.decay_rate,
            seed_step: ants.len() as u64,
            visual_range: AntVisualRangeBuffer::new(range as usize),
        };
        let sim = AntSimulator { sim: a, ants, seed: self.env.seed, config };
        proof {
            assert forall|k: int| 0 <= k < sim.ants@.len() implies (#[trigger] sim.ants@[k]).wf() && sim.sim.valid_pos(sim.ants@[k].position)
                && sim.sim.valid_pos(sim.ants@[k].last_position) by {
                assert(Ok::<_, SaveDataError>(sim.ants@[k]) == ant_result(self.ants@[k], dims, g, k));
                let xy = dims_decode(dims, self.ants@[k].position)->Some_0;
                g.lemma_pos_of(xy.0, xy.1);
                let lxy = dims_decode(dims, self.ants@[k].last_position)->Some_0;
                g.lemma_pos_of(lxy.0, lxy.1);
            }
            assert(board_result(self.board, dims, g) == Ok::<_, SaveDataError>(sim.sim.view_cells()));
        }
        Ok(sim)
    }

    /// The simulation this save describes: an empty board of the saved dimensions is built
    /// (`InvalidDimensions` when a dimension is zero or too large, or the storage cannot be
    /// had), then the save is placed on it as [`AntSimData::place_on`] says.
    pub fn try_into_board(&self) -> (r: Result<AntSimulator, SaveDataError>)
        ensures
            (self.env.dimensions.width == 0 || self.env.dimensions.height == 0 || self.env.dimensions.width > usize::MAX
                || self.env.dimensions.height > usize::MAX || self.env.dimensions.width * self.env.dimensions.height
                > crate::ant_sim_frame_impl::MAX_CELLS) ==> r == Err::<AntSimulator, _>(SaveDataError::InvalidDimensions),
            self.env.ant_visual_range > MAX_SAVED_VISUAL_RANGE ==> r is Err,
            self.env.ant_visual_range == 0 ==> r is Err,
            (exists|i: int| 0 <= i < 8 && !point_ok(#[trigger] self.env.points@[i])) ==> r is Err,
            r matches Ok(s) ==> exists|g: AntSimVecImpl| empty_board(g, self.env.dimensions) && #[trigger] loaded(*self, s, g),
            r matches Err(e) ==> e == SaveDataError::InvalidDimensions || exists|g: AntSimVecImpl|
                empty_board(g, self.env.dimensions) && e == #[trigger] place_error(*self, g),
            forall|g: AntSimVecImpl|
                empty_board(g, self.env.dimensions) && #[trigger] save_fits(*self, g) ==> (r is Ok || r
                    == Err::<AntSimulator, _>(SaveDataError::InvalidDimensions)),
    {
        let dims = self.env.dimensions;
        if dims.width > usize::MAX as u64 || dims.height > usize::MAX as u64 {
            return Err(SaveDataError::InvalidDimensions);
        }
        let a = match AntSimVecImpl::new(dims.width as usize, dims.height as usize) {
            Ok(a) => a,
            Err(_) => {
                return Err(SaveDataError::InvalidDimensions);
            },
        };
        proof {
            assert forall|h: AntSimVecImpl| empty_board(h, dims) implies #[trigger] save_fits(*self, h) == save_fits(*self, a) by {
                lemma_save_fits_same(*self, h, a);
            }
        }
        let r = self.place_on(a);
        proof {
            if r is Ok {
                assert(loaded(*self, r->Ok_0, a));
            } else {
                assert(place_error(*self, a) == r->Err_0);
            }
        }
        r
    }

    /// The saved form of a simulation; fails when its visual range does not fit a byte.
    pub fn from_state_sim(sim: &AntSimulator) -> (r: Result<AntSimData, ()>)
        requires
            sim.wf(),
        ensures
            r is Ok <==> sim.config.visual_range.view_range() <= u8::MAX,
            r matches Ok(d) ==> saved_form(*sim, d),
    {
        let range = sim.config.visual_range.range();
        if range > u8::MAX as usize {
            return Err(());
        }
        let env = AntSimEnv {
            seed: sim.seed,
            decay_rate: sim.config.pheromone_decay_amount,
            haul_amount: sim.config.food_haul_amount,
            points: sim.config.distance_points,
            ant_visual_range: range as u8,
            dimensions: Dimensions { width: sim.sim.width() as u64, height: sim.sim.height() as u64 },
        };
        let mut ants: Vec<AntSimAntData> = Vec::new();
        let mut i: usize = 0;
        while i < sim.ants.len()
            invariant
                i <= sim.ants@.len(),
                ants@ == sim.ants@.subrange(0, i as int).map_values(|a: Ant| ant_data(a)),
            decreases sim.ants@.len() - i,
        {
            let a = AntSimAntData::try_from_ant(&sim.ants[i]);
            assert(a == ant_data(sim.ants@[i as int]));
            ants.push(a);
            i += 1;
            assert(ants@ =~= sim.ants@.subrange(0, i as int).map_values(|a: Ant| ant_data(a)));
        }
        assert(sim.ants@.subrange(0, sim.ants@.len() as int) =~= sim.ants@);
        let board = AntSimBoardData::try_from_board(&sim.sim);
        Ok(AntSimData { env, ants, board })
    }
}

proof fn lemma_apply_prefix(c: Seq<AntSimCell>, ws1: Seq<(AntPositionImpl, AntSimCell)>, ws2: Seq<(AntPositionImpl, AntSimCell)>, m: int)
    requires
        forall|t: int| 0 <= t < m ==> ws1[t] == ws2[t],
    ensures
        apply_writes(c, ws1, m) == apply_writes(c, ws2, m),
    decreases m,
{
    if m > 0 {
        lemma_apply_prefix(c, ws1, ws2, m - 1);
        assert(ws1[m - 1] == ws2[m - 1]);
    }
}

proof fn lemma_apply_len(c: Seq<AntSimCell>, ws: Seq<(AntPositionImpl, AntSimCell)>, m: int)
    requires
        forall|t: int| 0 <= t < m ==> (#[trigger] ws[t]).0.0 < c.len(),
    ensures
        apply_writes(c, ws, m).len() == c.len(),
    decreases m,
{
    if m > 0 {
        lemma_apply_len(c, ws, m - 1);
    }
}

proof fn lemma_apply_commute(c: Seq<AntSimCell>, ws: Seq<(AntPositionImpl, AntSimCell)>, m: int, p: int, v: AntSimCell)
    requires
        0 <= p < c.len(),
        forall|t: int| 0 <= t < m ==> (#[trigger] ws[t]).0.0 != p && ws[t].0.0 < c.len(),
    ensures
        apply_writes(c.update(p, v), ws, m) == apply_writes(c, ws, m).update(p, v),
    decreases m,
{
    if m > 0 {
        lemma_apply_commute(c, ws, m - 1, p, v);
        lemma_apply_len(c, ws, m - 1);
        let q = ws[m - 1].0.0 as int;
        assert(q != p);
        assert(apply_writes(c, ws, m - 1).update(p, v).update(q, ws[m - 1].1) =~= apply_writes(c, ws, m - 1).update(
            q,
            ws[m - 1].1,
        ).update(p, v));
    }
}

/// Every position that `extract` lists for the first `k` cells is below `k`.
proof fn lemma_extract_bounds(cells: Seq<AntSimCell>, k: int)
    requires
        0 <= k <= cells.len(),
        cells.len() <= u64::MAX,
        forall|j: int| 0 <= j < cells.len() ==> (#[trigger] cells[j]).wf(),
    ensures
        forall|t: int| 0 <= t < extract(cells, k).0.len() ==> #[trigger] extract(cells, k).0[t] < k,
        forall|t: int| 0 <= t < extract(cells, k).1.len() ==> #[trigger] extract(cells, k).1[t] < k,
        forall|t: int| 0 <= t < extract(cells, k).2.len() ==> (#[trigger] extract(cells, k).2[t]).0 < k,
        forall|t: int| 0 <= t < extract(cells, k).3.len() ==> (#[trigger] extract(cells, k).3[t]).0 < k,
        forall|t: int| 0 <= t < extract(cells, k).3.len() ==> (#[trigger] extract(cells, k).3[t]).1.p_f < u16::MAX
            && extract(cells, k).3[t].1.p_h < u16::MAX,
    decreases k,
{
    if k > 0 {
        lemma_extract_bounds(cells, k - 1);
        let prev = extract(cells, k - 1);
        let cur = extract(cells, k);
        assert forall|t: int| 0 <= t < cur.0.len() implies #[trigger] cur.0[t] < k by {
            if t < prev.0.len() {
                assert(prev.0[t] < k - 1);
            }
        }
        assert forall|t: int| 0 <= t < cur.1.len() implies #[trigger] cur.1[t] < k by {
            if t < prev.1.len() {
                assert(prev.1[t] < k - 1);
            }
        }
    }
}

proof fn lemma_board_pos_index(d: Dimensions, g: AntSimVecImpl, i: int)
    requires
        g.wf(),
        g.view_width() == d.width,
        g.view_height() == d.height,
        0 <= i < d.width * d.height,
    ensures
        board_pos(d, g, i as u64) == Some(AntPositionImpl(i as usize)),
{
    crate::ant_sim_frame_impl::lemma_index(i, d.width as int, d.height as int);
    assert((i / d.width as int) * d.width + i % d.width as int == i);
}

proof fn lemma_kind_pos(l: Seq<u64>, d: Dimensions, g: AntSimVecImpl, cell: AntSimCell, bound: int)
    requires
        g.wf(),
        g.view_width() == d.width,
        g.view_height() == d.height,
        bound <= d.width * d.height,
        forall|t: int| 0 <= t < l.len() ==> #[trigger] l[t] < bound,
    ensures
        forall|t: int| 0 <= t < l.len() ==> (#[trigger] kind_writes(l, d, g, cell)[t]).0.0 == l[t] && l[t] < bound,
{
    assert forall|t: int| 0 <= t < l.len() implies (#[trigger] kind_writes(l, d, g, cell)[t]).0.0 == l[t] && l[t] < bound by {
        lemma_board_pos_index(d, g, l[t] as int);
    }
}

proof fn lemma_food_pos(l: Seq<(u64, u16)>, d: Dimensions, g: AntSimVecImpl, bound: int)
    requires
        g.wf(),
        g.view_width() == d.width,
        g.view_height() == d.height,
        bound <= d.width * d.height,
        forall|t: int| 0 <= t < l.len() ==> (#[trigger] l[t]).0 < bound,
    ensures
        forall|t: int| 0 <= t < l.len() ==> (#[trigger] food_writes(l, d, g)[t]).0.0 == l[t].0 && l[t].0 < bound,
{
    assert forall|t: int| 0 <= t < l.len() implies (#[trigger] food_writes(l, d, g)[t]).0.0 == l[t].0 && l[t].0 < bound by {
        lemma_board_pos_index(d, g, l[t].0 as int);
    }
}

proof fn lemma_path_pos(l: Seq<(u64, AntSimPathPheromoneData)>, d: Dimensions, g: AntSimVecImpl, bound: int)
    requires
        g.wf(),
        g.view_width() == d.width,
        g.view_height() == d.height,
        bound <= d.width * d.height,
        forall|t: int| 0 <= t < l.len() ==> (#[trigger] l[t]).0 < bound,
    ensures
        forall|t: int| 0 <= t < l.len() ==> (#[trigger] path_writes(l, d, g)[t]).0.0 == l[t].0 && l[t].0 < bound,
{
    assert forall|t: int| 0 <= t < l.len() implies (#[trigger] path_writes(l, d, g)[t]).0.0 == l[t].0 && l[t].0 < bound by {
        lemma_board_pos_index(d, g, l[t].0 as int);
    }
}

/// The board that the first `k` cells of `cells`, saved, give when written onto `g`.
spec fn staged(cells: Seq<AntSimCell>, d: Dimensions, g: AntSimVecImpl, k: int) -> Seq<AntSimCell> {
    let l = extract(cells, k);
    stage(g.view_cells(), l.0, l.1, l.2, l.3, d, g)
}

proof fn lemma_stage(cells: Seq<AntSimCell>, d: Dimensions, g: AntSimVecImpl, k: int)
    requires
        empty_board(g, d),
        cells.len() == d.width * d.height,
        forall|j: int| 0 <= j < cells.len() ==> (#[trigger] cells[j]).wf(),
        0 <= k <= cells.len(),
    ensures
        staged(cells, d, g, k).len() == cells.len(),
        forall|j: int| 0 <= j < cells.len() ==> #[trigger] staged(cells, d, g, k)[j] == if j < k {
            cells[j]
        } else {
            empty_path()
        },
    decreases k,
{
    let n = cells.len() as int;
    let e = g.view_cells();
    g.lemma_view_cells();
    assert forall|j: int| 0 <= j < n implies #[trigger] e[j] == empty_path() by {
        crate::ant_sim_frame_impl::lemma_index(j, d.width as int, d.height as int);
    }
    assert(n <= u64::MAX);
    if k == 0 {
        return;
    }
    lemma_stage(cells, d, g, k - 1);
    let p = k - 1;
    lemma_extract_bounds(cells, k - 1);
    lemma_extract_bounds(cells, k);
    let lp = extract(cells, k - 1);
    let l = extract(cells, k);
    lemma_kind_pos(lp.0, d, g, AntSimCell::Blocker, p);
    lemma_kind_pos(lp.1, d, g, AntSimCell::Home, p);
    lemma_food_pos(lp.2, d, g, p);
    lemma_path_pos(lp.3, d, g, p);
    lemma_kind_pos(l.0, d, g, AntSimCell::Blocker, k);
    lemma_kind_pos(l.1, d, g, AntSimCell::Home, k);
    lemma_food_pos(l.2, d, g, k);
    lemma_path_pos(l.3, d, g, k);
    let w0 = kind_writes(lp.0, d, g, AntSimCell::Blocker);
    let w1 = kind_writes(lp.1, d, g, AntSimCell::Home);
    let w2 = food_writes(lp.2, d, g);
    let w3 = path_writes(lp.3, d, g);
    let a1 = apply_writes(e, w0, lp.0.len() as int);
    let a2 = apply_writes(a1, w1, lp.1.len() as int);
    let a3 = apply_writes(a2, w2, lp.2.len() as int);
    let a4 = apply_writes(a3, w3, lp.3.len() as int);
    lemma_apply_len(e, w0, lp.0.len() as int);
    lemma_apply_len(a1, w1, lp.1.len() as int);
    lemma_apply_len(a2, w2, lp.2.len() as int);
    lemma_apply_len(a3, w3, lp.3.len() as int);
    assert(a4 == staged(cells, d, g, k - 1));
    let v = cells[p];
    let shifted = match v {
        AntSimCell::Path { pheromone_food, pheromone_home } => pheromone_food@ != 0 || pheromone_home@ != 0,
        _ => true,
    };
    if shifted {
        match v {
            AntSimCell::Blocker => {
                let x0 = kind_writes(l.0, d, g, AntSimCell::Blocker);
                lemma_apply_prefix(e, x0, w0, lp.0.len() as int);
                let b1 = apply_writes(e, x0, l.0.len() as int);
                assert(b1 == a1.update(p, v));
                lemma_apply_commute(a1, w1, lp.1.len() as int, p, v);
                lemma_apply_commute(a2, w2, lp.2.len() as int, p, v);
                lemma_apply_commute(a3, w3, lp.3.len() as int, p, v);
            },
            AntSimCell::Home => {
                let x1 = kind_writes(l.1, d, g, AntSimCell::Home);
                lemma_apply_prefix(a1, x1, w1, lp.1.len() as int);
                assert(apply_writes(a1, x1, l.1.len() as int) == a2.update(p, v));
                lemma_apply_commute(a2, w2, lp.2.len() as int, p, v);
                lemma_apply_commute(a3, w3, lp.3.len() as int, p, v);
            },
            AntSimCell::Food { amount } => {
                let x2 = food_writes(l.2, d, g);
                lemma_apply_prefix(a2, x2, w2, lp.2.len() as int);
                assert(apply_writes(a2, x2, l.2.len() as int) == a3.update(p, v));
                lemma_apply_commute(a3, w3, lp.3.len() as int, p, v);
            },
            AntSimCell::Path { pheromone_food, pheromone_home } => {
                let x3 = path_writes(l.3, d, g);
                lemma_apply_prefix(a3, x3, w3, lp.3.len() as int);
                lemma_non_max(pheromone_food@);
                assert(x3[lp.3.len() as int].1 == v);
                assert(apply_writes(a3, x3, l.3.len() as int) == a4.update(p, v));
            },
        }
        assert(staged(cells, d, g, k) == a4.update(p, v));
    } else {
        lemma_non_max(0);
        assert(l == lp);
        assert(v == empty_path());
    }
}

proof fn lemma_first_bad_none(l: Seq<u64>, d: Dimensions, g: AntSimVecImpl, i: int)
    requires
        0 <= i,
        forall|t: int| i <= t < l.len() ==> #[trigger] board_pos(d, g, l[t]) is Some,
    ensures
        first_bad(l, d, g, i) == l.len(),
    decreases l.len() - i,
{
    if i < l.len() {
        lemma_first_bad_none(l, d, g, i + 1);
    }
}

proof fn lemma_first_bad_path_none(l: Seq<(u64, AntSimPathPheromoneData)>, d: Dimensions, g: AntSimVecImpl, i: int)
    requires
        0 <= i,
        forall|t: int| i <= t < l.len() ==> path_ok(#[trigger] l[t], d, g),
    ensures
        first_bad_path(l, d, g, i) == l.len(),
    decreases l.len() - i,
{
    if i < l.len() {
        lemma_first_bad_path_none(l, d, g, i + 1);
    }
}

/// Saving a simulation and placing the save onto an empty board of its dimensions succeeds
/// when its visual range is one a save may hold, and gives back its board, ants, seed,
/// settings and visual range; only the seed step becomes the number of ants.
pub proof fn lemma_save_round_trip(s: AntSimulator, d: AntSimData, g: AntSimVecImpl)
    requires
        s.wf(),
        saved_form(s, d),
        s.config.visual_range.view_range() <= MAX_SAVED_VISUAL_RANGE,
        empty_board(g, d.env.dimensions),
    ensures
        save_fits(d, g),
        forall|t: AntSimulator| #[trigger] loaded(d, t, g) ==> {
            &&& t.sim.view_width() == s.sim.view_width()
            &&& t.sim.view_height() == s.sim.view_height()
            &&& t.sim.view_cells() == s.sim.view_cells()
            &&& t.ants@ == s.ants@
            &&& t.seed == s.seed
            &&& t.config.distance_points == s.config.distance_points
            &&& t.config.food_haul_amount == s.config.food_haul_amount
            &&& t.config.pheromone_decay_amount == s.config.pheromone_decay_amount
            &&& t.config.visual_range.view_range() == s.config.visual_range.view_range()
        },
{
    let dims = d.env.dimensions;
    let c = s.sim.view_cells();
    s.sim.lemma_view_cells();
    let n = c.len() as int;
    assert forall|j: int| 0 <= j < n implies (#[trigger] c[j]).wf() by {
        crate::ant_sim_frame_impl::lemma_unpack_wf(s.sim.contains@[j].p1, s.sim.contains@[j].p2);
    }
    // the ants
    assert forall|i: int| 0 <= i < d.ants@.len() implies #[trigger] ant_result(d.ants@[i], dims, g, i)
        == Ok::<_, SaveDataError>(s.ants@[i]) by {
        let a = s.ants@[i];
        assert(a.wf() && s.sim.valid_pos(a.position));
        assert(d.ants@[i] == ant_data(a));
        lemma_board_pos_index(dims, g, a.position.0 as int);
        lemma_board_pos_index(dims, g, a.last_position.0 as int);
    }
    // the board
    lemma_extract_bounds(c, n);
    let l = extract(c, n);
    lemma_kind_pos(l.0, dims, g, AntSimCell::Blocker, n);
    lemma_kind_pos(l.1, dims, g, AntSimCell::Home, n);
    lemma_food_pos(l.2, dims, g, n);
    lemma_path_pos(l.3, dims, g, n);
    assert forall|t: int| 0 <= t < l.0.len() implies #[trigger] board_pos(dims, g, l.0[t]) is Some by {
        lemma_board_pos_index(dims, g, l.0[t] as int);
    }
    assert forall|t: int| 0 <= t < l.1.len() implies #[trigger] board_pos(dims, g, l.1[t]) is Some by {
        lemma_board_pos_index(dims, g, l.1[t] as int);
    }
    assert forall|t: int| 0 <= t < firsts(l.2).len() implies #[trigger] board_pos(dims, g, firsts(l.2)[t]) is Some by {
        lemma_board_pos_index(dims, g, l.2[t].0 as int);
    }
    assert forall|t: int| 0 <= t < l.3.len() implies path_ok(#[trigger] l.3[t], dims, g) by {
        lemma_board_pos_index(dims, g, l.3[t].0 as int);
    }
    lemma_first_bad_none(l.0, dims, g, 0);
    lemma_first_bad_none(l.1, dims, g, 0);
    lemma_first_bad_none(firsts(l.2), dims, g, 0);
    lemma_first_bad_path_none(l.3, dims, g, 0);
    lemma_stage(c, dims, g, n);
    assert(staged(c, dims, g, n) =~= c);
    assert(board_result(d.board, dims, g) == Ok::<_, SaveDataError>(c));
    assert(save_fits(d, g));
    assert forall|t: AntSimulator| #[trigger] loaded(d, t, g) implies t.ants@ == s.ants@ by {
        assert forall|i: int| 0 <= i < t.ants@.len() implies t.ants@[i] == s.ants@[i] by {
            assert(Ok::<_, SaveDataError>(t.ants@[i]) == ant_result(d.ants@[i], dims, g, i));
        }
        assert(t.ants@ =~= s.ants@);
    }
}

} // verus!
