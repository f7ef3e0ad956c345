use vstd::prelude::*;

verus! {

/// A logical grid coordinate.
#[derive(Debug, Copy, Clone, PartialEq, Eq, Structural)]
pub struct AntPosition {
    pub x: usize,
    pub y: usize,
}

impl AntPosition {
    /// Clamps each coordinate to at most the matching coordinate of `pos`.
    pub fn clamp_to(self, pos: AntPosition) -> (r: AntPosition)
        ensures
            r.x == if self.x <= pos.x { self.x } else { pos.x },
            r.y == if self.y <= pos.y { self.y } else { pos.y },
    {
        AntPosition {
            x: if self.x <= pos.x { self.x } else { pos.x },
            y: if self.y <= pos.y { self.y } else { pos.y },
        }
    }
}

/// `a - b`, or zero where that would be negative.
pub open spec fn sat_sub(a: u16, b: u16) -> u16 {
    if a >= b { (a - b) as u16 } else { 0 }
}

/// A `u16` that is never `u16::MAX`; the maximum is reserved as a sentinel by the packed cells.
#[derive(Copy, Clone, Debug, PartialEq, Eq, Hash, Structural)]
pub struct NonMaxU16(pub(crate) u16);

impl View for NonMaxU16 {
    type V = u16;

    open(crate) spec fn view(&self) -> u16 {
        self.0
    }
}

/// The `NonMaxU16` holding `v`; meaningful for `v < u16::MAX`.
pub open(crate) spec fn non_max(v: u16) -> NonMaxU16 {
    NonMaxU16(v)
}

/// `non_max` is injective and its view is the value it was built from.
pub proof fn lemma_non_max(v: u16)
    ensures
        non_max(v)@ == v,
        forall|n: NonMaxU16| #[trigger] non_max(n@) == n,
{
}

impl NonMaxU16 {
    #[verifier::type_invariant]
    pub(crate) open spec fn inv(self) -> bool {
        self.0 < u16::MAX
    }

    /// Builds the value `val`, which must not be `u16::MAX`.
    pub fn new(val: u16) -> (r: NonMaxU16)
        requires
            val < u16::MAX,
        ensures
            r@ == val,
    {
        NonMaxU16(val)
    }

    /// Builds the value `val`, or fails exactly when `val` is `u16::MAX`.
    pub fn try_new(val: u16) -> (r: Result<NonMaxU16, ()>)
        ensures
            r is Ok <==> val < u16::MAX,
            r matches Ok(n) ==> n@ == val,
    {
        if val < u16::MAX {
            Ok(NonMaxU16(val))
        } else {
            Err(())
        }
    }

    pub fn get(self) -> (r: u16)
        ensures
            r == self@,
            r < u16::MAX,
    {
        proof {
            use_type_invariant(&self);
        }
        self.0
    }

    /// Decreases the value by `other`, stopping at zero.
    pub fn dec_by(self, other: u16) -> (r: NonMaxU16)
        ensures
            r@ == sat_sub(self@, other),
    {
        proof {
            use_type_invariant(&self);
        }
        NonMaxU16(self.0.saturating_sub(other))
    }
}

/// The state of one grid cell.
#[derive(Clone, Copy, Debug, PartialEq, Eq, Structural)]
pub enum AntSimCell {
    Path { pheromone_food: NonMaxU16, pheromone_home: NonMaxU16 },
    Blocker,
    Home,
    Food { amount: u16 },
}

impl AntSimCell {
    /// Pheromone levels stay below the reserved maximum.
    pub open spec fn wf(self) -> bool {
        self matches AntSimCell::Path { pheromone_food, pheromone_home } ==> pheromone_food@
            < u16::MAX && pheromone_home@ < u16::MAX
    }
}

/// A path cell without pheromones.
pub open spec fn empty_path() -> AntSimCell {
    AntSimCell::Path { pheromone_food: non_max(0), pheromone_home: non_max(0) }
}

/// Whether `(x, y)` lies on a grid of `width` columns and `height` rows.
pub open spec fn in_grid(x: int, y: int, width: nat, height: nat) -> bool {
    0 <= x < width && 0 <= y < height
}

/// A dense two-dimensional board of cells, addressed through position handles.
pub trait AntSim: Sized {
    type Position;

    /// The internal consistency that every operation keeps.
    spec fn wf(&self) -> bool;

    spec fn view_width(&self) -> nat;

    spec fn view_height(&self) -> nat;

    /// The cell at an in-bounds coordinate.
    spec fn cell_at(&self, x: int, y: int) -> AntSimCell;

    /// Whether a handle names a cell of this grid.
    spec fn valid_pos(&self, p: Self::Position) -> bool;

    /// The handle of an in-bounds coordinate.
    spec fn pos_of(&self, x: int, y: int) -> Self::Position;

    /// The coordinate a handle stands for.
    spec fn coord_of(&self, p: Self::Position) -> AntPosition;

    /// In-bounds coordinates get valid handles, which lead back to them.
    proof fn lemma_pos_of(&self, x: int, y: int)
        requires
            self.wf(),
            in_grid(x, y, self.view_width(), self.view_height()),
        ensures
            self.valid_pos(self.pos_of(x, y)),
            self.coord_of(self.pos_of(x, y)) == (AntPosition { x: x as usize, y: y as usize }),
    ;

    /// Valid handles stand for in-bounds coordinates, whose handle they are.
    proof fn lemma_coord_of(&self, p: Self::Position)
        requires
            self.wf(),
            self.valid_pos(p),
        ensures
            in_grid(
                self.coord_of(p).x as int,
                self.coord_of(p).y as int,
                self.view_width(),
                self.view_height(),
            ),
            self.pos_of(self.coord_of(p).x as int, self.coord_of(p).y as int) == p,
    ;

    /// Whether the two grids have the same dimensions, so that positions carry over.
    fn check_compatible(&self, other: &Self) -> (r: bool)
        requires
            self.wf(),
            other.wf(),
        ensures
            r == (self.view_width() == other.view_width() && self.view_height()
                == other.view_height()),
    ;

    fn decode(&self, position: &Self::Position) -> (r: AntPosition)
        requires
            self.wf(),
            self.valid_pos(*position),
        ensures
            r == self.coord_of(*position),
    ;

    /// The handle of `position`, or `None` when it lies off the grid.
    fn encode(&self, position: AntPosition) -> (r: Option<Self::Position>)
        requires
            self.wf(),
        ensures
            in_grid(position.x as int, position.y as int, self.view_width(), self.view_height())
                ==> r == Some(self.pos_of(position.x as int, position.y as int)),
            !in_grid(position.x as int, position.y as int, self.view_width(), self.view_height())
                ==> r is None,
    ;

    /// The cell at `position`, or `None` when the handle is not valid here.
    fn cell(&self, position: &Self::Position) -> (r: Option<AntSimCell>)
        requires
            self.wf(),
        ensures
            self.valid_pos(*position) ==> r == Some(
                self.cell_at(self.coord_of(*position).x as int, self.coord_of(*position).y as int),
            ),
            !self.valid_pos(*position) ==> r is None,
    ;

    /// Writes `cell` at `position`; does nothing when the handle is not valid here.
    fn set_cell(&mut self, position: &Self::Position, cell: AntSimCell)
        requires
            old(self).wf(),
        ensures
            final(self).wf(),
            final(self).view_width() == old(self).view_width(),
            final(self).view_height() == old(self).view_height(),
            forall|x: int, y: int|
                in_grid(x, y, old(self).view_width(), old(self).view_height())
                    ==> #[trigger] final(self).cell_at(x, y) == if old(self).valid_pos(*position)
                    && old(self).coord_of(*position) == (AntPosition { x: x as usize, y: y as usize })
                {
                    cell
                } else {
                    old(self).cell_at(x, y)
                },
    ;

    /// Every cell with its handle, row by row.
    fn cells(&self) -> (r: Vec<(AntSimCell, Self::Position)>)
        requires
            self.wf(),
        ensures
            r@.len() == self.view_width() * self.view_height(),
            forall|i: int|
                0 <= i < r@.len() ==> (#[trigger] r@[i]).1 == self.pos_of(
                    i % self.view_width() as int,
                    i / self.view_width() as int,
                ) && r@[i].0 == self.cell_at(
                    i % self.view_width() as int,
                    i / self.view_width() as int,
                ),
    ;

    fn width(&self) -> (r: usize)
        requires
            self.wf(),
        ensures
            r == self.view_width(),
    ;

    fn height(&self) -> (r: usize)
        requires
            self.wf(),
        ensures
            r == self.view_height(),
    ;

    fn cell_count(&self) -> (r: usize)
        requires
            self.wf(),
        ensures
            r == self.view_width() * self.view_height(),
    ;
}

/// The handle of `(x, y)` on `sim`, or `None` when it lies off the grid.
pub open spec fn encode_at<A: AntSim>(sim: &A, x: int, y: int) -> Option<A::Position> {
    if in_grid(x, y, sim.view_width(), sim.view_height()) {
        Some(sim.pos_of(x, y))
    } else {
        None
    }
}

/// Encoding an in-bounds coordinate gives a handle that decodes back to it; a coordinate off
/// the grid has no handle.
pub proof fn lemma_encode_decode_round_trip<A: AntSim>(sim: &A, c: AntPosition)
    requires
        sim.wf(),
    ensures
        in_grid(c.x as int, c.y as int, sim.view_width(), sim.view_height()) ==> (encode_at(
            sim,
            c.x as int,
            c.y as int,
        ) matches Some(p) && sim.valid_pos(p) && sim.coord_of(p) == c),
        !in_grid(c.x as int, c.y as int, sim.view_width(), sim.view_height()) ==> encode_at(
            sim,
            c.x as int,
            c.y as int,
        ) is None,
{
    if in_grid(c.x as int, c.y as int, sim.view_width(), sim.view_height()) {
        sim.lemma_pos_of(c.x as int, c.y as int);
    }
}

} // verus!
