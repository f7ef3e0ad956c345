use vstd::prelude::*;
use crate::ant_sim_ant::{Ant, AntState, moved, point_ok};
use crate::ant_sim_frame::{
    AntPosition, AntSim, AntSimCell, NonMaxU16, empty_path, encode_at, in_grid, lemma_non_max, non_max,
};
use crate::ant_sim_frame_impl::{AntPositionImpl, AntSimVecImpl, decay_cell};

verus! {

/// The number of slots that rings `1..=range` take together (ring `r` has `8 * r`).
pub open spec fn expected_size_spec(range: int) -> int {
    4 * range * (range + 1)
}

/// Where ring `r` (counted from 1) starts in the shared buffer.
pub open spec fn ring_start(r: int) -> int {
    4 * r * (r - 1)
}

/// The coordinate of slot `i` of ring `r` around `(x, y)`, walking clockwise from the
/// upper-left corner: the row `y + r` left to right, the column `x + r` downwards, the row
/// `y - r` right to left, then the column `x - r` upwards.
pub open spec fn ring_coord(x: int, y: int, r: int, i: int) -> (int, int) {
    if i <= 2 * r {
        (x - r + i, y + r)
    } else if i < 4 * r {
        (x + r, y + 3 * r - i)
    } else if i <= 6 * r {
        (x + 5 * r - i, y - r)
    } else {
        (x - r, y + i - 7 * r)
    }
}

/// What slot `i` of ring `r` around `c` holds: the handle of that coordinate, or `None` off
/// the grid.
pub open spec fn ring_slot<A: AntSim>(sim: &A, c: AntPosition, r: int, i: int) -> Option<
    A::Position,
> {
    encode_at(sim, ring_coord(c.x as int, c.y as int, r, i).0, ring_coord(c.x as int, c.y as int, r, i).1)
}

/// Slot `i` of ring `r` in a shared buffer.
pub open spec fn ring_entry<P>(backing: Seq<Option<P>>, r: int, i: int) -> Option<P> {
    backing[ring_start(r) + i]
}

proof fn lemma_ring_start(r: int, range: int)
    requires
        1 <= r <= range,
    ensures
        ring_start(r + 1) == ring_start(r) + 8 * r,
        ring_start(r + 1) <= expected_size_spec(range),
        0 <= ring_start(r),
        8 * r <= expected_size_spec(range),
{
    assert(ring_start(r + 1) == ring_start(r) + 8 * r) by (nonlinear_arith);
    assert(ring_start(r + 1) <= expected_size_spec(range)) by (nonlinear_arith)
        requires
            1 <= r <= range,
    ;
    assert(0 <= ring_start(r)) by (nonlinear_arith)
        requires
            1 <= r,
    ;
    assert(8 * r <= expected_size_spec(range)) by (nonlinear_arith)
        requires
            1 <= r <= range,
    ;
}

proof fn lemma_ring_start_mono(a: int, b: int)
    requires
        1 <= a < b,
    ensures
        ring_start(a) + 8 * a <= ring_start(b),
{
    assert(ring_start(a) + 8 * a <= ring_start(b)) by (nonlinear_arith)
        requires
            1 <= a < b,
    ;
}

/// The king-move distance between two offsets' origin and `(dx, dy)`.
pub open spec fn chebyshev(dx: int, dy: int) -> int {
    let ax = if dx < 0 { -dx } else { dx };
    let ay = if dy < 0 { -dy } else { dy };
    if ax < ay { ay } else { ax }
}

/// The king-move distance from `(x, y)` to `(px, py)`.
pub open spec fn king_dist(x: int, y: int, px: int, py: int) -> int {
    chebyshev(px - x, py - y)
}

/// Ring `r` is exactly the set of cells at king-move distance `r`: each of its `8 * r` slots
/// lies at that distance, no two slots share a cell, and every cell at that distance has a
/// slot.
pub proof fn lemma_ring_shape(x: int, y: int, r: int)
    requires
        r >= 1,
    ensures
        forall|i: int| 0 <= i < 8 * r ==> king_dist(
            x,
            y,
            #[trigger] ring_coord(x, y, r, i).0,
            ring_coord(x, y, r, i).1,
        ) == r,
        forall|i: int, j: int|
            0 <= i < j < 8 * r ==> #[trigger] ring_coord(x, y, r, i) != #[trigger] ring_coord(x, y, r, j),
        forall|px: int, py: int|
            #[trigger] king_dist(x, y, px, py) == r ==> exists|i: int|
                0 <= i < 8 * r && #[trigger] ring_coord(x, y, r, i) == (px, py),
{
    assert forall|px: int, py: int| #[trigger] king_dist(x, y, px, py) == r implies exists|i: int|
        0 <= i < 8 * r && #[trigger] ring_coord(x, y, r, i) == (px, py) by {
        let dx = px - x;
        let dy = py - y;
        let i = if dy == r {
            dx + r
        } else if dx == r {
            3 * r - dy
        } else if dy == -r {
            5 * r - dx
        } else {
            7 * r + dy
        };
        assert(ring_coord(x, y, r, i) == (px, py));
    }
}

/// Around a centre at least `r` cells away from every edge, every slot of ring `r` lies on the
/// grid.
pub proof fn lemma_interior_ring<A: AntSim>(sim: &A, c: AntPosition, r: int)
    requires
        sim.wf(),
        r >= 1,
        r <= c.x,
        c.x + r < sim.view_width(),
        r <= c.y,
        c.y + r < sim.view_height(),
    ensures
        forall|i: int| 0 <= i < 8 * r ==> #[trigger] ring_slot(sim, c, r, i) is Some,
{
}

/// A slot of ring `r` holds a handle exactly when its cell lies on the grid, and then the
/// handle decodes to that cell.
pub proof fn lemma_ring_slot_on_grid<A: AntSim>(sim: &A, c: AntPosition, r: int, i: int)
    requires
        sim.wf(),
    ensures
        ring_slot(sim, c, r, i) is Some <==> in_grid(
            ring_coord(c.x as int, c.y as int, r, i).0,
            ring_coord(c.x as int, c.y as int, r, i).1,
            sim.view_width(),
            sim.view_height(),
        ),
        ring_slot(sim, c, r, i) matches Some(p) ==> sim.coord_of(p) == (AntPosition {
            x: ring_coord(c.x as int, c.y as int, r, i).0 as usize,
            y: ring_coord(c.x as int, c.y as int, r, i).1 as usize,
        }),
{
    let (x, y) = ring_coord(c.x as int, c.y as int, r, i);
    if in_grid(x, y, sim.view_width(), sim.view_height()) {
        sim.lemma_pos_of(x, y);
    }
}

/// Around any centre, the slots of ring `r` that hold a handle are exactly as many as the
/// cells of the grid at king-move distance `r`.
pub proof fn lemma_ring_count<A: AntSim>(sim: &A, c: AntPosition, r: int)
    requires
        sim.wf(),
        r >= 1,
    ensures
        Set::new(|i: int| 0 <= i < 8 * r && ring_slot(sim, c, r, i) is Some).finite(),
        Set::new(|i: int| 0 <= i < 8 * r && ring_slot(sim, c, r, i) is Some).len() == Set::new(
            |q: (int, int)|
                king_dist(c.x as int, c.y as int, q.0, q.1) == r && in_grid(q.0, q.1, sim.view_width(), sim.view_height()),
        ).len(),
{
    let x = c.x as int;
    let y = c.y as int;
    let on = Set::new(|i: int| 0 <= i < 8 * r && ring_slot(sim, c, r, i) is Some);
    let cells = Set::new(
        |q: (int, int)| king_dist(x, y, q.0, q.1) == r && in_grid(q.0, q.1, sim.view_width(), sim.view_height()),
    );
    let f = |i: int| ring_coord(x, y, r, i);
    lemma_ring_shape(x, y, r);
    vstd::set_lib::lemma_int_range(0, 8 * r);
    assert(on.subset_of(vstd::set_lib::set_int_range(0, 8 * r)));
    vstd::set_lib::lemma_len_subset(on, vstd::set_lib::set_int_range(0, 8 * r));
    assert(vstd::relations::injective_on(f, on)) by {
        assert forall|i: int, j: int| on.contains(i) && on.contains(j) && #[trigger] f(i) == #[trigger] f(j) implies i == j by {
            if i < j {
                assert(ring_coord(x, y, r, i) != ring_coord(x, y, r, j));
            } else if j < i {
                assert(ring_coord(x, y, r, j) != ring_coord(x, y, r, i));
            }
        }
    }
    assert forall|q: (int, int)| #[trigger] on.map(f).contains(q) <==> cells.contains(q) by {
        if on.map(f).contains(q) {
            let i = choose|i: int| on.contains(i) && f(i) == q;
            lemma_ring_slot_on_grid(sim, c, r, i);
            assert(king_dist(x, y, ring_coord(x, y, r, i).0, ring_coord(x, y, r, i).1) == r);
        }
        if cells.contains(q) {
            assert(king_dist(x, y, q.0, q.1) == r);
            let i = choose|i: int| 0 <= i < 8 * r && #[trigger] ring_coord(x, y, r, i) == (q.0, q.1);
            lemma_ring_slot_on_grid(sim, c, r, i);
            assert(on.contains(i));
            assert(f(i) == q);
        }
    }
    assert(on.map(f) =~= cells);
    vstd::set_lib::lemma_map_size(on, cells, f);
}

/// The rings of neighbours that an ant looks at: ring `r` (from 1 to `range`) has `8 * r`
/// slots, stored one ring after the other.
#[derive(Clone, Debug)]
pub struct AntVisualRangeBuffer<P> {
    backing: Vec<Option<P>>,
    range: usize,
}

impl<P: Copy> AntVisualRangeBuffer<P> {
    pub closed spec fn view_range(&self) -> nat {
        self.range as nat
    }

    /// All slots, ring after ring.
    pub closed spec fn view_backing(&self) -> Seq<Option<P>> {
        self.backing@
    }

    pub open spec fn wf(&self) -> bool {
        &&& self.view_backing().len() == expected_size_spec(self.view_range() as int)
        &&& expected_size_spec(self.view_range() as int) <= usize::MAX
    }

    /// Slot `i` of ring `r`.
    pub open spec fn slot(&self, r: int, i: int) -> Option<P> {
        ring_entry(self.view_backing(), r, i)
    }

    /// A buffer for rings `1..=range`, every slot empty.
    pub fn new(range: usize) -> (r: AntVisualRangeBuffer<P>)
        requires
            expected_size_spec(range as int) <= usize::MAX,
        ensures
            r.wf(),
            r.view_range() == range,
            forall|i: int| 0 <= i < r.view_backing().len() ==> #[trigger] r.view_backing()[i] is None,
    {
        let size = Self::expected_size(range);
        let mut backing: Vec<Option<P>> = Vec::new();
        let mut i: usize = 0;
        while i < size
            invariant
                i <= size,
                backing@.len() == i,
                forall|j: int| 0 <= j < i ==> #[trigger] backing@[j] is None,
            decreases size - i,
        {
            backing.push(None);
            i += 1;
        }
        AntVisualRangeBuffer { backing, range }
    }

    /// How many rings the buffer holds.
    pub fn range(&self) -> (r: usize)
        ensures
            r == self.view_range(),
    {
        self.range
    }

    /// A copy of each ring, from ring 1 outwards.
    pub fn buffers(&self) -> (r: Vec<Vec<Option<P>>>)
        requires
            self.wf(),
        ensures
            r@.len() == self.view_range(),
            forall|k: int|
                0 <= k < r@.len() ==> (#[trigger] r@[k])@.len() == 8 * (k + 1) && forall|i: int|
                    0 <= i < 8 * (k + 1) ==> #[trigger] r@[k]@[i] == self.slot(k + 1, i),
    {
        let mut out: Vec<Vec<Option<P>>> = Vec::new();
        let mut r: usize = 1;
        let mut base: usize = 0;
        while r <= self.range
            invariant
                self.wf(),
                1 <= r <= self.range + 1,
                base == ring_start(r as int),
                out@.len() == r - 1,
                forall|k: int|
                0 <= k < out@.len() ==> (#[trigger] out@[k])@.len() == 8 * (k + 1) && forall|
                    i: int,
                | 0 <= i < 8 * (k + 1) ==> #[trigger] out@[k]@[i] == self.slot(k + 1, i),
            decreases self.range + 1 - r,
        {
            proof {
                lemma_ring_start(r as int, self.range as int);
            }
            let len = 8 * r;
            let mut ring: Vec<Option<P>> = Vec::new();
            let mut i: usize = 0;
            while i < len
                invariant
                    self.wf(),
                    1 <= r <= self.range,
                    len == 8 * r,
                    base == ring_start(r as int),
                    base + len <= self.backing@.len(),
                    i <= len,
                    ring@.len() == i,
                    forall|j: int| 0 <= j < i ==> #[trigger] ring@[j] == self.slot(r as int, j),
                decreases len - i,
            {
                ring.push(self.backing[base + i]);
                i += 1;
            }
            out.push(ring);
            base = base + len;
            r += 1;
        }
        out
    }

    /// Slot `i` of ring `r`.
    pub fn get_slot(&self, r: usize, i: usize) -> (o: Option<P>)
        requires
            self.wf(),
            1 <= r <= self.view_range(),
            i < 8 * r,
        ensures
            o == self.slot(r as int, i as int),
    {
        proof {
            lemma_ring_start(r as int, self.range as int);
        }
        let start = 4 * r * (r - 1);
        self.backing[start + i]
    }

    /// The number of slots that rings `1..=range` take together.
    fn expected_size(range: usize) -> (r: usize)
        requires
            expected_size_spec(range as int) <= usize::MAX,
        ensures
            r == expected_size_spec(range as int),
    {
        assert(range + 1 <= expected_size_spec(range as int) || range == 0) by (nonlinear_arith);
        assert(range * (range + 1) <= expected_size_spec(range as int)) by (nonlinear_arith);
        assert(range * (range + 1) * 4 == expected_size_spec(range as int)) by (nonlinear_arith);
        range * (range + 1) * 4
    }
}

/// Fills ring `r`, which starts at `base` in the buffer, around `c`. The four sides are walked
/// over their parts that lie on the grid; `down_start_*` and `up_end_*` say how far each side
/// reaches from the centre before it leaves the grid.
fn fill_ring<A: AntSim>(
    sim: &A,
    position: &A::Position,
    c: AntPosition,
    r: usize,
    base: usize,
    down_start_x: usize,
    up_end_x: usize,
    down_start_y: usize,
    up_end_y: usize,
    buffers: &mut AntVisualRangeBuffer<A::Position>,
)
    where A::Position: Copy,
    requires
        sim.wf(),
        sim.valid_pos(*position),
        c == sim.coord_of(*position),
        old(buffers).wf(),
        1 <= r,
        base + 8 * r <= old(buffers).view_backing().len(),
        down_start_x == if c.x <= r { c.x } else { r },
        up_end_x == if sim.view_width() - 1 - c.x <= r { (sim.view_width() - 1 - c.x) as usize } else { r },
        down_start_y == if c.y <= r - 1 { c.y } else { (r - 1) as usize },
        up_end_y == if sim.view_height() - 1 - c.y <= r - 1 { (sim.view_height() - 1 - c.y) as usize } else { (r - 1) as usize },
    ensures
        final(buffers).wf(),
        final(buffers).view_range() == old(buffers).view_range(),
        forall|k: int| 0 <= k < base ==> #[trigger] final(buffers).view_backing()[k] == old(buffers).view_backing()[k],
        forall|j: int| 0 <= j < 8 * r ==> #[trigger] final(buffers).view_backing()[base + j] == ring_slot(sim, c, r as int, j),
{
    proof {
        sim.lemma_coord_of(*position);
    }
    let x = c.x;
    let y = c.y;
    let w = sim.width();
    let h = sim.height();
    let mut i: usize = 0;
    while i < 8 * r
        invariant
            buffers.wf(),
            buffers.view_range() == old(buffers).view_range(),
            base + 8 * r <= buffers.view_backing().len(),
            i <= 8 * r,
            forall|k: int| 0 <= k < base ==> #[trigger] buffers.view_backing()[k] == old(buffers).view_backing()[k],
            forall|j: int| 0 <= j < 8 * r ==> #[trigger] buffers.view_backing()[base + j] == if j < i {
                None
            } else {
                old(buffers).view_backing()[base + j]
            },
        decreases 8 * r - i,
    {
        buffers.backing.set(base + i, None);
        i += 1;
    }
    assert forall|j: int| 0 <= j < 8 * r implies #[trigger] buffers.view_backing()[base + j] is None by {}
    // the row above
    if r <= h - 1 - y {
        assert forall|j: int| 0 <= j < r - down_start_x implies ring_slot(sim, c, r as int, j) is None by {}
        let mut i: usize = r - down_start_x;
        while i <= r + up_end_x
            invariant
                sim.wf(),
                buffers.wf(),
                buffers.view_range() == old(buffers).view_range(),
                base + 8 * r <= buffers.view_backing().len(),
                1 <= r,
                c == sim.coord_of(*position),
                x == c.x,
                y == c.y,
                w == sim.view_width(),
                h == sim.view_height(),
                x < w,
                y < h,
                down_start_x == if x <= r { x } else { r },
                up_end_x == if w - 1 - x <= r { (w - 1 - x) as usize } else { r },
                down_start_y == if y <= r - 1 { y } else { (r - 1) as usize },
                up_end_y == if h - 1 - y <= r - 1 { (h - 1 - y) as usize } else { (r - 1) as usize },
                r <= h - 1 - y,
                r - down_start_x <= i <= r + up_end_x + 1,
                forall|k: int| 0 <= k < base ==> #[trigger] buffers.view_backing()[k] == old(buffers).view_backing()[k],
                forall|j: int|
                    0 <= j < 8 * r ==> #[trigger] buffers.view_backing()[base + j] == if j < i {
                        ring_slot(sim, c, r as int, j)
                    } else {
                        None
                    },
            decreases r + up_end_x + 1 - i,
        {
            let p = sim.encode(AntPosition { x: x - down_start_x + (i - (r - down_start_x)), y: y + r });
            buffers.backing.set(base + i, p);
            i += 1;
        }
    }
    assert forall|j: int| 0 <= j < 8 * r implies #[trigger] buffers.view_backing()[base + j] == if j <= 2 * r {
        ring_slot(sim, c, r as int, j)
    } else {
        None
    } by {}
    // the column to the right
    if r <= w - 1 - x {
        assert forall|j: int| 2 * r + 1 <= j < 3 * r - up_end_y implies ring_slot(sim, c, r as int, j) is None by {}
        let mut i: usize = 3 * r - up_end_y;
        while i <= 3 * r + down_start_y
            invariant
                sim.wf(),
                buffers.wf(),
                buffers.view_range() == old(buffers).view_range(),
                base + 8 * r <= buffers.view_backing().len(),
                1 <= r,
                c == sim.coord_of(*position),
                x == c.x,
                y == c.y,
                w == sim.view_width(),
                h == sim.view_height(),
                x < w,
                y < h,
                down_start_x == if x <= r { x } else { r },
                up_end_x == if w - 1 - x <= r { (w - 1 - x) as usize } else { r },
                down_start_y == if y <= r - 1 { y } else { (r - 1) as usize },
                up_end_y == if h - 1 - y <= r - 1 { (h - 1 - y) as usize } else { (r - 1) as usize },
                r <= w - 1 - x,
                3 * r - up_end_y <= i <= 3 * r + down_start_y + 1,
                forall|k: int| 0 <= k < base ==> #[trigger] buffers.view_backing()[k] == old(buffers).view_backing()[k],
                forall|j: int|
                    0 <= j < 8 * r ==> #[trigger] buffers.view_backing()[base + j] == if j < i {
                        ring_slot(sim, c, r as int, j)
                    } else {
                        None
                    },
            decreases 3 * r + down_start_y + 1 - i,
        {
            let p = sim.encode(AntPosition { x: x + r, y: y + up_end_y - (i - (3 * r - up_end_y)) });
            buffers.backing.set(base + i, p);
            i += 1;
        }
    }
    assert forall|j: int| 0 <= j < 8 * r implies #[trigger] buffers.view_backing()[base + j] == if j <= 4 * r - 1 {
        ring_slot(sim, c, r as int, j)
    } else {
        None
    } by {}
    // the row below
    if r <= y {
        assert forall|j: int| 4 * r <= j < 5 * r - up_end_x implies ring_slot(sim, c, r as int, j) is None by {}
        let mut i: usize = 5 * r - up_end_x;
        while i <= 5 * r + down_start_x
            invariant
                sim.wf(),
                buffers.wf(),
                buffers.view_range() == old(buffers).view_range(),
                base + 8 * r <= buffers.view_backing().len(),
                1 <= r,
                c == sim.coord_of(*position),
                x == c.x,
                y == c.y,
                w == sim.view_width(),
                h == sim.view_height(),
                x < w,
                y < h,
                down_start_x == if x <= r { x } else { r },
                up_end_x == if w - 1 - x <= r { (w - 1 - x) as usize } else { r },
                down_start_y == if y <= r - 1 { y } else { (r - 1) as usize },
                up_end_y == if h - 1 - y <= r - 1 { (h - 1 - y) as usize } else { (r - 1) as usize },
                r <= y,
                5 * r - up_end_x <= i <= 5 * r + down_start_x + 1,
                forall|k: int| 0 <= k < base ==> #[trigger] buffers.view_backing()[k] == old(buffers).view_backing()[k],
                forall|j: int|
                    0 <= j < 8 * r ==> #[trigger] buffers.view_backing()[base + j] == if j < i {
                        ring_slot(sim, c, r as int, j)
                    } else {
                        None
                    },
            decreases 5 * r + down_start_x + 1 - i,
        {
            let p = sim.encode(AntPosition { x: x + up_end_x - (i - (5 * r - up_end_x)), y: y - r });
            buffers.backing.set(base + i, p);
            i += 1;
        }
    }
    assert forall|j: int| 0 <= j < 8 * r implies #[trigger] buffers.view_backing()[base + j] == if j <= 6 * r {
        ring_slot(sim, c, r as int, j)
    } else {
        None
    } by {}
    // the column to the left
    if r <= x {
        assert forall|j: int| 6 * r + 1 <= j < 7 * r - down_start_y implies ring_slot(sim, c, r as int, j) is None by {}
        let mut i: usize = 7 * r - down_start_y;
        while i <= 7 * r + up_end_y
            invariant
                sim.wf(),
                buffers.wf(),
                buffers.view_range() == old(buffers).view_range(),
                base + 8 * r <= buffers.view_backing().len(),
                1 <= r,
                c == sim.coord_of(*position),
                x == c.x,
                y == c.y,
                w == sim.view_width(),
                h == sim.view_height(),
                x < w,
                y < h,
                down_start_x == if x <= r { x } else { r },
                up_end_x == if w - 1 - x <= r { (w - 1 - x) as usize } else { r },
                down_start_y == if y <= r - 1 { y } else { (r - 1) as usize },
                up_end_y == if h - 1 - y <= r - 1 { (h - 1 - y) as usize } else { (r - 1) as usize },
                r <= x,
                7 * r - down_start_y <= i <= 7 * r + up_end_y + 1,
                forall|k: int| 0 <= k < base ==> #[trigger] buffers.view_backing()[k] == old(buffers).view_backing()[k],
                forall|j: int|
                    0 <= j < 8 * r ==> #[trigger] buffers.view_backing()[base + j] == if j < i {
                        ring_slot(sim, c, r as int, j)
                    } else {
                        None
                    },
            decreases 7 * r + up_end_y + 1 - i,
        {
            let p = sim.encode(AntPosition { x: x - r, y: y - down_start_y + (i - (7 * r - down_start_y)) });
            buffers.backing.set(base + i, p);
            i += 1;
        }
    }
    assert forall|j: int| 0 <= j < 8 * r implies #[trigger] buffers.view_backing()[base + j] == if j <= 8 * r - 1 {
        ring_slot(sim, c, r as int, j)
    } else {
        None
    } by {}
}

/// Fills `buffers` with the rings around `position`: slot `i` of ring `r` gets the handle of
/// `ring_coord(x, y, r, i)`, or `None` where that coordinate lies off the grid.
///
/// Each side of a ring is clipped once against the grid's edges, so the handles are only
/// computed for slots that lie on the grid.
pub fn neighbors<A: AntSim>(sim: &A, position: &A::Position, buffers: &mut AntVisualRangeBuffer<A::Position>)
    where A::Position: Copy,
    requires
        sim.wf(),
        sim.valid_pos(*position),
        old(buffers).wf(),
    ensures
        final(buffers).wf(),
        final(buffers).view_range() == old(buffers).view_range(),
        forall|r: int, i: int|
            1 <= r <= final(buffers).view_range() && 0 <= i < 8 * r ==> #[trigger] final(buffers).slot(r, i)
                == ring_slot(sim, sim.coord_of(*position), r, i),
{
    let range = buffers.range;
    let c = sim.decode(position);
    proof {
        sim.lemma_coord_of(*position);
    }
    let x = c.x;
    let y = c.y;
    let w = sim.width();
    let h = sim.height();
    let downrange_x = if x <= range { x } else { range };
    let downrange_y = if y <= range { y } else { range };
    let uprange_y = if h - 1 - y <= range { h - 1 - y } else { range };
    let uprange_x = if w - 1 - x <= range { w - 1 - x } else { range };
    let mut r: usize = 1;
    let mut base: usize = 0;
    while r <= range
        invariant
            sim.wf(),
            sim.valid_pos(*position),
            c == sim.coord_of(*position),
            x == c.x,
            y == c.y,
            w == sim.view_width(),
            h == sim.view_height(),
            x < w,
            y < h,
            range == buffers.view_range(),
            buffers.wf(),
            downrange_x == if x <= range { x } else { range },
            downrange_y == if y <= range { y } else { range },
            uprange_y == if h - 1 - y <= range { (h - 1 - y) as usize } else { range },
            uprange_x == if w - 1 - x <= range { (w - 1 - x) as usize } else { range },
            1 <= r <= range + 1,
            base == ring_start(r as int),
            forall|rr: int, i: int|
                1 <= rr < r && 0 <= i < 8 * rr ==> #[trigger] buffers.slot(rr, i) == ring_slot(sim, c, rr, i),
        decreases range + 1 - r,
    {
        proof {
            lemma_ring_start(r as int, range as int);
        }
        let ghost prev = *buffers;
        let down_start_x = if downrange_x <= r { downrange_x } else { r };
        let up_end_x = if uprange_x <= r { uprange_x } else { r };
        let down_start_y = if downrange_y <= r - 1 { downrange_y } else { r - 1 };
        let up_end_y = if uprange_y <= r - 1 { uprange_y } else { r - 1 };
        fill_ring(sim, position, c, r, base, down_start_x, up_end_x, down_start_y, up_end_y, buffers);
        proof {
            assert forall|rr: int, j: int|
                1 <= rr <= r && 0 <= j < 8 * rr implies #[trigger] buffers.slot(rr, j) == ring_slot(sim, c, rr, j) by {
                if rr < r {
                    lemma_ring_start_mono(rr, r as int);
                    lemma_ring_start(rr, range as int);
                    assert(prev.slot(rr, j) == ring_slot(sim, c, rr, j));
                } else {
                    assert(buffers.view_backing()[base + j] == ring_slot(sim, c, r as int, j));
                }
            }
        }
        base = base + 8 * r;
        r += 1;
    }
}

/// The settings of one simulation run; they stay the same from tick to tick.
#[derive(Clone, Debug)]
pub struct AntSimConfig {
    /// One point per direction of ring 1, laid out clockwise on a circle: a move is weighted
    /// by one plus the distance between its direction's point and the point of the direction
    /// the ant came from.
    pub distance_points: [(i64, i64); 8],
    /// How much food an ant takes from a food cell.
    pub food_haul_amount: u16,
    /// How much each pheromone level drops per tick.
    pub pheromone_decay_amount: u16,
    /// How far the seed advances per tick.
    pub seed_step: u64,
    /// Scratch space for the rings an ant looks at; its range is the visual range.
    pub visual_range: AntVisualRangeBuffer<AntPositionImpl>,
}

impl AntSimConfig {
    pub open spec fn wf(&self) -> bool {
        &&& forall|i: int| 0 <= i < 8 ==> point_ok(#[trigger] self.distance_points@[i])
        &&& self.visual_range.wf()
        &&& self.visual_range.view_range() >= 1
    }
}

/// One simulation run: the board, the ants, and the seed of the current tick.
#[derive(Clone, Debug)]
pub struct AntSimulator {
    pub sim: AntSimVecImpl,
    pub ants: Vec<Ant>,
    pub seed: u64,
    pub config: AntSimConfig,
}

/// A pheromone level just below the reserved maximum, laid down where an ant walked.
pub const TRAIL_LEVEL: u16 = 65534;

/// Food taken by an ant that may carry `haul`: what it carries away, and what the cell
/// becomes (an empty path once the food is used up).
pub open spec fn take_food_spec(amount: u16, haul: u16) -> (u16, AntSimCell) {
    if amount > haul {
        (haul, AntSimCell::Food { amount: (amount - haul) as u16 })
    } else {
        (amount, empty_path())
    }
}

/// Ant `i` after the tick, and the cell it leaves where it stands, if it changes one. A
/// foraging ant on food picks some up and turns to hauling; a hauling ant at home drops its
/// load and turns to foraging; both stand still. Every other ant moves.
pub open spec fn ant_update(s: AntSimulator, i: int, range: int) -> (Ant, Option<AntSimCell>) {
    let ant = s.ants@[i];
    let cell = s.sim.view_cells()[ant.position.0 as int];
    let still = Ant { last_position: ant.position, ..ant };
    let seed = vstd::wrapping::u64_specs::wrapping_add(s.seed, i as u64);
    let move_on = moved(ant, s.sim, seed, s.config.distance_points@, range);
    match cell {
        AntSimCell::Food { amount } => if ant.state is Foraging {
            let (taken, left) = take_food_spec(amount, s.config.food_haul_amount);
            (Ant { state: AntState::Hauling { amount: taken }, ..still }, Some(left))
        } else {
            (move_on, None)
        },
        AntSimCell::Home => if ant.state is Hauling {
            (Ant { state: AntState::Foraging, ..still }, None)
        } else {
            (move_on, None)
        },
        _ => (move_on, None),
    }
}

/// Every cell with its pheromones decayed by `amount`.
pub open spec fn decayed(cells: Seq<AntSimCell>, amount: u16) -> Seq<AntSimCell> {
    cells.map_values(|c: AntSimCell| decay_cell(c, amount))
}

/// `cells` after the cell changes of the first `k` ants, in order.
pub open spec fn apply_ants(s: AntSimulator, cells: Seq<AntSimCell>, k: int, range: int) -> Seq<AntSimCell>
    decreases k,
{
    if k <= 0 {
        cells
    } else {
        let prev = apply_ants(s, cells, k - 1, range);
        match ant_update(s, k - 1, range).1 {
            Some(c) => prev.update(s.ants@[k - 1].position.0 as int, c),
            None => prev,
        }
    }
}

/// A path cell after an ant in `state` walked on it: foraging ants mark the way home,
/// hauling ants the way to food.
pub open spec fn trail_cell(cell: AntSimCell, state: AntState) -> AntSimCell {
    match cell {
        AntSimCell::Path { pheromone_food, pheromone_home } => match state {
            AntState::Foraging => AntSimCell::Path { pheromone_food, pheromone_home: non_max(TRAIL_LEVEL) },
            AntState::Hauling { .. } => AntSimCell::Path { pheromone_food: non_max(TRAIL_LEVEL), pheromone_home },
        },
        other => other,
    }
}

/// `cells` after the first `k` of `ants` marked the cells they stand on.
pub open spec fn apply_trail(ants: Seq<Ant>, cells: Seq<AntSimCell>, k: int) -> Seq<AntSimCell>
    decreases k,
{
    if k <= 0 {
        cells
    } else {
        let prev = apply_trail(ants, cells, k - 1);
        let p = ants[k - 1].position.0 as int;
        prev.update(p, trail_cell(prev[p], ants[k - 1].state))
    }
}

/// The cells after one tick of `s`, where the ants look `range` rings far.
pub open spec fn next_cells(s: AntSimulator, range: int) -> Seq<AntSimCell> {
    let n = s.ants@.len() as int;
    apply_trail(
        s.ants@,
        apply_ants(s, decayed(s.sim.view_cells(), s.config.pheromone_decay_amount), n, range),
        n,
    )
}

/// The ants after one tick of `s`.
pub open spec fn next_ants(s: AntSimulator, range: int) -> Seq<Ant> {
    Seq::new(s.ants@.len(), |i: int| ant_update(s, i, range).0)
}

/// Whether `after` is the destination `before` after one tick of `s`: its board has the
/// dimensions of `s` and the cells `next_cells` gives, its ants are `next_ants`, its seed has
/// advanced by the seed step of `s`, and it keeps the settings and visual range of `before`.
pub open spec fn ticked(s: AntSimulator, before: AntSimulator, after: AntSimulator) -> bool {
    let range = before.config.visual_range.view_range() as int;
    &&& after.wf()
    &&& after.sim.view_width() == s.sim.view_width()
    &&& after.sim.view_height() == s.sim.view_height()
    &&& after.sim.view_cells() == next_cells(s, range)
    &&& after.ants@ == next_ants(s, range)
    &&& after.seed == vstd::wrapping::u64_specs::wrapping_add(s.seed, s.config.seed_step)
    &&& after.config.distance_points == before.config.distance_points
    &&& after.config.food_haul_amount == before.config.food_haul_amount
    &&& after.config.pheromone_decay_amount == before.config.pheromone_decay_amount
    &&& after.config.seed_step == before.config.seed_step
    &&& after.config.visual_range.view_range() == before.config.visual_range.view_range()
}

/// Whether two simulators have the same settings and visual range.
pub open spec fn same_config(a: AntSimulator, b: AntSimulator) -> bool {
    &&& a.config.distance_points == b.config.distance_points
    &&& a.config.food_haul_amount == b.config.food_haul_amount
    &&& a.config.pheromone_decay_amount == b.config.pheromone_decay_amount
    &&& a.config.seed_step == b.config.seed_step
    &&& a.config.visual_range.view_range() == b.config.visual_range.view_range()
}

/// Whether two simulators agree on everything a tick reads: board dimensions and cells, ants,
/// seed and settings (the scratch rings aside).
pub open spec fn same_state(a: AntSimulator, b: AntSimulator) -> bool {
    &&& a.sim.view_width() == b.sim.view_width()
    &&& a.sim.view_height() == b.sim.view_height()
    &&& a.sim.view_cells() == b.sim.view_cells()
    &&& a.ants@ == b.ants@
    &&& a.seed == b.seed
    &&& a.config.distance_points == b.config.distance_points
    &&& a.config.food_haul_amount == b.config.food_haul_amount
    &&& a.config.pheromone_decay_amount == b.config.pheromone_decay_amount
    &&& a.config.seed_step == b.config.seed_step
}

proof fn lemma_apply_ants_agree(a: AntSimulator, b: AntSimulator, cells: Seq<AntSimCell>, k: int, range: int)
    requires
        a.wf(),
        b.wf(),
        same_state(a, b),
        k <= a.ants@.len(),
    ensures
        apply_ants(a, cells, k, range) == apply_ants(b, cells, k, range),
        forall|i: int| 0 <= i < k ==> #[trigger] ant_update(a, i, range) == ant_update(b, i, range),
    decreases k,
{
    if k > 0 {
        lemma_apply_ants_agree(a, b, cells, k - 1, range);
        let ant = a.ants@[k - 1];
        let seed = vstd::wrapping::u64_specs::wrapping_add(a.seed, (k - 1) as u64);
        crate::ant_sim_ant::lemma_moved_agree(ant, a.sim, b.sim, seed, a.config.distance_points@, range);
        assert(ant_update(a, k - 1, range) == ant_update(b, k - 1, range));
    }
}

/// A tick is deterministic: two simulators that agree on board, ants, seed and settings
/// (however their scratch rings differ) agree on them again after a tick, so runs from equal
/// states stay equal tick after tick.
pub proof fn lemma_update_deterministic(a: AntSimulator, b: AntSimulator, range: int)
    requires
        a.wf(),
        b.wf(),
        same_state(a, b),
    ensures
        next_cells(a, range) == next_cells(b, range),
        next_ants(a, range) == next_ants(b, range),
        vstd::wrapping::u64_specs::wrapping_add(a.seed, a.config.seed_step)
            == vstd::wrapping::u64_specs::wrapping_add(b.seed, b.config.seed_step),
{
    let n = a.ants@.len() as int;
    let d = decayed(a.sim.view_cells(), a.config.pheromone_decay_amount);
    lemma_apply_ants_agree(a, b, d, n, range);
    assert(next_ants(a, range) =~= next_ants(b, range));
}

/// Runs are deterministic over any number of ticks: two runs `a` and `b` that start from
/// states agreeing on board, ants, seed and settings, and whose tick `t` writes into
/// destinations `da[t]` and `db[t]` with the same settings and visual range, agree after
/// every tick.
pub proof fn lemma_runs_deterministic(a: Seq<AntSimulator>, b: Seq<AntSimulator>, da: Seq<AntSimulator>, db: Seq<AntSimulator>, n: int)
    requires
        0 <= n,
        a.len() == n + 1,
        b.len() == n + 1,
        da.len() == n,
        db.len() == n,
        a[0].wf(),
        b[0].wf(),
        same_state(a[0], b[0]),
        forall|t: int| 0 <= t < n ==> #[trigger] ticked(a[t], da[t], a[t + 1]),
        forall|t: int| 0 <= t < n ==> #[trigger] ticked(b[t], db[t], b[t + 1]),
        forall|t: int| 0 <= t < n ==> #[trigger] same_config(da[t], db[t]),
    ensures
        forall|t: int| 0 <= t <= n ==> #[trigger] same_state(a[t], b[t]),
    decreases n,
{
    if n > 0 {
        lemma_runs_deterministic(a.drop_last(), b.drop_last(), da.drop_last(), db.drop_last(), n - 1);
        let t = n - 1;
        assert(same_state(a.drop_last()[t], b.drop_last()[t]));
        assert(ticked(a[t], da[t], a[t + 1]));
        assert(ticked(b[t], db[t], b[t + 1]));
        assert(same_config(da[t], db[t]));
        if t > 0 {
            assert(ticked(a[t - 1], da[t - 1], a[t - 1 + 1]));
            assert(ticked(b[t - 1], db[t - 1], b[t - 1 + 1]));
        }
        lemma_update_deterministic(a[t], b[t], da[t].config.visual_range.view_range() as int);
        assert forall|u: int| 0 <= u <= n implies #[trigger] same_state(a[u], b[u]) by {
            if u < n {
                assert(same_state(a.drop_last()[u], b.drop_last()[u]));
            }
        }
    }
}

/// Every ant after a tick is well formed and stands on the board.
proof fn lemma_next_ants_wf(s: AntSimulator, range: int)
    requires
        s.wf(),
    ensures
        forall|i: int| 0 <= i < s.ants@.len() ==> (#[trigger] next_ants(s, range)[i]).wf()
            && s.sim.valid_pos(next_ants(s, range)[i].position) && s.sim.valid_pos(next_ants(s, range)[i].last_position),
{
    assert forall|i: int| 0 <= i < s.ants@.len() implies (#[trigger] next_ants(s, range)[i]).wf()
            && s.sim.valid_pos(next_ants(s, range)[i].position) && s.sim.valid_pos(next_ants(s, range)[i].last_position) by {
        let ant = s.ants@[i];
        assert(ant.wf() && s.sim.valid_pos(ant.position));
        let seed = vstd::wrapping::u64_specs::wrapping_add(s.seed, i as u64);
        crate::ant_sim_ant::lemma_moved(ant, s.sim, seed, s.config.distance_points@, range);
    }
}

impl AntSimulator {
    /// The board, the configuration and every ant are well formed, and each ant stands on the
    /// board and came from a cell of it.
    pub open spec fn wf(&self) -> bool {
        &&& self.sim.wf()
        &&& self.config.wf()
        &&& forall|i: int| 0 <= i < self.ants@.len() ==> (#[trigger] self.ants@[i]).wf()
            && self.sim.valid_pos(self.ants@[i].position) && self.sim.valid_pos(self.ants@[i].last_position)
    }

    /// Runs one tick, reading only `self` and writing the result into `update_into`, whose
    /// board must have the same dimensions. Callers swap the two afterwards.
    pub fn update(&self, update_into: &mut AntSimulator)
        requires
            self.wf(),
            old(update_into).sim.wf(),
            old(update_into).config.wf(),
            self.sim.view_width() == old(update_into).sim.view_width(),
            self.sim.view_height() == old(update_into).sim.view_height(),
        ensures
            ticked(*self, *old(update_into), *final(update_into)),
    {
        let mut ants: Vec<Ant> = Vec::new();
        let mut i: usize = 0;
        while i < self.ants.len()
            invariant
                i <= self.ants@.len(),
                ants@ == self.ants@.subrange(0, i as int),
            decreases self.ants@.len() - i,
        {
            ants.push(self.ants[i]);
            i += 1;
        }
        assert(ants@ =~= self.ants@);
        update_into.ants = ants;
        Self::decay_pheromones(&self.sim, &mut update_into.sim, self.config.pheromone_decay_amount);
        self.update_ants(&mut update_into.ants, &mut update_into.sim, &mut update_into.config.visual_range);
        Self::update_ant_trail(&self.ants, &mut update_into.sim);
        update_into.seed = self.seed.wrapping_add(self.config.seed_step);
        proof {
            lemma_next_ants_wf(*self, old(update_into).config.visual_range.view_range() as int);
        }
    }

    /// Runs one tick into `update_into` when the two boards have the same dimensions and
    /// returns `true`; with boards of other dimensions it writes nothing and returns `false`.
    pub fn checked_update(&self, update_into: &mut AntSimulator) -> (r: bool)
        requires
            self.wf(),
            old(update_into).sim.wf(),
            old(update_into).config.wf(),
        ensures
            r == (self.sim.view_width() == old(update_into).sim.view_width() && self.sim.view_height()
                == old(update_into).sim.view_height()),
            !r ==> *final(update_into) == *old(update_into),
            r ==> ticked(*self, *old(update_into), *final(update_into)),
    {
        if self.sim.check_compatible(&update_into.sim) {
            self.update(update_into);
            true
        } else {
            false
        }
    }

    /// Writes into `on_sim` every cell of `from` with its pheromones decayed by `decay_amount`.
    fn decay_pheromones(from: &AntSimVecImpl, on_sim: &mut AntSimVecImpl, decay_amount: u16)
        requires
            from.wf(),
            old(on_sim).wf(),
            from.view_width() == old(on_sim).view_width(),
            from.view_height() == old(on_sim).view_height(),
        ensures
            final(on_sim).wf(),
            final(on_sim).view_width() == from.view_width(),
            final(on_sim).view_height() == from.view_height(),
            final(on_sim).view_cells() == decayed(from.view_cells(), decay_amount),
    {
        let cells = from.cells();
        proof {
            from.lemma_view_cells();
            on_sim.lemma_view_cells();
        }
        let ghost w = from.view_width() as int;
        let ghost h = from.view_height() as int;
        let mut i: usize = 0;
        while i < cells.len()
            invariant
                from.wf(),
                on_sim.wf(),
                w == from.view_width(),
                h == from.view_height(),
                on_sim.view_width() == w,
                on_sim.view_height() == h,
                cells@.len() == w * h,
                on_sim.view_cells().len() == w * h,
                from.view_cells().len() == w * h,
                forall|k: int|
                0 <= k < cells@.len() ==> (#[trigger] cells@[k]).1 == from.pos_of(k % w, k / w)
                    && cells@[k].0 == from.cell_at(k % w, k / w),
                forall|k: int| 0 <= k < from.view_cells().len() ==> #[trigger] from.view_cells()[k]
                == from.cell_at(k % w, k / w),
                i <= cells@.len(),
                forall|k: int| 0 <= k < i ==> #[trigger] on_sim.view_cells()[k] == decay_cell(from.view_cells()[k], decay_amount),
            decreases cells@.len() - i,
        {
            let (cell, pos) = cells[i];
            proof {
                crate::ant_sim_frame_impl::lemma_index(i as int, w, h);
                crate::ant_sim_frame_impl::lemma_row_major(i as int % w, i as int / w, w, h);
            }
            let new_cell = match cell {
                AntSimCell::Path { pheromone_food, pheromone_home } => {
                    let f = pheromone_food.dec_by(decay_amount);
                    let hm = pheromone_home.dec_by(decay_amount);
                    proof {
                        lemma_non_max(f@);
                    }
                    AntSimCell::Path { pheromone_food: f, pheromone_home: hm }
                },
                other => other,
            };
            assert(new_cell == decay_cell(from.view_cells()[i as int], decay_amount));
            let ghost before = *on_sim;
            on_sim.set_cell(&pos, new_cell);
            proof {
                AntSimVecImpl::lemma_cells_after_set(before, *on_sim, pos, new_cell);
            }
            i += 1;
        }
        assert(on_sim.view_cells() =~= decayed(from.view_cells(), decay_amount));
    }

    /// Applies the tick's rule to each ant in `ants` (a copy of `self.ants`), reading the
    /// board of `self` and writing food pick-ups into `update_into`.
    fn update_ants(
        &self,
        ants: &mut Vec<Ant>,
        update_into: &mut AntSimVecImpl,
        visual_buffer: &mut AntVisualRangeBuffer<AntPositionImpl>,
    )
        requires
            self.wf(),
            old(ants)@ == self.ants@,
            old(update_into).wf(),
            old(update_into).view_width() == self.sim.view_width(),
            old(update_into).view_height() == self.sim.view_height(),
            old(visual_buffer).wf(),
            old(visual_buffer).view_range() >= 1,
        ensures
            final(ants)@ == next_ants(*self, old(visual_buffer).view_range() as int),
            final(update_into).wf(),
            final(update_into).view_width() == self.sim.view_width(),
            final(update_into).view_height() == self.sim.view_height(),
            final(update_into).view_cells() == apply_ants(
                *self,
                old(update_into).view_cells(),
                self.ants@.len() as int,
                old(visual_buffer).view_range() as int,
            ),
            final(visual_buffer).wf(),
            final(visual_buffer).view_range() == old(visual_buffer).view_range(),
    {
        let ghost range = visual_buffer.view_range() as int;
        let ghost start = update_into.view_cells();
        let n = ants.len();
        let mut i: usize = 0;
        while i < n
            invariant
                self.wf(),
                n == self.ants@.len(),
                ants@.len() == n,
                i <= n,
                forall|k: int| 0 <= k < i ==> #[trigger] ants@[k] == ant_update(*self, k, range).0,
                forall|k: int| i <= k < n ==> #[trigger] ants@[k] == self.ants@[k],
                update_into.wf(),
                update_into.view_width() == self.sim.view_width(),
                update_into.view_height() == self.sim.view_height(),
                update_into.view_cells() == apply_ants(*self, start, i as int, range),
                visual_buffer.wf(),
                visual_buffer.view_range() == range,
                range >= 1,
            decreases n - i,
        {
            let mut ant = ants[i];
            assert(ant == self.ants@[i as int]);
            assert(self.ants@[i as int].wf() && self.sim.valid_pos(self.ants@[i as int].position));
            proof {
                self.sim.lemma_coord_of(ant.position);
                self.sim.lemma_view_cells();
                let c = self.sim.coord_of(ant.position);
                crate::ant_sim_frame_impl::lemma_row_major(c.x as int, c.y as int, self.sim.view_width() as int, self.sim.view_height() as int);
            }
            let cell = self.sim.cell(ant.position());
            let ghost before = *update_into;
            let mut write: Option<AntSimCell> = None;
            match cell {
                Some(AntSimCell::Food { amount }) if matches!(ant.state, AntState::Foraging) => {
                    let haul_amount = self.config.food_haul_amount;
                    let (taken, new_cell) = take_food(amount, haul_amount);
                    *ant.state_mut() = AntState::Hauling { amount: taken };
                    ant.stand_still();
                    update_into.set_cell(ant.position(), new_cell);
                    write = Some(new_cell);
                },
                Some(AntSimCell::Home) if matches!(ant.state, AntState::Hauling { .. }) => {
                    ant.stand_still();
                    *ant.state_mut() = AntState::Foraging;
                },
                _ => {
                    let seed = self.seed.wrapping_add(i as u64);
                    ant.move_to_next2(seed, &self.config.distance_points, &self.sim, visual_buffer);
                },
            }
            proof {
                if let Some(c) = write {
                    AntSimVecImpl::lemma_cells_after_set(before, *update_into, ant.position, c);
                }
            }
            ants.set(i, ant);
            i += 1;
        }
    }

    /// Marks the cell under each of `old_ants` in `update_into` with the trail of its state.
    fn update_ant_trail(old_ants: &Vec<Ant>, update_into: &mut AntSimVecImpl)
        requires
            old(update_into).wf(),
            forall|i: int| 0 <= i < old_ants@.len() ==> old(update_into).valid_pos(#[trigger] old_ants@[i].position),
        ensures
            final(update_into).wf(),
            final(update_into).view_width() == old(update_into).view_width(),
            final(update_into).view_height() == old(update_into).view_height(),
            final(update_into).view_cells() == apply_trail(old_ants@, old(update_into).view_cells(), old_ants@.len() as int),
    {
        let ghost start = update_into.view_cells();
        let ghost w = update_into.view_width();
        let ghost h = update_into.view_height();
        let mut i: usize = 0;
        while i < old_ants.len()
            invariant
                i <= old_ants@.len(),
                update_into.wf(),
                update_into.view_width() == w,
                update_into.view_height() == h,
                forall|k: int| 0 <= k < old_ants@.len() ==> update_into.valid_pos(#[trigger] old_ants@[k].position),
                update_into.view_cells() == apply_trail(old_ants@, start, i as int),
            decreases old_ants@.len() - i,
        {
            let ant = &old_ants[i];
            proof {
                update_into.lemma_coord_of(ant.position);
                update_into.lemma_view_cells();
                let c = update_into.coord_of(ant.position);
                crate::ant_sim_frame_impl::lemma_row_major(c.x as int, c.y as int, w as int, h as int);
            }
            let cell = update_into.cell(ant.position());
            if let Some(cell) = cell {
                let new_cell = match cell {
                    AntSimCell::Path { pheromone_food, pheromone_home } => match ant.state() {
                        AntState::Foraging => AntSimCell::Path {
                            pheromone_food,
                            pheromone_home: NonMaxU16::new(u16::MAX - 1),
                        },
                        AntState::Hauling { .. } => AntSimCell::Path {
                            pheromone_food: NonMaxU16::new(u16::MAX - 1),
                            pheromone_home,
                        },
                    },
                    old_cell => old_cell,
                };
                let ghost before = *update_into;
                update_into.set_cell(ant.position(), new_cell);
                proof {
                    AntSimVecImpl::lemma_cells_after_set(before, *update_into, ant.position, new_cell);
                }
            }
            i += 1;
        }
    }
}

/// Takes up to `haul_amount` from a food cell holding `amount`: what is taken and what the
/// cell becomes.
fn take_food(amount: u16, haul_amount: u16) -> (r: (u16, AntSimCell))
    ensures
        r == take_food_spec(amount, haul_amount),
{
    if amount > haul_amount {
        (haul_amount, AntSimCell::Food { amount: amount - haul_amount })
    } else {
        let empty = AntSimCell::Path { pheromone_food: NonMaxU16::new(0), pheromone_home: NonMaxU16::new(0) };
        proof {
            lemma_non_max(0);
        }
        (amount, empty)
    }
}

} // verus!
