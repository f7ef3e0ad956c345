use vstd::prelude::*;
use crate::ant_sim::{AntVisualRangeBuffer, neighbors, ring_slot};
use crate::ant_sim_frame::{AntPosition, AntSim, AntSimCell, in_grid};
use crate::ant_sim_frame_impl::{AntPositionImpl, AntSimVecImpl};

verus! {

/// Explore weights are fixed-point fractions of this value.
pub const EXPLORE_ONE: u16 = 1000;

/// The largest magnitude of a coordinate of a direction point.
pub const POINT_LIMIT: i64 = 1_000_000;

/// What an ant is doing.
#[derive(Copy, Clone, Debug, PartialEq, Eq, Structural)]
pub enum AntState {
    Foraging,
    Hauling { amount: u16 },
}

/// One ant: where it is, where it was before its last move, what it carries, and how much
/// it favours exploring over following trails (`explore_weight / EXPLORE_ONE`).
#[derive(Copy, Clone, Debug, PartialEq, Eq, Structural)]
pub struct Ant {
    pub position: AntPositionImpl,
    pub last_position: AntPositionImpl,
    pub state: AntState,
    pub explore_weight: u16,
}

/// A name for fasthash's MumHash digest (unseeded) of the eight bytes of `position` followed
/// by the eight bytes of `seed`.
pub uninterp spec fn mum_hash_of(position: u64, seed: u64) -> u64;

/// Relies on fasthash's `mum::Hasher64`: a default hasher has no seed, `write_u64` appends the
/// value's bytes, and `finish` returns `mum::Hash64::hash` of the bytes appended, so the result
/// depends on `position` and `seed` alone. (The C code computes the same digest wherever the
/// compiler has 128-bit integers; its fallback without them gives other values.)
#[verifier::external_body]
fn mum_hash(position: u64, seed: u64) -> (r: u64)
    ensures
        r == mum_hash_of(position, seed),
{
    let mut h = <fasthash::mum::Hasher64 as std::default::Default>::default();
    std::hash::Hasher::write_u64(&mut h, position);
    std::hash::Hasher::write_u64(&mut h, seed);
    std::hash::Hasher::finish(&h)
}

/// A 64-bit digest folded into 16 bits.
pub open spec fn fold_spec(h: u64) -> u16 {
    ((h ^ (h >> 32u64)) ^ ((h ^ (h >> 32u64)) >> 16u64)) as u16
}

/// Folds a 64-bit digest into 16 bits by xoring its upper halves into its lower ones.
pub fn fold_hash(h: u64) -> (r: u16)
    ensures
        r == fold_spec(h),
{
    let mut r = h;
    r ^= r >> 32u64;
    r ^= r >> 16u64;
    r as u16
}

/// The pseudo-random 16-bit value of a position under a seed.
pub open spec fn hash2_spec(a: AntPositionImpl, b: u64) -> u16 {
    fold_spec(mum_hash_of(a.0 as u64, b))
}

/// A pseudo-random 16-bit value derived from the position and the seed alone.
pub fn simple_hash2(a: &AntPositionImpl, b: u64) -> (r: u16)
    ensures
        r == hash2_spec(*a, b),
{
    fold_hash(mum_hash(a.0 as u64, b))
}

/// Whether `r` is the integer square root of `v`.
pub open spec fn is_isqrt(v: nat, r: nat) -> bool {
    r * r <= v && v < (r + 1) * (r + 1)
}

/// The largest `r` with `r * r <= v`.
pub open spec fn isqrt_spec(v: nat) -> nat {
    choose|r: nat| #[trigger] is_isqrt(v, r)
}

proof fn lemma_isqrt_unique(v: nat, r: nat)
    requires
        r * r <= v < (r + 1) * (r + 1),
    ensures
        isqrt_spec(v) == r,
{
    assert(is_isqrt(v, r));
    let s = isqrt_spec(v);
    assert(is_isqrt(v, s));
    if s < r {
        assert((s + 1) * (s + 1) <= r * r) by (nonlinear_arith)
            requires
                s < r,
        ;
    } else if s > r {
        assert((r + 1) * (r + 1) <= s * s) by (nonlinear_arith)
            requires
                s > r,
        ;
    }
}

/// The integer square root: the largest `r` with `r * r <= n`.
pub fn isqrt(n: u64) -> (r: u64)
    ensures
        r * r <= n < (r + 1) * (r + 1),
        r == isqrt_spec(n as nat),
{
    let mut lo: u64 = 0;
    let mut hi: u64 = 0x1_0000_0000;
    assert(hi * hi > n) by (nonlinear_arith)
        requires
            hi == 0x1_0000_0000,
    ;
    while hi - lo > 1
        invariant
            lo < hi <= 0x1_0000_0000,
            lo * lo <= n,
            n < hi * hi,
        decreases hi - lo,
    {
        let mid = lo + (hi - lo) / 2;
        assert(mid * mid <= 0xffff_ffff * 0xffff_ffff) by (nonlinear_arith)
            requires
                mid < 0x1_0000_0000,
        ;
        if mid * mid <= n {
            lo = mid;
        } else {
            hi = mid;
        }
    }
    assert(hi == lo + 1);
    proof {
        lemma_isqrt_unique(n as nat, lo as nat);
    }
    lo
}

/// The Euclidean distance between two points, rounded down.
pub open spec fn dist_spec(a: (i64, i64), b: (i64, i64)) -> int {
    isqrt_spec(((a.0 - b.0) * (a.0 - b.0) + (a.1 - b.1) * (a.1 - b.1)) as nat) as int
}

pub open spec fn point_ok(p: (i64, i64)) -> bool {
    -POINT_LIMIT <= p.0 <= POINT_LIMIT && -POINT_LIMIT <= p.1 <= POINT_LIMIT
}

/// The Euclidean distance between two points, rounded down.
pub fn dist_of(a: (i64, i64), b: (i64, i64)) -> (r: u64)
    requires
        point_ok(a),
        point_ok(b),
    ensures
        r == dist_spec(a, b),
        r * r <= (a.0 - b.0) * (a.0 - b.0) + (a.1 - b.1) * (a.1 - b.1),
{
    let dx = a.0 - b.0;
    let dy = a.1 - b.1;
    assert(dx * dx <= 4 * POINT_LIMIT * POINT_LIMIT) by (nonlinear_arith)
        requires
            -2 * POINT_LIMIT <= dx <= 2 * POINT_LIMIT,
    ;
    assert(dy * dy <= 4 * POINT_LIMIT * POINT_LIMIT) by (nonlinear_arith)
        requires
            -2 * POINT_LIMIT <= dy <= 2 * POINT_LIMIT,
    ;
    assert(0 <= dx * dx) by (nonlinear_arith);
    assert(0 <= dy * dy) by (nonlinear_arith);
    let sq = (dx * dx + dy * dy) as u64;
    isqrt(sq)
}

/// The cell that slot `i` of ring `r` around `c` shows, or `None` off the grid.
pub open spec fn slot_cell(on: AntSimVecImpl, c: AntPosition, r: int, i: int) -> Option<AntSimCell> {
    match ring_slot(&on, c, r, i) {
        Some(p) => Some(on.cell_at(on.coord_of(p).x as int, on.coord_of(p).y as int)),
        None => None,
    }
}

/// What one visible cell adds to the trail score of an ant in `state`: ten times the trail it
/// follows minus the trail it leaves behind on a path, a large bonus for home while hauling
/// and for food (eight times the amount) while foraging.
pub open spec fn cell_weight(cell: AntSimCell, state: AntState) -> int {
    match cell {
        AntSimCell::Path { pheromone_food, pheromone_home } => match state {
            AntState::Foraging => 10 * pheromone_food@ - pheromone_home@,
            AntState::Hauling { .. } => 10 * pheromone_home@ - pheromone_food@,
        },
        AntSimCell::Blocker => 0,
        AntSimCell::Home => if state is Hauling {
            80 * 65535int
        } else {
            0
        },
        AntSimCell::Food { amount } => if state is Foraging {
            80 * amount as int
        } else {
            0
        },
    }
}

/// How many slots the arc of direction `n` takes in ring `k + 1`: corners look wider.
pub open spec fn arc_len(n: int, k: int) -> int {
    if n % 2 == 0 {
        4 * k + 1
    } else {
        2 * k + 1
    }
}

/// Slot `t` of the arc of direction `n` (a slot of ring 1) in ring `k + 1`: the arc is
/// centred on the slot in the same direction and wraps around the ring's start.
pub open spec fn arc_index(n: int, k: int, t: int) -> int {
    let m = if n % 2 == 0 { 2 * k } else { k };
    (n * (k + 1) + 8 * (k + 1) - m + t) % (8 * (k + 1))
}

/// The count of visitable cells and their summed weight over the first `t` slots of an arc.
/// Off-grid slots and blockers do not count.
pub open spec fn arc_stats(on: AntSimVecImpl, c: AntPosition, state: AntState, n: int, k: int, t: int) -> (int, int)
    decreases t,
{
    if t <= 0 {
        (0, 0)
    } else {
        let prev = arc_stats(on, c, state, n, k, t - 1);
        match slot_cell(on, c, k + 1, arc_index(n, k, t - 1)) {
            Some(cell) => if cell is Blocker {
                prev
            } else {
                (prev.0 + 1, prev.1 + cell_weight(cell, state))
            },
            None => prev,
        }
    }
}

/// The trail score of direction `n` from ring `k + 1` outwards: the sum of the arcs' average
/// weights (rounded down), stopping at the first arc without a visitable cell.
pub open spec fn trail_score(on: AntSimVecImpl, c: AntPosition, state: AntState, n: int, range: int, k: int) -> int
    decreases range - k,
{
    if k >= range || k < 0 {
        0
    } else {
        let st = arc_stats(on, c, state, n, k, arc_len(n, k));
        if st.0 == 0 {
            0
        } else {
            st.1 / st.0 + trail_score(on, c, state, n, range, k + 1)
        }
    }
}

/// The first slot of ring 1 around `c` that holds `last`, or 8 if none does.
pub open spec fn first_slot(on: AntSimVecImpl, c: AntPosition, last: AntPositionImpl, i: int) -> int
    decreases 8 - i,
{
    if i >= 8 || i < 0 {
        8
    } else if ring_slot(&on, c, 1, i) == Some(last) {
        i
    } else {
        first_slot(on, c, last, i + 1)
    }
}

/// The direction point of where the ant came from, or the origin when it did not come from a
/// neighbouring cell.
pub open spec fn last_point(on: AntSimVecImpl, c: AntPosition, last: AntPositionImpl, points: Seq<(i64, i64)>) -> (i64, i64) {
    let d = first_slot(on, c, last, 0);
    if d < 8 {
        points[d]
    } else {
        (0, 0)
    }
}

/// Whether the neighbour in direction `n` may be moved into: it lies on the grid and is no
/// blocker.
pub open spec fn eligible(on: AntSimVecImpl, c: AntPosition, n: int) -> bool {
    slot_cell(on, c, 1, n) matches Some(cell) && !(cell is Blocker)
}

/// The score of moving in direction `n`: the trail score blended with the pseudo-random value
/// `explore` of its neighbour by the explore weight (both scaled by `EXPLORE_ONE * range`), times one
/// plus the distance between the direction's point and the point the ant came from.
pub open spec fn candidate_score(on: AntSimVecImpl, c: AntPosition, ant: Ant, explore: u16, points: Seq<(i64, i64)>, range: int, n: int) -> int {
    let blended = trail_score(on, c, ant.state, n, range, 0) * (EXPLORE_ONE - ant.explore_weight)
        + explore * ant.explore_weight * range;
    blended * (dist_spec(points[n], last_point(on, c, ant.last_position, points)) + 1)
}

/// The pseudo-random value of each neighbour of `c` under `seed` (zero off the grid).
pub open spec fn explore_values(on: AntSimVecImpl, c: AntPosition, seed: u64) -> Seq<u16> {
    Seq::new(8, |n: int| match ring_slot(&on, c, 1, n) {
        Some(q) => hash2_spec(q, seed),
        None => 0u16,
    })
}

/// The score of each direction given the neighbours' pseudo-random values, `None` where it
/// may not be moved into.
pub open spec fn scores(on: AntSimVecImpl, c: AntPosition, ant: Ant, explore: Seq<u16>, points: Seq<(i64, i64)>, range: int) -> Seq<Option<int>> {
    Seq::new(8, |n: int| if eligible(on, c, n) {
        Some(candidate_score(on, c, ant, explore[n], points, range, n))
    } else {
        None
    })
}

/// The index of the strictly greatest score among the first `i`, the earliest on ties.
pub open spec fn pick(scores: Seq<Option<int>>, i: int) -> Option<int>
    decreases i,
{
    if i <= 0 {
        None
    } else {
        let prev = pick(scores, i - 1);
        match scores[i - 1] {
            None => prev,
            Some(v) => match prev {
                None => Some(i - 1),
                Some(b) => if v > scores[b]->Some_0 {
                    Some(i - 1)
                } else {
                    Some(b)
                },
            },
        }
    }
}

/// The ant after one move on `on`: to the best-scoring neighbour, or standing still when
/// no neighbour may be moved into.
pub open spec fn moved(ant: Ant, on: AntSimVecImpl, seed: u64, points: Seq<(i64, i64)>, range: int) -> Ant {
    let c = on.coord_of(ant.position);
    match pick(scores(on, c, ant, explore_values(on, c, seed), points, range), 8) {
        Some(n) => Ant { position: ring_slot(&on, c, 1, n)->Some_0, last_position: ant.position, ..ant },
        None => Ant { last_position: ant.position, ..ant },
    }
}

/// The largest magnitude of one cell's weight.
pub const WEIGHT_LIMIT: i128 = 5_242_800;

/// Whether `buffers` holds the rings around `position` on `on`.
pub open spec fn filled_around(buffers: AntVisualRangeBuffer<AntPositionImpl>, on: AntSimVecImpl, position: AntPositionImpl) -> bool {
    forall|r: int, i: int|
        1 <= r <= buffers.view_range() && 0 <= i < 8 * r ==> #[trigger] buffers.slot(r, i) == ring_slot(
            &on,
            on.coord_of(position),
            r,
            i,
        )
}

proof fn lemma_range_bound(range: int)
    requires
        0 <= range,
        4 * range * (range + 1) <= usize::MAX,
    ensures
        range < 0x8000_0000,
{
    assert(usize::MAX <= 0xffff_ffff_ffff_ffff);
    assert(range < 0x8000_0000) by (nonlinear_arith)
        requires
            0 <= range,
            4 * range * (range + 1) <= 0xffff_ffff_ffff_ffff,
    ;
}

proof fn lemma_avg(sum: int, cnt: int)
    requires
        0 < cnt,
        -65535 * cnt <= sum <= WEIGHT_LIMIT * cnt,
    ensures
        -65535 <= sum / cnt <= WEIGHT_LIMIT,
        (sum + 65535 * cnt) / cnt - 65535 == sum / cnt,
{
    vstd::arithmetic::div_mod::lemma_hoist_over_denominator(sum, 65535, cnt as nat);
    vstd::arithmetic::div_mod::lemma_div_is_ordered(sum, WEIGHT_LIMIT * cnt, cnt);
    vstd::arithmetic::div_mod::lemma_div_is_ordered(-65535 * cnt, sum, cnt);
    vstd::arithmetic::div_mod::lemma_div_multiples_vanish(WEIGHT_LIMIT as int, cnt);
    vstd::arithmetic::div_mod::lemma_div_multiples_vanish(-65535, cnt);
    assert(WEIGHT_LIMIT * cnt == cnt * WEIGHT_LIMIT) by (nonlinear_arith);
    assert(-65535 * cnt == cnt * (-65535)) by (nonlinear_arith);
}

proof fn lemma_slot_valid(on: AntSimVecImpl, c: AntPosition, r: int, i: int)
    requires
        on.wf(),
        ring_slot(&on, c, r, i) is Some,
    ensures
        on.valid_pos(ring_slot(&on, c, r, i)->Some_0),
{
    let (x, y) = crate::ant_sim::ring_coord(c.x as int, c.y as int, r, i);
    on.lemma_pos_of(x, y);
}

/// The pick is one of the scored entries.
pub proof fn lemma_pick(scores: Seq<Option<int>>, i: int)
    requires
        0 <= i <= scores.len(),
    ensures
        pick(scores, i) matches Some(b) ==> 0 <= b < i && scores[b] is Some,
        pick(scores, i) is None <==> forall|j: int| 0 <= j < i ==> #[trigger] scores[j] is None,
    decreases i,
{
    if i > 0 {
        lemma_pick(scores, i - 1);
    }
}

/// A moved ant keeps its state and weight and stands on a cell of the board.
pub proof fn lemma_moved(ant: Ant, on: AntSimVecImpl, seed: u64, points: Seq<(i64, i64)>, range: int)
    requires
        on.wf(),
        on.valid_pos(ant.position),
    ensures
        on.valid_pos(moved(ant, on, seed, points, range).position),
        moved(ant, on, seed, points, range).state == ant.state,
        moved(ant, on, seed, points, range).explore_weight == ant.explore_weight,
        moved(ant, on, seed, points, range).last_position == ant.position,
{
    let c = on.coord_of(ant.position);
    let sc = scores(on, c, ant, explore_values(on, c, seed), points, range);
    lemma_pick(sc, 8);
    if let Some(n) = pick(sc, 8) {
        assert(eligible(on, c, n));
        lemma_slot_valid(on, c, 1, n);
    }
}

proof fn lemma_pick_single(scores: Seq<Option<int>>, n0: int, i: int)
    requires
        0 <= n0 < scores.len(),
        0 <= i <= scores.len(),
        scores[n0] is Some,
        forall|n: int| 0 <= n < scores.len() && n != n0 ==> #[trigger] scores[n] is None,
    ensures
        i <= n0 ==> pick(scores, i) is None,
        i > n0 ==> pick(scores, i) == Some(n0),
    decreases i,
{
    if i > 0 {
        lemma_pick_single(scores, n0, i - 1);
    }
}

/// An ant with exactly one neighbour that it may enter (every other neighbour is a blocker or
/// lies off the grid) moves into that neighbour, whatever the scores.
pub proof fn lemma_single_opening(ant: Ant, on: AntSimVecImpl, seed: u64, points: Seq<(i64, i64)>, range: int, n0: int)
    requires
        on.wf(),
        on.valid_pos(ant.position),
        0 <= n0 < 8,
        eligible(on, on.coord_of(ant.position), n0),
        forall|n: int| 0 <= n < 8 && n != n0 ==> !#[trigger] eligible(on, on.coord_of(ant.position), n),
    ensures
        Some(moved(ant, on, seed, points, range).position) == ring_slot(&on, on.coord_of(ant.position), 1, n0),
        moved(ant, on, seed, points, range).last_position == ant.position,
{
    let c = on.coord_of(ant.position);
    let sc = scores(on, c, ant, explore_values(on, c, seed), points, range);
    assert forall|n: int| 0 <= n < sc.len() && n != n0 implies #[trigger] sc[n] is None by {
        assert(!eligible(on, c, n));
    }
    lemma_pick_single(sc, n0, 8);
}

/// Two boards with the same dimensions and cells show an ant the same slots.
proof fn lemma_slots_agree(a: AntSimVecImpl, b: AntSimVecImpl)
    requires
        a.wf(),
        b.wf(),
        a.view_width() == b.view_width(),
        a.view_height() == b.view_height(),
        a.view_cells() == b.view_cells(),
    ensures
        forall|c: AntPosition, r: int, i: int| #[trigger] ring_slot(&a, c, r, i) == ring_slot(&b, c, r, i),
        forall|c: AntPosition, r: int, i: int| #[trigger] slot_cell(a, c, r, i) == slot_cell(b, c, r, i),
        forall|p: AntPositionImpl| #[trigger] a.coord_of(p) == b.coord_of(p),
{
    assert forall|c: AntPosition, r: int, i: int| #[trigger] slot_cell(a, c, r, i) == slot_cell(b, c, r, i) by {
        let (x, y) = crate::ant_sim::ring_coord(c.x as int, c.y as int, r, i);
        if in_grid(x, y, a.view_width(), a.view_height()) {
            crate::ant_sim_frame_impl::lemma_row_major(x, y, a.view_width() as int, a.view_height() as int);
            a.lemma_pos_of(x, y);
            let q = a.coord_of(a.pos_of(x, y));
            assert(a.cell_at(q.x as int, q.y as int) == a.view_cells()[y * a.view_width() + x]);
            assert(b.cell_at(q.x as int, q.y as int) == b.view_cells()[y * b.view_width() + x]);
        }
    }
}

proof fn lemma_arc_agree(a: AntSimVecImpl, b: AntSimVecImpl, c: AntPosition, state: AntState, n: int, k: int, t: int)
    requires
        forall|c: AntPosition, r: int, i: int| #[trigger] slot_cell(a, c, r, i) == slot_cell(b, c, r, i),
    ensures
        arc_stats(a, c, state, n, k, t) == arc_stats(b, c, state, n, k, t),
    decreases t,
{
    if t > 0 {
        lemma_arc_agree(a, b, c, state, n, k, t - 1);
        assert(slot_cell(a, c, k + 1, arc_index(n, k, t - 1)) == slot_cell(b, c, k + 1, arc_index(n, k, t - 1)));
    }
}

proof fn lemma_trail_agree(a: AntSimVecImpl, b: AntSimVecImpl, c: AntPosition, state: AntState, n: int, range: int, k: int)
    requires
        forall|c: AntPosition, r: int, i: int| #[trigger] slot_cell(a, c, r, i) == slot_cell(b, c, r, i),
    ensures
        trail_score(a, c, state, n, range, k) == trail_score(b, c, state, n, range, k),
    decreases range - k,
{
    if 0 <= k < range {
        lemma_arc_agree(a, b, c, state, n, k, arc_len(n, k));
        lemma_trail_agree(a, b, c, state, n, range, k + 1);
    }
}

proof fn lemma_first_slot_agree(a: AntSimVecImpl, b: AntSimVecImpl, c: AntPosition, last: AntPositionImpl, i: int)
    requires
        forall|c: AntPosition, r: int, i: int| #[trigger] ring_slot(&a, c, r, i) == ring_slot(&b, c, r, i),
    ensures
        first_slot(a, c, last, i) == first_slot(b, c, last, i),
    decreases 8 - i,
{
    if 0 <= i < 8 {
        assert(ring_slot(&a, c, 1, i) == ring_slot(&b, c, 1, i));
        lemma_first_slot_agree(a, b, c, last, i + 1);
    }
}

/// An ant moves the same way on two boards with the same dimensions and cells.
pub proof fn lemma_moved_agree(ant: Ant, a: AntSimVecImpl, b: AntSimVecImpl, seed: u64, points: Seq<(i64, i64)>, range: int)
    requires
        a.wf(),
        b.wf(),
        a.view_width() == b.view_width(),
        a.view_height() == b.view_height(),
        a.view_cells() == b.view_cells(),
    ensures
        moved(ant, a, seed, points, range) == moved(ant, b, seed, points, range),
{
    lemma_slots_agree(a, b);
    let c = a.coord_of(ant.position);
    assert(c == b.coord_of(ant.position));
    lemma_first_slot_agree(a, b, c, ant.last_position, 0);
    assert forall|n: int| 0 <= n < 8 implies #[trigger] trail_score(a, c, ant.state, n, range, 0) == trail_score(b, c, ant.state, n, range, 0) by {
        lemma_trail_agree(a, b, c, ant.state, n, range, 0);
    }
    assert(explore_values(a, c, seed) =~= explore_values(b, c, seed)) by {
        assert forall|n: int| 0 <= n < 8 implies #[trigger] ring_slot(&a, c, 1, n) == ring_slot(&b, c, 1, n) by {}
    }
    let sa = scores(a, c, ant, explore_values(a, c, seed), points, range);
    let sb = scores(b, c, ant, explore_values(b, c, seed), points, range);
    assert forall|n: int| 0 <= n < 8 implies #[trigger] sa[n] == sb[n] by {
        assert(slot_cell(a, c, 1, n) == slot_cell(b, c, 1, n));
        assert(ring_slot(&a, c, 1, n) == ring_slot(&b, c, 1, n));
        assert(trail_score(a, c, ant.state, n, range, 0) == trail_score(b, c, ant.state, n, range, 0));
    }
    assert(sa =~= sb);
    assert forall|n: int| 0 <= n < 8 implies #[trigger] ring_slot(&a, c, 1, n) == ring_slot(&b, c, 1, n) by {}
}

impl Ant {
    /// The explore weight is a fraction of at most one.
    pub open spec fn wf(self) -> bool {
        self.explore_weight <= EXPLORE_ONE
    }

    /// A foraging ant that has not moved yet.
    pub fn new_default(position: AntPositionImpl, explore_weight: u16) -> (r: Ant)
        ensures
            r == (Ant { position, last_position: position, state: AntState::Foraging, explore_weight }),
    {
        Self::new(position, position, explore_weight, AntState::Foraging)
    }

    pub fn new(position: AntPositionImpl, last_position: AntPositionImpl, explore_weight: u16, state: AntState) -> (r: Ant)
        ensures
            r == (Ant { position, last_position, state, explore_weight }),
    {
        Ant { position, last_position, state, explore_weight }
    }

    pub fn position(&self) -> (r: &AntPositionImpl)
        ensures
            *r == self.position,
    {
        &self.position
    }

    pub fn last_position(&self) -> (r: &AntPositionImpl)
        ensures
            *r == self.last_position,
    {
        &self.last_position
    }

    pub fn state(&self) -> (r: &AntState)
        ensures
            *r == self.state,
    {
        &self.state
    }

    pub fn exploration_weight(&self) -> (r: u16)
        ensures
            r == self.explore_weight,
    {
        self.explore_weight
    }

    pub fn state_mut(&mut self) -> (r: &mut AntState)
        ensures
            *r == old(self).state,
            *final(self) == (Ant { state: *final(r), ..*old(self) }),
    {
        &mut self.state
    }

    /// Records that the ant stays where it is.
    pub fn stand_still(&mut self)
        ensures
            *final(self) == (Ant { last_position: old(self).position, ..*old(self) }),
    {
        self.last_position = self.position;
    }

    /// The visitable-cell count and summed weight of the arc of direction `n` in ring `k + 1`.
    fn arc_stats_exec(&self, on: &AntSimVecImpl, buffers: &AntVisualRangeBuffer<AntPositionImpl>, n: usize, k: usize) -> (r: (i128, i128))
        requires
            on.wf(),
            on.valid_pos(self.position),
            buffers.wf(),
            filled_around(*buffers, *on, self.position),
            n < 8,
            k < buffers.view_range(),
        ensures
            r.0 == arc_stats(*on, on.coord_of(self.position), self.state, n as int, k as int, arc_len(n as int, k as int)).0,
            r.1 == arc_stats(*on, on.coord_of(self.position), self.state, n as int, k as int, arc_len(n as int, k as int)).1,
            0 <= r.0 <= 8 * (k + 1),
            -65535 * r.0 <= r.1 <= WEIGHT_LIMIT * r.0,
    {
        let ghost c = on.coord_of(self.position);
        proof {
            lemma_range_bound(buffers.view_range() as int);
            let rg = buffers.view_range() as int;
            assert(8 * (k + 1) <= 4 * rg * (rg + 1)) by (nonlinear_arith)
                requires
                    0 <= k < rg,
            ;
        }
        let ring_len = 8 * (k + 1);
        let m = if n % 2 == 0 { 2 * k } else { k };
        let len = 2 * m + 1;
        let mut cnt: i128 = 0;
        let mut sum: i128 = 0;
        let mut t: usize = 0;
        while t < len
            invariant
                on.wf(),
                buffers.wf(),
                filled_around(*buffers, *on, self.position),
                c == on.coord_of(self.position),
                n < 8,
                k < buffers.view_range() < 0x8000_0000,
                ring_len == 8 * (k + 1),
                m == if n % 2 == 0 { 2 * k as int } else { k as int },
                len == arc_len(n as int, k as int),
                t <= len,
                cnt == arc_stats(*on, c, self.state, n as int, k as int, t as int).0,
                sum == arc_stats(*on, c, self.state, n as int, k as int, t as int).1,
                0 <= cnt <= t,
                -65535 * cnt <= sum <= WEIGHT_LIMIT * cnt,
            decreases len - t,
        {
            assert(n * (k + 1) <= 7 * (k + 1)) by (nonlinear_arith)
                requires
                    n < 8,
            ;
            let idx64 = (n as u64 * (k as u64 + 1) + ring_len as u64 - m as u64 + t as u64) % (ring_len as u64);
            let idx = idx64 as usize;
            assert(idx == arc_index(n as int, k as int, t as int));
            let slot = buffers.get_slot(k + 1, idx);
            if let Some(p) = slot {
                proof {
                    lemma_slot_valid(*on, c, k + 1, idx as int);
                }
                if let Some(cell) = on.cell(&p) {
                    match cell {
                        AntSimCell::Path { pheromone_food, pheromone_home } => {
                            let f = pheromone_food.get() as i128;
                            let h = pheromone_home.get() as i128;
                            let w = match self.state {
                                AntState::Foraging => 10 * f - h,
                                AntState::Hauling { .. } => 10 * h - f,
                            };
                            cnt = cnt + 1;
                            sum = sum + w;
                        },
                        AntSimCell::Blocker => {},
                        AntSimCell::Home => {
                            cnt = cnt + 1;
                            if let AntState::Hauling { .. } = self.state {
                                sum = sum + 80 * 65535;
                            }
                        },
                        AntSimCell::Food { amount } => {
                            cnt = cnt + 1;
                            if let AntState::Foraging = self.state {
                                sum = sum + 80 * amount as i128;
                            }
                        },
                    }
                }
            }
            t += 1;
        }
        (cnt, sum)
    }

    /// The trail score of direction `n`.
    fn trail_score_exec(&self, on: &AntSimVecImpl, buffers: &AntVisualRangeBuffer<AntPositionImpl>, n: usize) -> (r: i128)
        requires
            on.wf(),
            on.valid_pos(self.position),
            buffers.wf(),
            filled_around(*buffers, *on, self.position),
            n < 8,
        ensures
            r == trail_score(*on, on.coord_of(self.position), self.state, n as int, buffers.view_range() as int, 0),
            -65535 * buffers.view_range() <= r <= WEIGHT_LIMIT * buffers.view_range(),
    {
        let ghost c = on.coord_of(self.position);
        let ghost range = buffers.view_range() as int;
        proof {
            lemma_range_bound(range);
        }
        let r = buffers.range();
        let mut acc: i128 = 0;
        let mut k: usize = 0;
        let mut done = false;
        while k < r && !done
            invariant
                on.wf(),
                on.valid_pos(self.position),
                buffers.wf(),
                filled_around(*buffers, *on, self.position),
                c == on.coord_of(self.position),
                n < 8,
                r == range,
                range == buffers.view_range(),
                range < 0x8000_0000,
                k <= r,
                done ==> acc == trail_score(*on, c, self.state, n as int, range, 0),
                !done ==> acc + trail_score(*on, c, self.state, n as int, range, k as int)
                    == trail_score(*on, c, self.state, n as int, range, 0),
                -65535 * k <= acc <= WEIGHT_LIMIT * k,
            decreases r - k + if done { 0int } else { 1int },
        {
            let (cnt, sum) = self.arc_stats_exec(on, buffers, n, k);
            if cnt == 0 {
                done = true;
            } else {
                proof {
                    lemma_avg(sum as int, cnt as int);
                }
                let avg = (sum + 65535 * cnt) / cnt - 65535;
                acc = acc + avg;
                k += 1;
            }
        }
        acc
    }

    /// The score of moving in direction `n`, whose neighbour has the pseudo-random value
    /// `explore`.
    fn score_position2(
        &self,
        on: &AntSimVecImpl,
        buffers: &AntVisualRangeBuffer<AntPositionImpl>,
        explore: u16,
        points: &[(i64, i64); 8],
        last_point: (i64, i64),
        n: usize,
    ) -> (r: i128)
        requires
            self.wf(),
            on.wf(),
            on.valid_pos(self.position),
            buffers.wf(),
            filled_around(*buffers, *on, self.position),
            n < 8,
            forall|i: int| 0 <= i < 8 ==> point_ok(#[trigger] points@[i]),
            point_ok(last_point),
            last_point == crate::ant_sim_ant::last_point(*on, on.coord_of(self.position), self.last_position, points@),
        ensures
            r == candidate_score(*on, on.coord_of(self.position), *self, explore, points@, buffers.view_range() as int, n as int),
    {
        proof {
            lemma_range_bound(buffers.view_range() as int);
        }
        let range = buffers.range() as i128;
        let trail = self.trail_score_exec(on, buffers, n);
        let explore = explore as i128;
        let ew = self.explore_weight as i128;
        assert(-65535 * 0x8000_0000 * 1000 <= trail * (1000 - ew) <= WEIGHT_LIMIT * 0x8000_0000 * 1000) by (nonlinear_arith)
            requires
                -65535 * range <= trail <= WEIGHT_LIMIT * range,
                0 <= range < 0x8000_0000,
                0 <= ew <= 1000,
        ;
        assert(0 <= explore * ew <= 65535 * 1000) by (nonlinear_arith)
            requires
                0 <= explore <= 65535,
                0 <= ew <= 1000,
        ;
        assert(0 <= explore * ew * range <= 65535 * 1000 * 0x8000_0000) by (nonlinear_arith)
            requires
                0 <= explore <= 65535,
                0 <= range < 0x8000_0000,
                0 <= ew <= 1000,
        ;
        let blended = trail * (1000 - ew) + explore * ew * range;
        let d = dist_of(points[n], last_point);
        proof {
            let sq = ((points@[n as int].0 - last_point.0) * (points@[n as int].0 - last_point.0) + (points@[n as int].1 - last_point.1) * (points@[n as int].1 - last_point.1)) as nat;
            assert(d * d <= sq);
            assert(sq <= 0x1000_0000_0000) by (nonlinear_arith)
                requires
                    point_ok(points@[n as int]),
                    point_ok(last_point),
                    sq == (points@[n as int].0 - last_point.0) * (points@[n as int].0 - last_point.0) + (points@[n as int].1 - last_point.1) * (points@[n as int].1 - last_point.1),
            ;
            assert(d <= 0x400_0000) by (nonlinear_arith)
                requires
                    d * d <= 0x1000_0000_0000,
                    0 <= d,
            ;
        }
        let factor = d as i128 + 1;
        assert(-0x1_0000_0000_0000_0000_0000_0000 <= blended * factor <= 0x1_0000_0000_0000_0000_0000_0000) by (nonlinear_arith)
            requires
                -65535 * 0x8000_0000 * 1000 <= blended <= WEIGHT_LIMIT * 0x8000_0000 * 1000 + 65535 * 1000 * 0x8000_0000,
                1 <= factor <= 0x400_0001,
        ;
        blended * factor
    }

    /// The direction the ant moves in, given the rings around it in `buffers` and the
    /// pseudo-random value of each neighbour in `explore`: the strictly best-scoring
    /// neighbour that lies on the grid and is no blocker (the earliest on ties), or `None`
    /// when there is no such neighbour.
    pub fn choose_move(&self, on: &AntSimVecImpl, buffers: &AntVisualRangeBuffer<AntPositionImpl>, explore: &Vec<u16>, points: &[(i64, i64); 8]) -> (r: Option<usize>)
        requires
            self.wf(),
            on.wf(),
            on.valid_pos(self.position),
            buffers.wf(),
            buffers.view_range() >= 1,
            filled_around(*buffers, *on, self.position),
            explore@.len() == 8,
            forall|i: int| 0 <= i < 8 ==> point_ok(#[trigger] points@[i]),
        ensures
            r is None <==> pick(scores(*on, on.coord_of(self.position), *self, explore@, points@, buffers.view_range() as int), 8) is None,
            r matches Some(n) ==> n < 8 && pick(
                scores(*on, on.coord_of(self.position), *self, explore@, points@, buffers.view_range() as int),
                8,
            ) == Some(n as int),
    {
        let ghost c = on.coord_of(self.position);
        let ghost range = buffers.view_range() as int;
        let ghost sc = scores(*on, c, *self, explore@, points@, range);
        // where the ant came from
        let mut d: usize = 0;
        let mut found = false;
        while d < 8 && !found
            invariant
                d <= 8,
                range >= 1,
                on.wf(),
                c == on.coord_of(self.position),
                buffers.wf(),
                range == buffers.view_range(),
                filled_around(*buffers, *on, self.position),
                found ==> d < 8 && first_slot(*on, c, self.last_position, 0) == d,
                !found ==> first_slot(*on, c, self.last_position, 0) == first_slot(*on, c, self.last_position, d as int),
            decreases 8 - d + if found { 0int } else { 1int },
        {
            let slot = buffers.get_slot(1, d);
            assert(slot == ring_slot(on, c, 1, d as int));
            match slot {
                Some(p) => {
                    if p.0 == self.last_position.0 {
                        assert(p == self.last_position);
                        found = true;
                    } else {
                        d += 1;
                    }
                },
                None => {
                    d += 1;
                },
            }
        }
        let lp = if found {
            points[d]
        } else {
            (0i64, 0i64)
        };
        assert(lp == last_point(*on, c, self.last_position, points@));
        let mut best: Option<(usize, i128)> = None;
        let mut n: usize = 0;
        while n < 8
            invariant
                n <= 8,
                self.wf(),
                on.wf(),
                on.valid_pos(self.position),
                c == on.coord_of(self.position),
                buffers.wf(),
                range == buffers.view_range(),
                range >= 1,
                filled_around(*buffers, *on, self.position),
                forall|i: int| 0 <= i < 8 ==> point_ok(#[trigger] points@[i]),
                point_ok(lp),
                lp == last_point(*on, c, self.last_position, points@),
                sc == scores(*on, c, *self, explore@, points@, range),
                explore@.len() == 8,
                best is None <==> pick(sc, n as int) is None,
                best matches Some((b, v)) ==> pick(sc, n as int) == Some(b as int) && sc[b as int] == Some(v as int) && b < 8,
            decreases 8 - n,
        {
            if let Some(q) = buffers.get_slot(1, n) {
                proof {
                    lemma_slot_valid(*on, c, 1, n as int);
                }
                if let Some(cell) = on.cell(&q) {
                    if !matches!(cell, AntSimCell::Blocker) {
                        let score = self.score_position2(on, buffers, explore[n], points, lp, n);
                        best = match best {
                            None => Some((n, score)),
                            Some((b, v)) => if score > v {
                                Some((n, score))
                            } else {
                                Some((b, v))
                            },
                        };
                    }
                }
            }
            n += 1;
        }
        match best {
            Some((b, _)) => Some(b),
            None => None,
        }
    }

    /// Moves the ant one step: the rings around it are gathered into `buffers`, each
    /// neighbour gets its pseudo-random value from `simple_hash2` under `seed`, and the ant
    /// moves as [`Ant::choose_move`] says; with no neighbour to move to it stands still.
    pub fn move_to_next2(&mut self, seed: u64, points: &[(i64, i64); 8], on: &AntSimVecImpl, buffers: &mut AntVisualRangeBuffer<AntPositionImpl>)
        requires
            old(self).wf(),
            on.wf(),
            on.valid_pos(old(self).position),
            old(buffers).wf(),
            old(buffers).view_range() >= 1,
            forall|i: int| 0 <= i < 8 ==> point_ok(#[trigger] points@[i]),
        ensures
            *final(self) == moved(*old(self), *on, seed, points@, old(buffers).view_range() as int),
            final(buffers).wf(),
            final(buffers).view_range() == old(buffers).view_range(),
            filled_around(*final(buffers), *on, old(self).position),
    {
        neighbors(on, &self.position, buffers);
        let ghost c = on.coord_of(self.position);
        let mut explore: Vec<u16> = Vec::new();
        let mut n: usize = 0;
        while n < 8
            invariant
                n <= 8,
                buffers.wf(),
                buffers.view_range() >= 1,
                filled_around(*buffers, *on, self.position),
                c == on.coord_of(self.position),
                explore@.len() == n,
                forall|k: int| 0 <= k < n ==> #[trigger] explore@[k] == explore_values(*on, c, seed)[k],
            decreases 8 - n,
        {
            let v = match buffers.get_slot(1, n) {
                Some(q) => simple_hash2(&q, seed),
                None => 0,
            };
            explore.push(v);
            n += 1;
        }
        assert(explore@ =~= explore_values(*on, c, seed));
        match self.choose_move(on, buffers, &explore, points) {
            Some(b) => {
                let q = buffers.get_slot(1, b);
                proof {
                    let sc = scores(*on, c, *self, explore@, points@, buffers.view_range() as int);
                    lemma_pick(sc, 8);
                    assert(eligible(*on, c, b as int));
                }
                if let Some(q) = q {
                    self.last_position = self.position;
                    self.position = q;
                }
            },
            None => {
                self.last_position = self.position;
            },
        }
    }

}

} // verus!
