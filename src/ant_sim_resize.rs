use vstd::prelude::*;
use crate::ant_sim_ant::Ant;
use crate::ant_sim_frame::{AntPosition, AntSim, in_grid};
use crate::ant_sim_frame_impl::{AntSimVecImpl, lemma_index, lemma_row_major};

verus! {

/// Copies every cell of `from` whose coordinate also lies on `into` to the same coordinate of
/// `into`; the rest of `into` stays as it was. This carries a board over to a grid of other
/// dimensions.
pub fn translate_sim<A: AntSim>(from: &A, into: &mut A)
    requires
        from.wf(),
        old(into).wf(),
    ensures
        final(into).wf(),
        final(into).view_width() == old(into).view_width(),
        final(into).view_height() == old(into).view_height(),
        forall|x: int, y: int|
            in_grid(x, y, old(into).view_width(), old(into).view_height()) ==> #[trigger] final(into).cell_at(x, y)
                == if in_grid(x, y, from.view_width(), from.view_height()) {
                from.cell_at(x, y)
            } else {
                old(into).cell_at(x, y)
            },
{
    let cells = from.cells();
    let into_width = into.width();
    let into_height = into.height();
    let ghost fw = from.view_width() as int;
    let ghost fh = from.view_height() as int;
    let ghost start = *into;
    let mut k: usize = 0;
    while k < cells.len()
        invariant
            from.wf(),
            into.wf(),
            start.wf(),
            into.view_width() == start.view_width(),
            into.view_height() == start.view_height(),
            start.view_width() == into_width,
            start.view_height() == into_height,
            fw == from.view_width(),
            fh == from.view_height(),
            cells@.len() == fw * fh,
            forall|i: int|
                0 <= i < cells@.len() ==> (#[trigger] cells@[i]).1 == from.pos_of(i % fw, i / fw) && cells@[i].0
                    == from.cell_at(i % fw, i / fw),
            k <= cells@.len(),
            forall|x: int, y: int|
                in_grid(x, y, start.view_width(), start.view_height()) ==> #[trigger] into.cell_at(x, y)
                    == if in_grid(x, y, fw as nat, fh as nat) && y * fw + x < k {
                    from.cell_at(x, y)
                } else {
                    start.cell_at(x, y)
                },
        decreases cells@.len() - k,
    {
        let cell = cells[k].0;
        let pos = &cells[k].1;
        proof {
            assert(fw > 0) by (nonlinear_arith)
                requires
                    k < fw * fh,
                    fw >= 0,
                    fh >= 0,
            ;
            lemma_index(k as int, fw, fh);
            lemma_row_major(k as int % fw, k as int / fw, fw, fh);
            from.lemma_pos_of(k as int % fw, k as int / fw);
        }
        let p = from.decode(pos);
        let target = into.encode(p);
        if let Some(q) = target {
            let ghost before = *into;
            proof {
                into.lemma_pos_of(p.x as int, p.y as int);
            }
            into.set_cell(&q, cell);
            proof {
                assert(p.x == k as int % fw && p.y == k as int / fw);
                assert(before.coord_of(q) == p);
                assert(cells@[k as int].0 == cell);
                assert(cell == from.cell_at(p.x as int, p.y as int));
                assert forall|x: int, y: int| in_grid(x, y, start.view_width(), start.view_height()) implies #[trigger] into.cell_at(x, y)
                    == if in_grid(x, y, fw as nat, fh as nat) && y * fw + x < k + 1 {
                    from.cell_at(x, y)
                } else {
                    start.cell_at(x, y)
                } by {
                    if in_grid(x, y, fw as nat, fh as nat) {
                        lemma_row_major(x, y, fw, fh);
                        if y * fw + x == k {
                            assert(x == p.x && y == p.y);
                        }
                    }
                    if x == p.x && y == p.y {
                        assert(into.cell_at(x, y) == cell);
                    } else {
                        assert(before.coord_of(q) != (AntPosition { x: x as usize, y: y as usize }));
                        assert(into.cell_at(x, y) == before.cell_at(x, y));
                    }
                    assert(before.cell_at(x, y) == if in_grid(x, y, fw as nat, fh as nat) && y * fw + x < k {
                        from.cell_at(x, y)
                    } else {
                        start.cell_at(x, y)
                    });
                }
            }
        } else {
            proof {
                assert(p.x == k as int % fw && p.y == k as int / fw);
                assert(!in_grid(p.x as int, p.y as int, start.view_width(), start.view_height()));
                assert forall|x: int, y: int| in_grid(x, y, start.view_width(), start.view_height()) implies #[trigger] into.cell_at(x, y)
                    == if in_grid(x, y, fw as nat, fh as nat) && y * fw + x < k + 1 {
                    from.cell_at(x, y)
                } else {
                    start.cell_at(x, y)
                } by {
                    if in_grid(x, y, fw as nat, fh as nat) {
                        lemma_row_major(x, y, fw, fh);
                        if y * fw + x == k {
                            assert(x == p.x && y == p.y);
                            assert(in_grid(p.x as int, p.y as int, start.view_width(), start.view_height()));
                            assert(false);
                        }
                    }
                    assert(into.cell_at(x, y) == if in_grid(x, y, fw as nat, fh as nat) && y * fw + x < k {
                        from.cell_at(x, y)
                    } else {
                        start.cell_at(x, y)
                    });
                }
            }
        }
        k += 1;
    }
    proof {
        assert forall|x: int, y: int| in_grid(x, y, start.view_width(), start.view_height()) implies #[trigger] into.cell_at(x, y)
            == if in_grid(x, y, from.view_width(), from.view_height()) {
            from.cell_at(x, y)
        } else {
            start.cell_at(x, y)
        } by {
            if in_grid(x, y, fw as nat, fh as nat) {
                lemma_row_major(x, y, fw, fh);
            }
        }
    }
}

/// One coordinate of an ant and of its last position, brought onto a board whose extent in
/// that direction is `max`: an ant beyond the edge moves onto the last row or column, and its
/// last position keeps its offset behind it (or sits on the edge too if it was not behind); a
/// last position beyond the edge otherwise moves onto the edge.
pub open spec fn clamp_coord(pos: int, last: int, max: int) -> (int, int) {
    if pos >= max {
        if last >= pos {
            (max - 1, max - 1)
        } else if max - 1 >= pos - last {
            (max - 1, max - 1 - (pos - last))
        } else {
            (max - 1, 0)
        }
    } else if last >= max {
        (pos, max - 1)
    } else {
        (pos, last)
    }
}

fn clamp_coord_exec(pos: usize, last: usize, max: usize) -> (r: (usize, usize))
    requires
        max > 0,
    ensures
        r.0 == clamp_coord(pos as int, last as int, max as int).0,
        r.1 == clamp_coord(pos as int, last as int, max as int).1,
{
    if pos >= max {
        let edge = max - 1;
        if last >= pos {
            (edge, edge)
        } else {
            let diff = pos - last;
            (edge, edge.saturating_sub(diff))
        }
    } else if last >= max {
        (pos, max - 1)
    } else {
        (pos, last)
    }
}

/// The ant of board `from` placed on board `sim` (of other dimensions): its coordinates are
/// clamped onto `sim` as `clamp_coord` says, its state and explore weight stay.
pub fn clamp_ant_pos(ant: &Ant, from: &AntSimVecImpl, sim: &AntSimVecImpl) -> (r: Ant)
    requires
        from.wf(),
        sim.wf(),
        from.valid_pos(ant.position),
        from.valid_pos(ant.last_position),
    ensures
        r.state == ant.state,
        r.explore_weight == ant.explore_weight,
        sim.valid_pos(r.position),
        sim.valid_pos(r.last_position),
        sim.coord_of(r.position).x == clamp_coord(
            from.coord_of(ant.position).x as int,
            from.coord_of(ant.last_position).x as int,
            sim.view_width() as int,
        ).0,
        sim.coord_of(r.position).y == clamp_coord(
            from.coord_of(ant.position).y as int,
            from.coord_of(ant.last_position).y as int,
            sim.view_height() as int,
        ).0,
        sim.coord_of(r.last_position).x == clamp_coord(
            from.coord_of(ant.position).x as int,
            from.coord_of(ant.last_position).x as int,
            sim.view_width() as int,
        ).1,
        sim.coord_of(r.last_position).y == clamp_coord(
            from.coord_of(ant.position).y as int,
            from.coord_of(ant.last_position).y as int,
            sim.view_height() as int,
        ).1,
{
    let ant_position = from.decode(&ant.position);
    let last_ant_position = from.decode(&ant.last_position);
    let (x, last_x) = clamp_coord_exec(ant_position.x, last_ant_position.x, sim.width());
    let (y, last_y) = clamp_coord_exec(ant_position.y, last_ant_position.y, sim.height());
    let p = AntPosition { x, y };
    let lp = AntPosition { x: last_x, y: last_y };
    proof {
        sim.lemma_pos_of(x as int, y as int);
        sim.lemma_pos_of(last_x as int, last_y as int);
    }
    // both coordinates lie on `sim` now, so neither encoding fails
    let encoded_pos = sim.encode(p).unwrap();
    let encoded_last_pos = sim.encode(lp).unwrap();
    Ant::new(encoded_pos, encoded_last_pos, ant.explore_weight, ant.state)
}

} // verus!
