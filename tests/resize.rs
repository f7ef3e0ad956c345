use ant_sim::ant_sim_ant::{Ant, AntState};
use ant_sim::ant_sim_frame::{AntPosition, AntSim, AntSimCell};
use ant_sim::ant_sim_frame_impl::AntSimVecImpl;
use ant_sim::ant_sim_frame_impl2::AntSimFoldImpl;
use ant_sim::ant_sim_resize::{clamp_ant_pos, translate_sim};

#[test]
fn translate_keeps_cells_that_fit() {
    let mut from = AntSimVecImpl::new(5, 5).unwrap();
    let inside = from.encode(AntPosition { x: 1, y: 2 }).unwrap();
    let outside = from.encode(AntPosition { x: 4, y: 4 }).unwrap();
    from.set_cell(&inside, AntSimCell::Home);
    from.set_cell(&outside, AntSimCell::Blocker);
    let mut into = AntSimVecImpl::new(3, 6).unwrap();
    let corner = into.encode(AntPosition { x: 2, y: 5 }).unwrap();
    into.set_cell(&corner, AntSimCell::Food { amount: 4 });
    translate_sim(&from, &mut into);
    let p = into.encode(AntPosition { x: 1, y: 2 }).unwrap();
    assert_eq!(into.cell(&p), Some(AntSimCell::Home));
    assert_eq!(into.cell(&corner), Some(AntSimCell::Food { amount: 4 }));
    let blockers = into.cells().iter().filter(|(c, _)| *c == AntSimCell::Blocker).count();
    assert_eq!(blockers, 0);
}

#[test]
fn translate_between_fold_grids() {
    let mut from = AntSimFoldImpl::new(9, 9).unwrap();
    let p = from.encode(AntPosition { x: 8, y: 3 }).unwrap();
    from.set_cell(&p, AntSimCell::Food { amount: 1 });
    let mut into = AntSimFoldImpl::new(16, 4).unwrap();
    translate_sim(&from, &mut into);
    let q = into.encode(AntPosition { x: 8, y: 3 }).unwrap();
    assert_eq!(into.cell(&q), Some(AntSimCell::Food { amount: 1 }));
}

#[test]
fn clamp_moves_ants_onto_smaller_board() {
    let from = AntSimVecImpl::new(10, 10).unwrap();
    let to = AntSimVecImpl::new(4, 6).unwrap();
    let pos = from.encode(AntPosition { x: 8, y: 2 }).unwrap();
    let last = from.encode(AntPosition { x: 7, y: 3 }).unwrap();
    let ant = Ant::new(pos, last, 120, AntState::Hauling { amount: 2 });
    let r = clamp_ant_pos(&ant, &from, &to);
    assert_eq!(to.decode(&r.position), AntPosition { x: 3, y: 2 });
    assert_eq!(to.decode(&r.last_position), AntPosition { x: 2, y: 3 });
    assert_eq!(r.state, AntState::Hauling { amount: 2 });
    assert_eq!(r.explore_weight, 120);
    let pos = from.encode(AntPosition { x: 3, y: 9 }).unwrap();
    let last = from.encode(AntPosition { x: 4, y: 9 }).unwrap();
    let r = clamp_ant_pos(&Ant::new(pos, last, 0, AntState::Foraging), &from, &to);
    assert_eq!(to.decode(&r.position), AntPosition { x: 3, y: 5 });
    assert_eq!(to.decode(&r.last_position), AntPosition { x: 3, y: 5 });
}
