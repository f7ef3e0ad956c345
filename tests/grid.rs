use ant_sim::ant_sim::{neighbors, AntVisualRangeBuffer};
use ant_sim::ant_sim_frame::{AntPosition, AntSim, AntSimCell, NonMaxU16};
use ant_sim::ant_sim_frame_impl::{AntPositionImpl, AntSimCellImpl, AntSimVecImpl, NewAntSimVecImplError};
use ant_sim::ant_sim_frame_impl2::{AntPositionImplFold, AntSimFoldImpl, NewAntSimFoldImplError};

fn path(f: u16, h: u16) -> AntSimCell {
    AntSimCell::Path { pheromone_food: NonMaxU16::new(f), pheromone_home: NonMaxU16::new(h) }
}

#[test]
fn non_max_rejects_the_maximum() {
    assert!(NonMaxU16::try_new(u16::MAX).is_err());
    assert_eq!(NonMaxU16::try_new(65534).unwrap().get(), 65534);
    assert_eq!(NonMaxU16::new(0).get(), 0);
}

#[test]
fn pheromone_decay_saturates() {
    assert_eq!(NonMaxU16::new(5).dec_by(10).get(), 0);
    assert_eq!(NonMaxU16::new(15).dec_by(10).get(), 5);
    let c = AntSimCellImpl::from_cell(path(5, 5)).with_decreased_pheromone(10);
    assert_eq!(c.to_cell(), path(0, 0));
}

#[test]
fn decay_leaves_other_cells_alone() {
    for cell in [AntSimCell::Blocker, AntSimCell::Home, AntSimCell::Food { amount: 3 }, AntSimCell::Food { amount: u16::MAX }] {
        let c = AntSimCellImpl::from_cell(cell).with_decreased_pheromone(100);
        assert_eq!(c.to_cell(), cell);
    }
}

#[test]
fn cell_packing_round_trips() {
    let cells = [
        path(0, 0),
        path(65534, 65534),
        path(17, 9000),
        AntSimCell::Blocker,
        AntSimCell::Home,
        AntSimCell::Food { amount: 0 },
        AntSimCell::Food { amount: u16::MAX },
        AntSimCell::Food { amount: 42 },
    ];
    for cell in cells {
        assert_eq!(AntSimCellImpl::from_cell(cell).to_cell(), cell);
    }
}

#[test]
fn clamp_to_takes_the_smaller_coordinates() {
    let p = AntPosition { x: 10, y: 2 }.clamp_to(AntPosition { x: 4, y: 7 });
    assert_eq!(p, AntPosition { x: 4, y: 2 });
}

#[test]
fn vec_grid_construction_errors() {
    assert_eq!(AntSimVecImpl::new(0, 5).unwrap_err(), NewAntSimVecImplError::DimensionZero);
    assert_eq!(AntSimVecImpl::new(5, 0).unwrap_err(), NewAntSimVecImplError::DimensionZero);
    assert_eq!(AntSimVecImpl::new(usize::MAX, 2).unwrap_err(), NewAntSimVecImplError::DimensionTooLarge);
    assert_eq!(AntSimVecImpl::new(usize::MAX / 2 + 1, 1).unwrap_err(), NewAntSimVecImplError::DimensionTooLarge);
    let g = AntSimVecImpl::new(3, 2).unwrap();
    assert_eq!((g.width(), g.height(), g.cell_count()), (3, 2, 6));
}

#[test]
fn vec_grid_encode_decode_round_trip() {
    let g = AntSimVecImpl::new(7, 5).unwrap();
    for y in 0..5 {
        for x in 0..7 {
            let p = g.encode(AntPosition { x, y }).unwrap();
            assert_eq!(p, AntPositionImpl(y * 7 + x));
            assert_eq!(g.decode(&p), AntPosition { x, y });
        }
    }
    assert_eq!(g.encode(AntPosition { x: 7, y: 0 }), None);
    assert_eq!(g.encode(AntPosition { x: 0, y: 5 }), None);
}

#[test]
fn vec_grid_cells_and_writes() {
    let mut g = AntSimVecImpl::new(3, 3).unwrap();
    let p = g.encode(AntPosition { x: 2, y: 1 }).unwrap();
    g.set_cell(&p, AntSimCell::Home);
    assert_eq!(g.cell(&p), Some(AntSimCell::Home));
    assert_eq!(g.cell(&AntPositionImpl(9)), None);
    g.set_cell(&AntPositionImpl(100), AntSimCell::Blocker);
    let cells = g.cells();
    assert_eq!(cells.len(), 9);
    assert_eq!(cells[5], (AntSimCell::Home, AntPositionImpl(5)));
    assert_eq!(cells[0], (path(0, 0), AntPositionImpl(0)));
    let other = AntSimVecImpl::new(3, 3).unwrap();
    assert!(g.check_compatible(&other));
    assert!(!g.check_compatible(&AntSimVecImpl::new(9, 1).unwrap()));
}

#[test]
fn vec_grid_decay_onto_other_grid() {
    let mut g = AntSimVecImpl::new(2, 2).unwrap();
    let p = g.encode(AntPosition { x: 1, y: 1 }).unwrap();
    g.set_cell(&p, path(100, 3));
    let mut on = AntSimVecImpl::new(2, 2).unwrap();
    g.decay_pheromones_on(&mut on, 4);
    assert_eq!(on.cell(&p), Some(path(96, 0)));
}

#[test]
fn fold_grid_round_trip_and_errors() {
    assert_eq!(AntSimFoldImpl::new(0, 3).unwrap_err(), NewAntSimFoldImplError::DimensionZero);
    assert_eq!(AntSimFoldImpl::new(usize::MAX, 3).unwrap_err(), NewAntSimFoldImplError::DimensionTooLarge);
    let mut g = AntSimFoldImpl::new(10, 9).unwrap();
    assert_eq!((g.width(), g.height(), g.cell_count()), (10, 9, 90));
    for y in 0..9 {
        for x in 0..10 {
            let p = g.encode(AntPosition { x, y }).unwrap();
            assert_eq!(g.decode(&p), AntPosition { x, y });
        }
    }
    // the second fold of the first fold row starts at 64
    assert_eq!(g.encode(AntPosition { x: 8, y: 0 }), Some(AntPositionImplFold(64)));
    assert_eq!(g.encode(AntPosition { x: 1, y: 8 }), Some(AntPositionImplFold(2 * 64 + 1)));
    assert_eq!(g.encode(AntPosition { x: 10, y: 0 }), None);
    let p = g.encode(AntPosition { x: 9, y: 8 }).unwrap();
    g.set_cell(&p, AntSimCell::Food { amount: 12 });
    assert_eq!(g.cell(&p), Some(AntSimCell::Food { amount: 12 }));
    // padding inside a fold is no cell of the grid
    assert_eq!(g.cell(&AntPositionImplFold(64 + 2)), None);
    let cells = g.cells();
    assert_eq!(cells.len(), 90);
    assert_eq!(cells[8 * 10 + 9], (AntSimCell::Food { amount: 12 }, p));
    assert!(g.check_compatible(&AntSimFoldImpl::new(10, 9).unwrap()));
}

fn ring(buf: &AntVisualRangeBuffer<AntPositionImpl>, g: &AntSimVecImpl, r: usize) -> Vec<Option<AntPosition>> {
    buf.buffers()[r - 1].iter().map(|p| p.map(|p| g.decode(&p))).collect()
}

#[test]
fn interior_rings_are_full() {
    let g = AntSimVecImpl::new(9, 9).unwrap();
    let mut buf = AntVisualRangeBuffer::new(3);
    assert_eq!(buf.range(), 3);
    let c = g.encode(AntPosition { x: 4, y: 4 }).unwrap();
    neighbors(&g, &c, &mut buf);
    let rings = buf.buffers();
    for r in 1..=3usize {
        assert_eq!(rings[r - 1].len(), 8 * r);
        assert!(rings[r - 1].iter().all(|p| p.is_some()));
        for p in ring(&buf, &g, r) {
            let p = p.unwrap();
            let d = (p.x as i64 - 4).abs().max((p.y as i64 - 4).abs());
            assert_eq!(d as usize, r);
        }
    }
    let first = ring(&buf, &g, 1);
    let expected = [(3, 5), (4, 5), (5, 5), (5, 4), (5, 3), (4, 3), (3, 3), (3, 4)];
    for (k, (x, y)) in expected.iter().enumerate() {
        assert_eq!(first[k], Some(AntPosition { x: *x, y: *y }));
    }
}

#[test]
fn corner_rings_keep_their_size() {
    let g = AntSimVecImpl::new(6, 5).unwrap();
    let mut buf = AntVisualRangeBuffer::new(2);
    let c = g.encode(AntPosition { x: 0, y: 0 }).unwrap();
    neighbors(&g, &c, &mut buf);
    let rings = buf.buffers();
    assert_eq!(rings[0].len(), 8);
    assert_eq!(rings[1].len(), 16);
    assert_eq!(rings[0].iter().filter(|p| p.is_some()).count(), 3);
    assert_eq!(rings[1].iter().filter(|p| p.is_some()).count(), 5);
    let first = ring(&buf, &g, 1);
    assert_eq!(first[1], Some(AntPosition { x: 0, y: 1 }));
    assert_eq!(first[2], Some(AntPosition { x: 1, y: 1 }));
    assert_eq!(first[3], Some(AntPosition { x: 1, y: 0 }));
    assert_eq!(first[0], None);
}

#[test]
fn rings_are_cleared_between_uses() {
    let g = AntSimVecImpl::new(6, 6).unwrap();
    let mut buf = AntVisualRangeBuffer::new(2);
    let mid = g.encode(AntPosition { x: 3, y: 3 }).unwrap();
    neighbors(&g, &mid, &mut buf);
    let corner = g.encode(AntPosition { x: 5, y: 5 }).unwrap();
    neighbors(&g, &corner, &mut buf);
    let rings = buf.buffers();
    assert_eq!(rings[0].iter().filter(|p| p.is_some()).count(), 3);
    assert_eq!(rings[1].iter().filter(|p| p.is_some()).count(), 5);
}

#[test]
fn fold_grid_neighbors() {
    let g = AntSimFoldImpl::new(12, 12).unwrap();
    let mut buf = AntVisualRangeBuffer::new(2);
    let c = g.encode(AntPosition { x: 8, y: 7 }).unwrap();
    neighbors(&g, &c, &mut buf);
    let rings = buf.buffers();
    assert_eq!(g.decode(&rings[0][1].unwrap()), AntPosition { x: 8, y: 8 });
    assert_eq!(g.decode(&rings[1][0].unwrap()), AntPosition { x: 6, y: 9 });
    assert!(rings[1].iter().all(|p| p.is_some()));
}
