use ant_sim::ant_sim::{AntSimConfig, AntSimulator, AntVisualRangeBuffer};
use ant_sim::ant_sim_ant::{Ant, AntState};
use ant_sim::ant_sim_frame::{AntPosition, AntSim, AntSimCell, NonMaxU16};
use ant_sim::ant_sim_frame_impl::AntSimVecImpl;

const POINTS: [(i64, i64); 8] = [
    (1000, 0),
    (707, 707),
    (0, 1000),
    (-707, 707),
    (-1000, 0),
    (-707, -707),
    (0, -1000),
    (707, -707),
];

fn at(sim: &AntSimVecImpl, x: usize, y: usize) -> ant_sim::ant_sim_frame_impl::AntPositionImpl {
    sim.encode(AntPosition { x, y }).unwrap()
}

fn scenario() -> AntSimulator {
    let mut sim = AntSimVecImpl::new(5, 5).unwrap();
    let home = at(&sim, 2, 2);
    let food = at(&sim, 0, 2);
    sim.set_cell(&home, AntSimCell::Home);
    sim.set_cell(&food, AntSimCell::Food { amount: 100 });
    AntSimulator {
        sim,
        ants: vec![Ant::new_default(home, 500)],
        seed: 1,
        config: AntSimConfig {
            distance_points: POINTS,
            food_haul_amount: 10,
            pheromone_decay_amount: 0,
            seed_step: 1,
            visual_range: AntVisualRangeBuffer::new(1),
        },
    }
}

#[test]
fn end_to_end_forage_and_return() {
    let mut a = scenario();
    let mut b = scenario();
    let food = at(&a.sim, 0, 2);
    let home = at(&a.sim, 2, 2);
    let mut picked_up = false;
    let mut returned = false;
    for _ in 0..50 {
        a.update(&mut b);
        std::mem::swap(&mut a, &mut b);
        let ant = a.ants[0];
        if !picked_up && ant.position == food && ant.state == (AntState::Hauling { amount: 10 }) {
            picked_up = true;
            assert_eq!(a.sim.cell(&food), Some(AntSimCell::Food { amount: 90 }));
        }
        if picked_up && ant.position == home && ant.state == AntState::Foraging {
            returned = true;
            break;
        }
    }
    assert!(picked_up);
    assert!(returned);
}

#[test]
fn food_pickup_empties_small_source() {
    let mut sim = AntSimVecImpl::new(3, 3).unwrap();
    let p = at(&sim, 1, 1);
    sim.set_cell(&p, AntSimCell::Food { amount: 5 });
    let make = |sim: AntSimVecImpl| AntSimulator {
        sim,
        ants: vec![Ant::new_default(p, 0)],
        seed: 7,
        config: AntSimConfig {
            distance_points: POINTS,
            food_haul_amount: 20,
            pheromone_decay_amount: 0,
            seed_step: 1,
            visual_range: AntVisualRangeBuffer::new(1),
        },
    };
    let a = make(sim.clone());
    let mut b = make(sim);
    a.update(&mut b);
    assert_eq!(b.ants[0].state, AntState::Hauling { amount: 5 });
    assert_eq!(b.ants[0].position, p);
    assert_eq!(b.ants[0].last_position, p);
    // the food is used up; the trail step then marks the way home where the ant stood
    assert_eq!(
        b.sim.cell(&p),
        Some(AntSimCell::Path { pheromone_food: NonMaxU16::new(0), pheromone_home: NonMaxU16::new(65534) })
    );
}

fn single_ant(sim: AntSimVecImpl, ant: Ant, range: usize) -> AntSimulator {
    AntSimulator {
        sim,
        ants: vec![ant],
        seed: 3,
        config: AntSimConfig {
            distance_points: POINTS,
            food_haul_amount: 20,
            pheromone_decay_amount: 0,
            seed_step: 1,
            visual_range: AntVisualRangeBuffer::new(range),
        },
    }
}

#[test]
fn hauling_ant_drops_food_at_home() {
    let mut sim = AntSimVecImpl::new(3, 3).unwrap();
    let p = at(&sim, 1, 1);
    sim.set_cell(&p, AntSimCell::Home);
    let ant = Ant::new(p, at(&sim, 0, 0), 300, AntState::Hauling { amount: 7 });
    let a = single_ant(sim.clone(), ant, 1);
    let mut b = single_ant(sim, ant, 1);
    a.update(&mut b);
    assert_eq!(b.ants[0].state, AntState::Foraging);
    assert_eq!(b.ants[0].position, p);
    assert_eq!(b.ants[0].last_position, p);
    assert_eq!(b.sim.cell(&p), Some(AntSimCell::Home));
}

#[test]
fn ant_surrounded_by_blockers_takes_the_only_opening() {
    for open in 0..8usize {
        for seed in 0..5u64 {
            let mut sim = AntSimVecImpl::new(5, 5).unwrap();
            let centre = at(&sim, 2, 2);
            let ring = [(1, 3), (2, 3), (3, 3), (3, 2), (3, 1), (2, 1), (1, 1), (1, 2)];
            for (k, (x, y)) in ring.iter().enumerate() {
                if k != open {
                    let q = at(&sim, *x, *y);
                    sim.set_cell(&q, AntSimCell::Blocker);
                }
            }
            let mut a = single_ant(sim.clone(), Ant::new_default(centre, 500), 2);
            a.seed = seed;
            let mut b = single_ant(sim, Ant::new_default(centre, 500), 2);
            a.update(&mut b);
            let (x, y) = ring[open];
            assert_eq!(b.ants[0].position, at(&b.sim, x, y));
            assert_eq!(b.ants[0].last_position, centre);
        }
    }
}

#[test]
fn boxed_in_ant_stands_still() {
    let mut sim = AntSimVecImpl::new(3, 3).unwrap();
    let centre = at(&sim, 1, 1);
    for y in 0..3 {
        for x in 0..3 {
            if (x, y) != (1, 1) {
                let q = at(&sim, x, y);
                sim.set_cell(&q, AntSimCell::Blocker);
            }
        }
    }
    let a = single_ant(sim.clone(), Ant::new(centre, at(&sim, 0, 0), 0, AntState::Foraging), 1);
    let mut b = single_ant(sim, Ant::new_default(centre, 0), 1);
    a.update(&mut b);
    assert_eq!(b.ants[0].position, centre);
    assert_eq!(b.ants[0].last_position, centre);
}

#[test]
fn identical_simulators_stay_identical() {
    let mut a1 = scenario();
    let mut b1 = scenario();
    let mut a2 = scenario();
    let mut b2 = scenario();
    for _ in 0..30 {
        a1.update(&mut b1);
        std::mem::swap(&mut a1, &mut b1);
        a2.update(&mut b2);
        std::mem::swap(&mut a2, &mut b2);
        assert_eq!(a1.ants, a2.ants);
        assert_eq!(a1.seed, a2.seed);
        assert_eq!(a1.sim.cells(), a2.sim.cells());
    }
}

#[test]
fn update_decays_and_advances_seed() {
    let mut sim = AntSimVecImpl::new(4, 4).unwrap();
    let p = at(&sim, 3, 3);
    sim.set_cell(&p, AntSimCell::Path { pheromone_food: NonMaxU16::new(5), pheromone_home: NonMaxU16::new(300) });
    let make = |sim: AntSimVecImpl| AntSimulator {
        sim,
        ants: vec![],
        seed: u64::MAX,
        config: AntSimConfig {
            distance_points: POINTS,
            food_haul_amount: 20,
            pheromone_decay_amount: 10,
            seed_step: 2,
            visual_range: AntVisualRangeBuffer::new(1),
        },
    };
    let a = make(sim.clone());
    let mut b = make(sim);
    a.update(&mut b);
    assert_eq!(
        b.sim.cell(&p),
        Some(AntSimCell::Path { pheromone_food: NonMaxU16::new(0), pheromone_home: NonMaxU16::new(290) })
    );
    assert_eq!(b.seed, 1);
}


#[test]
fn update_refuses_incompatible_boards() {
    let a = single_ant(AntSimVecImpl::new(5, 5).unwrap(), Ant::new_default(ant_sim::ant_sim_frame_impl::AntPositionImpl(0), 0), 1);
    let mut b = single_ant(AntSimVecImpl::new(4, 5).unwrap(), Ant::new_default(ant_sim::ant_sim_frame_impl::AntPositionImpl(3), 0), 1);
    b.seed = 77;
    assert!(!a.checked_update(&mut b));
    assert_eq!(b.seed, 77);
    assert_eq!(b.ants[0].position, ant_sim::ant_sim_frame_impl::AntPositionImpl(3));
    assert_eq!(b.sim.width(), 4);
    let mut c = single_ant(AntSimVecImpl::new(5, 5).unwrap(), Ant::new_default(ant_sim::ant_sim_frame_impl::AntPositionImpl(0), 0), 1);
    assert!(a.checked_update(&mut c));
    assert_eq!(c.seed, 4);
}

#[test]
fn choose_move_follows_explore_values() {
    // a bare 3x3 board, ant in the middle, no trails: with full exploration the move goes to
    // the neighbour with the largest value times its momentum factor
    let sim = AntSimVecImpl::new(3, 3).unwrap();
    let centre = at(&sim, 1, 1);
    let ant = Ant::new_default(centre, 1000);
    let mut buf = AntVisualRangeBuffer::new(1);
    ant_sim::ant_sim::neighbors(&sim, &centre, &mut buf);
    let explore = vec![10, 10, 10, 900, 10, 10, 10, 10];
    assert_eq!(ant.choose_move(&sim, &buf, &explore, &POINTS), Some(3));
    let ties = vec![5; 8];
    assert_eq!(ant.choose_move(&sim, &buf, &ties, &POINTS), Some(0));
}
