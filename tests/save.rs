use ant_sim::ant_sim::{AntSimConfig, AntSimulator, AntVisualRangeBuffer};
use ant_sim::ant_sim_ant::{Ant, AntState};
use ant_sim::ant_sim_frame::{AntPosition, AntSim, AntSimCell, NonMaxU16};
use ant_sim::ant_sim_frame_impl::{AntPositionImpl, AntSimVecImpl};
use ant_sim::ant_sim_save::{
    AntSimAntData, AntSimAntStateData, AntSimBoardData, AntSimData, AntSimEnv, AntSimPathPheromoneData, Dimensions,
    SaveDataError,
};

const POINTS: [(i64, i64); 8] = [(1000, 0), (707, 707), (0, 1000), (-707, 707), (-1000, 0), (-707, -707), (0, -1000), (707, -707)];

fn empty_board() -> AntSimBoardData {
    AntSimBoardData { blockers: vec![], homes: vec![], foods: vec![], paths_with_pheromones: vec![] }
}

fn data(board: AntSimBoardData, ants: Vec<AntSimAntData>, range: u8) -> AntSimData {
    AntSimData {
        env: AntSimEnv {
            seed: 11,
            decay_rate: 2,
            haul_amount: 20,
            points: POINTS,
            ant_visual_range: range,
            dimensions: Dimensions { width: 4, height: 3 },
        },
        ants,
        board,
    }
}

#[test]
fn dimensions_encode_and_decode() {
    let d = Dimensions { width: 4, height: 3 };
    assert_eq!(d.decode(6), Ok(AntPosition { x: 2, y: 1 }));
    assert_eq!(d.decode(12), Err(()));
    assert_eq!(d.encode(AntPosition { x: 2, y: 1 }), Ok(6));
    assert_eq!(d.encode(AntPosition { x: 4, y: 0 }), Err(()));
    assert_eq!(d.encode(AntPosition { x: 0, y: 3 }), Err(()));
    assert_eq!(Dimensions { width: 0, height: 3 }.decode(0), Err(()));
}

#[test]
fn path_data_refuses_the_maximum() {
    assert_eq!(AntSimPathPheromoneData { p_h: 1, p_f: u16::MAX }.to_cell(3), Err(SaveDataError::InvalidFoodPheromone(3)));
    assert_eq!(AntSimPathPheromoneData { p_h: u16::MAX, p_f: 1 }.to_cell(2), Err(SaveDataError::InvalidHomePheromone(2)));
    assert_eq!(
        AntSimPathPheromoneData { p_h: 7, p_f: 8 }.to_cell(0),
        Ok(AntSimCell::Path { pheromone_food: NonMaxU16::new(8), pheromone_home: NonMaxU16::new(7) })
    );
}

#[test]
fn board_data_applies_in_order() {
    let mut board = AntSimVecImpl::new(4, 3).unwrap();
    let d = Dimensions { width: 4, height: 3 };
    let saved = AntSimBoardData {
        blockers: vec![0, 5],
        homes: vec![5],
        foods: vec![(11, 30)],
        paths_with_pheromones: vec![(1, AntSimPathPheromoneData { p_h: 2, p_f: 3 })],
    };
    assert_eq!(saved.try_apply_to_board(&mut board, &d), Ok(()));
    assert_eq!(board.cell(&AntPositionImpl(0)), Some(AntSimCell::Blocker));
    assert_eq!(board.cell(&AntPositionImpl(5)), Some(AntSimCell::Home));
    assert_eq!(board.cell(&AntPositionImpl(11)), Some(AntSimCell::Food { amount: 30 }));
    assert_eq!(
        board.cell(&AntPositionImpl(1)),
        Some(AntSimCell::Path { pheromone_food: NonMaxU16::new(3), pheromone_home: NonMaxU16::new(2) })
    );
    let back = AntSimBoardData::try_from_board(&board);
    assert_eq!(back.blockers, vec![0]);
    assert_eq!(back.homes, vec![5]);
    assert_eq!(back.foods, vec![(11, 30)]);
    assert_eq!(back.paths_with_pheromones, vec![(1, AntSimPathPheromoneData { p_h: 2, p_f: 3 })]);
}

#[test]
fn board_data_reports_the_first_bad_entry() {
    let d = Dimensions { width: 4, height: 3 };
    let mut board = AntSimVecImpl::new(4, 3).unwrap();
    let mut saved = empty_board();
    saved.homes = vec![1, 12, 40];
    assert_eq!(saved.try_apply_to_board(&mut board, &d), Err(SaveDataError::HomePosition(1)));
    let mut saved = empty_board();
    saved.blockers = vec![99];
    assert_eq!(saved.try_apply_to_board(&mut board, &d), Err(SaveDataError::BlockerPosition(0)));
    let mut saved = empty_board();
    saved.foods = vec![(3, 1), (30, 1)];
    assert_eq!(saved.try_apply_to_board(&mut board, &d), Err(SaveDataError::FoodPosition(1)));
    let mut saved = empty_board();
    saved.paths_with_pheromones = vec![(2, AntSimPathPheromoneData { p_h: u16::MAX, p_f: 0 })];
    assert_eq!(saved.try_apply_to_board(&mut board, &d), Err(SaveDataError::InvalidHomePheromone(0)));
    let mut saved = empty_board();
    saved.paths_with_pheromones = vec![(2, AntSimPathPheromoneData { p_h: 0, p_f: 0 }), (77, AntSimPathPheromoneData { p_h: 0, p_f: 0 })];
    assert_eq!(saved.try_apply_to_board(&mut board, &d), Err(SaveDataError::PathPosition(1)));
}

#[test]
fn saved_simulation_loads() {
    let ant = AntSimAntData { position: 5, last_position: 4, exploration_factor: 400, state: AntSimAntStateData::Hauling { amount: 6 } };
    let mut board = empty_board();
    board.homes = vec![0];
    let sim = data(board, vec![ant], 3).try_into_board().unwrap();
    assert_eq!(sim.seed, 11);
    assert_eq!(sim.config.seed_step, 1);
    assert_eq!(sim.config.visual_range.range(), 3);
    assert_eq!(sim.config.food_haul_amount, 20);
    assert_eq!(sim.config.pheromone_decay_amount, 2);
    assert_eq!(sim.ants[0], Ant::new(AntPositionImpl(5), AntPositionImpl(4), 400, AntState::Hauling { amount: 6 }));
    assert_eq!(sim.sim.cell(&AntPositionImpl(0)), Some(AntSimCell::Home));
    assert_eq!((sim.sim.width(), sim.sim.height()), (4, 3));
}

#[test]
fn saved_simulation_errors() {
    assert_eq!(data(empty_board(), vec![], 21).try_into_board().unwrap_err(), SaveDataError::VisualRangeTooLarge);
    assert_eq!(data(empty_board(), vec![], 0).try_into_board().unwrap_err(), SaveDataError::VisualRangeZero);
    let bad_ant = AntSimAntData { position: 50, last_position: 0, exploration_factor: 0, state: AntSimAntStateData::Foraging };
    let good_ant = AntSimAntData { position: 1, last_position: 0, exploration_factor: 0, state: AntSimAntStateData::Foraging };
    assert_eq!(data(empty_board(), vec![good_ant, bad_ant], 1).try_into_board().unwrap_err(), SaveDataError::InvalidAntPosition(1));
    let bad_last = AntSimAntData { last_position: 12, ..good_ant };
    assert_eq!(data(empty_board(), vec![bad_last], 1).try_into_board().unwrap_err(), SaveDataError::InvalidAntLastPosition(0));
    let bad_weight = AntSimAntData { exploration_factor: 1001, ..good_ant };
    assert_eq!(data(empty_board(), vec![bad_weight], 1).try_into_board().unwrap_err(), SaveDataError::InvalidAntExploration(0));
    let mut zero = data(empty_board(), vec![], 1);
    zero.env.dimensions = Dimensions { width: 0, height: 3 };
    assert_eq!(zero.try_into_board().unwrap_err(), SaveDataError::InvalidDimensions);
    let mut far = data(empty_board(), vec![], 1);
    far.env.points[3] = (5_000_000, 0);
    assert_eq!(far.try_into_board().unwrap_err(), SaveDataError::InvalidPoints);
}

#[test]
fn simulation_saves() {
    let mut grid = AntSimVecImpl::new(4, 3).unwrap();
    let p = grid.encode(AntPosition { x: 1, y: 2 }).unwrap();
    grid.set_cell(&p, AntSimCell::Food { amount: 9 });
    let sim = AntSimulator {
        sim: grid,
        ants: vec![Ant::new(p, AntPositionImpl(0), 10, AntState::Foraging)],
        seed: 99,
        config: AntSimConfig {
            distance_points: POINTS,
            food_haul_amount: 4,
            pheromone_decay_amount: 1,
            seed_step: 1,
            visual_range: AntVisualRangeBuffer::new(2),
        },
    };
    let saved = AntSimData::from_state_sim(&sim).unwrap();
    assert_eq!(saved.env.seed, 99);
    assert_eq!(saved.env.ant_visual_range, 2);
    assert_eq!(saved.env.dimensions, Dimensions { width: 4, height: 3 });
    assert_eq!(saved.ants[0].position, 9);
    assert_eq!(saved.ants[0].last_position, 0);
    assert_eq!(saved.board.foods, vec![(9, 9)]);
    let loaded = saved.try_into_board().unwrap();
    assert_eq!(loaded.ants, sim.ants);
    assert_eq!(loaded.sim.cells(), sim.sim.cells());
}

#[test]
fn place_on_reports_checks_in_order() {
    let bad_ant = AntSimAntData { position: 50, last_position: 0, exploration_factor: 0, state: AntSimAntStateData::Foraging };
    let mut board = empty_board();
    board.homes = vec![99];
    let d = data(board, vec![bad_ant], 30);
    let g = AntSimVecImpl::new(4, 3).unwrap();
    assert_eq!(d.place_on(g).unwrap_err(), SaveDataError::InvalidAntPosition(0));
    let mut board = empty_board();
    board.homes = vec![99];
    let d = data(board, vec![], 30);
    let g = AntSimVecImpl::new(4, 3).unwrap();
    assert_eq!(d.place_on(g).unwrap_err(), SaveDataError::HomePosition(0));
    let d = data(empty_board(), vec![], 30);
    let g = AntSimVecImpl::new(4, 3).unwrap();
    assert_eq!(d.place_on(g).unwrap_err(), SaveDataError::VisualRangeTooLarge);
    let d = data(empty_board(), vec![], 20);
    let g = AntSimVecImpl::new(4, 3).unwrap();
    assert_eq!(d.place_on(g).unwrap().config.visual_range.range(), 20);
}
