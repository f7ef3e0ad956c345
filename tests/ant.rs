use std::hash::Hasher;

use ant_sim::ant_sim_ant::{dist_of, fold_hash, isqrt, simple_hash2, Ant, AntState};
use ant_sim::ant_sim_frame_impl::AntPositionImpl;

#[test]
fn fold_hash_xors_upper_halves_down() {
    assert_eq!(fold_hash(0), 0);
    assert_eq!(fold_hash(1), 1);
    assert_eq!(fold_hash(1 << 48), 1);
    assert_eq!(fold_hash(0xdead_beef_cafe_babe), 4098);
}

#[test]
fn simple_hash2_digests_position_and_seed() {
    let mut h = fasthash::mum::Hasher64::default();
    h.write_u64(5);
    h.write_u64(9);
    let digest = h.finish();
    assert_eq!(simple_hash2(&AntPositionImpl(5), 9), fold_hash(digest));
    assert_eq!(simple_hash2(&AntPositionImpl(5), 9), simple_hash2(&AntPositionImpl(5), 9));
    let values: Vec<u16> = (0..16u64).map(|s| simple_hash2(&AntPositionImpl(5), s)).collect();
    assert!(values.iter().any(|v| *v != values[0]));
}

#[test]
fn integer_square_roots() {
    assert_eq!(isqrt(0), 0);
    assert_eq!(isqrt(1), 1);
    assert_eq!(isqrt(15), 3);
    assert_eq!(isqrt(16), 4);
    assert_eq!(isqrt(u64::MAX), 0xffff_ffff);
}

#[test]
fn distances_between_points() {
    assert_eq!(dist_of((0, 0), (3, 4)), 5);
    assert_eq!(dist_of((1000, 0), (-1000, 0)), 2000);
    assert_eq!(dist_of((1000, 0), (707, 707)), 765);
}

#[test]
fn ant_accessors() {
    let mut a = Ant::new_default(AntPositionImpl(4), 250);
    assert_eq!(*a.position(), AntPositionImpl(4));
    assert_eq!(*a.last_position(), AntPositionImpl(4));
    assert_eq!(*a.state(), AntState::Foraging);
    assert_eq!(a.exploration_weight(), 250);
    *a.state_mut() = AntState::Hauling { amount: 3 };
    assert_eq!(a.state, AntState::Hauling { amount: 3 });
    a.position = AntPositionImpl(5);
    a.stand_still();
    assert_eq!(a.last_position, AntPositionImpl(5));
    let b = Ant::new(AntPositionImpl(1), AntPositionImpl(2), 0, AntState::Foraging);
    assert_eq!(*b.last_position(), AntPositionImpl(2));
}
