use puzzle_search::turn::Move::{B, BPrime, D, DPrime, F, FPrime, L, LPrime, R, RPrime, U, UPrime};
use puzzle_search::cube::Cube;
use puzzle_search::solver::Solver;
use puzzle_search::turn::Turnable;

#[test]
fn one_turn() {
    let mut cube = Cube::default();
    cube.r();

    let mut solver = Solver::from_state(cube);
    assert_eq!(solver.solve(1), Some(1));
}

#[test]
fn two_turns() {
    let mut cube = Cube::default();
    cube.r();
    cube.u();

    let mut solver = Solver::from_state(cube);
    assert_eq!(solver.solve(1), Some(2));
}

#[test]
fn three_turns() {
    let mut cube = Cube::default();
    cube.r();
    cube.u();
    cube.rprime();

    let mut solver = Solver::from_state(cube);
    assert_eq!(solver.solve(1), None);
}

#[test]
fn four_turns() {
    let mut cube = Cube::default();
    cube.r();
    cube.u();
    cube.rprime();
    cube.uprime();

    let mut solver = Solver::from_state(cube);
    assert_eq!(solver.solve(2), Some(4));
}

#[test]
fn five_turns() {
    let mut cube = Cube::default();
    cube.r();
    cube.u();
    cube.rprime();
    cube.uprime();
    cube.r();

    let mut solver = Solver::from_state(cube);
    assert_eq!(solver.solve(3), Some(5));
}

#[test]
fn six_turns() {
    let mut cube = Cube::default();
    cube.r();
    cube.u();
    cube.rprime();
    cube.uprime();
    cube.r();
    cube.u();

    let mut solver = Solver::from_state(cube);
    assert_eq!(solver.solve(3), Some(6));
}

#[test]
fn seven_turns() {
    let mut cube = Cube::default();
    cube.r();
    cube.u();
    cube.rprime();
    cube.uprime();
    cube.r();
    cube.u();
    cube.rprime();

    let mut solver = Solver::from_state(cube);
    assert_eq!(solver.solve(3), None);
}

#[test]
fn eight_turns() {
    let mut cube = Cube::default();
    cube.r();
    cube.u();
    cube.rprime();
    cube.uprime();
    cube.r();
    cube.u();
    cube.rprime();
    cube.uprime();

    let mut solver = Solver::from_state(cube);
    assert_eq!(solver.solve(3), None);
}

#[test]
fn nine_turns() {
    let mut cube = Cube::default();
    cube.r();
    cube.u();
    cube.rprime();
    cube.uprime();
    cube.r();
    cube.u();
    cube.rprime();
    cube.uprime();
    cube.r();

    let mut solver = Solver::from_state(cube);
    assert_eq!(solver.solve(4), None);
}

#[test]
fn sune() {
    let mut cube = Cube::default();
    cube.r();
    cube.u();
    cube.rprime();
    cube.u();
    cube.r();
    cube.u();
    cube.u();
    cube.rprime();

    let mut solver = Solver::from_state(cube);
    assert_eq!(solver.solve(4), Some(8));
}

#[test]
fn checkerboard() {
    let mut cube = Cube::default();
    cube.r();
    cube.r();
    cube.l();
    cube.l();
    cube.f();
    cube.f();
    cube.b();
    cube.b();
    cube.u();
    cube.u();
    cube.d();
    cube.d();

    let mut solver = Solver::from_state(cube);
    assert_eq!(solver.solve(6), Some(12));
}

#[test]
fn solved_cube_is_distance_zero() {
    let mut solver = Solver::from_state(Cube::default());
    assert_eq!(solver.solve(0), Some(0));
}

#[test]
fn every_single_turn_is_distance_one() {
    for m in [L, LPrime, R, RPrime, U, UPrime, D, DPrime, F, FPrime, B, BPrime] {
        let mut cube = Cube::default();
        cube.perform(m);
        let mut solver = Solver::from_state(cube);
        assert_eq!(solver.solve(0), None);
        let mut solver = Solver::from_state(cube);
        assert_eq!(solver.solve(1), Some(1));
    }
}

#[test]
fn commutator_is_no_longer_than_written() {
    // R U R' U' returns to solved after six repetitions; one repetition is
    // solved in at most its four turns.
    let mut cube = Cube::default();
    cube.r();
    cube.u();
    cube.rprime();
    cube.uprime();
    let mut solver = Solver::from_state(cube);
    let n = solver.solve(2).expect("within the bound");
    assert!(n <= 4);
}

#[test]
fn cube_bound_exhaustion_is_none() {
    let mut cube = Cube::default();
    cube.r();
    cube.u();
    cube.rprime();
    let mut solver = Solver::from_state(cube);
    assert_eq!(solver.solve(0), None);
}

#[test]
fn odd_scrambles_within_bound() {
    let seq = [0, 1, 2, 3, 0, 1, 2, 3, 0];
    for (len, depth) in [(3usize, 2u8), (7, 4), (9, 5)] {
        let mut cube = Cube::default();
        for &k in &seq[..len] {
            match k {
                0 => cube.r(),
                1 => cube.u(),
                2 => cube.rprime(),
                _ => cube.uprime(),
            }
        }
        let mut solver = Solver::from_state(cube);
        assert_eq!(solver.solve(depth), Some(len as u8));
    }
}
