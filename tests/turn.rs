use puzzle_search::turn::Move::{B, BPrime, D, DPrime, F, FPrime, L, LPrime, R, RPrime, U, UPrime};
use puzzle_search::bidisearch::{Solution, Turn};
use puzzle_search::cube::Cube;
use puzzle_search::turn::{Move, Turnable};

#[test]
fn turn_r_order() {
    let mut cube = Cube::default();
    cube.r();
    cube.r();
    cube.r();
    cube.r();

    assert_eq!(cube, Cube::default());
}

#[test]
fn r_prime_order() {
    let mut cube = Cube::default();
    cube.rprime();
    cube.rprime();
    cube.rprime();
    cube.rprime();

    assert_eq!(cube, Cube::default());
}

#[test]
fn turn_l_order() {
    let mut cube = Cube::default();
    cube.l();
    cube.l();
    cube.l();
    cube.l();

    assert_eq!(cube, Cube::default());
}

#[test]
fn l_prime_order() {
    let mut cube = Cube::default();
    cube.lprime();
    cube.lprime();
    cube.lprime();
    cube.lprime();

    assert_eq!(cube, Cube::default());
}

#[test]
fn turn_u_order() {
    let mut cube = Cube::default();
    cube.u();
    cube.u();
    cube.u();
    cube.u();

    assert_eq!(cube, Cube::default());
}

#[test]
fn u_prime_order() {
    let mut cube = Cube::default();
    cube.uprime();
    cube.uprime();
    cube.uprime();
    cube.uprime();

    assert_eq!(cube, Cube::default());
}

#[test]
fn d_order() {
    let mut cube = Cube::default();
    cube.d();
    cube.d();
    cube.d();
    cube.d();

    assert_eq!(cube, Cube::default());
}

#[test]
fn d_prime_order() {
    let mut cube = Cube::default();
    cube.dprime();
    cube.dprime();
    cube.dprime();
    cube.dprime();

    assert_eq!(cube, Cube::default());
}

#[test]
fn f_order() {
    let mut cube = Cube::default();
    cube.f();
    cube.f();
    cube.f();
    cube.f();

    assert_eq!(cube, Cube::default());
}

#[test]
fn f_prime_order() {
    let mut cube = Cube::default();
    cube.fprime();
    cube.fprime();
    cube.fprime();
    cube.fprime();

    assert_eq!(cube, Cube::default());
}

#[test]
fn turn_b_order() {
    let mut cube = Cube::default();
    cube.b();
    cube.b();
    cube.b();
    cube.b();

    assert_eq!(cube, Cube::default());
}

#[test]
fn b_prime_order() {
    let mut cube = Cube::default();
    cube.bprime();
    cube.bprime();
    cube.bprime();
    cube.bprime();

    assert_eq!(cube, Cube::default());
}

#[test]
fn sexy_r() {
    let mut cube = Cube::default();

    for _ in 0..6 {
        cube.r();
        cube.u();
        cube.rprime();
        cube.uprime();
    }

    assert_eq!(cube, Cube::default());
}

#[test]
fn sexy_l() {
    let mut cube = Cube::default();

    for _ in 0..6 {
        cube.l();
        cube.uprime();
        cube.lprime();
        cube.u();
    }

    assert_eq!(cube, Cube::default());
}

#[test]
fn sledge_hammer_r() {
    let mut cube = Cube::default();

    for _ in 0..6 {
        cube.rprime();
        cube.f();
        cube.r();
        cube.fprime();
    }

    assert_eq!(cube, Cube::default());
}

#[test]
fn sledge_hammer_l() {
    let mut cube = Cube::default();

    for _ in 0..6 {
        cube.l();
        cube.fprime();
        cube.lprime();
        cube.f();
    }

    assert_eq!(cube, Cube::default());
}

fn sune(cube: &mut Cube) {
    cube.r();
    cube.u();
    cube.rprime();
    cube.u();
    cube.r();
    cube.u();
    cube.u();
    cube.rprime();
}

#[test]
fn sune_order() {
    let mut cube = Cube::default();

    for _ in 0..6 {
        sune(&mut cube);
    }

    assert_eq!(cube, Cube::default());
}

fn antisune(cube: &mut Cube) {
    cube.lprime();
    cube.uprime();
    cube.l();
    cube.uprime();
    cube.lprime();
    cube.u();
    cube.u();
    cube.l();
}

#[test]
fn antisune_order() {
    let mut cube = Cube::default();

    for _ in 0..6 {
        antisune(&mut cube);
    }

    assert_eq!(cube, Cube::default());
}

// Note that the superflip uses all types of turns, so this is a pretty comprehensive test case
#[test]
fn superflip_order() {
    let mut cube = Cube::default();
    cube.perform_all(&[
        U, R, R, F, B, R, B, B, R, U, U, L, B, B, R, UPrime, DPrime, R, R, F, RPrime, L, B, B,
        U, U, F, F,
    ]);
    cube.perform_all(&[
        U, R, R, F, B, R, B, B, R, U, U, L, B, B, R, UPrime, DPrime, R, R, F, RPrime, L, B, B,
        U, U, F, F,
    ]);

    assert_eq!(cube, Cube::default());
}

const ALL_MOVES: [Move; 12] = [
    Move::L,
    Move::LPrime,
    Move::R,
    Move::RPrime,
    Move::U,
    Move::UPrime,
    Move::D,
    Move::DPrime,
    Move::F,
    Move::FPrime,
    Move::B,
    Move::BPrime,
];

fn scrambled() -> Cube {
    let mut cube = Cube::default();
    cube.perform_all(&[Move::R, Move::U, Move::FPrime, Move::L, Move::D, Move::B, Move::UPrime]);
    cube
}

#[test]
fn cube_turn_then_inverse_restores() {
    let cube = scrambled();
    for m in ALL_MOVES {
        let mut turned = cube;
        turned.perform(m);
        assert_ne!(turned, cube);
        turned.perform(m.inverse());
        assert_eq!(turned, cube);
    }
}

#[test]
fn cube_four_turns_restore_scramble() {
    let cube = scrambled();
    for m in ALL_MOVES {
        let mut turned = cube;
        for _ in 0..4 {
            turned.perform(m);
        }
        assert_eq!(turned, cube);
    }
}

#[test]
fn r_moves_right_column() {
    let mut cube = Cube::default();
    cube.r();
    // The right column of the top face now shows the front's green.
    for i in [2, 5, 8] {
        assert_eq!(cube.top().get(i), puzzle_search::cube::Color::Green);
        assert_eq!(cube.front().get(i), puzzle_search::cube::Color::Yellow);
        assert_eq!(cube.bottom().get(i), puzzle_search::cube::Color::Blue);
        assert_eq!(cube.back().get(8 - i), puzzle_search::cube::Color::White);
    }
    assert_eq!(cube.top().get(0), puzzle_search::cube::Color::White);
    assert_eq!(cube.right(), Cube::default().right());
}

#[test]
fn perform_all_matches_single_turns() {
    let mut one_by_one = Cube::default();
    one_by_one.r();
    one_by_one.uprime();
    one_by_one.f();
    let mut all = Cube::default();
    all.perform_all(&[Move::R, Move::UPrime, Move::F]);
    assert_eq!(one_by_one, all);
}

#[test]
fn move_names_and_join() {
    let names: Vec<&str> = ALL_MOVES.iter().map(|m| m.name()).collect();
    assert_eq!(names, vec!["L", "L'", "R", "R'", "U", "U'", "D", "D'", "F", "F'", "B", "B'"]);
    let solution = Solution { n_turns: 3, turns: vec![Move::R, Move::UPrime, Move::F] };
    assert_eq!(solution.turn_names(), "R U' F");
    let single = Solution { n_turns: 1, turns: vec![Move::D] };
    assert_eq!(single.turn_names(), "D");
    let empty: Solution<Move> = Solution { n_turns: 0, turns: vec![] };
    assert_eq!(empty.turn_names(), "");
}
