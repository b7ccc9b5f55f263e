use puzzle_search::bidisearch::{Solver, Turn, Turnable};
use puzzle_search::pyraminx::{Color, Face, Pyraminx, PyraminxTurn};

#[test]
fn pyraminx_r_order() {
    let mut pyraminx = Pyraminx::default();

    pyraminx.r();
    pyraminx.r();
    pyraminx.r();

    assert_eq!(pyraminx, Pyraminx::default());
}

#[test]
fn pyraminx_l_order() {
    let mut pyraminx = Pyraminx::default();

    pyraminx.l();
    pyraminx.l();
    pyraminx.l();

    assert_eq!(pyraminx, Pyraminx::default());
}

#[test]
fn pyraminx_u_order() {
    let mut pyraminx = Pyraminx::default();

    pyraminx.u();
    pyraminx.u();
    pyraminx.u();

    assert_eq!(pyraminx, Pyraminx::default());
}

#[test]
fn pyraminx_b_order() {
    let mut pyraminx = Pyraminx::default();

    pyraminx.b();
    pyraminx.b();
    pyraminx.b();

    assert_eq!(pyraminx, Pyraminx::default());
}

#[test]
fn sexy_rl() {
    let mut pyraminx = Pyraminx::default();

    for _ in 0..3 {
        pyraminx.r();
        pyraminx.l();
        pyraminx.r_prime();
        pyraminx.l_prime();
    }

    assert_eq!(pyraminx, Pyraminx::default());
}

#[test]
fn orient_edges_order() {
    let mut pyraminx = Pyraminx::default();

    for _ in 0..3 {
        pyraminx.r();
        pyraminx.u();
        pyraminx.r_prime();
        pyraminx.u();
        pyraminx.r();
        pyraminx.u();
        pyraminx.r_prime();
    }

    assert_eq!(pyraminx, Pyraminx::default());
}

const ALL_TURNS: [PyraminxTurn; 8] = [
    PyraminxTurn::Left,
    PyraminxTurn::LeftPrime,
    PyraminxTurn::Right,
    PyraminxTurn::RightPrime,
    PyraminxTurn::Back,
    PyraminxTurn::BackPrime,
    PyraminxTurn::Up,
    PyraminxTurn::UpPrime,
];

fn scrambled() -> Pyraminx {
    Pyraminx::default()
        .make_turn(PyraminxTurn::Back)
        .make_turn(PyraminxTurn::Right)
        .make_turn(PyraminxTurn::Left)
        .make_turn(PyraminxTurn::RightPrime)
        .make_turn(PyraminxTurn::Up)
}

#[test]
fn pyraminx_turn_then_inverse_restores() {
    let state = scrambled();
    for turn in ALL_TURNS {
        assert_eq!(state.make_turn(turn).make_turn(turn.inverse()), state);
        assert_ne!(state.make_turn(turn), state);
    }
}

#[test]
fn pyraminx_three_turns_restore() {
    let state = scrambled();
    for turn in ALL_TURNS {
        let turned = state.make_turn(turn).make_turn(turn).make_turn(turn);
        assert_eq!(turned, state);
    }
}

#[test]
fn pyraminx_prime_is_two_turns() {
    let mut once = scrambled();
    once.r_prime();
    let mut twice = scrambled();
    twice.r();
    twice.r();
    assert_eq!(once, twice);
}

#[test]
fn pyraminx_turn_names() {
    let names: Vec<&str> = ALL_TURNS.iter().map(|t| t.name()).collect();
    assert_eq!(names, vec!["L", "L'", "R", "R'", "B", "B'", "U", "U'"]);
}

#[test]
fn pyraminx_face_copy() {
    let mut face = Face::fill(Color::Yellow);
    let other = Face::fill(Color::Red);
    face.copy_from(&other, &[(0, 0), (1, 1), (5, 5)]);
    assert_eq!(face.data, [Color::Red, Color::Red, Color::Yellow, Color::Yellow, Color::Yellow, Color::Red]);
}

#[test]
fn pyraminx_solved_is_distance_zero() {
    let mut solver = Solver::from_state(Pyraminx::default());
    assert_eq!(solver.try_solve(0).map(|s| s.n_turns), Some(0));
    let mut solver = Solver::from_state(Pyraminx::default());
    assert_eq!(solver.try_solve(5).map(|s| s.n_turns), Some(0));
}

#[test]
fn pyraminx_one_turn_is_distance_one() {
    for turn in ALL_TURNS {
        for max_depth in 1..4 {
            let state = Pyraminx::default().make_turn(turn);
            let mut solver = Solver::from_state(state);
            assert_eq!(solver.try_solve(max_depth).map(|s| s.n_turns), Some(1));
        }
    }
}

#[test]
fn pyraminx_bound_exhaustion_is_none() {
    // Two turns need both frontiers expanded once.
    let state = Pyraminx::default()
        .make_turn(PyraminxTurn::Right)
        .make_turn(PyraminxTurn::Left);
    let mut solver = Solver::from_state(state);
    assert!(solver.try_solve(0).is_none());
    let mut solver = Solver::from_state(state);
    assert_eq!(solver.try_solve(1).map(|s| s.n_turns), Some(2));
}

#[test]
fn pyraminx_scramble_is_solved_within_its_length() {
    let state = Pyraminx::default()
        .make_turn(PyraminxTurn::Back)
        .make_turn(PyraminxTurn::Right)
        .make_turn(PyraminxTurn::Left)
        .make_turn(PyraminxTurn::RightPrime)
        .make_turn(PyraminxTurn::Left)
        .make_turn(PyraminxTurn::Right)
        .make_turn(PyraminxTurn::Up)
        .make_turn(PyraminxTurn::Left)
        .make_turn(PyraminxTurn::Right);
    let mut solver = Solver::from_state(state);
    let solution = solver.try_solve(6).expect("within the bound");
    assert!(solution.n_turns <= 9);
    assert!(solution.n_turns >= 1);
    assert_eq!(solution.turn_names(), "");
}

#[test]
fn visited_map_only_grows() {
    let mut solver = Solver::from_state(scrambled());
    let first = solver.visited_count();
    assert_eq!(first, 2);
    let _ = solver.try_solve(1);
    let second = solver.visited_count();
    assert!(second >= first);
    let _ = solver.try_solve(3);
    assert!(solver.visited_count() >= second);
}

#[test]
fn solved_start_has_one_visited_entry() {
    let solver = Solver::from_state(Pyraminx::default());
    assert_eq!(solver.visited_count(), 1);
}
