use puzzle_search::nxn::{Color, Cube, CubeFace, Turn, TurnAxis, TurnDirection, BACK, FRONT};

use Color::{Blue, Green, Orange, Red, White, Yellow};

fn sample() -> CubeFace<3> {
    CubeFace { colors: [[White, Yellow, Green], [Blue, Orange, Red], [Yellow, Green, Blue]] }
}

#[test]
fn rotate_layer_cw_rewrites_ring() {
    let mut face = sample();
    face.rotate_layer(TurnDirection::Cw);
    assert_eq!(
        face.colors,
        [[Yellow, Blue, White], [Green, Orange, Yellow], [Blue, Red, Green]]
    );
}

#[test]
fn rotate_layer_ccw_rewrites_ring() {
    let mut face = sample();
    face.rotate_layer(TurnDirection::Ccw);
    assert_eq!(
        face.colors,
        [[Green, Red, Blue], [Yellow, Orange, Green], [White, Blue, Yellow]]
    );
}

#[test]
fn rotate_layer_two_by_two() {
    let mut face = CubeFace { colors: [[White, Yellow], [Green, Blue]] };
    face.rotate_layer(TurnDirection::Cw);
    assert_eq!(face.colors, [[Green, White], [Blue, Yellow]]);
}

#[test]
fn rotate_layer_cw_then_ccw_restores() {
    let mut face = sample();
    face.rotate_layer(TurnDirection::Cw);
    face.rotate_layer(TurnDirection::Ccw);
    assert_eq!(face, sample());
}

#[test]
fn rotate_layer_four_times_restores() {
    for dir in [TurnDirection::Cw, TurnDirection::Ccw] {
        let mut face = sample();
        for k in 0..4 {
            if k > 0 {
                assert_ne!(face, sample());
            }
            face.rotate_layer(dir);
        }
        assert_eq!(face, sample());
    }
}

#[test]
fn layer_turn_then_inverse_restores_cube() {
    let mut c = cube();
    let other = cube();
    c.perform_turn(&other, 0, TurnAxis::X, TurnDirection::Cw);
    c.perform_turn(&other, 0, TurnAxis::X, TurnDirection::Ccw);
    for k in 0..6 {
        assert_eq!(c.faces[k], cube().faces[k]);
    }
}

#[test]
fn copy_from_copies_cells_row_by_row() {
    let mut face = CubeFace { colors: [[White; 3]; 3] };
    face.copy_from(&sample(), &[(0, 8), (4, 3), (5, 4)]);
    assert_eq!(face.colors, [[White, White, White], [Orange, Red, White], [White, White, White]]);
}

#[test]
fn inverse_direction() {
    assert_eq!(TurnDirection::Cw.inverse(), TurnDirection::Ccw);
    assert_eq!(TurnDirection::Ccw.inverse(), TurnDirection::Cw);
}

fn cube() -> Cube<3> {
    let solid = |c: Color| CubeFace { colors: [[c; 3]; 3] };
    let mut faces = [solid(Orange), sample(), solid(Red), sample(), solid(White), solid(Yellow)];
    faces[BACK].colors[0][0] = Red;
    Cube { faces }
}

#[test]
fn outer_layer_turns_near_face() {
    let mut c = cube();
    let other = cube();
    c.perform_turn(&other, 0, TurnAxis::X, TurnDirection::Cw);
    let mut expected = sample();
    expected.rotate_layer(TurnDirection::Cw);
    assert_eq!(c.faces[FRONT], expected);
    assert_eq!(c.faces[BACK], cube().faces[BACK]);
}

#[test]
fn last_layer_turns_far_face_back() {
    let mut c = cube();
    let other = cube();
    c.perform_turn(&other, 2, TurnAxis::X, TurnDirection::Cw);
    let mut expected = cube().faces[BACK];
    expected.rotate_layer(TurnDirection::Ccw);
    assert_eq!(c.faces[BACK], expected);
    assert_eq!(c.faces[FRONT], sample());
}

#[test]
fn middle_layer_changes_nothing() {
    let mut c = cube();
    let other = cube();
    c.perform_turn(&other, 1, TurnAxis::Y, TurnDirection::Ccw);
    for k in 0..6 {
        assert_eq!(c.faces[k], cube().faces[k]);
    }
}

#[test]
fn possible_turns_cover_every_layer_axis_direction() {
    let any = Turn { axis: TurnAxis::X, direction: TurnDirection::Cw, layer: 0 };
    let turns = any.possible_turn_iter(2);
    assert_eq!(turns.len(), 12);
    assert_eq!(turns[0], Turn { layer: 0, axis: TurnAxis::X, direction: TurnDirection::Cw });
    assert_eq!(turns[1], Turn { layer: 0, axis: TurnAxis::X, direction: TurnDirection::Ccw });
    assert_eq!(turns[5], Turn { layer: 0, axis: TurnAxis::Z, direction: TurnDirection::Ccw });
    assert_eq!(turns[6], Turn { layer: 1, axis: TurnAxis::X, direction: TurnDirection::Cw });
    assert_eq!(turns[11], Turn { layer: 1, axis: TurnAxis::Z, direction: TurnDirection::Ccw });
    assert!(any.possible_turn_iter(0).is_empty());
}
