use puzzle_search::cube::{Color, Cube, Face};

#[test]
fn cycle_cw_once() {
    let mut face = Face(Color::Yellow.bits());
    face.cycle_edges_cw();

    assert_eq!(face, Face(Color::Yellow.bits() << (5 * 2)))
}

#[test]
fn cycle_ccw_once() {
    let mut face = Face(Color::Yellow.bits());
    face.cycle_edges_ccw();

    assert_eq!(face, Face(Color::Yellow.bits() << (5 * 6)))
}

#[test]
fn cycle_order_cw() {
    let mut face = Face(Color::Yellow.bits());
    for _ in 0..8 {
        face.cycle_edges_cw();
    }

    assert_eq!(face, Face(Color::Yellow.bits()));
}

#[test]
fn cycle_order_ccw() {
    let mut face = Face(Color::Yellow.bits());
    for _ in 0..8 {
        face.cycle_edges_ccw();
    }

    assert_eq!(face, Face(Color::Yellow.bits()));
}

const ALL_COLORS: [Color; 6] = [
    Color::White,
    Color::Yellow,
    Color::Green,
    Color::Blue,
    Color::Orange,
    Color::Red,
];

/// A face with a different color pattern in every lane.
fn mixed_face() -> Face {
    let mut face = Face(0);
    for i in 0..9 {
        face.set(i, ALL_COLORS[(i * 5 + 1) % 6]);
    }
    face
}

#[test]
fn color_codes_round_trip() {
    for color in ALL_COLORS {
        assert_eq!(Color::from_u8(color.bits() as u8), color);
    }
    assert_eq!(Color::from_u8(0b10000), Color::Red);
    assert_eq!(Color::Orange.bits(), 0b01000);
}

#[test]
fn set_then_get_every_lane() {
    for i in 0..9 {
        for color in ALL_COLORS {
            let before = mixed_face();
            let mut face = before;
            face.set(i, color);
            assert_eq!(face.get(i), color);
            for j in 0..9 {
                if j != i {
                    assert_eq!(face.get(j), before.get(j));
                }
            }
            assert_eq!(face.0 >> 45, before.0 >> 45);
        }
    }
}

#[test]
fn set_writes_exact_bits() {
    let mut face = Face(0);
    face.set(4, Color::Red);
    assert_eq!(face.0, 0b10000 << 20);
    face.set(4, Color::Green);
    assert_eq!(face.0, 0b00010 << 20);
}

#[test]
fn four_quarter_turns_restore_bits() {
    let face = mixed_face();
    let mut cw = face;
    let mut ccw = face;
    for _ in 0..4 {
        cw.cycle_edges_cw();
        ccw.cycle_edges_ccw();
    }
    assert_eq!(cw.0, face.0);
    assert_eq!(ccw.0, face.0);
    let mut once = face;
    once.cycle_edges_cw();
    assert_ne!(once.0, face.0);
}

#[test]
fn cw_then_ccw_restores_bits() {
    let face = mixed_face();
    let mut turned = face;
    turned.cycle_edges_cw();
    turned.cycle_edges_ccw();
    assert_eq!(turned, face);
}

#[test]
fn cycle_cw_moves_each_lane() {
    let face = mixed_face();
    let mut turned = face;
    turned.cycle_edges_cw();
    let source = [6, 3, 0, 7, 4, 1, 8, 5, 2];
    for i in 0..9 {
        assert_eq!(turned.get(i), face.get(source[i]));
    }
}

#[test]
fn copy_from_mask_copies_masked_bits() {
    let mut face = Face(0);
    let from = Face::solid(Color::Red);
    face.copy_from_mask(&from, puzzle_search::cube::RIGHT_COLUMN);
    for i in 0..9 {
        let expected = if i % 3 == 2 { Color::Red } else { Color::White };
        assert_eq!(face.get(i), expected);
    }
}

#[test]
fn copy_from_positions_copies_pairs() {
    let mut face = Face::solid(Color::White);
    let from = mixed_face();
    face.copy_from_positions(&from, &[(0, 8), (3, 5), (6, 2)]);
    assert_eq!(face.get(8), from.get(0));
    assert_eq!(face.get(5), from.get(3));
    assert_eq!(face.get(2), from.get(6));
    assert_eq!(face.get(0), Color::White);
    // A later pair that writes the same lane wins.
    let mut face = Face::solid(Color::White);
    face.copy_from_positions(&from, &[(1, 4), (2, 4)]);
    assert_eq!(face.get(4), from.get(2));
}

#[test]
fn solid_faces_have_packed_constants() {
    assert_eq!(Face::solid(Color::White), Face(Face::WHITE));
    assert_eq!(Face::solid(Color::Yellow), Face(Face::YELLOW));
    assert_eq!(Face::solid(Color::Green), Face(Face::GREEN));
    assert_eq!(Face::solid(Color::Blue), Face(Face::BLUE));
    assert_eq!(Face::solid(Color::Red), Face(Face::RED));
    assert_eq!(Face::solid(Color::Orange), Face(Face::ORANGE));
    assert_eq!(Face::solid(Color::White).0, 0x0);
    assert_eq!(Face::solid(Color::Yellow).0, 0x10842108421);
    assert_eq!(Face::solid(Color::Green).0, 0x21084210842);
    assert_eq!(Face::solid(Color::Blue).0, 0x42108421084);
    assert_eq!(Face::solid(Color::Red).0, 0x108421084210);
    assert_eq!(Face::solid(Color::Orange).0, 0x84210842108);
}

#[test]
fn cube_accessors_read_and_write_faces() {
    let mut cube = Cube::default();
    assert_eq!(cube.top(), Face::solid(Color::White));
    assert_eq!(cube.bottom(), Face::solid(Color::Yellow));
    assert_eq!(cube.left(), Face::solid(Color::Orange));
    assert_eq!(cube.right(), Face::solid(Color::Red));
    assert_eq!(cube.front(), Face::solid(Color::Green));
    assert_eq!(cube.back(), Face::solid(Color::Blue));
    assert_eq!(cube.face(Cube::FRONT), cube.front());
    cube.back_mut().set(0, Color::White);
    assert_eq!(cube.back().get(0), Color::White);
    cube.face_mut(Cube::TOP).set(4, Color::Red);
    assert_eq!(cube.top().get(4), Color::Red);
    cube.top_mut().set(4, Color::White);
    cube.bottom_mut().set(4, Color::Yellow);
    cube.left_mut().set(4, Color::Orange);
    cube.right_mut().set(4, Color::Red);
    cube.front_mut().set(4, Color::Green);
    cube.back_mut().set(0, Color::Blue);
    assert_eq!(cube, Cube::default());
}
