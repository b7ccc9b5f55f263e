//! Quarter turns of the 3x3 cube on its packed encoding.
use crate::bidisearch::StateKey;
use crate::cube::{
    lemma_solid_lanes, cw_source, high_bits, lane, lemma_copy_three, lemma_lane_bound, lemma_lanes_determine_bits,
    lemma_mask_lanes, lemma_masked_copy_lane, lemma_pack9, pack9, Cube, Face, BOTTOM_ROW,
    LEFT_COLUMN, RIGHT_COLUMN, TOP_ROW,
};
use vstd::prelude::*;

verus! {

#[derive(Copy, Clone, Debug, PartialEq, Eq, Structural, Hash)]
pub enum Move {
    L,
    LPrime,
    R,
    RPrime,
    U,
    UPrime,
    D,
    DPrime,
    F,
    FPrime,
    B,
    BPrime,
}

/// The clockwise quarter turn of the same face.
pub open spec fn base_move(m: Move) -> Move {
    match m {
        Move::LPrime => Move::L,
        Move::RPrime => Move::R,
        Move::UPrime => Move::U,
        Move::DPrime => Move::D,
        Move::FPrime => Move::F,
        Move::BPrime => Move::B,
        _ => m,
    }
}

/// A counter-clockwise quarter turn.
pub open spec fn is_prime(m: Move) -> bool {
    base_move(m) != m
}

/// The counter-clockwise quarter turn of the same face.
pub open spec fn prime_move(m: Move) -> Move {
    match base_move(m) {
        Move::L => Move::LPrime,
        Move::R => Move::RPrime,
        Move::U => Move::UPrime,
        Move::D => Move::DPrime,
        Move::F => Move::FPrime,
        _ => Move::BPrime,
    }
}

/// The turn that undoes `m`.
pub open spec fn inverse_move(m: Move) -> Move {
    if is_prime(m) {
        base_move(m)
    } else {
        prime_move(m)
    }
}

/// Lane `i` of a face turned a quarter clockwise comes from lane `rot(i)`.
pub open spec fn rot(i: int) -> int {
    cw_source(i as u64) as int
}

// Faces: 0 top, 1 bottom, 2 left, 3 right, 4 front, 5 back. Each function
// below says where facelet `i` of face `f` comes from in one clockwise
// quarter turn.
pub open spec fn r_source(f: int, i: int) -> (int, int) {
    if f == 3 {
        (3, rot(i))
    } else if f == 0 && (i == 2 || i == 5 || i == 8) {
        (4, i)
    } else if f == 4 && (i == 2 || i == 5 || i == 8) {
        (1, i)
    } else if f == 1 && i == 8 {
        (5, 0)
    } else if f == 1 && i == 5 {
        (5, 3)
    } else if f == 1 && i == 2 {
        (5, 6)
    } else if f == 5 && i == 6 {
        (0, 2)
    } else if f == 5 && i == 3 {
        (0, 5)
    } else if f == 5 && i == 0 {
        (0, 8)
    } else {
        (f, i)
    }
}

pub open spec fn l_source(f: int, i: int) -> (int, int) {
    if f == 2 {
        (2, rot(i))
    } else if f == 4 && (i == 0 || i == 3 || i == 6) {
        (0, i)
    } else if f == 1 && (i == 0 || i == 3 || i == 6) {
        (4, i)
    } else if f == 5 && i == 8 {
        (1, 0)
    } else if f == 5 && i == 5 {
        (1, 3)
    } else if f == 5 && i == 2 {
        (1, 6)
    } else if f == 0 && i == 6 {
        (5, 2)
    } else if f == 0 && i == 3 {
        (5, 5)
    } else if f == 0 && i == 0 {
        (5, 8)
    } else {
        (f, i)
    }
}

pub open spec fn u_source(f: int, i: int) -> (int, int) {
    if f == 0 {
        (0, rot(i))
    } else if f == 4 && i < 3 {
        (3, i)
    } else if f == 3 && i < 3 {
        (5, i)
    } else if f == 5 && i < 3 {
        (2, i)
    } else if f == 2 && i < 3 {
        (4, i)
    } else {
        (f, i)
    }
}

pub open spec fn d_source(f: int, i: int) -> (int, int) {
    if f == 1 {
        (1, rot(i))
    } else if f == 4 && i >= 6 {
        (2, i)
    } else if f == 3 && i >= 6 {
        (4, i)
    } else if f == 5 && i >= 6 {
        (3, i)
    } else if f == 2 && i >= 6 {
        (5, i)
    } else {
        (f, i)
    }
}

pub open spec fn f_source(f: int, i: int) -> (int, int) {
    if f == 4 {
        (4, rot(i))
    } else if f == 3 && i == 0 {
        (0, 6)
    } else if f == 3 && i == 3 {
        (0, 7)
    } else if f == 3 && i == 6 {
        (0, 8)
    } else if f == 1 && i == 2 {
        (3, 0)
    } else if f == 1 && i == 1 {
        (3, 3)
    } else if f == 1 && i == 0 {
        (3, 6)
    } else if f == 2 && i == 2 {
        (1, 0)
    } else if f == 2 && i == 5 {
        (1, 1)
    } else if f == 2 && i == 8 {
        (1, 2)
    } else if f == 0 && i == 8 {
        (2, 2)
    } else if f == 0 && i == 7 {
        (2, 5)
    } else if f == 0 && i == 6 {
        (2, 8)
    } else {
        (f, i)
    }
}

pub open spec fn b_source(f: int, i: int) -> (int, int) {
    if f == 5 {
        (5, rot(i))
    } else if f == 2 && i == 6 {
        (0, 0)
    } else if f == 2 && i == 3 {
        (0, 1)
    } else if f == 2 && i == 0 {
        (0, 2)
    } else if f == 1 && i == 6 {
        (2, 0)
    } else if f == 1 && i == 7 {
        (2, 3)
    } else if f == 1 && i == 8 {
        (2, 6)
    } else if f == 3 && i == 8 {
        (1, 6)
    } else if f == 3 && i == 5 {
        (1, 7)
    } else if f == 3 && i == 2 {
        (1, 8)
    } else if f == 0 && i == 0 {
        (3, 2)
    } else if f == 0 && i == 1 {
        (3, 5)
    } else if f == 0 && i == 2 {
        (3, 8)
    } else {
        (f, i)
    }
}

pub open spec fn base_source(m: Move, f: int, i: int) -> (int, int) {
    match base_move(m) {
        Move::L => l_source(f, i),
        Move::R => r_source(f, i),
        Move::U => u_source(f, i),
        Move::D => d_source(f, i),
        Move::F => f_source(f, i),
        _ => b_source(f, i),
    }
}

/// Where facelet `i` of face `f` comes from in turn `m`: a counter-clockwise
/// quarter turn is three clockwise ones.
#[verifier::opaque]
pub open spec fn turn_source(m: Move, f: int, i: int) -> (int, int) {
    if is_prime(m) {
        let p1 = base_source(m, f, i);
        let p2 = base_source(m, p1.0, p1.1);
        base_source(m, p2.0, p2.1)
    } else {
        base_source(m, f, i)
    }
}

pub open spec fn in_range(p: (int, int)) -> bool {
    0 <= p.0 < 6 && 0 <= p.1 < 9
}

/// Four clockwise quarter turns of a face bring every facelet back.
proof fn lemma_base_four(m: Move, f: int, i: int)
    requires
        in_range((f, i)),
    ensures
        in_range(base_source(m, f, i)),
        base_source(
            m,
            base_source(
                m,
                base_source(m, base_source(m, f, i).0, base_source(m, f, i).1).0,
                base_source(m, base_source(m, f, i).0, base_source(m, f, i).1).1,
            ).0,
            base_source(
                m,
                base_source(m, base_source(m, f, i).0, base_source(m, f, i).1).0,
                base_source(m, base_source(m, f, i).0, base_source(m, f, i).1).1,
            ).1,
        ) == (f, i),
{
    if f == 0 {
    } else if f == 1 {
    } else if f == 2 {
    } else if f == 3 {
    } else if f == 4 {
    } else {
    }
}

/// The lane of facelet `i` of face `f`.
pub open spec fn facelet(c: Cube, f: int, i: int) -> u64 {
    lane(c.data[f].0, i as u64)
}

pub open spec fn sourced(c: Cube, m: Move, f: int, i: int) -> u64 {
    let (g, j) = turn_source(m, f, i);
    facelet(c, g, j)
}

pub open spec fn face_after(c: Cube, m: Move, f: int) -> Face {
    Face(
        pack9(
            sourced(c, m, f, 0),
            sourced(c, m, f, 1),
            sourced(c, m, f, 2),
            sourced(c, m, f, 3),
            sourced(c, m, f, 4),
            sourced(c, m, f, 5),
            sourced(c, m, f, 6),
            sourced(c, m, f, 7),
            sourced(c, m, f, 8),
        ),
    )
}

/// The cube after turn `m`.
#[verifier::opaque]
pub open spec fn cube_turned(c: Cube, m: Move) -> Cube {
    Cube {
        data: [
            face_after(c, m, 0),
            face_after(c, m, 1),
            face_after(c, m, 2),
            face_after(c, m, 3),
            face_after(c, m, 4),
            face_after(c, m, 5),
        ],
    }
}

/// The lanes after a turn are those at the turn's sources.
pub proof fn lemma_turned_facelet(c: Cube, m: Move, f: int, i: int)
    requires
        in_range((f, i)),
    ensures
        facelet(cube_turned(c, m), f, i) == sourced(c, m, f, i),
        high_bits(cube_turned(c, m).data[f].0) == 0,
{
    let d = cube_turned(c, m);
    reveal(cube_turned);
    assert(d.data[f] == face_after(c, m, f));
    lemma_lane_bound(c.data[turn_source(m, f, 0).0].0, turn_source(m, f, 0).1 as u64);
    lemma_lane_bound(c.data[turn_source(m, f, 1).0].0, turn_source(m, f, 1).1 as u64);
    lemma_lane_bound(c.data[turn_source(m, f, 2).0].0, turn_source(m, f, 2).1 as u64);
    lemma_lane_bound(c.data[turn_source(m, f, 3).0].0, turn_source(m, f, 3).1 as u64);
    lemma_lane_bound(c.data[turn_source(m, f, 4).0].0, turn_source(m, f, 4).1 as u64);
    lemma_lane_bound(c.data[turn_source(m, f, 5).0].0, turn_source(m, f, 5).1 as u64);
    lemma_lane_bound(c.data[turn_source(m, f, 6).0].0, turn_source(m, f, 6).1 as u64);
    lemma_lane_bound(c.data[turn_source(m, f, 7).0].0, turn_source(m, f, 7).1 as u64);
    lemma_lane_bound(c.data[turn_source(m, f, 8).0].0, turn_source(m, f, 8).1 as u64);
    lemma_pack9(
        sourced(c, m, f, 0),
        sourced(c, m, f, 1),
        sourced(c, m, f, 2),
        sourced(c, m, f, 3),
        sourced(c, m, f, 4),
        sourced(c, m, f, 5),
        sourced(c, m, f, 6),
        sourced(c, m, f, 7),
        sourced(c, m, f, 8),
    );
}

/// Two cubes with the same lanes everywhere and no bit above the lanes are
/// equal.
pub proof fn lemma_cube_ext(a: Cube, b: Cube)
    requires
        forall|f: int, i: int| in_range((f, i)) ==> #[trigger] facelet(a, f, i) == facelet(b, f, i),
        forall|f: int| 0 <= f < 6 ==> high_bits(#[trigger] a.data[f].0) == 0 && high_bits(b.data[f].0)
            == 0,
    ensures
        a == b,
{
    assert forall|f: int| 0 <= f < 6 implies a.data[f] == b.data[f] by {
        assert(facelet(a, f, 0) == facelet(b, f, 0));
        assert(facelet(a, f, 1) == facelet(b, f, 1));
        assert(facelet(a, f, 2) == facelet(b, f, 2));
        assert(facelet(a, f, 3) == facelet(b, f, 3));
        assert(facelet(a, f, 4) == facelet(b, f, 4));
        assert(facelet(a, f, 5) == facelet(b, f, 5));
        assert(facelet(a, f, 6) == facelet(b, f, 6));
        assert(facelet(a, f, 7) == facelet(b, f, 7));
        assert(facelet(a, f, 8) == facelet(b, f, 8));
        lemma_lanes_determine_bits(a.data[f].0, b.data[f].0);
    }
    assert(a.data =~= b.data);
}

/// Successive clockwise sources of a facelet stay on the cube, and the fourth
/// is the facelet itself.
proof fn lemma_base_chain(m: Move, f: int, i: int)
    requires
        in_range((f, i)),
    ensures
        in_range(base_source(m, f, i)),
        in_range(base_source(m, base_source(m, f, i).0, base_source(m, f, i).1)),
        in_range(turn_source(prime_move(m), f, i)),
        base_source(m, turn_source(prime_move(m), f, i).0, turn_source(prime_move(m), f, i).1) == (
        f,
        i,
        ),
        turn_source(prime_move(m), base_source(m, f, i).0, base_source(m, f, i).1) == (f, i),
{
    reveal(turn_source);
    let p1 = base_source(m, f, i);
    lemma_base_four(m, f, i);
    let p2 = base_source(m, p1.0, p1.1);
    lemma_base_four(m, p1.0, p1.1);
    let p3 = base_source(m, p2.0, p2.1);
    lemma_base_four(m, p2.0, p2.1);
    lemma_base_four(m, p3.0, p3.1);
    assert(base_move(prime_move(m)) == base_move(m));
}

/// Where a turn takes a facelet from stays on the cube.
proof fn lemma_source_in_range(m: Move, f: int, i: int)
    requires
        in_range((f, i)),
    ensures
        in_range(turn_source(m, f, i)),
{
    reveal(turn_source);
    lemma_base_chain(m, f, i);
    if is_prime(m) {
        assert(prime_move(m) == m);
    }
}

/// The sources of a turn and of its inverse undo each other.
proof fn lemma_source_undo(m: Move, f: int, i: int)
    requires
        in_range((f, i)),
    ensures
        in_range(turn_source(inverse_move(m), f, i)),
        turn_source(m, turn_source(inverse_move(m), f, i).0, turn_source(inverse_move(m), f, i).1)
            == (f, i),
{
    reveal(turn_source);
    lemma_base_chain(m, f, i);
    assert(base_move(inverse_move(m)) == base_move(m));
    if is_prime(m) {
        assert(prime_move(m) == m);
    } else {
        assert(inverse_move(m) == prime_move(m));
    }
}

/// Three clockwise sources are the counter-clockwise source.
proof fn lemma_source_three(m: Move, f: int, i: int)
    requires
        in_range((f, i)),
        !is_prime(m),
    ensures
        in_range(turn_source(m, f, i)),
        in_range(turn_source(m, turn_source(m, f, i).0, turn_source(m, f, i).1)),
        turn_source(
            m,
            turn_source(m, turn_source(m, f, i).0, turn_source(m, f, i).1).0,
            turn_source(m, turn_source(m, f, i).0, turn_source(m, f, i).1).1,
        ) == turn_source(prime_move(m), f, i),
{
    reveal(turn_source);
    lemma_base_chain(m, f, i);
    assert(base_move(prime_move(m)) == base_move(m));
}

impl Cube {
    /// A turn keeps every face well formed.
    pub proof fn lemma_turned_wf(c: Cube, m: Move)
        requires
            c.wf(),
        ensures
            cube_turned(c, m).wf(),
    {
        let d = cube_turned(c, m);
        assert forall|f: int| 0 <= f < 6 implies (#[trigger] d.data[f]).wf() by {
            assert forall|i: u64| i < 9 implies crate::cube::is_color_code(
                #[trigger] lane(d.data[f].0, i),
            ) by {
                lemma_turned_facelet(c, m, f, i as int);
                lemma_source_in_range(m, f, i as int);
                let (g, j) = turn_source(m, f, i as int);
                assert(c.data[g].wf());
                assert(lane(c.data[g].0, j as u64) == facelet(c, g, j));
            }
            lemma_turned_facelet(c, m, f, 0);
        }
    }

    /// A turn followed by its inverse gives back the cube.
    pub proof fn lemma_turn_then_undo(c: Cube, m: Move)
        requires
            c.wf(),
        ensures
            cube_turned(cube_turned(c, m), inverse_move(m)) == c,
    {
        let a = cube_turned(c, m);
        let u = inverse_move(m);
        let b = cube_turned(a, u);
        assert forall|f: int, i: int| in_range((f, i)) implies #[trigger] facelet(b, f, i) == facelet(
            c,
            f,
            i,
        ) by {
            lemma_source_undo(m, f, i);
            lemma_turned_facelet(a, u, f, i);
            let (g, j) = turn_source(u, f, i);
            lemma_turned_facelet(c, m, g, j);
        }
        assert forall|f: int| 0 <= f < 6 implies high_bits(#[trigger] b.data[f].0) == 0 && high_bits(
            c.data[f].0,
        ) == 0 by {
            lemma_turned_facelet(a, u, f, 0);
            assert(c.data[f].wf());
        }
        lemma_cube_ext(b, c);
    }

    /// Three clockwise quarter turns of a face are one counter-clockwise
    /// quarter turn.
    pub proof fn lemma_three_turns_are_prime(c: Cube, m: Move)
        requires
            c.wf(),
            !is_prime(m),
        ensures
            cube_turned(cube_turned(cube_turned(c, m), m), m) == cube_turned(c, prime_move(m)),
    {
        let a = cube_turned(c, m);
        let b = cube_turned(a, m);
        let t = cube_turned(b, m);
        let p = cube_turned(c, prime_move(m));
        assert forall|f: int, i: int| in_range((f, i)) implies #[trigger] facelet(t, f, i) == facelet(
            p,
            f,
            i,
        ) by {
            lemma_source_three(m, f, i);
            lemma_turned_facelet(b, m, f, i);
            let (g, j) = turn_source(m, f, i);
            lemma_turned_facelet(a, m, g, j);
            let (g2, j2) = turn_source(m, g, j);
            lemma_turned_facelet(c, m, g2, j2);
            lemma_turned_facelet(c, prime_move(m), f, i);
        }
        assert forall|f: int| 0 <= f < 6 implies high_bits(#[trigger] t.data[f].0) == 0 && high_bits(
            p.data[f].0,
        ) == 0 by {
            lemma_turned_facelet(b, m, f, 0);
            lemma_turned_facelet(c, prime_move(m), f, 0);
        }
        lemma_cube_ext(t, p);
    }

    /// Four clockwise quarter turns of a face give back the cube.
    proof fn lemma_four_base_turns(c: Cube, m: Move)
        requires
            c.wf(),
            !is_prime(m),
        ensures
            cube_turned(cube_turned(cube_turned(cube_turned(c, m), m), m), m) == c,
    {
        let a = cube_turned(c, m);
        Self::lemma_turned_wf(c, m);
        Self::lemma_three_turns_are_prime(a, m);
        assert(inverse_move(m) == prime_move(m));
        Self::lemma_turn_then_undo(c, m);
    }

    /// Four equal quarter turns give back the cube.
    pub proof fn lemma_four_turns(c: Cube, m: Move)
        requires
            c.wf(),
        ensures
            cube_turned(cube_turned(cube_turned(cube_turned(c, m), m), m), m) == c,
    {
        if is_prime(m) {
            let b = base_move(m);
            assert(!is_prime(b));
            assert(inverse_move(m) == b);
            let x1 = cube_turned(c, m);
            Self::lemma_turned_wf(c, m);
            let x2 = cube_turned(x1, m);
            Self::lemma_turned_wf(x1, m);
            let x3 = cube_turned(x2, m);
            Self::lemma_turned_wf(x2, m);
            let x4 = cube_turned(x3, m);
            Self::lemma_turned_wf(x3, m);
            // Each clockwise turn of the face steps back one of the
            // counter-clockwise ones, and four clockwise turns change nothing.
            Self::lemma_turn_then_undo(c, m);
            Self::lemma_turn_then_undo(x1, m);
            Self::lemma_turn_then_undo(x2, m);
            Self::lemma_turn_then_undo(x3, m);
            Self::lemma_four_base_turns(x4, b);
        } else {
            Self::lemma_four_base_turns(c, m);
        }
    }
}

/// The cube after the turns of `turns`, in order.
pub open spec fn cube_turned_all(c: Cube, turns: Seq<Move>) -> Cube
    decreases turns.len(),
{
    if turns.len() == 0 {
        c
    } else {
        cube_turned(cube_turned_all(c, turns.drop_last()), turns.last())
    }
}

/// A puzzle that takes the twelve quarter turns of a cube. Implementors give
/// the six clockwise turns; each counter-clockwise turn is three clockwise
/// ones.
pub trait Turnable: Sized {
    spec fn valid(self) -> bool;

    /// The state after turn `m`.
    spec fn turned(self, m: Move) -> Self;

    /// The state after the turns of `turns`, in order.
    spec fn turned_all(self, turns: Seq<Move>) -> Self;

    proof fn lemma_turned_all_empty(s: Self)
        ensures
            s.turned_all(Seq::empty()) == s,
    ;

    proof fn lemma_turned_all_push(s: Self, turns: Seq<Move>, m: Move)
        ensures
            s.turned_all(turns.push(m)) == s.turned_all(turns).turned(m),
    ;

    proof fn lemma_turn_keeps_valid(s: Self, m: Move)
        requires
            s.valid(),
        ensures
            s.turned(m).valid(),
    ;

    proof fn lemma_three_quarter_turns(s: Self, m: Move)
        requires
            s.valid(),
            !is_prime(m),
        ensures
            s.turned(m).turned(m).turned(m) == s.turned(prime_move(m)),
    ;

    /// Performs the turns of `turns` in order.
    fn perform_all(&mut self, turns: &[Move])
        requires
            old(self).valid(),
        ensures
            final(self).valid(),
            *final(self) == old(self).turned_all(turns@),
    {
        let n = turns.len();
        let mut k: usize = 0;
        proof {
            Self::lemma_turned_all_empty(*old(self));
            assert(turns@.take(0) =~= Seq::<Move>::empty());
        }
        while k < n
            invariant
                n == turns@.len(),
                k <= n,
                self.valid(),
                *self == old(self).turned_all(turns@.take(k as int)),
            decreases n - k,
        {
            self.perform(turns[k]);
            proof {
                let next = turns@.take(k + 1);
                assert(next =~= turns@.take(k as int).push(turns@[k as int]));
                Self::lemma_turned_all_push(*old(self), turns@.take(k as int), turns@[k as int]);
            }
            k = k + 1;
        }
        proof {
            assert(turns@.take(n as int) == turns@);
        }
    }

    fn perform(&mut self, m: Move)
        requires
            old(self).valid(),
        ensures
            final(self).valid(),
            *final(self) == old(self).turned(m),
    {
        match m {
            Move::L => self.l(),
            Move::LPrime => self.lprime(),
            Move::R => self.r(),
            Move::RPrime => self.rprime(),
            Move::U => self.u(),
            Move::UPrime => self.uprime(),
            Move::D => self.d(),
            Move::DPrime => self.dprime(),
            Move::F => self.f(),
            Move::FPrime => self.fprime(),
            Move::B => self.b(),
            Move::BPrime => self.bprime(),
        }
    }

    fn r(&mut self)
        requires
            old(self).valid(),
        ensures
            final(self).valid(),
            *final(self) == old(self).turned(Move::R),
    ;

    fn rprime(&mut self)
        requires
            old(self).valid(),
        ensures
            final(self).valid(),
            *final(self) == old(self).turned(Move::RPrime),
    {
        self.r();
        self.r();
        self.r();
        proof {
            Self::lemma_turn_keeps_valid(*old(self), Move::R);
            Self::lemma_turn_keeps_valid(old(self).turned(Move::R), Move::R);
            Self::lemma_three_quarter_turns(*old(self), Move::R);
        }
    }

    fn l(&mut self)
        requires
            old(self).valid(),
        ensures
            final(self).valid(),
            *final(self) == old(self).turned(Move::L),
    ;

    fn lprime(&mut self)
        requires
            old(self).valid(),
        ensures
            final(self).valid(),
            *final(self) == old(self).turned(Move::LPrime),
    {
        self.l();
        self.l();
        self.l();
        proof {
            Self::lemma_turn_keeps_valid(*old(self), Move::L);
            Self::lemma_turn_keeps_valid(old(self).turned(Move::L), Move::L);
            Self::lemma_three_quarter_turns(*old(self), Move::L);
        }
    }

    fn u(&mut self)
        requires
            old(self).valid(),
        ensures
            final(self).valid(),
            *final(self) == old(self).turned(Move::U),
    ;

    fn uprime(&mut self)
        requires
            old(self).valid(),
        ensures
            final(self).valid(),
            *final(self) == old(self).turned(Move::UPrime),
    {
        self.u();
        self.u();
        self.u();
        proof {
            Self::lemma_turn_keeps_valid(*old(self), Move::U);
            Self::lemma_turn_keeps_valid(old(self).turned(Move::U), Move::U);
            Self::lemma_three_quarter_turns(*old(self), Move::U);
        }
    }

    fn d(&mut self)
        requires
            old(self).valid(),
        ensures
            final(self).valid(),
            *final(self) == old(self).turned(Move::D),
    ;

    fn dprime(&mut self)
        requires
            old(self).valid(),
        ensures
            final(self).valid(),
            *final(self) == old(self).turned(Move::DPrime),
    {
        self.d();
        self.d();
        self.d();
        proof {
            Self::lemma_turn_keeps_valid(*old(self), Move::D);
            Self::lemma_turn_keeps_valid(old(self).turned(Move::D), Move::D);
            Self::lemma_three_quarter_turns(*old(self), Move::D);
        }
    }

    fn f(&mut self)
        requires
            old(self).valid(),
        ensures
            final(self).valid(),
            *final(self) == old(self).turned(Move::F),
    ;

    fn fprime(&mut self)
        requires
            old(self).valid(),
        ensures
            final(self).valid(),
            *final(self) == old(self).turned(Move::FPrime),
    {
        self.f();
        self.f();
        self.f();
        proof {
            Self::lemma_turn_keeps_valid(*old(self), Move::F);
            Self::lemma_turn_keeps_valid(old(self).turned(Move::F), Move::F);
            Self::lemma_three_quarter_turns(*old(self), Move::F);
        }
    }

    fn b(&mut self)
        requires
            old(self).valid(),
        ensures
            final(self).valid(),
            *final(self) == old(self).turned(Move::B),
    ;

    fn bprime(&mut self)
        requires
            old(self).valid(),
        ensures
            final(self).valid(),
            *final(self) == old(self).turned(Move::BPrime),
    {
        self.b();
        self.b();
        self.b();
        proof {
            Self::lemma_turn_keeps_valid(*old(self), Move::B);
            Self::lemma_turn_keeps_valid(old(self).turned(Move::B), Move::B);
            Self::lemma_three_quarter_turns(*old(self), Move::B);
        }
    }
}

/// A clockwise turn takes each facelet from its clockwise source.
proof fn lemma_base_turn_source(m: Move, f: int, i: int)
    requires
        !is_prime(m),
    ensures
        turn_source(m, f, i) == base_source(m, f, i),
{
    reveal(turn_source);
}

impl Turnable for Cube {
    open spec fn valid(self) -> bool {
        self.wf()
    }

    open spec fn turned(self, m: Move) -> Self {
        cube_turned(self, m)
    }

    open spec fn turned_all(self, turns: Seq<Move>) -> Self {
        cube_turned_all(self, turns)
    }

    proof fn lemma_turned_all_empty(s: Self) {
    }

    proof fn lemma_turned_all_push(s: Self, turns: Seq<Move>, m: Move) {
        assert(turns.push(m).drop_last() =~= turns);
    }

    proof fn lemma_turn_keeps_valid(s: Self, m: Move) {
        Cube::lemma_turned_wf(s, m);
    }

    proof fn lemma_three_quarter_turns(s: Self, m: Move) {
        Cube::lemma_three_turns_are_prime(s, m);
    }

    fn r(&mut self) {
        let top = self.top();
        let front = self.front();
        let bottom = self.bottom();
        let back = self.back();

        self.right_mut().cycle_edges_cw();
        self.top_mut().copy_from_mask(&front, RIGHT_COLUMN);
        self.front_mut().copy_from_mask(&bottom, RIGHT_COLUMN);
        self.bottom_mut().copy_from_positions(&back, &[(0, 8), (3, 5), (6, 2)]);
        self.back_mut().copy_from_positions(&top, &[(2, 6), (5, 3), (8, 0)]);
        proof {
            assert(old(self).data[3].wf());
            assert forall|f: int, i: int| in_range((f, i)) implies #[trigger] facelet(*self, f, i)
                == facelet(cube_turned(*old(self), Move::R), f, i) by {
                lemma_turned_facelet(*old(self), Move::R, f, i);
                lemma_base_turn_source(Move::R, f, i);
                lemma_mask_lanes(i as u64);
                lemma_masked_copy_lane(old(self).data[0].0, front.0, RIGHT_COLUMN, i as u64);
                lemma_masked_copy_lane(old(self).data[4].0, bottom.0, RIGHT_COLUMN, i as u64);
                lemma_copy_three(old(self).data[1].0, back.0, seq![(0usize, 8usize), (3usize, 5usize), (6usize, 2usize)], i as u64);
                lemma_copy_three(old(self).data[5].0, top.0, seq![(2usize, 6usize), (5usize, 3usize), (8usize, 0usize)], i as u64);
            }
            assert forall|f: int| 0 <= f < 6 implies high_bits(#[trigger] self.data[f].0) == 0
                && high_bits(cube_turned(*old(self), Move::R).data[f].0) == 0 by {
                lemma_turned_facelet(*old(self), Move::R, f, 0);
                lemma_mask_lanes(0);
                assert(old(self).data[f].wf());
                lemma_masked_copy_lane(old(self).data[0].0, front.0, RIGHT_COLUMN, 0);
                lemma_masked_copy_lane(old(self).data[4].0, bottom.0, RIGHT_COLUMN, 0);
                lemma_copy_three(old(self).data[1].0, back.0, seq![(0usize, 8usize), (3usize, 5usize), (6usize, 2usize)], 0);
                lemma_copy_three(old(self).data[5].0, top.0, seq![(2usize, 6usize), (5usize, 3usize), (8usize, 0usize)], 0);
            }
            lemma_cube_ext(*self, cube_turned(*old(self), Move::R));
            Cube::lemma_turned_wf(*old(self), Move::R);
        }
    }

    fn l(&mut self) {
        let top = self.top();
        let front = self.front();
        let bottom = self.bottom();
        let back = self.back();

        self.left_mut().cycle_edges_cw();
        self.front_mut().copy_from_mask(&top, LEFT_COLUMN);
        self.bottom_mut().copy_from_mask(&front, LEFT_COLUMN);
        self.back_mut().copy_from_positions(&bottom, &[(0, 8), (3, 5), (6, 2)]);
        self.top_mut().copy_from_positions(&back, &[(2, 6), (5, 3), (8, 0)]);
        proof {
            assert(old(self).data[2].wf());
            assert forall|f: int, i: int| in_range((f, i)) implies #[trigger] facelet(*self, f, i)
                == facelet(cube_turned(*old(self), Move::L), f, i) by {
                lemma_turned_facelet(*old(self), Move::L, f, i);
                lemma_base_turn_source(Move::L, f, i);
                lemma_mask_lanes(i as u64);
                lemma_masked_copy_lane(old(self).data[4].0, top.0, LEFT_COLUMN, i as u64);
                lemma_masked_copy_lane(old(self).data[1].0, front.0, LEFT_COLUMN, i as u64);
                lemma_copy_three(old(self).data[5].0, bottom.0, seq![(0usize, 8usize), (3usize, 5usize), (6usize, 2usize)], i as u64);
                lemma_copy_three(old(self).data[0].0, back.0, seq![(2usize, 6usize), (5usize, 3usize), (8usize, 0usize)], i as u64);
            }
            assert forall|f: int| 0 <= f < 6 implies high_bits(#[trigger] self.data[f].0) == 0
                && high_bits(cube_turned(*old(self), Move::L).data[f].0) == 0 by {
                lemma_turned_facelet(*old(self), Move::L, f, 0);
                lemma_mask_lanes(0);
                assert(old(self).data[f].wf());
                lemma_masked_copy_lane(old(self).data[4].0, top.0, LEFT_COLUMN, 0);
                lemma_masked_copy_lane(old(self).data[1].0, front.0, LEFT_COLUMN, 0);
                lemma_copy_three(old(self).data[5].0, bottom.0, seq![(0usize, 8usize), (3usize, 5usize), (6usize, 2usize)], 0);
                lemma_copy_three(old(self).data[0].0, back.0, seq![(2usize, 6usize), (5usize, 3usize), (8usize, 0usize)], 0);
            }
            lemma_cube_ext(*self, cube_turned(*old(self), Move::L));
            Cube::lemma_turned_wf(*old(self), Move::L);
        }
    }

    fn u(&mut self) {
        let front = self.front();
        let right = self.right();
        let back = self.back();
        let left = self.left();

        self.top_mut().cycle_edges_cw();
        self.front_mut().copy_from_mask(&right, TOP_ROW);
        self.right_mut().copy_from_mask(&back, TOP_ROW);
        self.back_mut().copy_from_mask(&left, TOP_ROW);
        self.left_mut().copy_from_mask(&front, TOP_ROW);
        proof {
            assert(old(self).data[0].wf());
            assert forall|f: int, i: int| in_range((f, i)) implies #[trigger] facelet(*self, f, i)
                == facelet(cube_turned(*old(self), Move::U), f, i) by {
                lemma_turned_facelet(*old(self), Move::U, f, i);
                lemma_base_turn_source(Move::U, f, i);
                lemma_mask_lanes(i as u64);
                lemma_masked_copy_lane(old(self).data[4].0, right.0, TOP_ROW, i as u64);
                lemma_masked_copy_lane(old(self).data[3].0, back.0, TOP_ROW, i as u64);
                lemma_masked_copy_lane(old(self).data[5].0, left.0, TOP_ROW, i as u64);
                lemma_masked_copy_lane(old(self).data[2].0, front.0, TOP_ROW, i as u64);
            }
            assert forall|f: int| 0 <= f < 6 implies high_bits(#[trigger] self.data[f].0) == 0
                && high_bits(cube_turned(*old(self), Move::U).data[f].0) == 0 by {
                lemma_turned_facelet(*old(self), Move::U, f, 0);
                lemma_mask_lanes(0);
                assert(old(self).data[f].wf());
                lemma_masked_copy_lane(old(self).data[4].0, right.0, TOP_ROW, 0);
                lemma_masked_copy_lane(old(self).data[3].0, back.0, TOP_ROW, 0);
                lemma_masked_copy_lane(old(self).data[5].0, left.0, TOP_ROW, 0);
                lemma_masked_copy_lane(old(self).data[2].0, front.0, TOP_ROW, 0);
            }
            lemma_cube_ext(*self, cube_turned(*old(self), Move::U));
            Cube::lemma_turned_wf(*old(self), Move::U);
        }
    }

    fn d(&mut self) {
        let front = self.front();
        let right = self.right();
        let back = self.back();
        let left = self.left();

        self.bottom_mut().cycle_edges_cw();
        self.front_mut().copy_from_mask(&left, BOTTOM_ROW);
        self.right_mut().copy_from_mask(&front, BOTTOM_ROW);
        self.back_mut().copy_from_mask(&right, BOTTOM_ROW);
        self.left_mut().copy_from_mask(&back, BOTTOM_ROW);
        proof {
            assert(old(self).data[1].wf());
            assert forall|f: int, i: int| in_range((f, i)) implies #[trigger] facelet(*self, f, i)
                == facelet(cube_turned(*old(self), Move::D), f, i) by {
                lemma_turned_facelet(*old(self), Move::D, f, i);
                lemma_base_turn_source(Move::D, f, i);
                lemma_mask_lanes(i as u64);
                lemma_masked_copy_lane(old(self).data[4].0, left.0, BOTTOM_ROW, i as u64);
                lemma_masked_copy_lane(old(self).data[3].0, front.0, BOTTOM_ROW, i as u64);
                lemma_masked_copy_lane(old(self).data[5].0, right.0, BOTTOM_ROW, i as u64);
                lemma_masked_copy_lane(old(self).data[2].0, back.0, BOTTOM_ROW, i as u64);
            }
            assert forall|f: int| 0 <= f < 6 implies high_bits(#[trigger] self.data[f].0) == 0
                && high_bits(cube_turned(*old(self), Move::D).data[f].0) == 0 by {
                lemma_turned_facelet(*old(self), Move::D, f, 0);
                lemma_mask_lanes(0);
                assert(old(self).data[f].wf());
                lemma_masked_copy_lane(old(self).data[4].0, left.0, BOTTOM_ROW, 0);
                lemma_masked_copy_lane(old(self).data[3].0, front.0, BOTTOM_ROW, 0);
                lemma_masked_copy_lane(old(self).data[5].0, right.0, BOTTOM_ROW, 0);
                lemma_masked_copy_lane(old(self).data[2].0, back.0, BOTTOM_ROW, 0);
            }
            lemma_cube_ext(*self, cube_turned(*old(self), Move::D));
            Cube::lemma_turned_wf(*old(self), Move::D);
        }
    }

    fn f(&mut self) {
        let top = self.top();
        let right = self.right();
        let bottom = self.bottom();
        let left = self.left();

        self.front_mut().cycle_edges_cw();
        self.right_mut().copy_from_positions(&top, &[(6, 0), (7, 3), (8, 6)]);
        self.bottom_mut().copy_from_positions(&right, &[(0, 2), (3, 1), (6, 0)]);
        self.left_mut().copy_from_positions(&bottom, &[(0, 2), (1, 5), (2, 8)]);
        self.top_mut().copy_from_positions(&left, &[(2, 8), (5, 7), (8, 6)]);
        proof {
            assert(old(self).data[4].wf());
            assert forall|f: int, i: int| in_range((f, i)) implies #[trigger] facelet(*self, f, i)
                == facelet(cube_turned(*old(self), Move::F), f, i) by {
                lemma_turned_facelet(*old(self), Move::F, f, i);
                lemma_base_turn_source(Move::F, f, i);
                lemma_mask_lanes(i as u64);
                lemma_copy_three(old(self).data[3].0, top.0, seq![(6usize, 0usize), (7usize, 3usize), (8usize, 6usize)], i as u64);
                lemma_copy_three(old(self).data[1].0, right.0, seq![(0usize, 2usize), (3usize, 1usize), (6usize, 0usize)], i as u64);
                lemma_copy_three(old(self).data[2].0, bottom.0, seq![(0usize, 2usize), (1usize, 5usize), (2usize, 8usize)], i as u64);
                lemma_copy_three(old(self).data[0].0, left.0, seq![(2usize, 8usize), (5usize, 7usize), (8usize, 6usize)], i as u64);
            }
            assert forall|f: int| 0 <= f < 6 implies high_bits(#[trigger] self.data[f].0) == 0
                && high_bits(cube_turned(*old(self), Move::F).data[f].0) == 0 by {
                lemma_turned_facelet(*old(self), Move::F, f, 0);
                lemma_mask_lanes(0);
                assert(old(self).data[f].wf());
                lemma_copy_three(old(self).data[3].0, top.0, seq![(6usize, 0usize), (7usize, 3usize), (8usize, 6usize)], 0);
                lemma_copy_three(old(self).data[1].0, right.0, seq![(0usize, 2usize), (3usize, 1usize), (6usize, 0usize)], 0);
                lemma_copy_three(old(self).data[2].0, bottom.0, seq![(0usize, 2usize), (1usize, 5usize), (2usize, 8usize)], 0);
                lemma_copy_three(old(self).data[0].0, left.0, seq![(2usize, 8usize), (5usize, 7usize), (8usize, 6usize)], 0);
            }
            lemma_cube_ext(*self, cube_turned(*old(self), Move::F));
            Cube::lemma_turned_wf(*old(self), Move::F);
        }
    }

    fn b(&mut self) {
        let top = self.top();
        let left = self.left();
        let bottom = self.bottom();
        let right = self.right();

        self.back_mut().cycle_edges_cw();
        self.left_mut().copy_from_positions(&top, &[(0, 6), (1, 3), (2, 0)]);
        self.bottom_mut().copy_from_positions(&left, &[(0, 6), (3, 7), (6, 8)]);
        self.right_mut().copy_from_positions(&bottom, &[(6, 8), (7, 5), (8, 2)]);
        self.top_mut().copy_from_positions(&right, &[(2, 0), (5, 1), (8, 2)]);
        proof {
            assert(old(self).data[5].wf());
            assert forall|f: int, i: int| in_range((f, i)) implies #[trigger] facelet(*self, f, i)
                == facelet(cube_turned(*old(self), Move::B), f, i) by {
                lemma_turned_facelet(*old(self), Move::B, f, i);
                lemma_base_turn_source(Move::B, f, i);
                lemma_mask_lanes(i as u64);
                lemma_copy_three(old(self).data[2].0, top.0, seq![(0usize, 6usize), (1usize, 3usize), (2usize, 0usize)], i as u64);
                lemma_copy_three(old(self).data[1].0, left.0, seq![(0usize, 6usize), (3usize, 7usize), (6usize, 8usize)], i as u64);
                lemma_copy_three(old(self).data[3].0, bottom.0, seq![(6usize, 8usize), (7usize, 5usize), (8usize, 2usize)], i as u64);
                lemma_copy_three(old(self).data[0].0, right.0, seq![(2usize, 0usize), (5usize, 1usize), (8usize, 2usize)], i as u64);
            }
            assert forall|f: int| 0 <= f < 6 implies high_bits(#[trigger] self.data[f].0) == 0
                && high_bits(cube_turned(*old(self), Move::B).data[f].0) == 0 by {
                lemma_turned_facelet(*old(self), Move::B, f, 0);
                lemma_mask_lanes(0);
                assert(old(self).data[f].wf());
                lemma_copy_three(old(self).data[2].0, top.0, seq![(0usize, 6usize), (1usize, 3usize), (2usize, 0usize)], 0);
                lemma_copy_three(old(self).data[1].0, left.0, seq![(0usize, 6usize), (3usize, 7usize), (6usize, 8usize)], 0);
                lemma_copy_three(old(self).data[3].0, bottom.0, seq![(6usize, 8usize), (7usize, 5usize), (8usize, 2usize)], 0);
                lemma_copy_three(old(self).data[0].0, right.0, seq![(2usize, 0usize), (5usize, 1usize), (8usize, 2usize)], 0);
            }
            lemma_cube_ext(*self, cube_turned(*old(self), Move::B));
            Cube::lemma_turned_wf(*old(self), Move::B);
        }
    }
}

/// The twelve quarter turns.
pub open spec fn all_moves() -> Seq<Move> {
    seq![
        Move::L,
        Move::LPrime,
        Move::R,
        Move::RPrime,
        Move::U,
        Move::UPrime,
        Move::D,
        Move::DPrime,
        Move::F,
        Move::FPrime,
        Move::B,
        Move::BPrime,
    ]
}

pub proof fn lemma_all_moves_listed(m: Move)
    ensures
        all_moves().contains(m),
{
    let k: int = match m {
        Move::L => 0,
        Move::LPrime => 1,
        Move::R => 2,
        Move::RPrime => 3,
        Move::U => 4,
        Move::UPrime => 5,
        Move::D => 6,
        Move::DPrime => 7,
        Move::F => 8,
        Move::FPrime => 9,
        Move::B => 10,
        Move::BPrime => 11,
    };
    assert(all_moves()[k] == m);
}

impl crate::bidisearch::Turn for Move {
    open spec fn inverse_spec(self) -> Self {
        inverse_move(self)
    }

    open spec fn name_spec(self) -> Seq<char> {
        match self {
            Move::L => "L"@,
            Move::LPrime => "L'"@,
            Move::R => "R"@,
            Move::RPrime => "R'"@,
            Move::U => "U"@,
            Move::UPrime => "U'"@,
            Move::D => "D"@,
            Move::DPrime => "D'"@,
            Move::F => "F"@,
            Move::FPrime => "F'"@,
            Move::B => "B"@,
            Move::BPrime => "B'"@,
        }
    }

    fn name(&self) -> (r: &'static str) {
        match self {
            Move::L => "L",
            Move::LPrime => "L'",
            Move::R => "R",
            Move::RPrime => "R'",
            Move::U => "U",
            Move::UPrime => "U'",
            Move::D => "D",
            Move::DPrime => "D'",
            Move::F => "F",
            Move::FPrime => "F'",
            Move::B => "B",
            Move::BPrime => "B'",
        }
    }

    fn inverse(&self) -> (r: Self) {
        match self {
            Move::L => Move::LPrime,
            Move::LPrime => Move::L,
            Move::R => Move::RPrime,
            Move::RPrime => Move::R,
            Move::U => Move::UPrime,
            Move::UPrime => Move::U,
            Move::D => Move::DPrime,
            Move::DPrime => Move::D,
            Move::F => Move::FPrime,
            Move::FPrime => Move::F,
            Move::B => Move::BPrime,
            Move::BPrime => Move::B,
        }
    }
}

impl crate::bidisearch::Turnable for Cube {
    type Turn = Move;

    open spec fn wf_state(self) -> bool {
        self.wf()
    }

    open spec fn turns_spec(self) -> Seq<Move> {
        all_moves()
    }

    open spec fn apply(self, turn: Move) -> Self {
        cube_turned(self, turn)
    }

    open spec fn solved_spec() -> Self {
        Cube::solved()
    }

    open spec fn key_spec(self) -> StateKey {
        [
            self.data[0].0,
            self.data[1].0,
            self.data[2].0,
            self.data[3].0,
            self.data[4].0,
            self.data[5].0,
        ]
    }

    proof fn lemma_solved_wf() {
        lemma_solid_lanes(0);
        lemma_solid_lanes(1);
        lemma_solid_lanes(2);
        lemma_solid_lanes(4);
        lemma_solid_lanes(8);
        lemma_solid_lanes(16);
        let c = Cube::solved();
        assert forall|f: int| 0 <= f < 6 implies (#[trigger] c.data[f]).wf() by {
            if f == 0 {
            } else if f == 1 {
            } else if f == 2 {
            } else if f == 3 {
            } else if f == 4 {
            } else {
            }
        }
    }

    proof fn lemma_turn_then_inverse(s: Self, turn: Move) {
        assert(crate::bidisearch::Turn::inverse_spec(turn) == inverse_move(turn));
        Cube::lemma_turned_wf(s, turn);
        Cube::lemma_turn_then_undo(s, turn);
        lemma_all_moves_listed(inverse_move(turn));
    }

    proof fn lemma_key_injective(a: Self, b: Self) {
        assert(a.key_spec()[0] == b.key_spec()[0]);
        assert(a.key_spec()[1] == b.key_spec()[1]);
        assert(a.key_spec()[2] == b.key_spec()[2]);
        assert(a.key_spec()[3] == b.key_spec()[3]);
        assert(a.key_spec()[4] == b.key_spec()[4]);
        assert(a.key_spec()[5] == b.key_spec()[5]);
        assert(a.data =~= b.data);
    }

    fn possible_turns(&self) -> (r: Vec<Move>) {
        let r = vec![
            Move::L,
            Move::LPrime,
            Move::R,
            Move::RPrime,
            Move::U,
            Move::UPrime,
            Move::D,
            Move::DPrime,
            Move::F,
            Move::FPrime,
            Move::B,
            Move::BPrime,
        ];
        assert(r@ =~= all_moves());
        r
    }

    fn make_turn(&self, turn: Move) -> (r: Self) {
        let mut state = *self;
        state.perform(turn);
        state
    }

    fn solved_state() -> (r: Self) {
        Cube::default()
    }

    fn key(&self) -> (r: StateKey) {
        let r = [
            self.data[0].0,
            self.data[1].0,
            self.data[2].0,
            self.data[3].0,
            self.data[4].0,
            self.data[5].0,
        ];
        assert(r =~= self.key_spec());
        r
    }
}

} // verus!
