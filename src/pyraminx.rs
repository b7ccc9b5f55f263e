//! The pyraminx. Only the three center pieces around each corner and the
//! center triangle of each face are modelled: the tips are trivial to solve
//! and are left out.
use crate::bidisearch::{StateKey, Turn, Turnable};
use vstd::prelude::*;

verus! {

#[derive(Copy, Clone, Debug, PartialEq, Eq, Structural, Hash)]
pub enum Color {
    Yellow,
    Green,
    Blue,
    Red,
}

impl Color {
    /// A two-bit code of the color, used in state keys.
    pub open spec fn code(self) -> u64 {
        match self {
            Color::Yellow => 0,
            Color::Green => 1,
            Color::Blue => 2,
            Color::Red => 3,
        }
    }

    pub fn code_of(self) -> (r: u64)
        ensures
            r == self.code(),
    {
        match self {
            Color::Yellow => 0,
            Color::Green => 1,
            Color::Blue => 2,
            Color::Red => 3,
        }
    }
}

/// The colors of one face, stored like this:
///
/// ```text
///      0
///     1 2
///    3 4 5
/// ```
#[derive(Copy, Clone, Debug, PartialEq, Eq, Hash)]
pub struct Face {
    pub data: [Color; 6],
}

/// The face with `c` at every position.
pub open spec fn filled(c: Color) -> Face {
    Face { data: [c, c, c, c, c, c] }
}

/// `to` with the colors of `from` copied in as `positions` says, pair by
/// pair: for `(a, b)`, position `b` takes the color at position `a` of `from`.
pub open spec fn copied(to: Seq<Color>, from: Seq<Color>, positions: Seq<(usize, usize)>) -> Seq<
    Color,
>
    decreases positions.len(),
{
    if positions.len() == 0 {
        to
    } else {
        let (a, b) = positions.last();
        copied(to, from, positions.drop_last()).update(b as int, from[a as int])
    }
}

impl Face {
    pub open spec fn color(self, i: int) -> Color {
        self.data[i]
    }

    /// A face with `color` at every position.
    pub fn fill(color: Color) -> (r: Self)
        ensures
            r == filled(color),
            forall|i: int| 0 <= i < 6 ==> #[trigger] r.color(i) == color,
    {
        let r = Face { data: [color; 6] };
        assert(r.data =~= filled(color).data);
        r
    }

    /// Copies the given positions from another face to this face.
    pub fn copy_from(&mut self, other: &Self, positions: &[(usize, usize)])
        requires
            forall|k: int| 0 <= k < positions@.len() ==> (#[trigger] positions@[k]).0 < 6
                && positions@[k].1 < 6,
        ensures
            final(self).data@ == copied(old(self).data@, other.data@, positions@),
    {
        let n = positions.len();
        let mut k: usize = 0;
        while k < n
            invariant
                n == positions@.len(),
                k <= n,
                forall|q: int| 0 <= q < positions@.len() ==> (#[trigger] positions@[q]).0 < 6
                    && positions@[q].1 < 6,
                self.data@ == copied(old(self).data@, other.data@, positions@.take(k as int)),
            decreases n - k,
        {
            let (from, to) = positions[k];
            self.data[to] = other.data[from];
            proof {
                let next = positions@.take(k + 1);
                assert(next.drop_last() == positions@.take(k as int));
                assert(next.last() == positions@[k as int]);
            }
            k = k + 1;
        }
        proof {
            assert(positions@.take(n as int) == positions@);
        }
    }
}

#[derive(Copy, Clone, Debug, PartialEq, Eq, Structural, Hash)]
pub enum PyraminxTurn {
    Left,
    LeftPrime,
    Right,
    RightPrime,
    Back,
    BackPrime,
    Up,
    UpPrime,
}

pub const FRONT: usize = 0;
pub const LEFT: usize = 1;
pub const RIGHT: usize = 2;
pub const BOTTOM: usize = 3;

/// Where facelet `i` of face `f` comes from in a clockwise turn of the right
/// corner.
pub open spec fn right_source(f: int, i: int) -> (int, int) {
    if f == 2 && 3 <= i <= 5 {
        (0, i - 2)
    } else if f == 3 && 0 <= i <= 2 {
        (2, i + 3)
    } else if f == 0 && 1 <= i <= 3 {
        (3, i - 1)
    } else {
        (f, i)
    }
}

/// Where facelet `i` of face `f` comes from in a clockwise turn of the left
/// corner.
pub open spec fn left_source(f: int, i: int) -> (int, int) {
    if f == 1 && i == 3 {
        (3, 0)
    } else if f == 1 && i == 1 {
        (3, 4)
    } else if f == 1 && i == 2 {
        (3, 5)
    } else if f == 0 && 3 <= i <= 5 {
        (1, i - 2)
    } else if f == 3 && i == 0 {
        (0, 5)
    } else if f == 3 && i == 5 {
        (0, 4)
    } else if f == 3 && i == 4 {
        (0, 3)
    } else {
        (f, i)
    }
}

/// Where facelet `i` of face `f` comes from in a clockwise turn of the back
/// corner.
pub open spec fn back_source(f: int, i: int) -> (int, int) {
    if f == 2 && 1 <= i <= 3 {
        (3, i + 1)
    } else if f == 1 && 3 <= i <= 5 {
        (2, i - 2)
    } else if f == 3 && 2 <= i <= 4 {
        (1, i + 1)
    } else {
        (f, i)
    }
}

/// Where facelet `i` of face `f` comes from in a clockwise turn of the top
/// corner.
pub open spec fn up_source(f: int, i: int) -> (int, int) {
    if f == 0 && (i == 0 || i == 1 || i == 5) {
        (2, i)
    } else if f == 1 && (i == 0 || i == 1 || i == 5) {
        (0, i)
    } else if f == 2 && (i == 0 || i == 1 || i == 5) {
        (1, i)
    } else {
        (f, i)
    }
}

/// The clockwise turn of the same corner.
pub open spec fn base_turn(t: PyraminxTurn) -> PyraminxTurn {
    match t {
        PyraminxTurn::LeftPrime => PyraminxTurn::Left,
        PyraminxTurn::RightPrime => PyraminxTurn::Right,
        PyraminxTurn::BackPrime => PyraminxTurn::Back,
        PyraminxTurn::UpPrime => PyraminxTurn::Up,
        _ => t,
    }
}

pub open spec fn is_prime(t: PyraminxTurn) -> bool {
    base_turn(t) != t
}

pub open spec fn base_source(t: PyraminxTurn, f: int, i: int) -> (int, int) {
    match base_turn(t) {
        PyraminxTurn::Left => left_source(f, i),
        PyraminxTurn::Right => right_source(f, i),
        PyraminxTurn::Back => back_source(f, i),
        _ => up_source(f, i),
    }
}

/// Where facelet `i` of face `f` comes from in turn `t`: a counter-clockwise
/// turn is two clockwise ones.
pub open spec fn turn_source(t: PyraminxTurn, f: int, i: int) -> (int, int) {
    if is_prime(t) {
        let (g, j) = base_source(t, f, i);
        base_source(t, g, j)
    } else {
        base_source(t, f, i)
    }
}

/// Facelet sources stay on the puzzle.
pub open spec fn in_range(p: (int, int)) -> bool {
    0 <= p.0 < 4 && 0 <= p.1 < 6
}

/// Three clockwise turns of a corner bring every facelet back.
proof fn lemma_base_three(t: PyraminxTurn, f: int, i: int)
    requires
        0 <= f < 4,
        0 <= i < 6,
    ensures
        in_range(base_source(t, f, i)),
        in_range(base_source(t, base_source(t, f, i).0, base_source(t, f, i).1)),
        base_source(
            t,
            base_source(t, base_source(t, f, i).0, base_source(t, f, i).1).0,
            base_source(t, base_source(t, f, i).0, base_source(t, f, i).1).1,
        ) == (f, i),
{
    match base_turn(t) {
        PyraminxTurn::Left => {
            if f == 0 {} else if f == 1 {} else if f == 2 {} else {}
        },
        PyraminxTurn::Right => {
            if f == 0 {} else if f == 1 {} else if f == 2 {} else {}
        },
        PyraminxTurn::Back => {
            if f == 0 {} else if f == 1 {} else if f == 2 {} else {}
        },
        _ => {
            if f == 0 {} else if f == 1 {} else if f == 2 {} else {}
        },
    }
}

/// The sources of a turn and of its inverse undo each other.
proof fn lemma_source_undo(t: PyraminxTurn, f: int, i: int)
    requires
        0 <= f < 4,
        0 <= i < 6,
    ensures
        in_range(turn_source(t.inverse_spec(), f, i)),
        turn_source(t, turn_source(t.inverse_spec(), f, i).0, turn_source(t.inverse_spec(), f, i).1)
            == (f, i),
{
    let u = t.inverse_spec();
    assert(base_turn(u) == base_turn(t));
    lemma_base_three(t, f, i);
}

/// Three turns of one corner in one direction bring every facelet back.
proof fn lemma_source_three(t: PyraminxTurn, f: int, i: int)
    requires
        0 <= f < 4,
        0 <= i < 6,
    ensures
        in_range(turn_source(t, f, i)),
        in_range(turn_source(t, turn_source(t, f, i).0, turn_source(t, f, i).1)),
        turn_source(
            t,
            turn_source(t, turn_source(t, f, i).0, turn_source(t, f, i).1).0,
            turn_source(t, turn_source(t, f, i).0, turn_source(t, f, i).1).1,
        ) == (f, i),
{
    lemma_base_three(t, f, i);
    if is_prime(t) {
        let p1 = base_source(t, f, i);
        let p2 = base_source(t, p1.0, p1.1);
        let p3 = base_source(t, p2.0, p2.1);
        lemma_base_three(t, p1.0, p1.1);
        lemma_base_three(t, p2.0, p2.1);
        let p4 = base_source(t, p3.0, p3.1);
        lemma_base_three(t, p4.0, p4.1);
    }
}

pub open spec fn all_turns() -> Seq<PyraminxTurn> {
    seq![
        PyraminxTurn::Left,
        PyraminxTurn::LeftPrime,
        PyraminxTurn::Right,
        PyraminxTurn::RightPrime,
        PyraminxTurn::Back,
        PyraminxTurn::BackPrime,
        PyraminxTurn::Up,
        PyraminxTurn::UpPrime,
    ]
}

pub proof fn lemma_all_turns_listed(t: PyraminxTurn)
    ensures
        all_turns().contains(t),
{
    let k: int = match t {
        PyraminxTurn::Left => 0,
        PyraminxTurn::LeftPrime => 1,
        PyraminxTurn::Right => 2,
        PyraminxTurn::RightPrime => 3,
        PyraminxTurn::Back => 4,
        PyraminxTurn::BackPrime => 5,
        PyraminxTurn::Up => 6,
        PyraminxTurn::UpPrime => 7,
    };
    assert(all_turns()[k] == t);
}

#[derive(Copy, Clone, Debug, PartialEq, Eq, Hash)]
pub struct Pyraminx {
    /// Front face is yellow, left face is blue, right face is red, bottom face
    /// is green. They are stored in that exact order.
    pub faces: [Face; 4],
}

impl Pyraminx {
    pub const FRONT: usize = 0;
    pub const LEFT: usize = 1;
    pub const RIGHT: usize = 2;
    pub const BOTTOM: usize = 3;

    pub open spec fn facelet(self, f: int, i: int) -> Color {
        self.faces[f].data[i]
    }

    pub open spec fn sourced(self, t: PyraminxTurn, f: int, i: int) -> Color {
        let (g, j) = turn_source(t, f, i);
        self.facelet(g, j)
    }

    pub open spec fn face_after(self, t: PyraminxTurn, f: int) -> Face {
        Face {
            data: [
                self.sourced(t, f, 0),
                self.sourced(t, f, 1),
                self.sourced(t, f, 2),
                self.sourced(t, f, 3),
                self.sourced(t, f, 4),
                self.sourced(t, f, 5),
            ],
        }
    }

    /// The pyraminx after turn `t`.
    pub open spec fn turned(self, t: PyraminxTurn) -> Pyraminx {
        Pyraminx {
            faces: [
                self.face_after(t, 0),
                self.face_after(t, 1),
                self.face_after(t, 2),
                self.face_after(t, 3),
            ],
        }
    }

    pub open spec fn solved() -> Pyraminx {
        Pyraminx {
            faces: [
                filled(Color::Yellow),
                filled(Color::Blue),
                filled(Color::Red),
                filled(Color::Green),
            ],
        }
    }

    /// Two pyraminxes with the same colors everywhere are equal.
    pub proof fn lemma_ext(a: Pyraminx, b: Pyraminx)
        requires
            forall|f: int, i: int| 0 <= f < 4 && 0 <= i < 6 ==> #[trigger] a.facelet(f, i) == b.facelet(f, i),
        ensures
            a == b,
    {
        assert forall|f: int| 0 <= f < 4 implies a.faces[f] == b.faces[f] by {
            assert(a.faces[f].data =~= b.faces[f].data) by {
                assert forall|i: int| 0 <= i < 6 implies a.faces[f].data[i] == b.faces[f].data[i] by {
                    assert(a.facelet(f, i) == b.facelet(f, i));
                }
            }
        }
        assert(a.faces =~= b.faces);
    }

    /// Two clockwise turns of a corner are one counter-clockwise turn.
    pub proof fn lemma_twice_is_prime(self, t: PyraminxTurn)
        requires
            !is_prime(t),
        ensures
            self.turned(t).turned(t) == self.turned(match t {
                PyraminxTurn::Left => PyraminxTurn::LeftPrime,
                PyraminxTurn::Right => PyraminxTurn::RightPrime,
                PyraminxTurn::Back => PyraminxTurn::BackPrime,
                _ => PyraminxTurn::UpPrime,
            }),
    {
        let p = match t {
            PyraminxTurn::Left => PyraminxTurn::LeftPrime,
            PyraminxTurn::Right => PyraminxTurn::RightPrime,
            PyraminxTurn::Back => PyraminxTurn::BackPrime,
            _ => PyraminxTurn::UpPrime,
        };
        assert forall|f: int, i: int| 0 <= f < 4 && 0 <= i < 6 implies #[trigger] self.turned(t).turned(
            t,
        ).facelet(f, i) == self.turned(p).facelet(f, i) by {
            self.turned(t).lemma_turned_facelet(t, f, i);
            self.lemma_turned_facelet(p, f, i);
            let (g, j) = turn_source(t, f, i);
            self.lemma_turned_facelet(t, g, j);
        }
        Self::lemma_ext(self.turned(t).turned(t), self.turned(p));
    }

    /// A turn followed by its inverse gives back the pyraminx.
    pub proof fn lemma_turn_then_undo(self, t: PyraminxTurn)
        ensures
            self.turned(t).turned(t.inverse_spec()) == self,
    {
        let u = t.inverse_spec();
        assert forall|f: int, i: int| 0 <= f < 4 && 0 <= i < 6 implies #[trigger] self.turned(t).turned(
            u,
        ).facelet(f, i) == self.facelet(f, i) by {
            lemma_source_undo(t, f, i);
            self.turned(t).lemma_turned_facelet(u, f, i);
            let (g, j) = turn_source(u, f, i);
            self.lemma_turned_facelet(t, g, j);
        }
        Self::lemma_ext(self.turned(t).turned(u), self);
    }

    /// Three turns of one corner in one direction give back the pyraminx.
    pub proof fn lemma_three_turns(self, t: PyraminxTurn)
        ensures
            self.turned(t).turned(t).turned(t) == self,
    {
        let a = self.turned(t);
        let b = a.turned(t);
        assert forall|f: int, i: int| 0 <= f < 4 && 0 <= i < 6 implies #[trigger] b.turned(t).facelet(
            f,
            i,
        ) == self.facelet(f, i) by {
            lemma_source_three(t, f, i);
            b.lemma_turned_facelet(t, f, i);
            let (g, j) = turn_source(t, f, i);
            a.lemma_turned_facelet(t, g, j);
            let (g2, j2) = turn_source(t, g, j);
            self.lemma_turned_facelet(t, g2, j2);
        }
        Self::lemma_ext(b.turned(t), self);
    }

    /// Word `k` of the key holds the codes of position `k` of the four
    /// faces, two bits each.
    pub open spec fn key_word(self, k: int) -> u64 {
        (self.facelet(0, k).code() + 4 * self.facelet(1, k).code() + 16 * self.facelet(2, k).code()
            + 64 * self.facelet(3, k).code()) as u64
    }

    /// The colors after a turn are those at the turn's sources.
    pub proof fn lemma_turned_facelet(self, t: PyraminxTurn, f: int, i: int)
        requires
            0 <= f < 4,
            0 <= i < 6,
        ensures
            self.turned(t).facelet(f, i) == self.sourced(t, f, i),
    {
    }

    pub fn r(&mut self)
        ensures
            *final(self) == old(self).turned(PyraminxTurn::Right),
    {
        let front = self.faces[Self::FRONT];
        let right = self.faces[Self::RIGHT];
        let bottom = self.faces[Self::BOTTOM];

        self.faces[Self::RIGHT].copy_from(&front, &[(1, 3), (2, 4), (3, 5)]);
        self.faces[Self::BOTTOM].copy_from(&right, &[(5, 2), (4, 1), (3, 0)]);
        self.faces[Self::FRONT].copy_from(&bottom, &[(0, 1), (1, 2), (2, 3)]);
        proof {
            reveal_with_fuel(copied, 4);
            assert forall|f: int, i: int| 0 <= f < 4 && 0 <= i < 6 implies #[trigger] self.facelet(f, i)
                == old(self).turned(PyraminxTurn::Right).facelet(f, i) by {
                old(self).lemma_turned_facelet(PyraminxTurn::Right, f, i);
            }
            Self::lemma_ext(*self, old(self).turned(PyraminxTurn::Right));
        }
    }

    pub fn r_prime(&mut self)
        ensures
            *final(self) == old(self).turned(PyraminxTurn::RightPrime),
    {
        self.r();
        self.r();
        proof {
            old(self).lemma_twice_is_prime(PyraminxTurn::Right);
        }
    }

    pub fn l(&mut self)
        ensures
            *final(self) == old(self).turned(PyraminxTurn::Left),
    {
        let front = self.faces[Self::FRONT];
        let bottom = self.faces[Self::BOTTOM];
        let left = self.faces[Self::LEFT];

        self.faces[Self::LEFT].copy_from(&bottom, &[(0, 3), (4, 1), (5, 2)]);
        self.faces[Self::FRONT].copy_from(&left, &[(1, 3), (2, 4), (3, 5)]);
        self.faces[Self::BOTTOM].copy_from(&front, &[(5, 0), (4, 5), (3, 4)]);
        proof {
            reveal_with_fuel(copied, 4);
            assert forall|f: int, i: int| 0 <= f < 4 && 0 <= i < 6 implies #[trigger] self.facelet(f, i)
                == old(self).turned(PyraminxTurn::Left).facelet(f, i) by {
                old(self).lemma_turned_facelet(PyraminxTurn::Left, f, i);
            }
            Self::lemma_ext(*self, old(self).turned(PyraminxTurn::Left));
        }
    }

    pub fn l_prime(&mut self)
        ensures
            *final(self) == old(self).turned(PyraminxTurn::LeftPrime),
    {
        self.l();
        self.l();
        proof {
            old(self).lemma_twice_is_prime(PyraminxTurn::Left);
        }
    }

    pub fn b(&mut self)
        ensures
            *final(self) == old(self).turned(PyraminxTurn::Back),
    {
        let right = self.faces[Self::RIGHT];
        let left = self.faces[Self::LEFT];
        let bottom = self.faces[Self::BOTTOM];

        self.faces[Self::RIGHT].copy_from(&bottom, &[(2, 1), (3, 2), (4, 3)]);
        self.faces[Self::LEFT].copy_from(&right, &[(1, 3), (2, 4), (3, 5)]);
        self.faces[Self::BOTTOM].copy_from(&left, &[(5, 4), (4, 3), (3, 2)]);
        proof {
            reveal_with_fuel(copied, 4);
            assert forall|f: int, i: int| 0 <= f < 4 && 0 <= i < 6 implies #[trigger] self.facelet(f, i)
                == old(self).turned(PyraminxTurn::Back).facelet(f, i) by {
                old(self).lemma_turned_facelet(PyraminxTurn::Back, f, i);
            }
            Self::lemma_ext(*self, old(self).turned(PyraminxTurn::Back));
        }
    }

    pub fn b_prime(&mut self)
        ensures
            *final(self) == old(self).turned(PyraminxTurn::BackPrime),
    {
        self.b();
        self.b();
        proof {
            old(self).lemma_twice_is_prime(PyraminxTurn::Back);
        }
    }

    pub fn u(&mut self)
        ensures
            *final(self) == old(self).turned(PyraminxTurn::Up),
    {
        let front = self.faces[Self::FRONT];
        let right = self.faces[Self::RIGHT];
        let left = self.faces[Self::LEFT];

        self.faces[Self::FRONT].copy_from(&right, &[(0, 0), (1, 1), (5, 5)]);
        self.faces[Self::LEFT].copy_from(&front, &[(0, 0), (1, 1), (5, 5)]);
        self.faces[Self::RIGHT].copy_from(&left, &[(0, 0), (1, 1), (5, 5)]);
        proof {
            reveal_with_fuel(copied, 4);
            assert forall|f: int, i: int| 0 <= f < 4 && 0 <= i < 6 implies #[trigger] self.facelet(f, i)
                == old(self).turned(PyraminxTurn::Up).facelet(f, i) by {
                old(self).lemma_turned_facelet(PyraminxTurn::Up, f, i);
            }
            Self::lemma_ext(*self, old(self).turned(PyraminxTurn::Up));
        }
    }

    pub fn u_prime(&mut self)
        ensures
            *final(self) == old(self).turned(PyraminxTurn::UpPrime),
    {
        self.u();
        self.u();
        proof {
            old(self).lemma_twice_is_prime(PyraminxTurn::Up);
        }
    }
}

impl Default for Pyraminx {
    fn default() -> (r: Self)
        ensures
            r == Pyraminx::solved(),
    {
        let r = Pyraminx {
            faces: [
                Face::fill(Color::Yellow),
                Face::fill(Color::Blue),
                Face::fill(Color::Red),
                Face::fill(Color::Green),
            ],
        };
        assert(r.faces =~= Pyraminx::solved().faces);
        r
    }
}

impl Turn for PyraminxTurn {
    open spec fn inverse_spec(self) -> Self {
        match self {
            PyraminxTurn::Left => PyraminxTurn::LeftPrime,
            PyraminxTurn::LeftPrime => PyraminxTurn::Left,
            PyraminxTurn::Right => PyraminxTurn::RightPrime,
            PyraminxTurn::RightPrime => PyraminxTurn::Right,
            PyraminxTurn::Back => PyraminxTurn::BackPrime,
            PyraminxTurn::BackPrime => PyraminxTurn::Back,
            PyraminxTurn::Up => PyraminxTurn::UpPrime,
            PyraminxTurn::UpPrime => PyraminxTurn::Up,
        }
    }

    open spec fn name_spec(self) -> Seq<char> {
        match self {
            PyraminxTurn::Left => "L"@,
            PyraminxTurn::LeftPrime => "L'"@,
            PyraminxTurn::Right => "R"@,
            PyraminxTurn::RightPrime => "R'"@,
            PyraminxTurn::Back => "B"@,
            PyraminxTurn::BackPrime => "B'"@,
            PyraminxTurn::Up => "U"@,
            PyraminxTurn::UpPrime => "U'"@,
        }
    }

    fn name(&self) -> (r: &'static str) {
        match self {
            PyraminxTurn::Left => "L",
            PyraminxTurn::LeftPrime => "L'",
            PyraminxTurn::Right => "R",
            PyraminxTurn::RightPrime => "R'",
            PyraminxTurn::Back => "B",
            PyraminxTurn::BackPrime => "B'",
            PyraminxTurn::Up => "U",
            PyraminxTurn::UpPrime => "U'",
        }
    }

    fn inverse(&self) -> (r: Self) {
        match self {
            PyraminxTurn::Left => PyraminxTurn::LeftPrime,
            PyraminxTurn::LeftPrime => PyraminxTurn::Left,
            PyraminxTurn::Right => PyraminxTurn::RightPrime,
            PyraminxTurn::RightPrime => PyraminxTurn::Right,
            PyraminxTurn::Back => PyraminxTurn::BackPrime,
            PyraminxTurn::BackPrime => PyraminxTurn::Back,
            PyraminxTurn::Up => PyraminxTurn::UpPrime,
            PyraminxTurn::UpPrime => PyraminxTurn::Up,
        }
    }
}

impl Turnable for Pyraminx {
    type Turn = PyraminxTurn;

    open spec fn wf_state(self) -> bool {
        true
    }

    open spec fn turns_spec(self) -> Seq<PyraminxTurn> {
        all_turns()
    }

    open spec fn apply(self, turn: PyraminxTurn) -> Self {
        self.turned(turn)
    }

    open spec fn solved_spec() -> Self {
        Pyraminx::solved()
    }

    open spec fn key_spec(self) -> StateKey {
        [
            self.key_word(0),
            self.key_word(1),
            self.key_word(2),
            self.key_word(3),
            self.key_word(4),
            self.key_word(5),
        ]
    }

    proof fn lemma_solved_wf() {
    }

    proof fn lemma_turn_then_inverse(s: Self, turn: PyraminxTurn) {
        lemma_all_turns_listed(turn.inverse_spec());
        s.lemma_turn_then_undo(turn);
    }

    proof fn lemma_key_injective(a: Self, b: Self) {
        assert forall|f: int, i: int| 0 <= f < 4 && 0 <= i < 6 implies #[trigger] a.facelet(f, i)
            == b.facelet(f, i) by {
            assert(a.key_spec()[i] == b.key_spec()[i]);
            assert(a.key_word(i) == b.key_word(i));
            assert(a.facelet(0, i).code() == b.facelet(0, i).code());
            assert(a.facelet(1, i).code() == b.facelet(1, i).code());
            assert(a.facelet(2, i).code() == b.facelet(2, i).code());
            assert(a.facelet(3, i).code() == b.facelet(3, i).code());
        }
        Self::lemma_ext(a, b);
    }

    fn possible_turns(&self) -> (r: Vec<PyraminxTurn>) {
        let r = vec![
            PyraminxTurn::Left,
            PyraminxTurn::LeftPrime,
            PyraminxTurn::Right,
            PyraminxTurn::RightPrime,
            PyraminxTurn::Back,
            PyraminxTurn::BackPrime,
            PyraminxTurn::Up,
            PyraminxTurn::UpPrime,
        ];
        assert(r@ =~= all_turns());
        r
    }

    fn make_turn(&self, turn: PyraminxTurn) -> (r: Self) {
        let mut state = *self;
        match turn {
            PyraminxTurn::Left => state.l(),
            PyraminxTurn::LeftPrime => state.l_prime(),
            PyraminxTurn::Right => state.r(),
            PyraminxTurn::RightPrime => state.r_prime(),
            PyraminxTurn::Back => state.b(),
            PyraminxTurn::BackPrime => state.b_prime(),
            PyraminxTurn::Up => state.u(),
            PyraminxTurn::UpPrime => state.u_prime(),
        }
        state
    }

    fn solved_state() -> (r: Self) {
        Self::default()
    }

    fn key(&self) -> (r: StateKey) {
        let mut words: StateKey = [0; 6];
        let mut k: usize = 0;
        while k < 6
            invariant
                k <= 6,
                forall|j: int| 0 <= j < k ==> words[j] == self.key_word(j),
            decreases 6 - k,
        {
            let w = self.faces[0].data[k].code_of() + 4 * self.faces[1].data[k].code_of() + 16
                * self.faces[2].data[k].code_of() + 64 * self.faces[3].data[k].code_of();
            words[k] = w;
            k = k + 1;
        }
        assert(words =~= self.key_spec());
        words
    }
}

} // verus!
