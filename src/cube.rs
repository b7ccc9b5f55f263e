//! Packed encoding of the facelets of a 3x3 cube: each face is one `u64` that
//! holds nine five-bit lanes, one per facelet, in row-major order:
//!
//! ```text
//!     + --- +
//!     | 012 |
//!     | 345 |
//!     | 678 |
//!     + --- +
//! ```
//!
//! Lane `i` occupies bits `5 * i .. 5 * i + 5`; the bits from 45 upwards are
//! not part of any lane.
use vstd::prelude::*;

verus! {

/// Width in bits of one lane.
pub const LANE_BITS: u64 = 5;

/// Number of lanes (facelets) in one face.
pub const LANES: usize = 9;

/// The value held in lane `i` of `bits`.
pub open spec fn lane(bits: u64, i: u64) -> u64 {
    (bits >> ((5 * i) as u64)) & 0x1f
}

/// `bits` with lane `i` replaced by `v`.
pub open spec fn with_lane(bits: u64, i: u64, v: u64) -> u64 {
    (bits & !(0x1fu64 << ((5 * i) as u64))) | (v << ((5 * i) as u64))
}

/// The bits above the nine lanes.
pub open spec fn high_bits(bits: u64) -> u64 {
    bits >> 45
}

/// The lane codes that stand for a color; every other five-bit pattern is
/// invalid.
pub open spec fn is_color_code(n: u64) -> bool {
    n == 0 || n == 1 || n == 2 || n == 4 || n == 8 || n == 16
}

/// Writing a lane and reading it back gives the written value; every other
/// lane and the bits above the lanes keep their value.
pub proof fn lemma_lane_round_trip(bits: u64, i: u64, j: u64, v: u64)
    requires
        i < 9,
        j < 9,
        v < 32,
    ensures
        lane(with_lane(bits, i, v), i) == v,
        j != i ==> lane(with_lane(bits, i, v), j) == lane(bits, j),
        high_bits(with_lane(bits, i, v)) == high_bits(bits),
{
    assert(lane((bits & !(0x1fu64 << ((5 * i) as u64))) | (v << ((5 * i) as u64)), i) == v
        && (j != i ==> lane((bits & !(0x1fu64 << ((5 * i) as u64))) | (v << ((5 * i) as u64)), j)
        == lane(bits, j)) && high_bits(
        (bits & !(0x1fu64 << ((5 * i) as u64))) | (v << ((5 * i) as u64)),
    ) == high_bits(bits)) by (bit_vector)
        requires
            i < 9,
            j < 9,
            v < 32,
    ;
}


/// Two words with the same nine lanes and the same bits above them are equal.
pub proof fn lemma_lanes_determine_bits(a: u64, b: u64)
    requires
        lane(a, 0) == lane(b, 0),
        lane(a, 1) == lane(b, 1),
        lane(a, 2) == lane(b, 2),
        lane(a, 3) == lane(b, 3),
        lane(a, 4) == lane(b, 4),
        lane(a, 5) == lane(b, 5),
        lane(a, 6) == lane(b, 6),
        lane(a, 7) == lane(b, 7),
        lane(a, 8) == lane(b, 8),
        high_bits(a) == high_bits(b),
    ensures
        a == b,
{
    assert(a == b) by (bit_vector)
        requires
            (a >> 0u64) & 0x1f == (b >> 0u64) & 0x1f,
            (a >> 5u64) & 0x1f == (b >> 5u64) & 0x1f,
            (a >> 10u64) & 0x1f == (b >> 10u64) & 0x1f,
            (a >> 15u64) & 0x1f == (b >> 15u64) & 0x1f,
            (a >> 20u64) & 0x1f == (b >> 20u64) & 0x1f,
            (a >> 25u64) & 0x1f == (b >> 25u64) & 0x1f,
            (a >> 30u64) & 0x1f == (b >> 30u64) & 0x1f,
            (a >> 35u64) & 0x1f == (b >> 35u64) & 0x1f,
            (a >> 40u64) & 0x1f == (b >> 40u64) & 0x1f,
            a >> 45u64 == b >> 45u64,
    ;
}

/// Copying the bits under `mask` from `src` into `dst`: a lane that the mask
/// covers whole comes from `src`, a lane that it leaves out stays as in `dst`.
pub proof fn lemma_masked_copy_lane(dst: u64, src: u64, mask: u64, j: u64)
    requires
        j < 9,
    ensures
        lane(mask, j) == 0x1f ==> lane((dst & !mask) | (src & mask), j) == lane(src, j),
        lane(mask, j) == 0 ==> lane((dst & !mask) | (src & mask), j) == lane(dst, j),
        high_bits(mask) == 0 ==> high_bits((dst & !mask) | (src & mask)) == high_bits(dst),
{
    assert((lane(mask, j) == 0x1f ==> lane((dst & !mask) | (src & mask), j) == lane(src, j)) && (
    lane(mask, j) == 0 ==> lane((dst & !mask) | (src & mask), j) == lane(dst, j)) && (high_bits(
        mask,
    ) == 0 ==> high_bits((dst & !mask) | (src & mask)) == high_bits(dst))) by (bit_vector)
        requires
            j < 9,
    ;
}

/// The word with the value 1 in each of the nine lanes.
pub const ONE_PER_LANE: u64 = 0x10842108421;

/// The face whose nine lanes all hold `code`.
pub open spec fn solid_spec(code: u64) -> Face {
    Face((code * 0x10842108421) as u64)
}

/// Each lane of `solid_spec(code)` holds `code`, and no bit above them is set.
pub proof fn lemma_solid_lanes(code: u64)
    requires
        code < 32,
    ensures
        code * 0x10842108421 < 0x20000000000000,
        forall|j: u64| j < 9 ==> #[trigger] lane((code * 0x10842108421) as u64, j) == code,
        high_bits((code * 0x10842108421) as u64) == 0,
{
    assert(code * 0x10842108421 < 0x20000000000000) by (nonlinear_arith)
        requires
            code < 32,
    ;
    assert forall|j: u64| j < 9 implies #[trigger] lane((code * 0x10842108421) as u64, j) == code by {
        assert(lane((code * 0x10842108421) as u64, j) == code) by (bit_vector)
            requires
                code < 32,
                j < 9,
        ;
    }
    assert(high_bits((code * 0x10842108421) as u64) == 0) by (bit_vector)
        requires
            code < 32,
    ;
}

/// The word whose lanes hold `l0` to `l8`, with no bit above them.
pub open spec fn pack9(
    l0: u64,
    l1: u64,
    l2: u64,
    l3: u64,
    l4: u64,
    l5: u64,
    l6: u64,
    l7: u64,
    l8: u64,
) -> u64 {
    l0 | (l1 << 5u64) | (l2 << 10u64) | (l3 << 15u64) | (l4 << 20u64) | (l5 << 25u64) | (l6
        << 30u64) | (l7 << 35u64) | (l8 << 40u64)
}

pub proof fn lemma_pack9(
    l0: u64,
    l1: u64,
    l2: u64,
    l3: u64,
    l4: u64,
    l5: u64,
    l6: u64,
    l7: u64,
    l8: u64,
)
    requires
        l0 < 32,
        l1 < 32,
        l2 < 32,
        l3 < 32,
        l4 < 32,
        l5 < 32,
        l6 < 32,
        l7 < 32,
        l8 < 32,
    ensures
        lane(pack9(l0, l1, l2, l3, l4, l5, l6, l7, l8), 0) == l0,
        lane(pack9(l0, l1, l2, l3, l4, l5, l6, l7, l8), 1) == l1,
        lane(pack9(l0, l1, l2, l3, l4, l5, l6, l7, l8), 2) == l2,
        lane(pack9(l0, l1, l2, l3, l4, l5, l6, l7, l8), 3) == l3,
        lane(pack9(l0, l1, l2, l3, l4, l5, l6, l7, l8), 4) == l4,
        lane(pack9(l0, l1, l2, l3, l4, l5, l6, l7, l8), 5) == l5,
        lane(pack9(l0, l1, l2, l3, l4, l5, l6, l7, l8), 6) == l6,
        lane(pack9(l0, l1, l2, l3, l4, l5, l6, l7, l8), 7) == l7,
        lane(pack9(l0, l1, l2, l3, l4, l5, l6, l7, l8), 8) == l8,
        high_bits(pack9(l0, l1, l2, l3, l4, l5, l6, l7, l8)) == 0,
{
    let w = pack9(l0, l1, l2, l3, l4, l5, l6, l7, l8);
    assert((w >> 0u64) & 0x1f == l0 && (w >> 5u64) & 0x1f == l1 && (w >> 10u64) & 0x1f == l2 && (w
        >> 15u64) & 0x1f == l3 && (w >> 20u64) & 0x1f == l4 && (w >> 25u64) & 0x1f == l5 && (w
        >> 30u64) & 0x1f == l6 && (w >> 35u64) & 0x1f == l7 && (w >> 40u64) & 0x1f == l8 && w
        >> 45u64 == 0) by (bit_vector)
        requires
            w == l0 | (l1 << 5u64) | (l2 << 10u64) | (l3 << 15u64) | (l4 << 20u64) | (l5 << 25u64)
                | (l6 << 30u64) | (l7 << 35u64) | (l8 << 40u64),
            l0 < 32,
            l1 < 32,
            l2 < 32,
            l3 < 32,
            l4 < 32,
            l5 < 32,
            l6 < 32,
            l7 < 32,
            l8 < 32,
    ;
}

/// A lane never holds more than five bits.
pub proof fn lemma_lane_bound(bits: u64, i: u64)
    ensures
        lane(bits, i) < 32,
{
    assert(((bits >> ((5 * i) as u64)) & 0x1f) < 32) by (bit_vector);
}

/// The lanes of the left column (0, 3, 6).
pub const LEFT_COLUMN: u64 = 0x1f | (0x1f << 15) | (0x1f << 30);

/// The lanes of the right column (2, 5, 8).
pub const RIGHT_COLUMN: u64 = (0x1f << 10) | (0x1f << 25) | (0x1f << 40);

/// The lanes of the top row (0, 1, 2).
pub const TOP_ROW: u64 = 0x1f | (0x1f << 5) | (0x1f << 10);

/// The lanes of the bottom row (6, 7, 8).
pub const BOTTOM_ROW: u64 = (0x1f << 30) | (0x1f << 35) | (0x1f << 40);

/// Which lanes each of the four masks covers.
pub proof fn lemma_mask_lanes(j: u64)
    requires
        j < 9,
    ensures
        lane(LEFT_COLUMN, j) == if j == 0 || j == 3 || j == 6 { 0x1fu64 } else { 0u64 },
        lane(RIGHT_COLUMN, j) == if j == 2 || j == 5 || j == 8 { 0x1fu64 } else { 0u64 },
        lane(TOP_ROW, j) == if j == 0 || j == 1 || j == 2 { 0x1fu64 } else { 0u64 },
        lane(BOTTOM_ROW, j) == if j == 6 || j == 7 || j == 8 { 0x1fu64 } else { 0u64 },
        high_bits(LEFT_COLUMN) == 0,
        high_bits(RIGHT_COLUMN) == 0,
        high_bits(TOP_ROW) == 0,
        high_bits(BOTTOM_ROW) == 0,
{
    assert(((0x1fu64 | (0x1fu64 << 15u64) | (0x1fu64 << 30u64)) >> ((5 * j) as u64)) & 0x1f == if j
        == 0 || j == 3 || j == 6 { 0x1fu64 } else { 0u64 }) by (bit_vector)
        requires
            j < 9,
    ;
    assert((((0x1fu64 << 10u64) | (0x1fu64 << 25u64) | (0x1fu64 << 40u64)) >> ((5 * j) as u64))
        & 0x1f == if j == 2 || j == 5 || j == 8 { 0x1fu64 } else { 0u64 }) by (bit_vector)
        requires
            j < 9,
    ;
    assert(((0x1fu64 | (0x1fu64 << 5u64) | (0x1fu64 << 10u64)) >> ((5 * j) as u64)) & 0x1f == if j
        == 0 || j == 1 || j == 2 { 0x1fu64 } else { 0u64 }) by (bit_vector)
        requires
            j < 9,
    ;
    assert((((0x1fu64 << 30u64) | (0x1fu64 << 35u64) | (0x1fu64 << 40u64)) >> ((5 * j) as u64))
        & 0x1f == if j == 6 || j == 7 || j == 8 { 0x1fu64 } else { 0u64 }) by (bit_vector)
        requires
            j < 9,
    ;
    assert(high_bits(LEFT_COLUMN) == 0 && high_bits(RIGHT_COLUMN) == 0 && high_bits(TOP_ROW) == 0
        && high_bits(BOTTOM_ROW) == 0) by (bit_vector);
}

/// The lanes after copying three positions whose targets differ.
pub proof fn lemma_copy_three(bits: u64, src: u64, ps: Seq<(usize, usize)>, j: u64)
    requires
        ps.len() == 3,
        forall|k: int| 0 <= k < 3 ==> (#[trigger] ps[k]).0 < 9 && ps[k].1 < 9,
        j < 9,
    ensures
        lane(copy_positions(bits, src, ps), j) == if j == ps[2].1 {
            lane(src, ps[2].0 as u64)
        } else if j == ps[1].1 {
            lane(src, ps[1].0 as u64)
        } else if j == ps[0].1 {
            lane(src, ps[0].0 as u64)
        } else {
            lane(bits, j)
        },
        high_bits(copy_positions(bits, src, ps)) == high_bits(bits),
{
    let p1 = ps.drop_last();
    let p0 = p1.drop_last();
    assert(p0.drop_last().len() == 0);
    assert(p0.last() == ps[0]);
    assert(p1.last() == ps[1]);
    assert(ps.last() == ps[2]);
    assert(copy_positions(bits, src, p0.drop_last()) == bits);
    let c0 = copy_positions(bits, src, p0);
    let c1 = copy_positions(bits, src, p1);
    assert(c0 == with_lane(bits, ps[0].1 as u64, lane(src, ps[0].0 as u64)));
    assert(c1 == with_lane(c0, ps[1].1 as u64, lane(src, ps[1].0 as u64)));
    lemma_lane_bound(src, ps[0].0 as u64);
    lemma_lane_bound(src, ps[1].0 as u64);
    lemma_lane_bound(src, ps[2].0 as u64);
    lemma_lane_round_trip(bits, ps[0].1 as u64, j, lane(src, ps[0].0 as u64));
    lemma_lane_round_trip(c0, ps[1].1 as u64, j, lane(src, ps[1].0 as u64));
    lemma_lane_round_trip(c1, ps[2].1 as u64, j, lane(src, ps[2].0 as u64));
}

/// A facelet color, stored in a lane under a code of its own. The codes are
/// 0 (white), 1 (yellow), 2 (green), 4 (blue), 8 (orange) and 16 (red).
#[derive(Copy, Clone, Debug, PartialEq, Eq, Structural, Hash)]
pub enum Color {
    White,
    Yellow,
    Green,
    Blue,
    Orange,
    Red,
}

impl Color {
    pub const BITS: usize = 5;

    /// The lane code of this color.
    pub open spec fn code(self) -> u64 {
        match self {
            Color::White => 0,
            Color::Yellow => 1,
            Color::Green => 2,
            Color::Blue => 4,
            Color::Orange => 8,
            Color::Red => 16,
        }
    }

    /// The lane code of this color.
    pub fn bits(self) -> (r: u64)
        ensures
            r == self.code(),
            is_color_code(r),
    {
        match self {
            Color::White => 0,
            Color::Yellow => 1,
            Color::Green => 2,
            Color::Blue => 4,
            Color::Orange => 8,
            Color::Red => 16,
        }
    }

    /// The color whose code is `n`. An invalid code is a corrupted state, so
    /// callers must hand a valid one.
    pub fn from_u8(n: u8) -> (r: Self)
        requires
            is_color_code(n as u64),
        ensures
            r.code() == n as u64,
    {
        match n {
            0 => Color::White,
            1 => Color::Yellow,
            2 => Color::Green,
            4 => Color::Blue,
            8 => Color::Orange,
            _ => Color::Red,
        }
    }
}

/// The colors of one face of a 3x3 cube, one lane per facelet.
#[derive(Copy, Clone, Debug, PartialEq, Eq, Structural, Hash)]
pub struct Face(pub u64);

/// Lane sources of a clockwise quarter turn of the eight outer facelets:
/// lane `i` of the result is lane `cw_source(i)` of the face before.
pub open spec fn cw_source(i: u64) -> u64 {
    if i == 0 { 6 }
    else if i == 1 { 3 }
    else if i == 2 { 0 }
    else if i == 3 { 7 }
    else if i == 5 { 1 }
    else if i == 6 { 8 }
    else if i == 7 { 5 }
    else if i == 8 { 2 }
    else { i }
}

/// Lane sources of a counter-clockwise quarter turn of the outer facelets.
pub open spec fn ccw_source(i: u64) -> u64 {
    if i == 0 { 2 }
    else if i == 1 { 5 }
    else if i == 2 { 8 }
    else if i == 3 { 1 }
    else if i == 5 { 7 }
    else if i == 6 { 0 }
    else if i == 7 { 3 }
    else if i == 8 { 6 }
    else { i }
}

/// `new` is `old` turned a quarter clockwise: its lanes moved as `cw_source`
/// says, the bits above them kept.
pub open spec fn rotated_cw(old: u64, new: u64) -> bool {
    &&& forall|i: u64| i < 9 ==> #[trigger] lane(new, i) == lane(old, cw_source(i))
    &&& high_bits(new) == high_bits(old)
}

/// `new` is `old` turned a quarter counter-clockwise.
pub open spec fn rotated_ccw(old: u64, new: u64) -> bool {
    &&& forall|i: u64| i < 9 ==> #[trigger] lane(new, i) == lane(old, ccw_source(i))
    &&& high_bits(new) == high_bits(old)
}

/// Four clockwise quarter turns of a face give back its exact bit pattern.
pub proof fn lemma_four_cw_turns_restore(a: u64, b: u64, c: u64, d: u64, e: u64)
    requires
        rotated_cw(a, b),
        rotated_cw(b, c),
        rotated_cw(c, d),
        rotated_cw(d, e),
    ensures
        e == a,
{
    assert(lane(e, 0) == lane(a, 0) && lane(e, 1) == lane(a, 1) && lane(e, 2) == lane(a, 2));
    assert(lane(e, 3) == lane(a, 3) && lane(e, 4) == lane(a, 4) && lane(e, 5) == lane(a, 5));
    assert(lane(e, 6) == lane(a, 6) && lane(e, 7) == lane(a, 7) && lane(e, 8) == lane(a, 8));
    lemma_lanes_determine_bits(e, a);
}

/// Four counter-clockwise quarter turns of a face give back its exact bit
/// pattern.
pub proof fn lemma_four_ccw_turns_restore(a: u64, b: u64, c: u64, d: u64, e: u64)
    requires
        rotated_ccw(a, b),
        rotated_ccw(b, c),
        rotated_ccw(c, d),
        rotated_ccw(d, e),
    ensures
        e == a,
{
    assert(lane(e, 0) == lane(a, 0) && lane(e, 1) == lane(a, 1) && lane(e, 2) == lane(a, 2));
    assert(lane(e, 3) == lane(a, 3) && lane(e, 4) == lane(a, 4) && lane(e, 5) == lane(a, 5));
    assert(lane(e, 6) == lane(a, 6) && lane(e, 7) == lane(a, 7) && lane(e, 8) == lane(a, 8));
    lemma_lanes_determine_bits(e, a);
}

/// A clockwise quarter turn followed by a counter-clockwise one gives back the
/// exact bit pattern.
pub proof fn lemma_cw_then_ccw_restores(a: u64, b: u64, c: u64)
    requires
        rotated_cw(a, b),
        rotated_ccw(b, c),
    ensures
        c == a,
{
    assert(lane(c, 0) == lane(a, 0) && lane(c, 1) == lane(a, 1) && lane(c, 2) == lane(a, 2));
    assert(lane(c, 3) == lane(a, 3) && lane(c, 4) == lane(a, 4) && lane(c, 5) == lane(a, 5));
    assert(lane(c, 6) == lane(a, 6) && lane(c, 7) == lane(a, 7) && lane(c, 8) == lane(a, 8));
    lemma_lanes_determine_bits(c, a);
}

/// `bits` with the lanes of `src` copied in as `positions` says, pair by pair:
/// for `(from, to)`, lane `to` takes the value of lane `from` of `src`.
pub open spec fn copy_positions(bits: u64, src: u64, positions: Seq<(usize, usize)>) -> u64
    decreases positions.len(),
{
    if positions.len() == 0 {
        bits
    } else {
        let (from, to) = positions.last();
        with_lane(
            copy_positions(bits, src, positions.drop_last()),
            to as u64,
            lane(src, from as u64),
        )
    }
}

/// Each of the nine lanes holds a color code.
pub open spec fn lanes_valid(bits: u64) -> bool {
    forall|i: u64| i < 9 ==> is_color_code(#[trigger] lane(bits, i))
}

impl Face {
    // The bit patterns of the faces of one color (`Face(Face::RED)`).
    pub const WHITE: u64 = 0x0;
    pub const YELLOW: u64 = 0x10842108421;
    pub const GREEN: u64 = 0x21084210842;
    pub const BLUE: u64 = 0x42108421084;
    pub const RED: u64 = 0x108421084210;
    pub const ORANGE: u64 = 0x84210842108;

    /// Every lane holds a color code and no bit above the lanes is set.
    pub open spec fn wf(self) -> bool {
        &&& lanes_valid(self.0)
        &&& high_bits(self.0) == 0
    }

    /// The color in lane `index`.
    pub fn get(&self, index: usize) -> (r: Color)
        requires
            index < 9,
            is_color_code(lane(self.0, index as u64)),
        ensures
            r.code() == lane(self.0, index as u64),
    {
        let bits = self.0;
        let shift: u64 = 5 * index as u64;
        let masked: u64 = (bits >> shift) & 0x1f;
        assert(masked < 32) by (bit_vector)
            requires
                masked == (bits >> shift) & 0x1f,
        ;
        Color::from_u8(masked as u8)
    }

    /// Writes `color` into lane `index`; every other lane and the bits above
    /// the lanes stay as they were.
    pub fn set(&mut self, index: usize, color: Color)
        requires
            index < 9,
        ensures
            final(self).0 == with_lane(old(self).0, index as u64, color.code()),
            lane(final(self).0, index as u64) == color.code(),
            forall|j: u64|
                j < 9 && j != index ==> #[trigger] lane(final(self).0, j) == lane(old(self).0, j),
            high_bits(final(self).0) == high_bits(old(self).0),
    {
        let shift: u64 = 5 * index as u64;
        let mask: u64 = 0x1f << shift;
        self.0 = (self.0 & !mask) | (color.bits() << shift);
        proof {
            assert forall|j: u64| j < 9 && j != index implies #[trigger] lane(self.0, j) == lane(
                old(self).0,
                j,
            ) by {
                lemma_lane_round_trip(old(self).0, index as u64, j, color.code());
            }
            lemma_lane_round_trip(old(self).0, index as u64, 0, color.code());
        }
    }

    /// Copies the bits under `mask` from `from`; the others stay.
    pub fn copy_from_mask(&mut self, from: &Self, mask: u64)
        ensures
            final(self).0 == (old(self).0 & !mask) | (from.0 & mask),
    {
        let masked = from.0 & mask;
        self.0 = (self.0 & !mask) | masked;
    }

    /// Copies lane `from` of `from_face` into lane `to` of this face, for each
    /// pair `(from, to)` of `positions` in order.
    pub fn copy_from_positions(&mut self, from_face: &Self, positions: &[(usize, usize)])
        requires
            forall|k: int| 0 <= k < positions@.len() ==> (#[trigger] positions@[k]).0 < 9
                && positions@[k].1 < 9,
        ensures
            final(self).0 == copy_positions(old(self).0, from_face.0, positions@),
    {
        let n = positions.len();
        let mut k: usize = 0;
        while k < n
            invariant
                n == positions@.len(),
                k <= n,
                forall|q: int| 0 <= q < positions@.len() ==> (#[trigger] positions@[q]).0 < 9
                    && positions@[q].1 < 9,
                self.0 == copy_positions(old(self).0, from_face.0, positions@.take(k as int)),
            decreases n - k,
        {
            let (from, to) = positions[k];
            let src: u64 = (from_face.0 >> (5 * from as u64)) & 0x1f;
            let to_shift: u64 = 5 * to as u64;
            let to_mask: u64 = 0x1f << to_shift;
            self.0 = (self.0 & !to_mask) | (src << to_shift);
            proof {
                let next = positions@.take(k + 1);
                assert(next.drop_last() == positions@.take(k as int));
                assert(next.last() == positions@[k as int]);
            }
            k = k + 1;
        }
        proof {
            assert(positions@.take(n as int) == positions@);
        }
    }

    /// A face whose nine facelets all have `color`.
    pub fn solid(color: Color) -> (r: Face)
        ensures
            r == solid_spec(color.code()),
            r.wf(),
            forall|i: u64| i < 9 ==> #[trigger] lane(r.0, i) == color.code(),
    {
        let code = color.bits();
        proof {
            lemma_solid_lanes(code);
        }
        Face(code * ONE_PER_LANE)
    }

    /// Turns the eight outer facelets a quarter clockwise; the center stays.
    pub fn cycle_edges_cw(&mut self)
        requires
            lanes_valid(old(self).0),
        ensures
            lanes_valid(final(self).0),
            rotated_cw(old(self).0, final(self).0),
    {
        let zero = self.get(0);
        let three = self.get(3);
        let c = self.get(6);
        self.set(0, c);
        let c = self.get(7);
        self.set(3, c);
        let c = self.get(8);
        self.set(6, c);
        let c = self.get(5);
        self.set(7, c);
        let c = self.get(2);
        self.set(8, c);
        let c = self.get(1);
        self.set(5, c);
        self.set(2, zero);
        self.set(1, three);
    }

    /// Turns the eight outer facelets a quarter counter-clockwise; the center
    /// stays.
    pub fn cycle_edges_ccw(&mut self)
        requires
            lanes_valid(old(self).0),
        ensures
            lanes_valid(final(self).0),
            rotated_ccw(old(self).0, final(self).0),
    {
        let zero = self.get(0);
        let one = self.get(1);
        let c = self.get(2);
        self.set(0, c);
        let c = self.get(5);
        self.set(1, c);
        let c = self.get(8);
        self.set(2, c);
        let c = self.get(7);
        self.set(5, c);
        let c = self.get(6);
        self.set(8, c);
        let c = self.get(3);
        self.set(7, c);
        self.set(6, zero);
        self.set(3, one);
    }
}

/// A 3x3 cube: the colors of its six faces, stored in the order top, bottom,
/// left, right, front, back. Each face is indexed as seen from outside the
/// cube, with the front face green and the top face white:
///
/// ```text
///             + --- +
///             | 012 |
///             | 345 |
///             | 678 |
///       + --- + --- + --- + --- +
///       | 012 | 012 | 012 | 012 |
///       | 345 | 345 | 345 | 345 |
///       | 678 | 678 | 678 | 678 |
///       + --- + --- + --- + --- +
///             | 012 |
///             | 345 |
///             | 678 |
///             + --- +
/// ```
#[derive(Copy, Clone, Debug, PartialEq, Eq, Hash)]
pub struct Cube {
    pub data: [Face; 6],
}

impl Cube {
    pub const TOP: usize = 0;
    pub const BOTTOM: usize = 1;
    pub const LEFT: usize = 2;
    pub const RIGHT: usize = 3;
    pub const FRONT: usize = 4;
    pub const BACK: usize = 5;

    /// Every face is well formed.
    pub open spec fn wf(self) -> bool {
        forall|f: int| 0 <= f < 6 ==> (#[trigger] self.data[f]).wf()
    }

    /// The canonical solved cube: white top, yellow bottom, orange left, red
    /// right, green front, blue back.
    pub open spec fn solved() -> Cube {
        Cube { data: [solid_spec(0), solid_spec(1), solid_spec(8), solid_spec(16), solid_spec(2), solid_spec(4)] }
    }

    pub fn face(&self, index: usize) -> (r: Face)
        requires
            index < 6,
        ensures
            r == self.data[index as int],
    {
        self.data[index]
    }

    pub fn face_mut(&mut self, index: usize) -> (r: &mut Face)
        requires
            index < 6,
        ensures
            *r == old(self).data[index as int],
            final(self).data@ == old(self).data@.update(index as int, *final(r)),
    {
        &mut self.data[index]
    }

    pub fn top(&self) -> (r: Face)
        ensures
            r == self.data[Self::TOP as int],
    {
        self.data[Self::TOP]
    }

    pub fn top_mut(&mut self) -> (r: &mut Face)
        ensures
            *r == old(self).data[Self::TOP as int],
            final(self).data@ == old(self).data@.update(Self::TOP as int, *final(r)),
    {
        &mut self.data[Self::TOP]
    }

    pub fn bottom(&self) -> (r: Face)
        ensures
            r == self.data[Self::BOTTOM as int],
    {
        self.data[Self::BOTTOM]
    }

    pub fn bottom_mut(&mut self) -> (r: &mut Face)
        ensures
            *r == old(self).data[Self::BOTTOM as int],
            final(self).data@ == old(self).data@.update(Self::BOTTOM as int, *final(r)),
    {
        &mut self.data[Self::BOTTOM]
    }

    pub fn left(&self) -> (r: Face)
        ensures
            r == self.data[Self::LEFT as int],
    {
        self.data[Self::LEFT]
    }

    pub fn left_mut(&mut self) -> (r: &mut Face)
        ensures
            *r == old(self).data[Self::LEFT as int],
            final(self).data@ == old(self).data@.update(Self::LEFT as int, *final(r)),
    {
        &mut self.data[Self::LEFT]
    }

    pub fn right(&self) -> (r: Face)
        ensures
            r == self.data[Self::RIGHT as int],
    {
        self.data[Self::RIGHT]
    }

    pub fn right_mut(&mut self) -> (r: &mut Face)
        ensures
            *r == old(self).data[Self::RIGHT as int],
            final(self).data@ == old(self).data@.update(Self::RIGHT as int, *final(r)),
    {
        &mut self.data[Self::RIGHT]
    }

    pub fn front(&self) -> (r: Face)
        ensures
            r == self.data[Self::FRONT as int],
    {
        self.data[Self::FRONT]
    }

    pub fn front_mut(&mut self) -> (r: &mut Face)
        ensures
            *r == old(self).data[Self::FRONT as int],
            final(self).data@ == old(self).data@.update(Self::FRONT as int, *final(r)),
    {
        &mut self.data[Self::FRONT]
    }

    pub fn back(&self) -> (r: Face)
        ensures
            r == self.data[Self::BACK as int],
    {
        self.data[Self::BACK]
    }

    pub fn back_mut(&mut self) -> (r: &mut Face)
        ensures
            *r == old(self).data[Self::BACK as int],
            final(self).data@ == old(self).data@.update(Self::BACK as int, *final(r)),
    {
        &mut self.data[Self::BACK]
    }
}

impl Default for Cube {
    fn default() -> (r: Self)
        ensures
            r == Cube::solved(),
            r.wf(),
    {
        Cube {
            data: [
                Face::solid(Color::White),
                Face::solid(Color::Yellow),
                Face::solid(Color::Orange),
                Face::solid(Color::Red),
                Face::solid(Color::Green),
                Face::solid(Color::Blue),
            ],
        }
    }
}

} // verus!
