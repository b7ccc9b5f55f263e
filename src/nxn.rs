//! Cubes of any size N, with one color per facelet. Only the turns of the
//! two outer layers of an axis are carried out: a turn of an outer layer
//! rewrites the outer ring of the face on that side, and the ring's
//! neighbours on the four adjacent faces are not moved yet.
use vstd::prelude::*;

verus! {

pub const FRONT: usize = 1;
pub const BACK: usize = 3;
pub const LEFT: usize = 0;
pub const RIGHT: usize = 2;
pub const TOP: usize = 4;
pub const BOTTOM: usize = 5;

#[derive(Copy, Clone, Debug, PartialEq, Eq, Structural, Hash)]
pub enum Color {
    White,
    Yellow,
    Green,
    Blue,
    Orange,
    Red,
}

#[derive(Copy, Clone, Debug, PartialEq, Eq, Structural, Hash)]
pub enum TurnAxis {
    X,
    Y,
    Z,
}

#[derive(Copy, Clone, Debug, PartialEq, Eq, Structural, Hash)]
pub enum TurnDirection {
    /// Clockwise rotation
    Cw,
    /// Counter clockwise rotation
    Ccw,
}

impl TurnDirection {
    pub open spec fn inverse_spec(self) -> Self {
        match self {
            TurnDirection::Cw => TurnDirection::Ccw,
            TurnDirection::Ccw => TurnDirection::Cw,
        }
    }

    pub fn inverse(&self) -> (r: Self)
        ensures
            r == self.inverse_spec(),
    {
        match *self {
            TurnDirection::Cw => TurnDirection::Ccw,
            TurnDirection::Ccw => TurnDirection::Cw,
        }
    }
}

/// The colors of one face, row by row:
///
/// ```text
/// 0 1 2   0 0 0       0 1 2
/// 0 1 2   1 1 1  -->  3 4 5
/// 0 1 2   2 2 2       6 7 8
/// ```
#[derive(Copy, Clone, Debug, PartialEq, Eq, Hash)]
pub struct CubeFace<const N: usize> {
    pub colors: [[Color; N]; N],
}

/// A face's colors as rows of colors.
pub open spec fn grid<const N: usize>(colors: [[Color; N]; N]) -> Seq<Seq<Color>> {
    colors@.map_values(|row: [Color; N]| row@)
}

/// `g` with the color at row `r`, column `c` replaced by `v`.
pub open spec fn put(g: Seq<Seq<Color>>, r: int, c: int, v: Color) -> Seq<Seq<Color>> {
    g.update(r, g[r].update(c, v))
}

/// Every row of `g` is `n` long, and there are `n` rows.
pub open spec fn is_square(g: Seq<Seq<Color>>, n: int) -> bool {
    g.len() == n && forall|r: int| 0 <= r < n ==> (#[trigger] g[r]).len() == n
}

/// Cell `(y, x)` lies on the outer ring of an `n` by `n` grid.
pub open spec fn on_border(n: int, y: int, x: int) -> bool {
    y == 0 || y == n - 1 || x == 0 || x == n - 1
}

/// The color that cell `(y, x)` takes when `g` turns a quarter in direction
/// `dir`: clockwise it comes from `(n - 1 - x, y)`, counter-clockwise from
/// `(x, n - 1 - y)`.
pub open spec fn turned_cell(g: Seq<Seq<Color>>, n: int, dir: TurnDirection, y: int, x: int) -> Color {
    match dir {
        TurnDirection::Cw => g[n - 1 - x][y],
        TurnDirection::Ccw => g[x][n - 1 - y],
    }
}

/// `new` is `old` with its outer ring turned a quarter in direction `dir`;
/// the inner cells stay.
pub open spec fn ring_turned(old: Seq<Seq<Color>>, new: Seq<Seq<Color>>, n: int, dir: TurnDirection) -> bool {
    &&& is_square(new, n)
    &&& forall|y: int, x: int|
        0 <= y < n && 0 <= x < n ==> #[trigger] new[y][x] == if on_border(n, y, x) {
            turned_cell(old, n, dir, y, x)
        } else {
            old[y][x]
        }
}

/// A quarter turn of the ring followed by one the other way gives back the
/// face.
pub proof fn lemma_ring_turn_undo(a: Seq<Seq<Color>>, b: Seq<Seq<Color>>, c: Seq<Seq<Color>>, n: int, dir: TurnDirection)
    requires
        is_square(a, n),
        ring_turned(a, b, n, dir),
        ring_turned(b, c, n, dir.inverse_spec()),
    ensures
        c == a,
{
    assert forall|y: int| 0 <= y < n implies c[y] =~= a[y] by {
        assert forall|x: int| 0 <= x < n implies c[y][x] == a[y][x] by {
            if on_border(n, y, x) {
                let (y1, x1) = match dir.inverse_spec() {
                    TurnDirection::Cw => (n - 1 - x, y),
                    TurnDirection::Ccw => (x, n - 1 - y),
                };
                assert(b[y1][x1] == turned_cell(a, n, dir, y1, x1));
            }
        }
    }
    assert(c =~= a);
}

/// Four quarter turns of the ring in one direction give back the face.
pub proof fn lemma_ring_four_turns(
    a: Seq<Seq<Color>>,
    b: Seq<Seq<Color>>,
    c: Seq<Seq<Color>>,
    d: Seq<Seq<Color>>,
    e: Seq<Seq<Color>>,
    n: int,
    dir: TurnDirection,
)
    requires
        is_square(a, n),
        ring_turned(a, b, n, dir),
        ring_turned(b, c, n, dir),
        ring_turned(c, d, n, dir),
        ring_turned(d, e, n, dir),
    ensures
        e == a,
{
    assert forall|y: int| 0 <= y < n implies e[y] =~= a[y] by {
        assert forall|x: int| 0 <= x < n implies e[y][x] == a[y][x] by {
            if on_border(n, y, x) {
                match dir {
                    TurnDirection::Cw => {
                        assert(d[n - 1 - x][y] == c[n - 1 - y][n - 1 - x]);
                        assert(c[n - 1 - y][n - 1 - x] == b[x][n - 1 - y]);
                        assert(b[x][n - 1 - y] == a[y][x]);
                    },
                    TurnDirection::Ccw => {
                        assert(d[x][n - 1 - y] == c[n - 1 - y][n - 1 - x]);
                        assert(c[n - 1 - y][n - 1 - x] == b[n - 1 - x][y]);
                        assert(b[n - 1 - x][y] == a[y][x]);
                    },
                }
            }
        }
    }
    assert(e =~= a);
}

/// `g` with the cells of `from` copied in as `positions` says, pair by pair:
/// for `(a, b)`, cell `b` takes the color of cell `a` of `from`, cells being
/// numbered row by row.
pub open spec fn copied_cells(
    g: Seq<Seq<Color>>,
    from: Seq<Seq<Color>>,
    n: int,
    positions: Seq<(usize, usize)>,
) -> Seq<Seq<Color>>
    decreases positions.len(),
{
    if positions.len() == 0 {
        g
    } else {
        let (a, b) = positions.last();
        put(
            copied_cells(g, from, n, positions.drop_last()),
            b as int / n,
            b as int % n,
            from[a as int / n][a as int % n],
        )
    }
}

impl<const N: usize> CubeFace<N> {
    pub open spec fn rows(self) -> Seq<Seq<Color>> {
        grid(self.colors)
    }

    /// Copies the given cells of `from` to this face.
    pub fn copy_from(&mut self, from: &Self, positions: &[(usize, usize)])
        requires
            forall|k: int| 0 <= k < positions@.len() ==> (#[trigger] positions@[k]).0 < N * N
                && positions@[k].1 < N * N,
        ensures
            final(self).rows() == copied_cells(old(self).rows(), from.rows(), N as int, positions@),
    {
        let n = positions.len();
        let mut k: usize = 0;
        proof {
            assert(is_square(old(self).rows(), N as int));
            assert(is_square(from.rows(), N as int));
        }
        while k < n
            invariant
                n == positions@.len(),
                k <= n,
                is_square(from.rows(), N as int),
                is_square(self.rows(), N as int),
                forall|q: int| 0 <= q < positions@.len() ==> (#[trigger] positions@[q]).0 < N * N
                    && positions@[q].1 < N * N,
                self.rows() == copied_cells(old(self).rows(), from.rows(), N as int, positions@.take(k as int)),
            decreases n - k,
        {
            let (from_idx, to_idx) = positions[k];
            proof {
                assert(N >= 1) by (nonlinear_arith)
                    requires
                        from_idx < N * N,
                ;
                assert(from_idx / N < N) by (nonlinear_arith)
                    requires
                        from_idx < N * N,
                        N >= 1,
                ;
                assert(to_idx / N < N) by (nonlinear_arith)
                    requires
                        to_idx < N * N,
                        N >= 1,
                ;
            }
            let ghost before = self.rows();
            self.colors[to_idx / N][to_idx % N] = from.colors[from_idx / N][from_idx % N];
            proof {
                let next = positions@.take(k + 1);
                assert(next.drop_last() == positions@.take(k as int));
                assert(next.last() == positions@[k as int]);
                assert(self.rows() =~~= put(before, (to_idx / N) as int, (to_idx % N) as int, from.rows()[(from_idx / N) as int][(from_idx % N) as int]));
            }
            k = k + 1;
        }
        proof {
            assert(positions@.take(n as int) == positions@);
        }
    }

    /// Turns the outer ring of the face a quarter in direction `dir`: each
    /// border cell takes the color of the cell that the turn brings to it,
    /// and the inner cells stay.
    pub fn rotate_layer(&mut self, dir: TurnDirection)
        ensures
            ring_turned(old(self).rows(), final(self).rows(), N as int, dir),
    {
        let colors = self.colors;
        let ghost src = grid(colors);
        let ghost n = N as int;
        proof {
            assert(is_square(src, n));
        }
        let mut i: usize = 0;
        while i < N
            invariant
                i <= N,
                n == N as int,
                src == grid(colors),
                src == old(self).rows(),
                is_square(src, n),
                is_square(self.rows(), n),
                forall|y: int, x: int|
                    0 <= y < n && 0 <= x < n ==> #[trigger] self.rows()[y][x] == if (y == 0 && x < i)
                        || (x == n - 1 && y < i) || (y == n - 1 && x < i) || (x == 0 && y < i) {
                        turned_cell(src, n, dir, y, x)
                    } else {
                        src[y][x]
                    },
            decreases N - i,
        {
            let ghost before = self.rows();
            let j = N - i - 1;
            match dir {
                TurnDirection::Cw => {
                    self.colors[0][i] = colors[j][0];
                    self.colors[i][N - 1] = colors[0][i];
                    self.colors[N - 1][i] = colors[j][N - 1];
                    self.colors[i][0] = colors[N - 1][i];
                },
                TurnDirection::Ccw => {
                    self.colors[0][i] = colors[i][N - 1];
                    self.colors[i][0] = colors[0][j];
                    self.colors[N - 1][i] = colors[i][0];
                    self.colors[i][N - 1] = colors[N - 1][j];
                },
            }
            proof {
                let ii = i as int;
                let after = match dir {
                    TurnDirection::Cw => put(
                        put(
                            put(put(before, 0, ii, src[n - 1 - ii][0]), ii, n - 1, src[0][ii]),
                            n - 1,
                            ii,
                            src[n - 1 - ii][n - 1],
                        ),
                        ii,
                        0,
                        src[n - 1][ii],
                    ),
                    TurnDirection::Ccw => put(
                        put(
                            put(put(before, 0, ii, src[ii][n - 1]), ii, 0, src[0][n - 1 - ii]),
                            n - 1,
                            ii,
                            src[ii][0],
                        ),
                        ii,
                        n - 1,
                        src[n - 1][n - 1 - ii],
                    ),
                };
                assert(self.rows() =~~= after);
            }
            i = i + 1;
        }
    }
}

/// A cube of size N: the six faces, stored as
///
/// ```text
///   4
/// 0 1 2 3
///   5
/// ```
#[derive(Copy, Clone, Debug)]
pub struct Cube<const N: usize> {
    pub faces: [CubeFace<N>; 6],
}

/// The face whose ring turns with layer 0 of `axis`.
pub open spec fn near_face(axis: TurnAxis) -> int {
    match axis {
        TurnAxis::X => FRONT as int,
        TurnAxis::Y => TOP as int,
        TurnAxis::Z => LEFT as int,
    }
}

/// The face whose ring turns with the last layer of `axis`.
pub open spec fn far_face(axis: TurnAxis) -> int {
    match axis {
        TurnAxis::X => BACK as int,
        TurnAxis::Y => BOTTOM as int,
        TurnAxis::Z => RIGHT as int,
    }
}

impl<const N: usize> Cube<N> {
    /// `new` is `old` with the ring of face `f` rotated in direction `dir`.
    pub open spec fn face_turned(old: Cube<N>, new: Cube<N>, f: int, dir: TurnDirection) -> bool {
        &&& ring_turned(old.faces[f].rows(), new.faces[f].rows(), N as int, dir)
        &&& forall|k: int| 0 <= k < 6 && k != f ==> #[trigger] new.faces[k] == old.faces[k]
    }

    /// Turns layer `layer` of `axis` in direction `dir`. Layer 0 turns the
    /// ring of the near face, the last layer turns the ring of the far face
    /// the other way round (seen from that face), and a middle layer is not
    /// carried out yet.
    pub fn perform_turn(&mut self, _other: &Self, layer: usize, axis: TurnAxis, dir: TurnDirection)
        requires
            layer < N,
        ensures
            layer == 0 ==> Self::face_turned(*old(self), *final(self), near_face(axis), dir),
            layer != 0 && layer == N - 1 ==> Self::face_turned(
                *old(self),
                *final(self),
                far_face(axis),
                dir.inverse_spec(),
            ),
            0 < layer < N - 1 ==> *final(self) == *old(self),
    {
        if layer == 0 {
            let cycle_layer = match axis {
                TurnAxis::X => FRONT,
                TurnAxis::Y => TOP,
                TurnAxis::Z => LEFT,
            };
            self.faces[cycle_layer].rotate_layer(dir);
        } else if layer == N - 1 {
            let cycle_layer = match axis {
                TurnAxis::X => BACK,
                TurnAxis::Y => BOTTOM,
                TurnAxis::Z => RIGHT,
            };
            self.faces[cycle_layer].rotate_layer(dir.inverse());
        }
    }
}

/// One turn of a cube of any size.
#[derive(Copy, Clone, Debug, PartialEq, Eq, Structural, Hash)]
pub struct Turn {
    pub axis: TurnAxis,
    pub direction: TurnDirection,
    pub layer: usize,
}

pub open spec fn axis_at(a: int) -> TurnAxis {
    if a == 0 {
        TurnAxis::X
    } else if a == 1 {
        TurnAxis::Y
    } else {
        TurnAxis::Z
    }
}

pub open spec fn direction_at(d: int) -> TurnDirection {
    if d == 0 {
        TurnDirection::Cw
    } else {
        TurnDirection::Ccw
    }
}

impl Turn {
    /// All possible turns of a cube with `layers` layers: for each layer in
    /// order, each axis (X, Y, Z), and for each axis clockwise first.
    pub fn possible_turn_iter(&self, layers: usize) -> (r: Vec<Turn>)
        requires
            layers <= usize::MAX / 6,
        ensures
            r@.len() == 6 * layers,
            forall|l: int, a: int, d: int|
                0 <= l < layers && 0 <= a < 3 && 0 <= d < 2 ==> #[trigger] r@[6 * l + 2 * a + d]
                    == (Turn { layer: l as usize, axis: axis_at(a), direction: direction_at(d) }),
    {
        let axes = [TurnAxis::X, TurnAxis::Y, TurnAxis::Z];
        let directions = [TurnDirection::Cw, TurnDirection::Ccw];
        let mut r: Vec<Turn> = Vec::new();
        let mut layer: usize = 0;
        while layer < layers
            invariant
                layer <= layers,
                layers <= usize::MAX / 6,
                axes@ == seq![TurnAxis::X, TurnAxis::Y, TurnAxis::Z],
                directions@ == seq![TurnDirection::Cw, TurnDirection::Ccw],
                r@.len() == 6 * layer,
                forall|l: int, a: int, d: int|
                    0 <= l < layer && 0 <= a < 3 && 0 <= d < 2 ==> #[trigger] r@[6 * l + 2 * a + d]
                        == (Turn { layer: l as usize, axis: axis_at(a), direction: direction_at(d) }),
            decreases layers - layer,
        {
            let mut a: usize = 0;
            while a < 3
                invariant
                    layer < layers,
                    layers <= usize::MAX / 6,
                    a <= 3,
                    axes@ == seq![TurnAxis::X, TurnAxis::Y, TurnAxis::Z],
                    directions@ == seq![TurnDirection::Cw, TurnDirection::Ccw],
                    r@.len() == 6 * layer + 2 * a,
                    forall|l: int, a2: int, d: int|
                        0 <= l < layer && 0 <= a2 < 3 && 0 <= d < 2 ==> #[trigger] r@[6 * l + 2 * a2
                            + d] == (Turn {
                            layer: l as usize,
                            axis: axis_at(a2),
                            direction: direction_at(d),
                        }),
                    forall|a2: int, d: int|
                        0 <= a2 < a && 0 <= d < 2 ==> #[trigger] r@[6 * layer + 2 * a2 + d] == (Turn {
                            layer: layer,
                            axis: axis_at(a2),
                            direction: direction_at(d),
                        }),
                decreases 3 - a,
            {
                let mut d: usize = 0;
                while d < 2
                    invariant
                        layer < layers,
                        layers <= usize::MAX / 6,
                        a < 3,
                        d <= 2,
                        axes@ == seq![TurnAxis::X, TurnAxis::Y, TurnAxis::Z],
                        directions@ == seq![TurnDirection::Cw, TurnDirection::Ccw],
                        r@.len() == 6 * layer + 2 * a + d,
                        forall|l: int, a2: int, d2: int|
                            0 <= l < layer && 0 <= a2 < 3 && 0 <= d2 < 2 ==> #[trigger] r@[6 * l + 2
                                * a2 + d2] == (Turn {
                                layer: l as usize,
                                axis: axis_at(a2),
                                direction: direction_at(d2),
                            }),
                        forall|a2: int, d2: int|
                            0 <= a2 < a && 0 <= d2 < 2 ==> #[trigger] r@[6 * layer + 2 * a2 + d2]
                                == (Turn {
                                layer: layer,
                                axis: axis_at(a2),
                                direction: direction_at(d2),
                            }),
                        forall|d2: int|
                            0 <= d2 < d ==> #[trigger] r@[6 * layer + 2 * a + d2] == (Turn {
                                layer: layer,
                                axis: axis_at(a as int),
                                direction: direction_at(d2),
                            }),
                    decreases 2 - d,
                {
                    r.push(Turn { layer, axis: axes[a], direction: directions[d] });
                    d = d + 1;
                }
                a = a + 1;
            }
            layer = layer + 1;
        }
        r
    }
}

} // verus!
