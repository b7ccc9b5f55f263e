//! Bidirectional breadth-first search for the minimal number of turns that
//! lead from a scrambled puzzle state to the solved one. Two frontiers grow in
//! one FIFO queue, one from the scramble and one from the solved state, until
//! a state that one of them generates is found already visited by the other.
//! This is feasible for puzzles whose state space is small enough to explore
//! exhaustively (the 2x2 cube, the pyraminx, ...).
use fxhash::FxHashMap;
use itertools::Itertools;
use std::collections::VecDeque;
use vstd::prelude::*;

verus! {

/// The identity of a puzzle state as six machine words: two states of one
/// puzzle are equal exactly when their keys are.
pub type StateKey = [u64; 6];

/// A turn of a puzzle: an opaque, copyable identifier with a display name
/// and an inverse.
pub trait Turn: Copy + Sized {
    /// The turn that undoes this one.
    spec fn inverse_spec(self) -> Self;

    /// The turn's name in the usual notation (`R`, `U'`, ...).
    spec fn name_spec(self) -> Seq<char>;

    fn name(&self) -> (r: &'static str)
        ensures
            r@ == self.name_spec(),
    ;

    fn inverse(&self) -> (r: Self)
        ensures
            r == self.inverse_spec(),
    ;
}

/// A puzzle state that the search can explore: the legal turns from a
/// state, what a turn does to it, the canonical solved state, and a key that
/// identifies the state.
pub trait Turnable: Copy + Sized {
    type Turn: Turn;

    /// The state is one that the puzzle can be in.
    spec fn wf_state(self) -> bool;

    /// The legal turns from this state.
    spec fn turns_spec(self) -> Seq<Self::Turn>;

    /// The state after `turn`.
    spec fn apply(self, turn: Self::Turn) -> Self;

    spec fn solved_spec() -> Self;

    spec fn key_spec(self) -> StateKey;

    /// The solved state is a valid state.
    proof fn lemma_solved_wf()
        ensures
            Self::solved_spec().wf_state(),
    ;

    /// A legal turn leads to a valid state, from which the inverse turn is
    /// legal and leads back.
    proof fn lemma_turn_then_inverse(s: Self, turn: Self::Turn)
        requires
            s.wf_state(),
            s.turns_spec().contains(turn),
        ensures
            s.apply(turn).wf_state(),
            s.apply(turn).turns_spec().contains(turn.inverse_spec()),
            s.apply(turn).apply(turn.inverse_spec()) == s,
    ;

    /// Distinct valid states have distinct keys.
    proof fn lemma_key_injective(a: Self, b: Self)
        requires
            a.wf_state(),
            b.wf_state(),
            a.key_spec() == b.key_spec(),
        ensures
            a == b,
    ;

    fn possible_turns(&self) -> (r: Vec<Self::Turn>)
        requires
            self.wf_state(),
        ensures
            r@ == self.turns_spec(),
    ;

    /// The state after `turn`. A turn that is not legal from this state is a
    /// programming error, which the precondition rules out.
    fn make_turn(&self, turn: Self::Turn) -> (r: Self)
        requires
            self.wf_state(),
            self.turns_spec().contains(turn),
        ensures
            r == self.apply(turn),
    ;

    fn solved_state() -> (r: Self)
        ensures
            r == Self::solved_spec(),
    ;

    fn key(&self) -> (r: StateKey)
        requires
            self.wf_state(),
        ensures
            r == self.key_spec(),
    ;
}

/// Each turn of `path` is legal from the state that the turns before it
/// lead to from `s`.
pub open spec fn follows<C: Turnable>(s: C, path: Seq<C::Turn>) -> bool
    decreases path.len(),
{
    path.len() == 0 || (s.turns_spec().contains(path[0]) && follows(s.apply(path[0]), path.drop_first()))
}

/// The state that the turns of `path` lead to from `s`.
pub open spec fn apply_all<C: Turnable>(s: C, path: Seq<C::Turn>) -> C
    decreases path.len(),
{
    if path.len() == 0 {
        s
    } else {
        apply_all(s.apply(path[0]), path.drop_first())
    }
}

/// Some `n` legal turns lead from `from` to `to`.
pub open spec fn reachable_in<C: Turnable>(from: C, to: C, n: nat) -> bool {
    exists|path: Seq<C::Turn>| path.len() == n && follows(from, path) && apply_all(from, path) == to
}

/// The turns that undo `path`: its inverses in reverse order.
pub open spec fn undo_path<C: Turnable>(path: Seq<C::Turn>) -> Seq<C::Turn>
    decreases path.len(),
{
    if path.len() == 0 {
        Seq::empty()
    } else {
        undo_path::<C>(path.drop_first()).push(path[0].inverse_spec())
    }
}

/// Following a path and then one more legal turn.
pub proof fn lemma_path_push<C: Turnable>(s: C, path: Seq<C::Turn>, turn: C::Turn)
    requires
        s.wf_state(),
        follows(s, path),
        apply_all(s, path).turns_spec().contains(turn),
    ensures
        follows(s, path.push(turn)),
        apply_all(s, path.push(turn)) == apply_all(s, path).apply(turn),
        apply_all(s, path).wf_state(),
    decreases path.len(),
{
    if path.len() == 0 {
        assert(path.push(turn).drop_first() =~= Seq::<C::Turn>::empty());
        assert(path.push(turn)[0] == turn);
        assert(follows(s.apply(turn), path.push(turn).drop_first()));
        assert(apply_all(s.apply(turn), path.push(turn).drop_first()) == s.apply(turn));
    } else {
        C::lemma_turn_then_inverse(s, path[0]);
        lemma_path_push(s.apply(path[0]), path.drop_first(), turn);
        assert(path.push(turn).drop_first() =~= path.drop_first().push(turn));
        assert(path.push(turn)[0] == path[0]);
    }
}

/// Following two paths one after the other.
pub proof fn lemma_path_concat<C: Turnable>(s: C, p: Seq<C::Turn>, q: Seq<C::Turn>)
    requires
        s.wf_state(),
        follows(s, p),
        follows(apply_all(s, p), q),
    ensures
        follows(s, p + q),
        apply_all(s, p + q) == apply_all(apply_all(s, p), q),
        apply_all(s, p).wf_state(),
    decreases p.len(),
{
    if p.len() == 0 {
        assert(p + q =~= q);
    } else {
        C::lemma_turn_then_inverse(s, p[0]);
        lemma_path_concat(s.apply(p[0]), p.drop_first(), q);
        assert((p + q).drop_first() =~= p.drop_first() + q);
    }
}

/// A legal path can be undone: its inverses in reverse order are legal from
/// where it ends and lead back to where it started.
pub proof fn lemma_undo_path<C: Turnable>(s: C, path: Seq<C::Turn>)
    requires
        s.wf_state(),
        follows(s, path),
    ensures
        follows(apply_all(s, path), undo_path::<C>(path)),
        apply_all(apply_all(s, path), undo_path::<C>(path)) == s,
        undo_path::<C>(path).len() == path.len(),
        apply_all(s, path).wf_state(),
    decreases path.len(),
{
    if path.len() > 0 {
        let t = path[0];
        let s1 = s.apply(t);
        C::lemma_turn_then_inverse(s, t);
        lemma_undo_path(s1, path.drop_first());
        let rest = undo_path::<C>(path.drop_first());
        // `rest` leads from the end of the path back to `s1`; one more turn,
        // the inverse of `t`, leads to `s`.
        lemma_path_push(apply_all(s, path), rest, t.inverse_spec());
    }
}

/// Two paths that end in one state, one from `start` and one from `goal`,
/// make a path from `start` to `goal` as long as both together.
pub proof fn lemma_meet<C: Turnable>(start: C, goal: C, p: Seq<C::Turn>, q: Seq<C::Turn>)
    requires
        start.wf_state(),
        goal.wf_state(),
        follows(start, p),
        follows(goal, q),
        apply_all(start, p) == apply_all(goal, q),
    ensures
        reachable_in(start, goal, p.len() + q.len()),
{
    lemma_undo_path(goal, q);
    lemma_path_concat(start, p, undo_path::<C>(q));
    assert((p + undo_path::<C>(q)).len() == p.len() + q.len());
}

/// A legal path without its last turn is legal, and the last turn is legal
/// where the rest leads.
pub proof fn lemma_path_pop<C: Turnable>(s: C, path: Seq<C::Turn>)
    requires
        s.wf_state(),
        follows(s, path),
        path.len() > 0,
    ensures
        follows(s, path.drop_last()),
        apply_all(s, path.drop_last()).turns_spec().contains(path.last()),
        apply_all(s, path) == apply_all(s, path.drop_last()).apply(path.last()),
    decreases path.len(),
{
    if path.len() == 1 {
        assert(path.drop_last() =~= Seq::<C::Turn>::empty());
        assert(path.drop_first() =~= Seq::<C::Turn>::empty());
        assert(path.last() == path[0]);
        assert(apply_all(s, path) == apply_all(s.apply(path[0]), path.drop_first()));
        assert(apply_all(s, path.drop_last()) == s);
    } else {
        C::lemma_turn_then_inverse(s, path[0]);
        lemma_path_pop(s.apply(path[0]), path.drop_first());
        assert(path.drop_first().drop_last() =~= path.drop_last().drop_first());
        assert(path.drop_last()[0] == path[0]);
        assert(path.drop_first().last() == path.last());
        assert(apply_all(s, path) == apply_all(s.apply(path[0]), path.drop_first()));
        assert(apply_all(s, path.drop_last()) == apply_all(
            s.apply(path[0]),
            path.drop_last().drop_first(),
        ));
    }
}

/// A legal path split in two: each part is legal, the second from where the
/// first leads.
pub proof fn lemma_path_split<C: Turnable>(s: C, p: Seq<C::Turn>, i: int)
    requires
        s.wf_state(),
        follows(s, p),
        0 <= i <= p.len(),
    ensures
        follows(s, p.take(i)),
        follows(apply_all(s, p.take(i)), p.skip(i)),
        apply_all(apply_all(s, p.take(i)), p.skip(i)) == apply_all(s, p),
        apply_all(s, p.take(i)).wf_state(),
    decreases i,
{
    if i == 0 {
        assert(p.take(0) =~= Seq::<C::Turn>::empty());
        assert(p.skip(0) =~= p);
    } else {
        C::lemma_turn_then_inverse(s, p[0]);
        let rest = p.drop_first();
        lemma_path_split(s.apply(p[0]), rest, i - 1);
        assert(p.take(i).drop_first() =~= rest.take(i - 1));
        assert(p.take(i)[0] == p[0]);
        assert(p.skip(i) =~= rest.skip(i - 1));
    }
}

/// A path of at most `ca + cb` turns from `a` to `b` passes a state within
/// `ca` turns of `a` and `cb` turns of `b`.
pub proof fn lemma_midpoint<C: Turnable>(a: C, b: C, d: nat, ca: nat, cb: nat) -> (r: (C, nat, nat))
    requires
        a.wf_state(),
        reachable_in(a, b, d),
        d <= ca + cb,
    ensures
        r.1 <= ca,
        r.2 <= cb,
        reachable_in(a, r.0, r.1),
        reachable_in(b, r.0, r.2),
{
    let p = choose|p: Seq<C::Turn>| p.len() == d && follows(a, p) && apply_all(a, p) == b;
    let i: nat = if d <= ca { d } else { ca };
    lemma_path_split(a, p, i as int);
    let z = apply_all(a, p.take(i as int));
    let q = p.skip(i as int);
    lemma_undo_path(z, q);
    assert(reachable_in(a, z, i)) by {
        assert(p.take(i as int).len() == i);
    }
    assert(reachable_in(b, z, q.len())) by {
        assert(undo_path::<C>(q).len() == q.len());
    }
    (z, i, q.len())
}

/// Where a provenance stands in the search order: by depth, and within one
/// depth the scramble's side before the solved side.
pub open spec fn search_rank(from: PathFrom) -> int {
    2 * from.depth_spec() + if from.is_solved_spec() {
        1int
    } else {
        0int
    }
}

/// Which frontier first reached a state, and in how many turns from that
/// frontier's origin.
#[derive(Copy, Clone, Debug, PartialEq, Eq, Structural, Hash)]
pub enum PathFrom {
    /// Reached from the solved state.
    Solved(usize),
    /// Reached from the scramble.
    Unsolved(usize),
}

impl PathFrom {
    pub open spec fn depth_spec(self) -> usize {
        match self {
            PathFrom::Solved(i) => i,
            PathFrom::Unsolved(i) => i,
        }
    }

    /// One turn further from the same origin.
    pub fn increment(self) -> (r: Self)
        requires
            self.depth_spec() < usize::MAX,
        ensures
            r.depth_spec() == self.depth_spec() + 1,
            r.is_solved_spec() == self.is_solved_spec(),
    {
        match self {
            PathFrom::Solved(i) => PathFrom::Solved(i + 1),
            PathFrom::Unsolved(i) => PathFrom::Unsolved(i + 1),
        }
    }

    pub fn depth(&self) -> (r: usize)
        ensures
            r == self.depth_spec(),
    {
        match *self {
            PathFrom::Solved(i) => i,
            PathFrom::Unsolved(i) => i,
        }
    }

    pub open spec fn is_solved_spec(self) -> bool {
        self is Solved
    }

    pub fn is_solved(&self) -> (r: bool)
        ensures
            r == self.is_solved_spec(),
    {
        matches!(self, PathFrom::Solved(_))
    }
}

/// fxhash's hasher, carried opaquely as the hasher of the visited map.
#[verifier::external_type_specification]
#[verifier::external_body]
pub struct ExFxHasher(fxhash::FxHasher);

/// std's `BuildHasherDefault`, carried opaquely as the hasher builder of the
/// visited map.
#[verifier::external_type_specification]
#[verifier::external_body]
#[verifier::reject_recursive_types(H)]
pub struct ExBuildHasherDefault<H>(std::hash::BuildHasherDefault<H>);

/// The map from each visited state's key to its provenance. Keys are arrays
/// of `u64`, whose equality and hashing are std's, word by word.
pub type VisitedMap = FxHashMap<StateKey, PathFrom>;

/// What a visited map holds: each state key that a frontier has reached,
/// with the frontier and depth of its first discovery.
pub uninterp spec fn visited_entries(m: VisitedMap) -> Map<StateKey, PathFrom>;

/// Relies on fxhash's `FxHashMap` (std's `HashMap` with the Fx hasher) made
/// by `Default`: a new map holds no entry.
#[verifier::external_body]
fn visited_new() -> (r: VisitedMap)
    ensures
        visited_entries(r).dom() == Set::<StateKey>::empty(),
{
    FxHashMap::default()
}

/// Relies on `HashMap::get` of an `FxHashMap`: the value stored under `key`,
/// if there is one.
#[verifier::external_body]
fn visited_get(m: &VisitedMap, key: &StateKey) -> (r: Option<PathFrom>)
    ensures
        r == if visited_entries(*m).contains_key(*key) {
            Some(visited_entries(*m)[*key])
        } else {
            None
        },
{
    m.get(key).copied()
}

/// Relies on `HashMap::insert` of an `FxHashMap`: afterwards `key` maps to
/// `value`, and every other entry is as before.
#[verifier::external_body]
fn visited_insert(m: &mut VisitedMap, key: StateKey, value: PathFrom)
    ensures
        visited_entries(*final(m)) == visited_entries(*old(m)).insert(key, value),
{
    m.insert(key, value);
}

/// Relies on `HashMap::len` of an `FxHashMap`: the number of entries.
#[verifier::external_body]
fn visited_len(m: &VisitedMap) -> (r: usize)
    ensures
        r == visited_entries(*m).len(),
{
    m.len()
}

/// Whether two keys are equal.
fn same_key(a: &StateKey, b: &StateKey) -> (r: bool)
    ensures
        r == (*a == *b),
{
    let mut i: usize = 0;
    while i < 6
        invariant
            i <= 6,
            forall|j: int| 0 <= j < i ==> a[j] == b[j],
        decreases 6 - i,
    {
        if a[i] != b[i] {
            return false;
        }
        i = i + 1;
    }
    assert(*a =~= *b);
    true
}

/// The outcome of a search: the number of turns of a shortest solution that
/// was found. The turns themselves are not reconstructed yet, so `turns`
/// stays empty.
#[derive(Clone, Debug)]
pub struct Solution<T: Turn> {
    pub n_turns: usize,
    pub turns: Vec<T>,
}

/// `s` is one legal turn away from the solved state.
pub open spec fn one_turn_from_solved<C: Turnable>(s: C) -> bool {
    exists|t: C::Turn|
        C::solved_spec().turns_spec().contains(t) && s == #[trigger] C::solved_spec().apply(t)
}

/// `parts` in order, with `sep` between each two.
pub open spec fn joined(parts: Seq<Seq<char>>, sep: Seq<char>) -> Seq<char>
    decreases parts.len(),
{
    if parts.len() == 0 {
        Seq::empty()
    } else if parts.len() == 1 {
        parts[0]
    } else {
        joined(parts.drop_last(), sep) + sep + parts.last()
    }
}

/// Relies on itertools' `Itertools::join`: the parts in order, with `sep`
/// between each two.
#[verifier::external_body]
fn join_with(parts: &Vec<&'static str>, sep: &str) -> (r: String)
    ensures
        r@ == joined(parts@.map_values(|p: &'static str| p@), sep@),
{
    parts.iter().join(sep)
}

impl<T: Turn> Solution<T> {
    /// The names of the solution's turns, separated by spaces.
    pub fn turn_names(&self) -> (r: String)
        ensures
            r@ == joined(self.turns@.map_values(|t: T| t.name_spec()), seq![' ']),
    {
        let mut names: Vec<&'static str> = Vec::new();
        let n = self.turns.len();
        let mut k: usize = 0;
        while k < n
            invariant
                n == self.turns@.len(),
                k <= n,
                names@.len() == k,
                forall|j: int| 0 <= j < k ==> (#[trigger] names@[j])@ == self.turns@[j].name_spec(),
            decreases n - k,
        {
            let name = self.turns[k].name();
            names.push(name);
            k = k + 1;
        }
        assert(names@.map_values(|p: &'static str| p@) =~= self.turns@.map_values(
            |t: T| t.name_spec(),
        ));
        proof {
            reveal_strlit(" ");
            assert(" "@ =~= seq![' ']);
        }
        join_with(&names, " ")
    }
}

/// One bidirectional search from a scramble towards the solved state.
pub struct Solver<C: Turnable> {
    start: C,
    solved: C,
    queue: VecDeque<(C, PathFrom)>,
    visited: VisitedMap,
    /// For each visited key, a path from the origin of its frontier to the
    /// state, as long as the recorded depth.
    paths: Ghost<Map<StateKey, Seq<C::Turn>>>,
}

impl<C: Turnable> Solver<C> {
    pub closed spec fn start_spec(self) -> C {
        self.start
    }

    /// The states visited so far, by key.
    pub closed spec fn visited_spec(self) -> Map<StateKey, PathFrom> {
        visited_entries(self.visited)
    }

    /// The origin of the frontier that `from` belongs to.
    pub closed spec fn origin(self, from: PathFrom) -> C {
        self.origin_of(from.is_solved_spec())
    }

    /// The solved state for the solved side, the scramble for the other.
    pub closed spec fn origin_of(self, solved_side: bool) -> C {
        if solved_side {
            self.solved
        } else {
            self.start
        }
    }

    /// `c` is visited on the given side, at most `depth` turns deep.
    pub closed spec fn reached_as(self, c: C, solved_side: bool, depth: int) -> bool {
        let k = c.key_spec();
        &&& visited_entries(self.visited).contains_key(k)
        &&& visited_entries(self.visited)[k].is_solved_spec() == solved_side
        &&& visited_entries(self.visited)[k].depth_spec() <= depth
    }

    /// The state recorded under key `k`.
    pub closed spec fn entry_state(self, k: StateKey) -> C {
        apply_all(self.origin(visited_entries(self.visited)[k]), self.paths@[k])
    }

    /// Every legal turn from the state of entry `k` leads to a state visited
    /// on the same side, at most one turn deeper.
    pub closed spec fn expanded(self, k: StateKey) -> bool {
        let c = self.entry_state(k);
        let from = visited_entries(self.visited)[k];
        forall|t: C::Turn|
            c.turns_spec().contains(t) ==> #[trigger] self.reached_as(
                c.apply(t),
                from.is_solved_spec(),
                from.depth_spec() + 1,
            )
    }

    /// Every entry of the given side less than `c` turns deep is expanded.
    pub closed spec fn expanded_below(self, solved_side: bool, c: int) -> bool {
        forall|k: StateKey|
            #[trigger] visited_entries(self.visited).contains_key(k) && visited_entries(
                self.visited,
            )[k].is_solved_spec() == solved_side && visited_entries(self.visited)[k].depth_spec()
                < c ==> self.expanded(k)
    }

    /// Both origins are visited at depth zero on their own side.
    pub closed spec fn seeded(self) -> bool {
        &&& self.reached_as(self.start, false, 0)
        &&& self.reached_as(self.solved, true, 0)
    }

    /// An expanded entry stays expanded as the map grows.
    proof fn lemma_expanded_grows(self, other: Self, k: StateKey)
        requires
            visited_entries(self.visited).contains_key(k),
            self.expanded(k),
            visited_entries(self.visited).submap_of(visited_entries(other.visited)),
            self.paths@[k] == other.paths@[k],
            self.start == other.start,
            self.solved == other.solved,
        ensures
            other.expanded(k),
    {
        let c = self.entry_state(k);
        assert(visited_entries(other.visited).contains_key(k));
        assert(visited_entries(other.visited)[k] == visited_entries(self.visited)[k]);
        assert(other.entry_state(k) == c);
        let from = visited_entries(self.visited)[k];
        assert forall|t: C::Turn| c.turns_spec().contains(t) implies #[trigger] other.reached_as(
            c.apply(t),
            from.is_solved_spec(),
            from.depth_spec() + 1,
        ) by {
            assert(self.reached_as(c.apply(t), from.is_solved_spec(), from.depth_spec() + 1));
            let k2 = c.apply(t).key_spec();
            assert(visited_entries(other.visited).contains_key(k2));
            assert(visited_entries(other.visited)[k2] == visited_entries(self.visited)[k2]);
        }
    }

    /// Where the entries of a side less than `c` turns deep are expanded,
    /// every state within `c` turns of that side's origin is visited on that
    /// side, no deeper than its distance.
    proof fn lemma_coverage(self, solved_side: bool, c: int, z: C, n: nat)
        requires
            self.wf(),
            self.seeded(),
            self.expanded_below(solved_side, c),
            n <= c,
            reachable_in(self.origin_of(solved_side), z, n),
        ensures
            self.reached_as(z, solved_side, n as int),
        decreases n,
    {
        let o = self.origin_of(solved_side);
        let p = choose|p: Seq<C::Turn>| p.len() == n && follows(o, p) && apply_all(o, p) == z;
        if n == 0 {
            assert(p =~= Seq::<C::Turn>::empty());
            assert(z == o);
        } else {
            lemma_path_pop(o, p);
            let front = p.drop_last();
            let w = apply_all(o, front);
            let t = p.last();
            lemma_path_push(o, front, t);
            assert(reachable_in(o, w, (n - 1) as nat)) by {
                assert(front.len() == n - 1);
            }
            self.lemma_coverage(solved_side, c, w, (n - 1) as nat);
            let k = w.key_spec();
            assert(self.expanded(k));
            C::lemma_key_injective(self.entry_state(k), w);
            assert(self.reached_as(
                w.apply(t),
                solved_side,
                visited_entries(self.visited)[k].depth_spec() + 1,
            ));
        }
    }

    /// Where every entry of the scramble's side less than `ca` turns deep and
    /// every entry of the solved side less than `cb` turns deep is expanded,
    /// no path of `ca + cb` turns or fewer joins the scramble to the solved
    /// state: a state halfway would be visited on both sides.
    proof fn lemma_no_short_path(self, ca: int, cb: int, d: nat)
        requires
            self.wf(),
            self.seeded(),
            self.expanded_below(false, ca),
            self.expanded_below(true, cb),
            0 <= ca,
            0 <= cb,
            d <= ca + cb,
        ensures
            !reachable_in(self.start, self.solved, d),
    {
        if reachable_in(self.start, self.solved, d) {
            let (z, i, j) = lemma_midpoint(self.start, self.solved, d, ca as nat, cb as nat);
            self.lemma_coverage(false, ca, z, i);
            self.lemma_coverage(true, cb, z, j);
        }
    }

    /// The bookkeeping is consistent: every visited state was reached from
    /// its frontier's origin in as many legal turns as recorded, and every
    /// queued state is visited with the provenance that the queue carries.
    pub closed spec fn wf(self) -> bool {
        &&& self.start.wf_state()
        &&& self.solved == C::solved_spec()
        &&& self.solved.wf_state()
        &&& visited_entries(self.visited).dom().finite()
        &&& forall|k: StateKey| #[trigger]
            visited_entries(self.visited).contains_key(k) ==> {
                let from = visited_entries(self.visited)[k];
                let path = self.paths@[k];
                &&& self.paths@.contains_key(k)
                &&& path.len() == from.depth_spec()
                &&& from.depth_spec() <= usize::MAX / 2
                &&& follows(self.origin(from), path)
                &&& apply_all(self.origin(from), path).wf_state()
                &&& apply_all(self.origin(from), path).key_spec() == k
            }
        &&& forall|i: int|
            0 <= i < self.queue@.len() ==> {
                let (c, from) = #[trigger] self.queue@[i];
                &&& c.wf_state()
                &&& from.depth_spec() <= usize::MAX / 2
                &&& reachable_in(self.origin(from), c, from.depth_spec() as nat)
            }
    }

    /// Nothing has been searched yet: the queue holds the scramble and the
    /// solved state at depth zero, and so does the visited map.
    pub open spec fn is_fresh(self) -> bool {
        &&& self.queue_spec() == seq![
            (self.start_spec(), PathFrom::Unsolved(0)),
            (C::solved_spec(), PathFrom::Solved(0)),
        ]
        &&& self.visited_spec() == map![
            self.start_spec().key_spec() => PathFrom::Unsolved(0),
        ].insert(C::solved_spec().key_spec(), PathFrom::Solved(0))
    }

    /// The states waiting for expansion, in order, with their provenance.
    pub closed spec fn queue_spec(self) -> Seq<(C, PathFrom)> {
        self.queue@
    }

    /// A search from `state` towards the puzzle's solved state.
    pub fn from_state(state: C) -> (r: Self)
        requires
            state.wf_state(),
        ensures
            r.wf(),
            r.is_fresh(),
            r.start_spec() == state,
    {
        let solved = C::solved_state();
        proof {
            C::lemma_solved_wf();
        }
        let mut queue: VecDeque<(C, PathFrom)> = VecDeque::new();
        queue.push_back((state, PathFrom::Unsolved(0)));
        queue.push_back((solved, PathFrom::Solved(0)));
        let mut visited = visited_new();
        let start_key = state.key();
        let solved_key = solved.key();
        visited_insert(&mut visited, start_key, PathFrom::Unsolved(0));
        visited_insert(&mut visited, solved_key, PathFrom::Solved(0));
        let ghost paths = Map::<StateKey, Seq<C::Turn>>::empty().insert(
            start_key,
            Seq::empty(),
        ).insert(solved_key, Seq::empty());
        let r = Solver { start: state, solved, queue, visited, paths: Ghost(paths) };
        proof {
            assert(r.queue@ =~= seq![(state, PathFrom::Unsolved(0)), (solved, PathFrom::Solved(0))]);
            assert forall|k: StateKey| #[trigger]
                visited_entries(r.visited).contains_key(k) implies {
                let from = visited_entries(r.visited)[k];
                let path = r.paths@[k];
                &&& r.paths@.contains_key(k)
                &&& path.len() == from.depth_spec()
                &&& from.depth_spec() <= usize::MAX / 2
                &&& follows(r.origin(from), path)
                &&& apply_all(r.origin(from), path).wf_state()
                &&& apply_all(r.origin(from), path).key_spec() == k
            } by {
                if k == solved_key {
                } else {
                    assert(k == start_key);
                }
            }
            assert(follows(state, Seq::<C::Turn>::empty()));
            assert(apply_all(state, Seq::<C::Turn>::empty()) == state);
            assert(reachable_in(state, state, 0));
            assert(follows(solved, Seq::<C::Turn>::empty()));
            assert(apply_all(solved, Seq::<C::Turn>::empty()) == solved);
            assert(reachable_in(solved, solved, 0));
            assert(visited_entries(r.visited) =~= map![
                state.key_spec() => PathFrom::Unsolved(0),
            ].insert(solved.key_spec(), PathFrom::Solved(0)));
        }
        r
    }

    /// Every entry of the visited map is one state, reached from the origin
    /// of the entry's frontier in exactly the recorded number of legal turns;
    /// distinct states have distinct entries.
    pub proof fn lemma_visited_entries_reachable(self)
        requires
            self.wf(),
        ensures
            forall|k: StateKey| #[trigger]
                self.visited_spec().contains_key(k) ==> exists|c: C|
                    c.wf_state() && c.key_spec() == k && reachable_in(
                        if self.visited_spec()[k].is_solved_spec() {
                            C::solved_spec()
                        } else {
                            self.start_spec()
                        },
                        c,
                        self.visited_spec()[k].depth_spec() as nat,
                    ),
            forall|a: C, b: C|
                a.wf_state() && b.wf_state() && a.key_spec() == b.key_spec() ==> a == b,
    {
        assert forall|k: StateKey| #[trigger] self.visited_spec().contains_key(k) implies exists|c: C|
            c.wf_state() && c.key_spec() == k && reachable_in(
                if self.visited_spec()[k].is_solved_spec() {
                    C::solved_spec()
                } else {
                    self.start_spec()
                },
                c,
                self.visited_spec()[k].depth_spec() as nat,
            ) by {
            let from = self.visited_spec()[k];
            let path = self.paths@[k];
            let c = apply_all(self.origin(from), path);
            assert(reachable_in(self.origin(from), c, from.depth_spec() as nat));
        }
        assert forall|a: C, b: C|
            a.wf_state() && b.wf_state() && a.key_spec() == b.key_spec() implies a == b by {
            C::lemma_key_injective(a, b);
        }
    }

    /// The origin of the frontier that recorded key `k`: the solved state or
    /// the scramble.
    pub open spec fn origin_of_entry(self, k: StateKey) -> C {
        if self.visited_spec()[k].is_solved_spec() {
            C::solved_spec()
        } else {
            self.start_spec()
        }
    }

    /// Every recorded depth is the fewest legal turns from the entry's origin
    /// to its state.
    pub open spec fn depths_are_shortest(self) -> bool {
        forall|k: StateKey, c: C, n: nat|
            #![trigger self.visited_spec().contains_key(k), reachable_in(self.origin_of_entry(k), c, n)]
            self.visited_spec().contains_key(k) && c.wf_state() && c.key_spec() == k && n
                < self.visited_spec()[k].depth_spec() ==> !reachable_in(self.origin_of_entry(k), c, n)
    }

    /// Where the entries below the radii `ca` and `cb` are expanded and no
    /// entry lies more than one turn beyond its side's radius, every
    /// recorded depth is a shortest distance.
    proof fn lemma_depths_shortest(self, ca: int, cb: int)
        requires
            self.wf(),
            self.seeded(),
            self.expanded_below(false, ca),
            self.expanded_below(true, cb),
            forall|k: StateKey| #[trigger]
                visited_entries(self.visited).contains_key(k) ==> visited_entries(self.visited)[k].depth_spec()
                    <= if visited_entries(self.visited)[k].is_solved_spec() {
                    cb + 1
                } else {
                    ca + 1
                },
        ensures
            self.depths_are_shortest(),
    {
        assert forall|k: StateKey, c: C, n: nat|
            self.visited_spec().contains_key(k) && c.wf_state() && c.key_spec() == k && n
                < self.visited_spec()[k].depth_spec() implies !reachable_in(self.origin_of_entry(k), c, n) by {
            let side = self.visited_spec()[k].is_solved_spec();
            assert(self.origin_of_entry(k) == self.origin_of(side));
            if reachable_in(self.origin_of_entry(k), c, n) {
                if side {
                    self.lemma_coverage(true, cb, c, n);
                } else {
                    self.lemma_coverage(false, ca, c, n);
                }
            }
        }
    }

    /// The keys of the states that some `depth` or fewer legal turns lead to
    /// from the scramble or from the solved state.
    pub open spec fn keys_within(self, depth: nat) -> Set<StateKey> {
        Set::new(
            |k: StateKey|
                exists|c: C, n: nat|
                    #![trigger reachable_in(self.start_spec(), c, n)]
                    #![trigger reachable_in(C::solved_spec(), c, n)]
                    c.wf_state() && c.key_spec() == k && n <= depth && (reachable_in(
                        self.start_spec(),
                        c,
                        n,
                    ) || reachable_in(C::solved_spec(), c, n)),
        )
    }

    /// With every depth at most `depth`, each visited key belongs to a state
    /// within `depth` turns of an origin.
    proof fn lemma_entries_within(self, depth: nat)
        requires
            self.wf(),
            forall|k: StateKey| #[trigger]
                self.visited_spec().contains_key(k) ==> self.visited_spec()[k].depth_spec() <= depth,
        ensures
            self.visited_spec().dom().subset_of(self.keys_within(depth)),
    {
        assert forall|k: StateKey| self.visited_spec().dom().contains(k) implies #[trigger] self.keys_within(
            depth,
        ).contains(k) by {
            let from = self.visited_spec()[k];
            let c = self.entry_state(k);
            let n = from.depth_spec() as nat;
            assert(reachable_in(self.origin(from), c, n));
            if from.is_solved_spec() {
                assert(reachable_in(C::solved_spec(), c, n));
            } else {
                assert(reachable_in(self.start_spec(), c, n));
            }
        }
    }

    /// The number of states visited so far.
    pub fn visited_count(&self) -> (r: usize)
        ensures
            r == self.visited_spec().len(),
    {
        visited_len(&self.visited)
    }

    /// The queue is sorted by search rank, its ranks lie between `rho` and
    /// `rho + 2`, each queued state is visited with the provenance that the
    /// queue carries, and no visited entry ranks above `rho + 2`.
    pub closed spec fn in_order(self, rho: int) -> bool {
        let q = self.queue@;
        let v = visited_entries(self.visited);
        &&& forall|i: int, j: int|
            0 <= i < j < q.len() ==> search_rank(#[trigger] q[i].1) <= search_rank(#[trigger] q[j].1)
        &&& forall|i: int|
            0 <= i < q.len() ==> rho <= search_rank((#[trigger] q[i]).1) <= rho + 2 && v.contains_key(
                q[i].0.key_spec(),
            ) && v[q[i].0.key_spec()] == q[i].1
        &&& forall|k: StateKey| #[trigger] v.contains_key(k) ==> search_rank(v[k]) <= rho + 2
    }

    /// The state with key `k` waits in the queue.
    pub closed spec fn queued(self, k: StateKey) -> bool {
        exists|i: int| 0 <= i < self.queue@.len() && #[trigger] self.queue@[i].0.key_spec() == k
    }

    /// Every visited entry is expanded, lies at the depth bound, waits in the
    /// queue, or is the one being expanded.
    pub closed spec fn accounted(self, max_depth: int, busy: Option<StateKey>) -> bool {
        forall|k: StateKey| #[trigger]
            visited_entries(self.visited).contains_key(k) ==> self.expanded(k)
                || visited_entries(self.visited)[k].depth_spec() >= max_depth || self.queued(k)
                || busy == Some(k)
    }

    /// Below the rank being expanded, every entry short of the depth bound is
    /// expanded.
    proof fn lemma_settled_below(self, rho: int, max_depth: int, busy: Option<StateKey>, ca: int, cb: int)
        requires
            self.in_order(rho),
            self.accounted(max_depth, busy),
            busy matches Some(kb) ==> visited_entries(self.visited).contains_key(kb) && search_rank(
                visited_entries(self.visited)[kb],
            ) >= rho,
            2 * ca <= rho + 1,
            2 * cb <= rho,
            ca <= max_depth,
            cb <= max_depth,
        ensures
            self.expanded_below(false, ca),
            self.expanded_below(true, cb),
    {
        let v = visited_entries(self.visited);
        assert forall|k: StateKey| #[trigger] v.contains_key(k) && search_rank(v[k]) < rho
            && v[k].depth_spec() < max_depth implies self.expanded(k) by {
            if self.queued(k) {
                let i = choose|i: int| 0 <= i < self.queue@.len() && #[trigger] self.queue@[i].0.key_spec() == k;
                assert(rho <= search_rank(self.queue@[i].1));
            }
        }
    }

    /// With nothing left in the queue, every entry short of the depth bound
    /// is expanded.
    proof fn lemma_all_settled(self, max_depth: int)
        requires
            self.accounted(max_depth, None),
            self.queue@.len() == 0,
        ensures
            self.expanded_below(false, max_depth),
            self.expanded_below(true, max_depth),
    {
    }

    /// The visited map after a search holds at least as many entries as
    /// before.
    proof fn lemma_len_grows(before: Map<StateKey, PathFrom>, after: Map<StateKey, PathFrom>)
        requires
            before.submap_of(after),
            after.dom().finite(),
        ensures
            after.len() >= before.len(),
    {
        vstd::set_lib::lemma_len_subset(before.dom(), after.dom());
    }

    /// Runs the search until the two frontiers meet, expanding no state that
    /// lies `max_depth` or more turns from its frontier's origin. A meeting
    /// reports the number of turns of the path through the meeting state;
    /// on a fresh search that is the fewest turns that solve the scramble.
    /// `None` means that the frontiers did not meet within that bound: on a
    /// fresh search, no `2 * max_depth` turns or fewer solve the scramble.
    pub fn try_solve(&mut self, max_depth: usize) -> (r: Option<Solution<C::Turn>>)
        requires
            old(self).wf(),
            max_depth <= usize::MAX / 2,
        ensures
            final(self).wf(),
            final(self).start_spec() == old(self).start_spec(),
            old(self).visited_spec().submap_of(final(self).visited_spec()),
            final(self).visited_spec().dom().finite(),
            final(self).visited_spec().len() >= old(self).visited_spec().len(),
            (match r {
                Some(sol) => reachable_in(
                    old(self).start_spec(),
                    C::solved_spec(),
                    sol.n_turns as nat,
                ),
                None => true,
            }),
            (r matches Some(sol) && sol.n_turns == 0) <==> old(self).start_spec() == C::solved_spec(),
            (old(self).is_fresh() && max_depth >= 1 && old(self).start_spec() != C::solved_spec()
                && one_turn_from_solved(old(self).start_spec())) ==> (r matches Some(sol)
                && sol.n_turns == 1),
            old(self).is_fresh() ==> (r matches Some(sol) ==> sol.n_turns <= 2 * max_depth),
            old(self).is_fresh() ==> (r matches Some(sol) ==> forall|n: nat|
                n < sol.n_turns ==> !#[trigger] reachable_in(
                    old(self).start_spec(),
                    C::solved_spec(),
                    n,
                )),
            old(self).is_fresh() ==> (r is None ==> forall|n: nat|
                n <= 2 * max_depth ==> !#[trigger] reachable_in(
                    old(self).start_spec(),
                    C::solved_spec(),
                    n,
                )),
            old(self).is_fresh() ==> forall|k: StateKey| #[trigger]
                final(self).visited_spec().contains_key(k) ==> final(self).visited_spec()[k].depth_spec()
                    <= max_depth,
            old(self).is_fresh() ==> final(self).depths_are_shortest(),
            old(self).is_fresh() ==> final(self).visited_spec().dom().subset_of(
                final(self).keys_within(max_depth as nat),
            ),
            old(self).is_fresh() ==> forall|len: nat|
                len <= 2 * max_depth && #[trigger] reachable_in(
                    old(self).start_spec(),
                    C::solved_spec(),
                    len,
                ) ==> (r matches Some(sol) && sol.n_turns <= len),
    {
        let start_key = self.start.key();
        let solved_key = self.solved.key();
        if same_key(&start_key, &solved_key) {
            proof {
                C::lemma_key_injective(self.start, self.solved);
                assert(follows(self.start, Seq::<C::Turn>::empty()));
                assert(apply_all(self.start, Seq::<C::Turn>::empty()) == self.start);
                if old(self).is_fresh() {
                    assert forall|k: StateKey| #[trigger]
                        self.visited_spec().contains_key(k) implies self.visited_spec()[k].depth_spec()
                        <= max_depth by {
                        if k == self.solved.key_spec() {
                        } else {
                            assert(k == self.start.key_spec());
                        }
                    }
                    assert(self.depths_are_shortest());
                    self.lemma_entries_within(max_depth as nat);
                }
            }
            return Some(Solution { n_turns: 0, turns: Vec::new() });
        }
        let ghost premise = old(self).is_fresh() && max_depth >= 1 && self.start != self.solved
            && one_turn_from_solved(self.start);
        assert((old(self).is_fresh() && max_depth >= 1 && old(self).start_spec() != C::solved_spec()
            && one_turn_from_solved(old(self).start_spec())) ==> premise);
        let ghost fresh = old(self).is_fresh();
        let ghost mut rho: int = 0;
        let ghost m = max_depth as int;
        proof {
            if fresh {
                let v = self.visited_spec();
                assert(start_key != solved_key);
                assert forall|k: StateKey| #[trigger] v.contains_key(k) implies v[k].depth_spec()
                    <= max_depth && search_rank(v[k]) <= 2 by {
                    if k == self.solved.key_spec() {
                    } else {
                        assert(k == self.start.key_spec());
                    }
                }
                assert(self.queue@[0].0.key_spec() == start_key);
                assert(self.queue@[1].0.key_spec() == solved_key);
                assert(self.in_order(0));
                assert forall|k: StateKey| #[trigger] v.contains_key(k) implies self.queued(k) by {
                    if k == solved_key {
                        assert(self.queue@[1].0.key_spec() == k);
                    } else {
                        assert(self.queue@[0].0.key_spec() == k);
                    }
                }
                assert(self.accounted(m, None));
                assert(self.seeded());
            }
        }
        let ghost entries0 = self.visited_spec();
        let ghost queue0 = self.queue@;
        let _count = visited_len(&self.visited);
        loop
            invariant
                self.wf(),
                self.start == old(self).start,
                self.solved == old(self).solved,
                self.start != self.solved,
                max_depth <= usize::MAX / 2,
                m == max_depth as int,
                entries0 == old(self).visited_spec(),
                queue0 == old(self).queue@,
                entries0.submap_of(self.visited_spec()),
                self.visited_spec().len() <= usize::MAX,
                premise ==> (self.queue@ == queue0 && self.visited_spec() == entries0),
                fresh == old(self).is_fresh(),
                fresh ==> forall|k: StateKey| #[trigger]
                    self.visited_spec().contains_key(k) ==> self.visited_spec()[k].depth_spec()
                        <= max_depth,
                fresh ==> rho >= 0 && self.in_order(rho) && self.accounted(m, None) && self.seeded(),
                (old(self).is_fresh() && max_depth >= 1 && old(self).start_spec() != C::solved_spec()
                    && one_turn_from_solved(old(self).start_spec())) ==> premise,
                premise ==> old(self).is_fresh(),
                premise ==> max_depth >= 1,
                premise ==> one_turn_from_solved(self.start),
            decreases self.queue@.len() + (usize::MAX - self.visited_spec().len()),
        {
            let ghost queue_before = self.queue@;
            let ghost self_before = *self;
            let popped = self.queue.pop_front();
            let (state, from) = match popped {
                None => {
                    proof {
                        assert(!premise);
                        if fresh {
                            assert(self.queue@ == queue_before);
                            assert forall|k: StateKey| #[trigger]
                                self.visited_spec().contains_key(k) implies self.expanded(k)
                                || self.visited_spec()[k].depth_spec() >= m || self.queued(k) || None::<StateKey>
                                == Some(k) by {
                                if self_before.expanded(k) {
                                    self_before.lemma_expanded_grows(*self, k);
                                }
                                assert(!self_before.queued(k));
                            }
                            self.lemma_all_settled(m);
                            self.lemma_depths_shortest(m, m);
                            self.lemma_entries_within(max_depth as nat);
                            assert forall|n: nat| n <= 2 * max_depth implies !#[trigger] reachable_in(
                                self.start,
                                self.solved,
                                n,
                            ) by {
                                self.lemma_no_short_path(m, m, n);
                            }
                        }
                        Self::lemma_len_grows(entries0, self.visited_spec());
                    }
                    return None;
                },
                Some(entry) => entry,
            };
            let ghost state_key = state.key_spec();
            proof {
                if fresh {
                    assert(self.queue@ == queue_before.drop_first());
                    assert(queue_before[0] == (state, from));
                    let r0 = search_rank(from);
                    assert forall|i: int, j: int| 0 <= i < j < self.queue@.len() implies search_rank(
                        #[trigger] self.queue@[i].1,
                    ) <= search_rank(#[trigger] self.queue@[j].1) by {
                        assert(self.queue@[i] == queue_before[i + 1]);
                        assert(self.queue@[j] == queue_before[j + 1]);
                    }
                    assert forall|i: int| 0 <= i < self.queue@.len() implies r0 <= search_rank(
                        (#[trigger] self.queue@[i]).1,
                    ) <= r0 + 2 by {
                        assert(self.queue@[i] == queue_before[i + 1]);
                        assert(search_rank(queue_before[0].1) <= search_rank(queue_before[i + 1].1));
                    }
                    assert forall|k: StateKey| #[trigger]
                        self.visited_spec().contains_key(k) implies self.expanded(k)
                        || self.visited_spec()[k].depth_spec() >= m || self.queued(k) || Some(state_key)
                        == Some(k) by {
                        if self_before.expanded(k) {
                            self_before.lemma_expanded_grows(*self, k);
                        }
                        if !self.expanded(k) && self.visited_spec()[k].depth_spec() < m && k
                            != state_key {
                            assert(self_before.queued(k));
                            let i = choose|i: int|
                                0 <= i < queue_before.len() && #[trigger] queue_before[i].0.key_spec()
                                    == k;
                            assert(i != 0);
                            assert(self.queue@[i - 1] == queue_before[i]);
                        }
                    }
                    rho = r0;
                }
            }
            let depth = from.depth();
            if depth >= max_depth {
                // The map's size fits a `usize`, which bounds the search.
                let _count = visited_len(&self.visited);
                proof {
                    if fresh {
                        assert(self.accounted(m, None)) by {
                            assert(self.visited_spec()[state_key] == from);
                        }
                    }
                }
                continue;
            }
            let ghost len_after_pop = self.queue@.len();
            let ghost count_after_pop = self.visited_spec().len();
            let ghost origin = self.origin(from);
            let ghost state_path = choose|p: Seq<C::Turn>|
                p.len() == from.depth_spec() && follows(origin, p) && apply_all(origin, p) == state;
            proof {
                assert(premise ==> state == self.start && from == PathFrom::Unsolved(0));
            }
            let turns = state.possible_turns();
            let n = turns.len();
            let mut i: usize = 0;
            while i < n
                invariant
                    self.wf(),
                    self.start == old(self).start,
                    self.solved == old(self).solved,
                    self.start != self.solved,
                    max_depth <= usize::MAX / 2,
                    m == max_depth as int,
                    entries0 == old(self).visited_spec(),
                    entries0.submap_of(self.visited_spec()),
                    n == turns@.len(),
                    i <= n,
                    turns@ == state.turns_spec(),
                    state.wf_state(),
                    state_key == state.key_spec(),
                    depth == from.depth_spec(),
                    depth < max_depth,
                    origin == self.origin(from),
                    state_path.len() == depth,
                    follows(origin, state_path),
                    apply_all(origin, state_path) == state,
                    self.queue@.len() - len_after_pop == self.visited_spec().len() - count_after_pop,
                    self.queue@.len() >= len_after_pop,
                    fresh == old(self).is_fresh(),
                    fresh ==> forall|k: StateKey| #[trigger]
                        self.visited_spec().contains_key(k) ==> self.visited_spec()[k].depth_spec()
                            <= max_depth,
                    fresh ==> rho == search_rank(from) && self.in_order(rho) && self.accounted(
                        m,
                        Some(state_key),
                    ) && self.seeded(),
                    fresh ==> self.visited_spec().contains_key(state_key)
                        && self.visited_spec()[state_key] == from,
                    fresh ==> forall|j: int|
                        0 <= j < i ==> self.reached_as(
                            state.apply(#[trigger] turns@[j]),
                            from.is_solved_spec(),
                            depth + 1,
                        ),
                    premise ==> state == self.start && from == PathFrom::Unsolved(0),
                    (old(self).is_fresh() && max_depth >= 1 && old(self).start_spec()
                        != C::solved_spec() && one_turn_from_solved(old(self).start_spec()))
                        ==> premise,
                    premise ==> forall|k: StateKey| #[trigger]
                        self.visited_spec().contains_key(k) && self.visited_spec()[k].is_solved_spec()
                            ==> k == self.solved.key_spec() && self.visited_spec()[k]
                            == PathFrom::Solved(0),
                    premise ==> self.visited_spec().contains_key(self.solved.key_spec())
                        && self.visited_spec()[self.solved.key_spec()] == PathFrom::Solved(0),
                    premise ==> forall|j: int| 0 <= j < i ==> state.apply(#[trigger] turns@[j]) != self.solved,
                decreases n - i,
            {
                let turn = turns[i];
                proof {
                    assert(state.turns_spec().contains(turn)) by {
                        assert(turns@[i as int] == turn);
                    }
                    C::lemma_turn_then_inverse(state, turn);
                }
                let next = state.make_turn(turn);
                let next_key = next.key();
                let ghost next_path = state_path.push(turn);
                proof {
                    lemma_path_push(origin, state_path, turn);
                }
                match visited_get(&self.visited, &next_key) {
                    Some(other) => {
                        if other.is_solved() != from.is_solved() {
                            let n_turns = other.depth() + depth + 1;
                            proof {
                                let other_origin = self.origin(other);
                                let q = self.paths@[next_key];
                                C::lemma_key_injective(apply_all(other_origin, q), next);
                                if from.is_solved_spec() {
                                    lemma_meet(self.start, self.solved, q, next_path);
                                } else {
                                    lemma_meet(self.start, self.solved, next_path, q);
                                }
                                if fresh {
                                    assert(self.visited_spec()[next_key] == other);
                                    assert(search_rank(other) <= rho + 2);
                                    let d = depth as int;
                                    let (ca, cb) = if from.is_solved_spec() {
                                        (d + 1, d)
                                    } else {
                                        (d, d)
                                    };
                                    self.lemma_settled_below(rho, m, Some(state_key), ca, cb);
                                    assert forall|k: StateKey| #[trigger]
                                        visited_entries(self.visited).contains_key(k) implies visited_entries(
                                        self.visited,
                                    )[k].depth_spec() <= if visited_entries(self.visited)[k].is_solved_spec() {
                                        cb + 1
                                    } else {
                                        ca + 1
                                    } by {
                                        assert(search_rank(visited_entries(self.visited)[k]) <= rho + 2);
                                    }
                                    self.lemma_depths_shortest(ca, cb);
                                    self.lemma_entries_within(max_depth as nat);
                                    assert forall|len: nat| len < n_turns implies !#[trigger] reachable_in(
                                        self.start,
                                        self.solved,
                                        len,
                                    ) by {
                                        self.lemma_no_short_path(ca, cb, len);
                                    }
                                }
                                if premise {
                                    assert(other == PathFrom::Solved(0));
                                    assert(other.depth_spec() + depth + 1 == 1);
                                }
                                Self::lemma_len_grows(entries0, self.visited_spec());
                            }
                            return Some(Solution { n_turns, turns: Vec::new() });
                        }
                        proof {
                            if premise {
                                if next == self.solved {
                                    assert(self.visited_spec()[next_key] == PathFrom::Solved(0));
                                }
                            }
                            if fresh {
                                assert(self.visited_spec()[next_key] == other);
                                assert(search_rank(other) <= rho + 2);
                                assert(self.reached_as(next, from.is_solved_spec(), depth + 1));
                                assert(turns@[i as int] == turn);
                            }
                        }
                    },
                    None => {
                        let next_from = from.increment();
                        let ghost before = *self;
                        visited_insert(&mut self.visited, next_key, next_from);
                        self.queue.push_back((next, next_from));
                        proof {
                            self.paths = Ghost(self.paths@.insert(next_key, next_path));
                            assert forall|k: StateKey| #[trigger]
                                entries0.contains_key(k) implies self.visited_spec().contains_key(k)
                                && self.visited_spec()[k] == entries0[k] by {
                                assert(before.visited_spec().contains_key(k));
                            }
                            assert(reachable_in(origin, next, next_from.depth_spec() as nat));
                            assert(self.origin(next_from) == origin);
                            if premise {
                                assert(next != self.solved);
                            }
                            if fresh {
                                let v0 = before.visited_spec();
                                let v = self.visited_spec();
                                assert(v0.submap_of(v));
                                assert forall|k: StateKey| #[trigger]
                                    v.contains_key(k) implies v[k].depth_spec() <= max_depth by {
                                    if k != next_key {
                                        assert(v0.contains_key(k));
                                    }
                                }
                                // The search order: the new entry ranks two above the one
                                // being expanded, at the end of the queue.
                                let q0 = before.queue@;
                                let q = self.queue@;
                                assert(q == q0.push((next, next_from)));
                                assert forall|ii: int, jj: int| 0 <= ii < jj < q.len() implies search_rank(
                                    #[trigger] q[ii].1,
                                ) <= search_rank(#[trigger] q[jj].1) by {
                                    if jj < q0.len() {
                                        assert(q[ii] == q0[ii]);
                                        assert(q[jj] == q0[jj]);
                                    } else {
                                        assert(q[ii] == q0[ii]);
                                    }
                                }
                                assert forall|ii: int| 0 <= ii < q.len() implies rho <= search_rank(
                                    (#[trigger] q[ii]).1,
                                ) <= rho + 2 && v.contains_key(q[ii].0.key_spec()) && v[q[ii].0.key_spec()]
                                    == q[ii].1 by {
                                    if ii < q0.len() {
                                        assert(q[ii] == q0[ii]);
                                        assert(v0.contains_key(q0[ii].0.key_spec()));
                                    }
                                }
                                assert forall|k: StateKey| #[trigger] v.contains_key(k) implies search_rank(
                                    v[k],
                                ) <= rho + 2 by {
                                    if k != next_key {
                                        assert(v0.contains_key(k));
                                    }
                                }
                                assert(self.in_order(rho));
                                assert forall|k: StateKey| #[trigger] v.contains_key(k) implies self.expanded(k)
                                    || v[k].depth_spec() >= m || self.queued(k) || Some(state_key)
                                    == Some(k) by {
                                    if k == next_key {
                                        assert(q[q.len() - 1].0.key_spec() == k);
                                    } else {
                                        assert(v0.contains_key(k));
                                        assert(self.paths@[k] == before.paths@[k]);
                                        if before.expanded(k) {
                                            before.lemma_expanded_grows(*self, k);
                                        } else if before.queued(k) {
                                            let w = choose|w: int|
                                                0 <= w < q0.len() && #[trigger] q0[w].0.key_spec() == k;
                                            assert(q[w] == q0[w]);
                                        }
                                    }
                                }
                                assert(self.seeded()) by {
                                    assert(v0.contains_key(self.start.key_spec()));
                                    assert(v0.contains_key(self.solved.key_spec()));
                                }
                                assert forall|j: int| 0 <= j < i + 1 implies self.reached_as(
                                    state.apply(#[trigger] turns@[j]),
                                    from.is_solved_spec(),
                                    depth + 1,
                                ) by {
                                    if j < i {
                                        assert(before.reached_as(state.apply(turns@[j]), from.is_solved_spec(), depth + 1));
                                        let kj = state.apply(turns@[j]).key_spec();
                                        assert(v0.contains_key(kj));
                                    } else {
                                        assert(turns@[j] == turn);
                                    }
                                }
                                assert(v.contains_key(state_key) && v[state_key] == from) by {
                                    assert(v0.contains_key(state_key));
                                }
                            }
                        }
                    },
                }
                i = i + 1;
            }
            proof {
                if premise {
                    let t0 = choose|t: C::Turn|
                        C::solved_spec().turns_spec().contains(t) && self.start
                            == #[trigger] C::solved_spec().apply(t);
                    C::lemma_turn_then_inverse(self.solved, t0);
                    let back = t0.inverse_spec();
                    assert(turns@.contains(back));
                    let j = choose|j: int| 0 <= j < turns@.len() && turns@[j] == back;
                    assert(state.apply(turns@[j]) != self.solved);
                    assert(false);
                }
                if fresh {
                    // Every legal turn from the state has been tried.
                    C::lemma_key_injective(self.entry_state(state_key), state);
                    assert forall|t: C::Turn| state.turns_spec().contains(t) implies #[trigger] self.reached_as(
                        state.apply(t),
                        from.is_solved_spec(),
                        from.depth_spec() + 1,
                    ) by {
                        let j = choose|j: int| 0 <= j < turns@.len() && turns@[j] == t;
                    }
                    assert(self.expanded(state_key));
                    assert(self.accounted(m, None));
                }
            }
            let _count = visited_len(&self.visited);
        }
    }
}

} // verus!
