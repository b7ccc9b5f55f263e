//! A bidirectional search specialised to the 3x3 cube, with depths counted
//! in `u8`.
use crate::bidisearch::{self, one_turn_from_solved, reachable_in};
use crate::cube::Cube;
use vstd::prelude::*;

verus! {

pub struct Solver {
    search: bidisearch::Solver<Cube>,
}

impl Solver {
    pub closed spec fn wf(self) -> bool {
        self.search.wf()
    }

    /// The scramble that the search started from.
    pub open spec fn start(self) -> Cube {
        self.search_spec().start_spec()
    }

    /// Nothing has been searched yet.
    pub open spec fn is_fresh(self) -> bool {
        self.search_spec().is_fresh()
    }

    /// The underlying search.
    pub closed spec fn search_spec(self) -> bidisearch::Solver<Cube> {
        self.search
    }

    pub fn from_state(cube: Cube) -> (r: Self)
        requires
            cube.wf(),
        ensures
            r.wf(),
            r.is_fresh(),
            r.start() == cube,
    {
        Solver { search: bidisearch::Solver::from_state(cube) }
    }

    /// Searches for the scramble's distance to the solved cube, expanding no
    /// state that lies `max_depth` or more turns from its frontier's origin.
    /// `None` means that the frontiers did not meet within that bound, or met
    /// at a length that a `u8` cannot hold. On a fresh search a reported
    /// length is the fewest turns that solve the scramble, and `None` means
    /// that no `2 * max_depth` turns or fewer (nor 255 or fewer) solve it.
    pub fn solve(&mut self, max_depth: u8) -> (r: Option<u8>)
        requires
            old(self).wf(),
        ensures
            final(self).wf(),
            final(self).start() == old(self).start(),
            (r matches Some(n) ==> reachable_in(old(self).start(), Cube::solved(), n as nat)),
            (r == Some(0u8)) <==> old(self).start() == Cube::solved(),
            (old(self).is_fresh() && max_depth >= 1 && old(self).start() != Cube::solved()
                && one_turn_from_solved(old(self).start())) ==> r == Some(1u8),
            old(self).is_fresh() ==> (r matches Some(n) ==> n <= 2 * max_depth),
            old(self).is_fresh() ==> (r matches Some(n) ==> forall|len: nat|
                len < n ==> !#[trigger] reachable_in(old(self).start(), Cube::solved(), len)),
            old(self).is_fresh() ==> (r is None ==> forall|len: nat|
                len <= 2 * max_depth && len <= 255 ==> !#[trigger] reachable_in(
                    old(self).start(),
                    Cube::solved(),
                    len,
                )),
            old(self).is_fresh() ==> forall|len: nat|
                len <= 2 * max_depth && len <= 255 && #[trigger] reachable_in(
                    old(self).start(),
                    Cube::solved(),
                    len,
                ) ==> (r matches Some(n) && n <= len),
    {
        match self.search.try_solve(max_depth as usize) {
            Some(solution) => {
                if solution.n_turns <= 255 {
                    Some(solution.n_turns as u8)
                } else {
                    None
                }
            },
            None => None,
        }
    }
}

} // verus!
