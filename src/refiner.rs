use vstd::prelude::*;

use rand::rngs::StdRng;

use crate::cell::Cell;
use crate::generator::{reveal_cap, reveal_limit, reveal_until_solved};
use crate::puzzle::{Generator, Puzzle};
use crate::solver::Solver;
use crate::validator::Validator;

verus! {

/// Refines solutions into puzzles that a validator accepts, by rejection
/// sampling.
#[derive(Debug, Clone)]
pub struct Refiner {
    pub validator: Validator,
}

impl Refiner {
    /// Whether every criterion of the validator accepts the puzzle.
    pub open spec fn accepts(self, puzzle: Puzzle) -> bool {
        self.validator.accepts(puzzle.model(), puzzle.board@)
    }

    /// A refiner that accepts what the validator accepts.
    pub fn new(validator: Validator) -> (r: Refiner)
        ensures
            r.validator == validator,
    {
        Refiner { validator }
    }

    /// Draws solutions from the generator and refines each, until one is
    /// accepted or `attempts` have been tried. An accepted puzzle keeps the
    /// clues of a generated solution and reveals only cells of it.
    pub fn refined<G: Generator>(&self, rng: &mut StdRng, generator: &G, attempts: u64) -> (r:
        Option<Puzzle>)
        requires
            generator.ready(),
        ensures
            r matches Some(p) ==> p.wf() && self.accepts(p) && exists|s: Puzzle|
                #[trigger] generator.produces(s) && s.model() == p.model() && p.board@.submap_of(
                    s.board@,
                ),
    {
        let mut tried: u64 = 0;
        while tried < attempts
            invariant
                generator.ready(),
            decreases attempts - tried,
        {
            let solution = generator.generate(rng);
            let ghost drawn = solution;
            let refined = self.refine(solution);
            if refined.is_some() {
                assert(generator.produces(drawn));
                return refined;
            }
            tried = tried + 1;
        }
        None
    }

    /// Turns a solution into a puzzle: clears its board, then, as generation
    /// does, solves and reveals cells of the solution (on the chord with the
    /// largest non-empty remaining clue, its most needed colour) until the
    /// solver can finish, giving up when no cell can be revealed or more than
    /// `(radius - 1)(radius - 2) / 2` would be. Returns the puzzle exactly
    /// when the validator admits the empty puzzle and accepts the result.
    pub fn refine(&self, solution: Puzzle) -> (r: Option<Puzzle>)
        requires
            solution.wf(),
        ensures
            r is Some <==> {
                &&& self.validator.admits(solution.model(), Map::empty())
                &&& solution.model().reveal_run(
                    solution.board@,
                    Map::empty(),
                    Map::empty(),
                    0,
                    reveal_limit(solution.board.hexagon.radius as int),
                ) matches Some(known)
                &&& self.validator.accepts(solution.model(), known)
            },
            r matches Some(p) ==> {
                &&& p.wf()
                &&& self.accepts(p)
                &&& p.model() == solution.model()
                &&& solution.model().reveal_run(
                    solution.board@,
                    Map::empty(),
                    Map::empty(),
                    0,
                    reveal_limit(solution.board.hexagon.radius as int),
                ) == Some(p.board@)
                &&& p.board@.submap_of(solution.board@)
            },
    {
        let mut puzzle = solution.copy();
        puzzle.clear();
        assert(puzzle.board@ == Map::<(int, int), Cell>::empty());
        if !self.validator.is_not_invalid(&puzzle) {
            return None;
        }
        let mut solver = Solver::new(puzzle);
        assert(solver.solution@ == Map::<(int, int), Cell>::empty());
        let limit = reveal_cap(solution.board.hexagon.radius);
        if !reveal_until_solved(&solution, &mut solver, limit) {
            return None;
        }
        let result = solver.puzzle;
        if !self.validator.is_valid(&result) {
            return None;
        }
        Some(result)
    }
}

} // verus!
