use vstd::prelude::*;

use crate::board::{key_at, key_count};
use crate::cell::Cell;
use crate::deduction::PuzzleModel;
use crate::puzzle::Puzzle;
use crate::solver::Solver;

verus! {

/// The verdict of a first-rule run: whether the other rule was needed, as
/// `first_switch` reports it, turned into acceptance of `expect`.
pub open spec fn switch_verdict(switch: Option<bool>, expect: bool) -> Option<bool> {
    match switch {
        Some(true) => Some(expect),
        Some(false) => Some(!expect),
        None => None,
    }
}

/// How many of the first `n` chords have a remaining clue, given the known
/// colours, with exactly one colour.
pub open spec fn solved_clue_count(model: PuzzleModel, known: Map<(int, int), Cell>, n: int) -> nat
    decreases n,
{
    if n <= 0 {
        0
    } else {
        solved_clue_count(model, known, n - 1) + if model.remaining(
            known,
            key_at(model.hexagon.radius as int, n - 1).0,
            key_at(model.hexagon.radius as int, n - 1).1,
        ).nonzero_colors() == 1 {
            1nat
        } else {
            0nat
        }
    }
}

/// One acceptance criterion for a puzzle: accept (`Some(true)`), reject
/// (`Some(false)`) or no opinion (`None`).
pub trait ValidatorStrategy {
    /// The verdict on a puzzle with the given clues and known colours.
    spec fn verdict(&self, model: PuzzleModel, known: Map<(int, int), Cell>) -> Option<bool>;

    fn is_valid(&self, puzzle: &Puzzle) -> (r: Option<bool>)
        requires
            puzzle.wf(),
        ensures
            r == self.verdict(puzzle.model(), puzzle.board@),
    ;
}

/// Solving with the hint rule first, whether the clue rule must be used
/// (`true`) or must not be used (`false`) to solve the puzzle.
#[derive(Debug, Clone, Copy)]
pub struct RequireClueSolving(pub bool);

/// Solving with the clue rule first, whether the hint rule must be used
/// (`true`) or must not be used (`false`) to solve the puzzle.
#[derive(Debug, Clone, Copy)]
pub struct RequireHintSolving(pub bool);

/// At most this many remaining clues may be settled (a single colour) before
/// any solving.
#[derive(Debug, Clone, Copy)]
pub struct MaximumSolvedClues(pub usize);

/// At most this many positions may be revealed.
#[derive(Debug, Clone, Copy)]
pub struct MaximumSolvedPositions(pub usize);

/// Runs the `first` rule while it makes progress; once it stalls, reports
/// whether the other rule then makes progress, as `first_switch` does.
fn run_first(puzzle: &Puzzle, first: bool) -> (r: Option<bool>)
    requires
        puzzle.wf(),
    ensures
        r == puzzle.model().first_switch(puzzle.board@, first),
{
    let mut solver = Solver::new(puzzle.copy());
    let ghost p = solver.puzzle.model();
    loop
        invariant
            solver.wf(),
            solver.puzzle.model() == p,
            p == puzzle.model(),
            p.first_switch(solver.solution@, first) == p.first_switch(puzzle.board@, first),
        decreases p.open_count(solver.solution@),
    {
        let ghost m = solver.solution@;
        proof {
            p.lemma_pass_grows(m, first);
        }
        if solver.solution.is_solved() {
            assert(p.covers(m));
            return Some(false);
        }
        assert(!p.covers(m));
        let progressed = if first {
            solver.solve_clues()
        } else {
            solver.solve_hints()
        };
        if !progressed {
            assert(!p.progress(m, first));
            let other = if first {
                solver.solve_hints()
            } else {
                solver.solve_clues()
            };
            assert(other == p.progress(m, !first));
            return if other {
                Some(true)
            } else {
                None
            };
        }
        assert(solver.solution@ == p.after(m, first));
        assert(p.first_switch(m, first) == p.first_switch(p.after(m, first), first));
    }
}

impl ValidatorStrategy for RequireClueSolving {
    open spec fn verdict(&self, model: PuzzleModel, known: Map<(int, int), Cell>) -> Option<bool> {
        switch_verdict(model.first_switch(known, false), self.0)
    }

    fn is_valid(&self, puzzle: &Puzzle) -> (r: Option<bool>) {
        match run_first(puzzle, false) {
            Some(true) => Some(self.0),
            Some(false) => Some(!self.0),
            None => None,
        }
    }
}

impl ValidatorStrategy for RequireHintSolving {
    open spec fn verdict(&self, model: PuzzleModel, known: Map<(int, int), Cell>) -> Option<bool> {
        switch_verdict(model.first_switch(known, true), self.0)
    }

    fn is_valid(&self, puzzle: &Puzzle) -> (r: Option<bool>) {
        match run_first(puzzle, true) {
            Some(true) => Some(self.0),
            Some(false) => Some(!self.0),
            None => None,
        }
    }
}

impl ValidatorStrategy for MaximumSolvedClues {
    open spec fn verdict(&self, model: PuzzleModel, known: Map<(int, int), Cell>) -> Option<bool> {
        Some(solved_clue_count(model, known, key_count(model.hexagon.radius as int)) <= self.0)
    }

    fn is_valid(&self, puzzle: &Puzzle) -> (r: Option<bool>) {
        let solver = Solver::new(puzzle.copy());
        let clues = solver.computed_clues();
        let mut count: usize = 0;
        let mut i: usize = 0;
        while i < clues.len()
            invariant
                solver.wf(),
                solver.solution@ == puzzle.board@,
                solver.puzzle.board.hexagon == puzzle.board.hexagon,
                solver.puzzle.model() == puzzle.model(),
                clues@.len() == key_count(puzzle.board.hexagon.radius as int),
                forall|j: int|
                    0 <= j < clues@.len() ==> #[trigger] clues@[j] == ((
                        key_at(puzzle.board.hexagon.radius as int, j).0,
                        key_at(puzzle.board.hexagon.radius as int, j).1 as i32,
                    ), solver.remaining(
                        key_at(puzzle.board.hexagon.radius as int, j).0,
                        key_at(puzzle.board.hexagon.radius as int, j).1,
                    )),
                0 <= i <= clues@.len(),
                count == solved_clue_count(puzzle.model(), puzzle.board@, i as int),
                count <= i,
            decreases clues@.len() - i,
        {
            if clues[i].1.is_solved() {
                count = count + 1;
            }
            i = i + 1;
        }
        Some(count <= self.0)
    }
}

impl ValidatorStrategy for MaximumSolvedPositions {
    open spec fn verdict(&self, model: PuzzleModel, known: Map<(int, int), Cell>) -> Option<bool> {
        Some(known.len() <= self.0)
    }

    fn is_valid(&self, puzzle: &Puzzle) -> (r: Option<bool>) {
        Some(puzzle.board.cells().len() <= self.0)
    }
}

/// One of the acceptance criteria.
#[derive(Debug, Clone, Copy)]
pub enum Strategy {
    ClueSolving(RequireClueSolving),
    HintSolving(RequireHintSolving),
    SolvedClues(MaximumSolvedClues),
    SolvedPositions(MaximumSolvedPositions),
}

impl ValidatorStrategy for Strategy {
    open spec fn verdict(&self, model: PuzzleModel, known: Map<(int, int), Cell>) -> Option<bool> {
        match self {
            Strategy::ClueSolving(s) => s.verdict(model, known),
            Strategy::HintSolving(s) => s.verdict(model, known),
            Strategy::SolvedClues(s) => s.verdict(model, known),
            Strategy::SolvedPositions(s) => s.verdict(model, known),
        }
    }

    fn is_valid(&self, puzzle: &Puzzle) -> (r: Option<bool>) {
        match self {
            Strategy::ClueSolving(s) => s.is_valid(puzzle),
            Strategy::HintSolving(s) => s.is_valid(puzzle),
            Strategy::SolvedClues(s) => s.is_valid(puzzle),
            Strategy::SolvedPositions(s) => s.is_valid(puzzle),
        }
    }
}

/// An ordered set of independent acceptance criteria.
#[derive(Debug, Clone)]
pub struct Validator(pub Vec<Strategy>);

impl Validator {
    /// A validator applying the given criteria in order.
    pub fn new(strategies: Vec<Strategy>) -> (r: Validator)
        ensures
            r.0@ == strategies@,
    {
        Validator(strategies)
    }

    /// Whether no criterion rejects a puzzle with these clues and known
    /// colours.
    pub open spec fn admits(self, model: PuzzleModel, known: Map<(int, int), Cell>) -> bool {
        forall|i: int| 0 <= i < self.0@.len() ==> (#[trigger] self.0@[i]).verdict(model, known) != Some(false)
    }

    /// Whether every criterion accepts a puzzle with these clues and known
    /// colours.
    pub open spec fn accepts(self, model: PuzzleModel, known: Map<(int, int), Cell>) -> bool {
        forall|i: int| 0 <= i < self.0@.len() ==> (#[trigger] self.0@[i]).verdict(model, known) == Some(true)
    }

    /// True unless some criterion rejects the puzzle.
    pub fn is_not_invalid(&self, puzzle: &Puzzle) -> (r: bool)
        requires
            puzzle.wf(),
        ensures
            r == self.admits(puzzle.model(), puzzle.board@),
    {
        let mut i: usize = 0;
        while i < self.0.len()
            invariant
                puzzle.wf(),
                0 <= i <= self.0@.len(),
                forall|j: int| 0 <= j < i ==> (#[trigger] self.0@[j]).verdict(puzzle.model(), puzzle.board@) != Some(false),
            decreases self.0@.len() - i,
        {
            if self.0[i].is_valid(puzzle) == Some(false) {
                return false;
            }
            i = i + 1;
        }
        true
    }

    /// True only if every criterion accepts the puzzle.
    pub fn is_valid(&self, puzzle: &Puzzle) -> (r: bool)
        requires
            puzzle.wf(),
        ensures
            r == self.accepts(puzzle.model(), puzzle.board@),
    {
        let mut i: usize = 0;
        while i < self.0.len()
            invariant
                puzzle.wf(),
                0 <= i <= self.0@.len(),
                forall|j: int| 0 <= j < i ==> (#[trigger] self.0@[j]).verdict(puzzle.model(), puzzle.board@) == Some(true),
            decreases self.0@.len() - i,
        {
            if self.0[i].is_valid(puzzle) != Some(true) {
                return false;
            }
            i = i + 1;
        }
        true
    }
}

} // verus!
