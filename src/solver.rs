use vstd::prelude::*;

use crate::board::{
    count_assigned, key_at, key_count, key_index, map_of, unique_keys, Board,
};
use crate::deduction::{lemma_count_bound, PuzzleModel};
use crate::cell::{Cell, Clue, Hint};
use crate::hexagon::Hexagon;
use crate::position::{abs, Direction, Distance, Position};
use crate::puzzle::{key_position, Puzzle};

verus! {

/// The chord key at a table index, as executable values.
pub fn key_of_index(radius: Distance, i: usize) -> (r: (Direction, Distance))
    requires
        0 < radius,
        2 * radius < i32::MAX,
        key_count(radius as int) <= usize::MAX,
        i < key_count(radius as int),
    ensures
        r.0 == key_at(radius as int, i as int).0,
        r.1 == key_at(radius as int, i as int).1,
        abs(r.1 as int) <= radius,
        key_index(radius as int, r.0, r.1 as int) == i,
        r.0 == Direction::XY || r.0 == Direction::YZ || r.0 == Direction::ZX,
{
    let w: usize = 2 * radius as usize + 1;
    if i < w {
        (Direction::XY, i as i32 - radius)
    } else if i < 2 * w {
        (Direction::YZ, (i - w) as i32 - radius)
    } else {
        (Direction::ZX, (i - 2 * w) as i32 - radius)
    }
}

/// Deduces the colours of a puzzle's hidden positions from its clues.
/// `solution` starts as the puzzle's board and only ever gains colours.
#[derive(Debug, Clone)]
pub struct Solver {
    pub puzzle: Puzzle,
    pub solution: Board,
}

impl Solver {
    /// The puzzle and the solution are well formed and share their boundary.
    pub open spec fn wf(self) -> bool {
        &&& self.puzzle.wf()
        &&& self.solution.wf()
        &&& self.solution.hexagon == self.puzzle.board.hexagon
    }

    pub open spec fn hexagon(self) -> Hexagon {
        self.puzzle.board.hexagon
    }

    /// The colours still to be placed on chord `(d, k)`.
    pub open spec fn remaining(self, d: Direction, k: int) -> Clue {
        self.puzzle.model().remaining(self.solution@, d, k)
    }

    /// The colours still possible at `v`.
    pub open spec fn hint_at(self, v: (int, int)) -> Hint {
        self.puzzle.model().hint_at(self.solution@, v)
    }

    /// The colour that the hint rule places at `v`.
    pub open spec fn hint_fix(self, v: (int, int)) -> Option<Cell> {
        self.puzzle.model().hint_fix(self.solution@, v)
    }

    /// How many open positions of `pts` still allow colour `c`.
    pub open spec fn hinted_count(self, pts: Seq<(int, int)>, c: Cell) -> nat {
        self.puzzle.model().hinted_count(self.solution@, pts, c)
    }

    /// For each colour, how many open positions of chord `(d, k)` allow it.
    pub open spec fn hinted(self, d: Direction, k: int) -> Clue {
        self.puzzle.model().hinted(self.solution@, d, k)
    }

    /// Whether the chord through `v` in direction `d` forces colour `c`.
    pub open spec fn claims(self, d: Direction, c: Cell, v: (int, int)) -> bool {
        self.puzzle.model().claims(self.solution@, d, c, v)
    }

    /// The colour that the clue rule places at `v`.
    pub open spec fn clue_fix(self, v: (int, int)) -> Option<Cell> {
        self.puzzle.model().clue_fix(self.solution@, v)
    }

    pub open spec fn fix(self, by_clues: bool, v: (int, int)) -> Option<Cell> {
        self.puzzle.model().fix(self.solution@, by_clues, v)
    }

    pub open spec fn fixes(self, by_clues: bool, n: int) -> Map<(int, int), Cell> {
        self.puzzle.model().fixes(self.solution@, by_clues, n)
    }

    /// Whether one rule places any colour.
    pub open spec fn progress(self, by_clues: bool) -> bool {
        self.puzzle.model().progress(self.solution@, by_clues)
    }

    /// The solution after one pass of one rule.
    pub open spec fn after(self, by_clues: bool) -> Map<(int, int), Cell> {
        self.puzzle.model().after(self.solution@, by_clues)
    }

    /// Whether the hint rule places any colour.
    pub open spec fn hints_progress(self) -> bool {
        self.progress(false)
    }

    /// Whether the clue rule places any colour.
    pub open spec fn clues_progress(self) -> bool {
        self.progress(true)
    }

    /// The solution after one pass of the hint rule.
    pub open spec fn after_hints(self) -> Map<(int, int), Cell> {
        self.after(false)
    }

    /// The solution after one pass of the clue rule.
    pub open spec fn after_clues(self) -> Map<(int, int), Cell> {
        self.after(true)
    }

    /// Neither rule places anything more.
    pub open spec fn is_stalled(self) -> bool {
        self.puzzle.model().is_stalled(self.solution@)
    }

    /// A solver whose solution starts as the puzzle's board.
    pub fn new(puzzle: Puzzle) -> (r: Solver)
        requires
            puzzle.wf(),
        ensures
            r.wf(),
            r.puzzle == puzzle,
            r.solution@ == puzzle.board@,
            r.solution.cells@ == puzzle.board.cells@,
    {
        let solution = puzzle.board.copy();
        Solver { puzzle, solution }
    }

    pub fn puzzle(&self) -> (r: &Puzzle)
        ensures
            *r == self.puzzle,
    {
        &self.puzzle
    }

    pub fn solution(&self) -> (r: &Board)
        ensures
            *r == self.solution,
    {
        &self.solution
    }

    /// Mutable access to the puzzle; the solution stays as it is.
    pub fn mut_puzzle(&mut self) -> (r: &mut Puzzle)
        ensures
            *r == old(self).puzzle,
            final(self).puzzle == *final(r),
            final(self).solution == old(self).solution,
    {
        &mut self.puzzle
    }

    /// Mutable access to the solution; the puzzle stays as it is.
    pub fn mut_solution(&mut self) -> (r: &mut Board)
        ensures
            *r == old(self).solution,
            final(self).solution == *final(r),
            final(self).puzzle == old(self).puzzle,
    {
        &mut self.solution
    }

    /// The remaining clue of every chord, indexed like the puzzle's table.
    fn remaining_table(&self) -> (r: Vec<Clue>)
        requires
            self.wf(),
        ensures
            r@.len() == key_count(self.hexagon().radius as int),
            forall|i: int|
                0 <= i < r@.len() ==> #[trigger] r@[i] == self.remaining(
                    key_at(self.hexagon().radius as int, i).0,
                    key_at(self.hexagon().radius as int, i).1,
                ),
    {
        let solved = self.solution.clues();
        let ghost rad = self.hexagon().radius as int;
        let mut r: Vec<Clue> = Vec::new();
        let mut i: usize = 0;
        while i < solved.len()
            invariant
                self.wf(),
                rad == self.hexagon().radius,
                solved@.len() == key_count(rad),
                forall|j: int|
                    0 <= j < solved@.len() ==> #[trigger] solved@[j] == ((
                        key_at(rad, j).0,
                        key_at(rad, j).1 as i32,
                    ), self.solution.chord_clue(key_at(rad, j).0, key_at(rad, j).1)),
                0 <= i <= solved@.len(),
                r@.len() == i,
                forall|j: int|
                    0 <= j < i ==> #[trigger] r@[j] == self.remaining(key_at(rad, j).0, key_at(rad, j).1),
            decreases solved@.len() - i,
        {
            let ghost key = key_at(rad, i as int);
            assert(key_index(rad, key.0, key.1) == i);
            let clue = self.puzzle.clues[i].sub(solved[i].1);
            r.push(clue);
            i = i + 1;
        }
        r
    }

    /// The remaining clue of every chord: the puzzle's clue minus the colours
    /// already placed on it, keyed in the order of `Board::clues`.
    pub fn computed_clues(&self) -> (r: Vec<((Direction, Distance), Clue)>)
        requires
            self.wf(),
        ensures
            r@.len() == key_count(self.hexagon().radius as int),
            forall|i: int|
                0 <= i < r@.len() ==> #[trigger] r@[i] == ((
                    key_at(self.hexagon().radius as int, i).0,
                    key_at(self.hexagon().radius as int, i).1 as i32,
                ), self.remaining(
                    key_at(self.hexagon().radius as int, i).0,
                    key_at(self.hexagon().radius as int, i).1,
                )),
    {
        let table = self.remaining_table();
        let radius = self.puzzle.board.hexagon.radius;
        let mut r: Vec<((Direction, Distance), Clue)> = Vec::new();
        let mut i: usize = 0;
        while i < table.len()
            invariant
                self.wf(),
                radius == self.hexagon().radius,
                table@.len() == key_count(radius as int),
                forall|j: int|
                    0 <= j < table@.len() ==> #[trigger] table@[j] == self.remaining(
                        key_at(radius as int, j).0,
                        key_at(radius as int, j).1,
                    ),
                0 <= i <= table@.len(),
                r@.len() == i,
                forall|j: int|
                    0 <= j < i ==> #[trigger] r@[j] == ((
                        key_at(radius as int, j).0,
                        key_at(radius as int, j).1 as i32,
                    ), self.remaining(key_at(radius as int, j).0, key_at(radius as int, j).1)),
            decreases table@.len() - i,
        {
            let key = key_of_index(radius, i);
            r.push((key, table[i]));
            i = i + 1;
        }
        r
    }

    /// The hint at `position`, read off a table of remaining clues.
    fn hint_for(&self, table: &Vec<Clue>, position: Position) -> (r: Hint)
        requires
            self.wf(),
            table@.len() == key_count(self.hexagon().radius as int),
            forall|j: int|
                0 <= j < table@.len() ==> #[trigger] table@[j] == self.remaining(
                    key_at(self.hexagon().radius as int, j).0,
                    key_at(self.hexagon().radius as int, j).1,
                ),
            self.hexagon().contains_point(position@),
            position.valid(),
        ensures
            r == self.hint_at(position@),
    {
        let radius = self.puzzle.board.hexagon.radius;
        let h = self.puzzle.board.hexagon;
        proof {
            h.lemma_key_in_range(position@, Direction::XY);
            h.lemma_key_in_range(position@, Direction::YZ);
            h.lemma_key_in_range(position@, Direction::ZX);
        }
        let x = position.x();
        let y = position.y();
        let i = key_position(radius, Direction::XY, x + y);
        let j = key_position(radius, Direction::YZ, -x);
        let k = key_position(radius, Direction::ZX, -y);
        Hint::any().and(table[i].hint()).and(table[j].hint()).and(table[k].hint())
    }

    /// The hinted clue of chord `(direction, distance)`: for each colour, the
    /// number of open positions on it that allow the colour.
    fn hinted_clue(&self, table: &Vec<Clue>, direction: Direction, distance: Distance) -> (r: Clue)
        requires
            self.wf(),
            table@.len() == key_count(self.hexagon().radius as int),
            forall|j: int|
                0 <= j < table@.len() ==> #[trigger] table@[j] == self.remaining(
                    key_at(self.hexagon().radius as int, j).0,
                    key_at(self.hexagon().radius as int, j).1,
                ),
            abs(distance as int) <= self.hexagon().radius,
        ensures
            r == self.hinted(direction, distance as int),
    {
        let ghost pts = self.hexagon().chord(distance as int, direction);
        let segment = match self.puzzle.board.hexagon.segment(distance, direction) {
            Some(s) => s,
            None => return Clue::zero(),
        };
        let positions = segment.positions();
        let mut red: u32 = 0;
        let mut green: u32 = 0;
        let mut blue: u32 = 0;
        let mut i: usize = 0;
        while i < positions.len()
            invariant
                self.wf(),
                table@.len() == key_count(self.hexagon().radius as int),
                forall|j: int|
                    0 <= j < table@.len() ==> #[trigger] table@[j] == self.remaining(
                        key_at(self.hexagon().radius as int, j).0,
                        key_at(self.hexagon().radius as int, j).1,
                    ),
                positions@.len() == pts.len(),
                pts.len() <= i32::MAX,
                forall|j: int|
                    0 <= j < positions@.len() ==> (#[trigger] positions@[j])@ == pts[j]
                        && positions@[j].valid() && self.hexagon().contains_point(pts[j]),
                0 <= i <= positions@.len(),
                red == self.hinted_count(pts.subrange(0, i as int), Cell::Red),
                green == self.hinted_count(pts.subrange(0, i as int), Cell::Green),
                blue == self.hinted_count(pts.subrange(0, i as int), Cell::Blue),
                red <= i,
                green <= i,
                blue <= i,
            decreases positions@.len() - i,
        {
            let p = positions[i];
            assert(pts.subrange(0, i + 1).drop_last() == pts.subrange(0, i as int));
            if !self.solution.contains(p) {
                let hint = self.hint_for(table, p);
                if hint.red() {
                    red = red + 1;
                }
                if hint.green() {
                    green = green + 1;
                }
                if hint.blue() {
                    blue = blue + 1;
                }
            }
            i = i + 1;
        }
        assert(pts.subrange(0, pts.len() as int) == pts);
        Clue::new(red, green, blue)
    }

    /// The hinted clue of every chord, indexed like the puzzle's table.
    fn hinted_table(&self, table: &Vec<Clue>) -> (r: Vec<Clue>)
        requires
            self.wf(),
            table@.len() == key_count(self.hexagon().radius as int),
            forall|j: int|
                0 <= j < table@.len() ==> #[trigger] table@[j] == self.remaining(
                    key_at(self.hexagon().radius as int, j).0,
                    key_at(self.hexagon().radius as int, j).1,
                ),
        ensures
            r@.len() == key_count(self.hexagon().radius as int),
            forall|j: int|
                0 <= j < r@.len() ==> #[trigger] r@[j] == self.hinted(
                    key_at(self.hexagon().radius as int, j).0,
                    key_at(self.hexagon().radius as int, j).1,
                ),
    {
        let radius = self.puzzle.board.hexagon.radius;
        let mut r: Vec<Clue> = Vec::new();
        let mut i: usize = 0;
        while i < table.len()
            invariant
                self.wf(),
                radius == self.hexagon().radius,
                table@.len() == key_count(self.hexagon().radius as int),
                forall|j: int|
                    0 <= j < table@.len() ==> #[trigger] table@[j] == self.remaining(
                        key_at(self.hexagon().radius as int, j).0,
                        key_at(self.hexagon().radius as int, j).1,
                    ),
                0 <= i <= table@.len(),
                r@.len() == i,
                forall|j: int|
                    0 <= j < i ==> #[trigger] r@[j] == self.hinted(
                        key_at(radius as int, j).0,
                        key_at(radius as int, j).1,
                    ),
            decreases table@.len() - i,
        {
            let (direction, distance) = key_of_index(radius, i);
            r.push(self.hinted_clue(table, direction, distance));
            i = i + 1;
        }
        r
    }

    /// Whether the chord through `position` in `direction` forces `cell`.
    fn claims_at(
        &self,
        table: &Vec<Clue>,
        hinted: &Vec<Clue>,
        hint: Hint,
        position: Position,
        direction: Direction,
        cell: Cell,
    ) -> (r: bool)
        requires
            self.wf(),
            table@.len() == key_count(self.hexagon().radius as int),
            forall|j: int|
                0 <= j < table@.len() ==> #[trigger] table@[j] == self.remaining(
                    key_at(self.hexagon().radius as int, j).0,
                    key_at(self.hexagon().radius as int, j).1,
                ),
            hinted@.len() == key_count(self.hexagon().radius as int),
            forall|j: int|
                0 <= j < hinted@.len() ==> #[trigger] hinted@[j] == self.hinted(
                    key_at(self.hexagon().radius as int, j).0,
                    key_at(self.hexagon().radius as int, j).1,
                ),
            self.hexagon().contains_point(position@),
            position.valid(),
            hint == self.hint_at(position@),
            direction == Direction::XY || direction == Direction::YZ || direction == Direction::ZX,
        ensures
            r == self.claims(direction, cell, position@),
    {
        let radius = self.puzzle.board.hexagon.radius;
        proof {
            self.hexagon().lemma_key_in_range(position@, direction);
        }
        let x = position.x();
        let y = position.y();
        let key = match direction {
            Direction::XY => x + y,
            Direction::YZ => -x,
            _ => -y,
        };
        let i = key_position(radius, direction, key);
        proof {
            reveal(PuzzleModel::claims);
        }
        hint.cell(cell) && hinted[i].cell(cell) == table[i].cell(cell)
    }

    /// The colour the clue rule places at an open position.
    fn clue_color(&self, table: &Vec<Clue>, hinted: &Vec<Clue>, position: Position) -> (r: Option<Cell>)
        requires
            self.wf(),
            table@.len() == key_count(self.hexagon().radius as int),
            forall|j: int|
                0 <= j < table@.len() ==> #[trigger] table@[j] == self.remaining(
                    key_at(self.hexagon().radius as int, j).0,
                    key_at(self.hexagon().radius as int, j).1,
                ),
            hinted@.len() == key_count(self.hexagon().radius as int),
            forall|j: int|
                0 <= j < hinted@.len() ==> #[trigger] hinted@[j] == self.hinted(
                    key_at(self.hexagon().radius as int, j).0,
                    key_at(self.hexagon().radius as int, j).1,
                ),
            self.hexagon().contains_point(position@),
            position.valid(),
            !self.solution@.contains_key(position@),
        ensures
            r == self.clue_fix(position@),
    {
        let hint = self.hint_for(table, position);
        let directions = Direction::normalized();
        let cells = Cell::all();
        let mut found: Option<Cell> = None;
        let mut di: usize = 0;
        while di < 3
            invariant
                self.wf(),
                table@.len() == key_count(self.hexagon().radius as int),
                forall|j: int|
                    0 <= j < table@.len() ==> #[trigger] table@[j] == self.remaining(
                        key_at(self.hexagon().radius as int, j).0,
                        key_at(self.hexagon().radius as int, j).1,
                    ),
                hinted@.len() == key_count(self.hexagon().radius as int),
                forall|j: int|
                    0 <= j < hinted@.len() ==> #[trigger] hinted@[j] == self.hinted(
                        key_at(self.hexagon().radius as int, j).0,
                        key_at(self.hexagon().radius as int, j).1,
                    ),
                self.hexagon().contains_point(position@),
                position.valid(),
                !self.solution@.contains_key(position@),
                hint == self.hint_at(position@),
                directions@ == seq![Direction::XY, Direction::YZ, Direction::ZX],
                cells@ == seq![Cell::Red, Cell::Green, Cell::Blue],
                0 <= di <= 3,
                found == self.last_claim(position@, di as int, 0),
            decreases 3 - di,
        {
            let mut ci: usize = 0;
            while ci < 3
                invariant
                    self.wf(),
                    table@.len() == key_count(self.hexagon().radius as int),
                    forall|j: int|
                        0 <= j < table@.len() ==> #[trigger] table@[j] == self.remaining(
                            key_at(self.hexagon().radius as int, j).0,
                            key_at(self.hexagon().radius as int, j).1,
                        ),
                    hinted@.len() == key_count(self.hexagon().radius as int),
                    forall|j: int|
                        0 <= j < hinted@.len() ==> #[trigger] hinted@[j] == self.hinted(
                            key_at(self.hexagon().radius as int, j).0,
                            key_at(self.hexagon().radius as int, j).1,
                        ),
                    self.hexagon().contains_point(position@),
                    position.valid(),
                    hint == self.hint_at(position@),
                    directions@ == seq![Direction::XY, Direction::YZ, Direction::ZX],
                    cells@ == seq![Cell::Red, Cell::Green, Cell::Blue],
                    0 <= di < 3,
                    0 <= ci <= 3,
                    found == self.last_claim(position@, di as int, ci as int),
                decreases 3 - ci,
            {
                if self.claims_at(table, hinted, hint, position, directions[di], cells[ci]) {
                    found = Some(cells[ci]);
                }
                ci = ci + 1;
            }
            di = di + 1;
        }
        proof {
            self.lemma_last_claim(position@);
        }
        found
    }

    /// The colour of the last claim on `v` among the first `di` directions
    /// and, in direction `di`, the first `ci` colours.
    pub open spec fn last_claim(self, v: (int, int), di: int, ci: int) -> Option<Cell>
        decreases di, ci,
    {
        let ds = seq![Direction::XY, Direction::YZ, Direction::ZX];
        let cs = seq![Cell::Red, Cell::Green, Cell::Blue];
        if ci > 0 && ci <= 3 && 0 <= di < 3 {
            if self.claims(ds[di], cs[ci - 1], v) {
                Some(cs[ci - 1])
            } else {
                self.last_claim(v, di, ci - 1)
            }
        } else if ci == 0 && di > 0 && di <= 3 {
            self.last_claim(v, di - 1, 3)
        } else {
            None
        }
    }

    proof fn lemma_last_claim(self, v: (int, int))
        requires
            !self.solution@.contains_key(v),
        ensures
            self.last_claim(v, 3, 0) == self.clue_fix(v),
    {
        reveal_with_fuel(Solver::last_claim, 13);
    }

    /// The placements of one rule, in spiral order of their positions.
    #[verifier::rlimit(40)]
    fn collect(&self, by_clues: bool, table: &Vec<Clue>, hinted: &Vec<Clue>) -> (r: Vec<(Position, Cell)>)
        requires
            self.wf(),
            table@.len() == key_count(self.hexagon().radius as int),
            forall|j: int|
                0 <= j < table@.len() ==> #[trigger] table@[j] == self.remaining(
                    key_at(self.hexagon().radius as int, j).0,
                    key_at(self.hexagon().radius as int, j).1,
                ),
            by_clues ==> hinted@.len() == key_count(self.hexagon().radius as int),
            by_clues ==> forall|j: int|
                0 <= j < hinted@.len() ==> #[trigger] hinted@[j] == self.hinted(
                    key_at(self.hexagon().radius as int, j).0,
                    key_at(self.hexagon().radius as int, j).1,
                ),
        ensures
            unique_keys(r@),
            forall|i: int|
                0 <= i < r@.len() ==> self.hexagon().contains_point((#[trigger] r@[i]).0@)
                    && r@[i].0.valid() && !self.solution@.contains_key(r@[i].0@),
            map_of(r@) == self.fixes(by_clues, self.hexagon().points().len() as int),
            r@.len() > 0 <==> self.progress(by_clues),
    {
        let positions = self.puzzle.board.hexagon.positions();
        let ghost pts = self.hexagon().points();
        proof {
            self.hexagon().lemma_hexagon_points();
            assert(map_of(Seq::<(Position, Cell)>::empty()) =~= self.fixes(by_clues, 0));
        }
        let mut r: Vec<(Position, Cell)> = Vec::new();
        let mut i: usize = 0;
        while i < positions.len()
            invariant
                self.wf(),
                pts == self.hexagon().points(),
                table@.len() == key_count(self.hexagon().radius as int),
                forall|j: int|
                    0 <= j < table@.len() ==> #[trigger] table@[j] == self.remaining(
                        key_at(self.hexagon().radius as int, j).0,
                        key_at(self.hexagon().radius as int, j).1,
                    ),
                by_clues ==> hinted@.len() == key_count(self.hexagon().radius as int),
                by_clues ==> forall|j: int|
                    0 <= j < hinted@.len() ==> #[trigger] hinted@[j] == self.hinted(
                        key_at(self.hexagon().radius as int, j).0,
                        key_at(self.hexagon().radius as int, j).1,
                    ),
                positions@.len() == pts.len(),
                forall|j: int|
                    0 <= j < positions@.len() ==> (#[trigger] positions@[j])@ == pts[j]
                        && positions@[j].valid(),
                forall|j: int| 0 <= j < pts.len() ==> self.hexagon().contains_point(#[trigger] pts[j]),
                pts.no_duplicates(),
                0 <= i <= positions@.len(),
                unique_keys(r@),
                forall|a: int|
                    0 <= a < r@.len() ==> exists|j: int| 0 <= j < i && pts[j] == (#[trigger] r@[a]).0@,
                forall|a: int|
                    0 <= a < r@.len() ==> self.hexagon().contains_point((#[trigger] r@[a]).0@)
                        && r@[a].0.valid() && !self.solution@.contains_key(r@[a].0@),
                map_of(r@) == self.fixes(by_clues, i as int),
                r@.len() > 0 <==> exists|j: int| 0 <= j < i && #[trigger] self.fix(by_clues, pts[j]) is Some,
            decreases positions@.len() - i,
        {
            let p = positions[i];
            proof {
                self.puzzle.model().lemma_fixes_step(self.solution@, by_clues, i as int);
            }
            let fixed: Option<Cell> = if self.solution.contains(p) {
                None
            } else if by_clues {
                self.clue_color(table, hinted, p)
            } else {
                self.hint_for(table, p).solution()
            };
            assert(fixed == self.fix(by_clues, pts[i as int]));
            match fixed {
                Some(c) => {
                    let ghost before = r@;
                    r.push((p, c));
                    proof {
                        assert(r@.drop_last() == before);
                        assert forall|a: int, b: int| 0 <= a < b < r@.len() implies r@[a].0@ != r@[b].0@ by {
                            if b == r@.len() - 1 {
                                let j = choose|j: int| 0 <= j < i && pts[j] == (#[trigger] before[a]).0@;
                                assert(r@[a] == before[a]);
                            } else {
                                assert(r@[a] == before[a] && r@[b] == before[b]);
                            }
                        }
                        assert forall|a: int| 0 <= a < r@.len() implies exists|j: int|
                            0 <= j < i + 1 && pts[j] == (#[trigger] r@[a]).0@ by {
                            if a < before.len() {
                                assert(r@[a] == before[a]);
                                let j = choose|j: int| 0 <= j < i && pts[j] == (#[trigger] before[a]).0@;
                                assert(pts[j] == r@[a].0@);
                            } else {
                                assert(pts[i as int] == r@[a].0@);
                            }
                        }
                    }
                },
                None => {
                    proof {
                        assert forall|a: int| 0 <= a < r@.len() implies exists|j: int|
                            0 <= j < i + 1 && pts[j] == (#[trigger] r@[a]).0@ by {
                            let j = choose|j: int| 0 <= j < i && pts[j] == (#[trigger] r@[a]).0@;
                        }
                    }
                },
            }
            i = i + 1;
        }
        proof {
            if r@.len() > 0 {
                let j = choose|j: int| 0 <= j < i && #[trigger] self.fix(by_clues, pts[j]) is Some;
                assert(self.puzzle.model().fix(self.solution@, by_clues, pts[j]) is Some);
            }
            if self.progress(by_clues) {
                let j = choose|j: int|
                    0 <= j < pts.len() && #[trigger] self.puzzle.model().fix(self.solution@, by_clues, pts[j]) is Some;
                assert(self.fix(by_clues, pts[j]) is Some);
            }
        }
        r
    }

    /// Places every listed colour; the positions are distinct and open.
    fn apply(&mut self, new: &Vec<(Position, Cell)>)
        requires
            old(self).wf(),
            unique_keys(new@),
            forall|i: int|
                0 <= i < new@.len() ==> old(self).hexagon().contains_point((#[trigger] new@[i]).0@)
                    && new@[i].0.valid(),
        ensures
            final(self).wf(),
            final(self).puzzle == old(self).puzzle,
            final(self).solution.hexagon == old(self).solution.hexagon,
            final(self).solution@ == old(self).solution@.union_prefer_right(map_of(new@)),
            new@.len() == 0 ==> *final(self) == *old(self),
    {
        let mut j: usize = 0;
        proof {
            assert(new@.subrange(0, 0) =~= Seq::<(Position, Cell)>::empty());
            assert(old(self).solution@.union_prefer_right(map_of(new@.subrange(0, 0)))
                =~= old(self).solution@);
        }
        while j < new.len()
            invariant
                self.wf(),
                self.puzzle == old(self).puzzle,
                self.solution.hexagon == old(self).solution.hexagon,
                unique_keys(new@),
                forall|i: int|
                    0 <= i < new@.len() ==> old(self).hexagon().contains_point((#[trigger] new@[i]).0@)
                        && new@[i].0.valid(),
                0 <= j <= new@.len(),
                self.solution@ == old(self).solution@.union_prefer_right(map_of(new@.subrange(0, j as int))),
                new@.len() == 0 ==> *self == *old(self),
            decreases new@.len() - j,
        {
            let (position, cell) = new[j];
            let ghost before = self.solution@;
            self.solution.insert(position, cell);
            proof {
                let m = map_of(new@.subrange(0, j as int));
                assert(new@.subrange(0, j + 1).drop_last() == new@.subrange(0, j as int));
                assert(map_of(new@.subrange(0, j + 1)) == m.insert(position@, cell));
                assert(self.solution@ =~= old(self).solution@.union_prefer_right(m.insert(position@, cell)));
            }
            j = j + 1;
        }
        proof {
            assert(new@.subrange(0, new@.len() as int) == new@);
        }
    }

    /// One pass of the hint rule: every open position whose hint allows a
    /// single colour gets that colour. Returns whether anything was placed.
    pub fn solve_hints(&mut self) -> (r: bool)
        requires
            old(self).wf(),
        ensures
            final(self).wf(),
            final(self).puzzle == old(self).puzzle,
            final(self).solution.hexagon == old(self).solution.hexagon,
            final(self).solution@ == old(self).after_hints(),
            r == old(self).hints_progress(),
            !r ==> *final(self) == *old(self),
    {
        let table = self.remaining_table();
        let new = self.collect(false, &table, &table);
        self.apply(&new);
        new.len() > 0
    }

    /// One pass of the clue rule: on every chord, when the open positions
    /// that allow a colour are exactly as many as the colour still needs,
    /// each of them gets that colour. All placements are found first and then
    /// applied together. Returns whether anything was placed.
    pub fn solve_clues(&mut self) -> (r: bool)
        requires
            old(self).wf(),
        ensures
            final(self).wf(),
            final(self).puzzle == old(self).puzzle,
            final(self).solution.hexagon == old(self).solution.hexagon,
            final(self).solution@ == old(self).after_clues(),
            r == old(self).clues_progress(),
            !r ==> *final(self) == *old(self),
    {
        let table = self.remaining_table();
        let hinted = self.hinted_table(&table);
        let new = self.collect(true, &table, &hinted);
        self.apply(&new);
        new.len() > 0
    }

    /// Alternates the two rules, the hint rule first, until neither places
    /// anything; returns whether every position then holds a colour. Never
    /// guesses and never removes a colour.
    pub fn solve(&mut self) -> (r: bool)
        requires
            old(self).wf(),
        ensures
            final(self).wf(),
            final(self).puzzle == old(self).puzzle,
            final(self).solution.hexagon == old(self).solution.hexagon,
            old(self).solution@.submap_of(final(self).solution@),
            final(self).solution@ == old(self).puzzle.model().settle(old(self).solution@),
            final(self).is_stalled(),
            r == final(self).solution.spec_is_solved(),
            old(self).is_stalled() ==> *final(self) == *old(self),
            forall|t: Map<(int, int), Cell>|
                #[trigger] old(self).puzzle.model().is_solution(t) && old(self).solution@.submap_of(t)
                    ==> final(self).solution@.submap_of(t),
    {
        let ghost pts = self.hexagon().points();
        proof {
            self.hexagon().lemma_hexagon_points();
            lemma_count_bound(self.solution@, pts);
        }
        loop
            invariant
                self.wf(),
                self.puzzle == old(self).puzzle,
                self.solution.hexagon == old(self).solution.hexagon,
                pts == self.hexagon().points(),
                old(self).solution@.submap_of(self.solution@),
                old(self).is_stalled() ==> *self == *old(self),
                forall|t: Map<(int, int), Cell>|
                    #[trigger] old(self).puzzle.model().is_solution(t) && old(self).solution@.submap_of(t)
                        ==> self.solution@.submap_of(t),
                self.puzzle.model().settle(self.solution@) == old(self).puzzle.model().settle(old(self).solution@),
            ensures
                self.wf(),
                self.puzzle == old(self).puzzle,
                self.solution.hexagon == old(self).solution.hexagon,
                old(self).solution@.submap_of(self.solution@),
                self.is_stalled(),
                self.solution@ == old(self).puzzle.model().settle(old(self).solution@),
                old(self).is_stalled() ==> *self == *old(self),
                forall|t: Map<(int, int), Cell>|
                    #[trigger] old(self).puzzle.model().is_solution(t) && old(self).solution@.submap_of(t)
                        ==> self.solution@.submap_of(t),
            decreases pts.len() - count_assigned(self.solution@, pts),
        {
            let ghost before = *self;
            proof {
                before.puzzle.model().lemma_pass_grows(before.solution@, false);
                before.puzzle.model().lemma_pass_grows(before.solution@, true);
                lemma_count_bound(before.after(false), pts);
                lemma_count_bound(before.after(true), pts);
                assert forall|t: Map<(int, int), Cell>|
                    #[trigger] before.puzzle.model().is_solution(t) && before.solution@.submap_of(t)
                        implies before.after(false).submap_of(t) && before.after(true).submap_of(t) by {
                    before.puzzle.model().lemma_pass_sound(t, before.solution@, false);
                    before.puzzle.model().lemma_pass_sound(t, before.solution@, true);
                }
            }
            if self.solve_hints() {
                continue;
            }
            if self.solve_clues() {
                proof {
                    assert(!old(self).is_stalled());
                }
                continue;
            }
            break;
        }
        self.solution.is_solved()
    }

    /// The hint of every position of the board, in spiral order.
    pub fn computed_hints(&self) -> (r: Vec<(Position, Hint)>)
        requires
            self.wf(),
        ensures
            r@.len() == self.hexagon().points().len(),
            forall|i: int|
                0 <= i < r@.len() ==> (#[trigger] r@[i]).0@ == self.hexagon().points()[i]
                    && r@[i].1 == self.hint_at(r@[i].0@),
    {
        let table = self.remaining_table();
        let positions = self.puzzle.board.hexagon.positions();
        proof {
            self.hexagon().lemma_hexagon_points();
        }
        let mut r: Vec<(Position, Hint)> = Vec::new();
        let mut i: usize = 0;
        while i < positions.len()
            invariant
                self.wf(),
                table@.len() == key_count(self.hexagon().radius as int),
                forall|j: int|
                    0 <= j < table@.len() ==> #[trigger] table@[j] == self.remaining(
                        key_at(self.hexagon().radius as int, j).0,
                        key_at(self.hexagon().radius as int, j).1,
                    ),
                positions@.len() == self.hexagon().points().len(),
                forall|j: int|
                    0 <= j < positions@.len() ==> (#[trigger] positions@[j])@
                        == self.hexagon().points()[j] && positions@[j].valid(),
                forall|j: int|
                    0 <= j < self.hexagon().points().len() ==> self.hexagon().contains_point(
                        #[trigger] self.hexagon().points()[j],
                    ),
                0 <= i <= positions@.len(),
                r@.len() == i,
                forall|j: int|
                    0 <= j < i ==> (#[trigger] r@[j]).0@ == self.hexagon().points()[j] && r@[j].1
                        == self.hint_at(r@[j].0@),
            decreases positions@.len() - i,
        {
            let p = positions[i];
            let hint = self.hint_for(&table, p);
            r.push((p, hint));
            i = i + 1;
        }
        r
    }
}

} // verus!
