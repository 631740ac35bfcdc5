use vstd::prelude::*;

use rand::rngs::StdRng;

use crate::board::{key_at, key_count, key_index, Board};
use crate::hexagon::Hexagon;
use crate::cell::{Clue, Hint};
use crate::position::{abs, is_normalized, Direction, Distance, Position};

verus! {

/// The clue that a list of keyed clues gives for `key`: its last entry with
/// that key, or the zero clue if there is none.
pub open spec fn listed_clue(s: Seq<((Direction, Distance), Clue)>, key: (Direction, int)) -> Clue
    decreases s.len(),
{
    if s.len() == 0 {
        Clue(0, 0, 0)
    } else if s.last().0.0 == key.0 && s.last().0.1 == key.1 {
        s.last().1
    } else {
        listed_clue(s.drop_last(), key)
    }
}

/// The table index of the chord key `(direction, distance)` on a board of the
/// given radius.
pub fn key_position(radius: Distance, direction: Direction, distance: Distance) -> (r: usize)
    requires
        0 < radius,
        2 * radius < i32::MAX,
        key_count(radius as int) <= usize::MAX,
        is_normalized(direction),
        abs(distance as int) <= radius,
    ensures
        r == key_index(radius as int, direction, distance as int),
        r < key_count(radius as int),
        key_at(radius as int, r as int) == (direction, distance as int),
{
    let w = 2 * radius as usize + 1;
    let offset = (distance + radius) as usize;
    match direction {
        Direction::XY => offset,
        Direction::YZ => w + offset,
        _ => 2 * w + offset,
    }
}

/// A board of known cells together with the clue of every chord.
#[derive(Debug, Clone)]
pub struct Puzzle {
    pub board: Board,
    pub clues: Vec<Clue>,
}

impl Puzzle {
    /// The board is well formed and the table holds one clue per chord key.
    pub open spec fn wf(self) -> bool {
        &&& self.board.wf()
        &&& self.clues@.len() == key_count(self.board.hexagon.radius as int)
    }

    /// The clue of the chord `(d, k)`.
    pub open spec fn clue_of(self, d: Direction, k: int) -> Clue {
        self.clues@[key_index(self.board.hexagon.radius as int, d, k)]
    }

    /// A puzzle over `board` with the listed clues. Entries whose key is not
    /// a chord of the board are ignored, a later entry for a key replaces an
    /// earlier one, and chords without an entry get the zero clue.
    pub fn new(board: Board, clue_list: Vec<((Direction, Distance), Clue)>) -> (r: Puzzle)
        requires
            board.wf(),
        ensures
            r.wf(),
            r.board == board,
            forall|i: int|
                0 <= i < r.clues@.len() ==> #[trigger] r.clues@[i] == listed_clue(
                    clue_list@,
                    key_at(board.hexagon.radius as int, i),
                ),
    {
        let radius = board.hexagon.radius;
        let ghost rad = radius as int;
        let n: usize = 3 * (2 * radius as usize + 1);
        let mut clues: Vec<Clue> = Vec::new();
        while clues.len() < n
            invariant
                n == key_count(rad),
                clues@.len() <= n,
                forall|i: int| 0 <= i < clues@.len() ==> #[trigger] clues@[i] == Clue(0, 0, 0),
            decreases n - clues@.len(),
        {
            clues.push(Clue::zero());
        }
        let mut j: usize = 0;
        while j < clue_list.len()
            invariant
                board.wf(),
                radius == board.hexagon.radius,
                rad == radius,
                n == key_count(rad),
                clues@.len() == n,
                0 <= j <= clue_list@.len(),
                forall|i: int|
                    0 <= i < n ==> #[trigger] clues@[i] == listed_clue(
                        clue_list@.subrange(0, j as int),
                        key_at(rad, i),
                    ),
            decreases clue_list@.len() - j,
        {
            let ((direction, distance), clue) = clue_list[j];
            let ghost before = clue_list@.subrange(0, j as int);
            let ghost after = clue_list@.subrange(0, j + 1);
            assert(after.drop_last() == before);
            assert(after.last() == clue_list@[j as int]);
            let normal = match direction {
                Direction::XY | Direction::YZ | Direction::ZX => true,
                _ => false,
            };
            if normal && -radius <= distance && distance <= radius {
                let index = key_position(radius, direction, distance);
                clues.set(index, clue);
            }
            j = j + 1;
        }
        assert(clue_list@.subrange(0, clue_list@.len() as int) == clue_list@);
        Puzzle { board, clues }
    }

    /// A puzzle over `board` whose clues are those of the board's own
    /// colours.
    pub fn with_clues(board: Board) -> (r: Puzzle)
        requires
            board.wf(),
        ensures
            r.wf(),
            r.board == board,
            forall|i: int|
                0 <= i < r.clues@.len() ==> #[trigger] r.clues@[i] == board.chord_clue(
                    key_at(board.hexagon.radius as int, i).0,
                    key_at(board.hexagon.radius as int, i).1,
                ),
            r.clues@ == board.clue_table(),
    {
        let keyed = board.clues();
        let mut clues: Vec<Clue> = Vec::new();
        let mut i: usize = 0;
        while i < keyed.len()
            invariant
                0 <= i <= keyed@.len(),
                clues@.len() == i,
                forall|j: int| 0 <= j < i ==> #[trigger] clues@[j] == keyed@[j].1,
            decreases keyed@.len() - i,
        {
            clues.push(keyed[i].1);
            i = i + 1;
        }
        proof {
            assert(clues@ =~= board.clue_table());
        }
        Puzzle { board, clues }
    }

    pub fn board(&self) -> (r: &Board)
        ensures
            *r == self.board,
    {
        &self.board
    }

    /// Mutable access to the board; the clues stay as they are.
    pub fn mut_board(&mut self) -> (r: &mut Board)
        ensures
            *r == old(self).board,
            final(self).board == *final(r),
            final(self).clues == old(self).clues,
    {
        &mut self.board
    }

    /// The clue of every chord, keyed by canonical direction and distance,
    /// in the order of `Board::clues`.
    pub fn clues(&self) -> (r: Vec<((Direction, Distance), Clue)>)
        requires
            self.wf(),
        ensures
            r@.len() == self.clues@.len(),
            forall|i: int|
                0 <= i < r@.len() ==> #[trigger] r@[i] == ((
                    key_at(self.board.hexagon.radius as int, i).0,
                    key_at(self.board.hexagon.radius as int, i).1 as i32,
                ), self.clues@[i]),
    {
        let radius = self.board.hexagon.radius;
        let ghost rad = radius as int;
        let w: usize = 2 * radius as usize + 1;
        let mut r: Vec<((Direction, Distance), Clue)> = Vec::new();
        let mut i: usize = 0;
        while i < self.clues.len()
            invariant
                self.wf(),
                radius == self.board.hexagon.radius,
                rad == radius,
                w == 2 * rad + 1,
                0 <= i <= self.clues@.len(),
                r@.len() == i,
                forall|j: int|
                    0 <= j < i ==> #[trigger] r@[j] == ((key_at(rad, j).0, key_at(rad, j).1 as i32), self.clues@[j]),
            decreases self.clues@.len() - i,
        {
            let (direction, offset) = if i < w {
                (Direction::XY, i)
            } else if i < 2 * w {
                (Direction::YZ, i - w)
            } else {
                (Direction::ZX, i - 2 * w)
            };
            r.push(((direction, offset as i32 - radius), self.clues[i]));
            i = i + 1;
        }
        r
    }

    /// The clue of the chord `(direction, distance)`, if that is a chord key
    /// of the board.
    pub fn clue(&self, direction: Direction, distance: Distance) -> (r: Option<Clue>)
        requires
            self.wf(),
        ensures
            r is Some <==> is_normalized(direction) && abs(distance as int) <= self.board.hexagon.radius,
            r matches Some(c) ==> c == self.clue_of(direction, distance as int),
    {
        let radius = self.board.hexagon.radius;
        let normal = match direction {
            Direction::XY | Direction::YZ | Direction::ZX => true,
            _ => false,
        };
        if normal && -radius <= distance && distance <= radius {
            Some(self.clues[key_position(radius, direction, distance)])
        } else {
            None
        }
    }

    /// Empties the board, keeping its radius and every clue.
    pub fn clear(&mut self)
        requires
            old(self).wf(),
        ensures
            final(self).wf(),
            final(self).board@ == Map::<(int, int), crate::cell::Cell>::empty(),
            final(self).board.hexagon == old(self).board.hexagon,
            final(self).clues == old(self).clues,
    {
        let hexagon = self.board.hexagon;
        self.board = Board { hexagon, cells: Vec::new() };
    }

    /// A copy of the puzzle.
    pub fn copy(&self) -> (r: Puzzle)
        requires
            self.wf(),
        ensures
            r.wf(),
            r.board.cells@ == self.board.cells@,
            r.board.hexagon == self.board.hexagon,
            r.board@ == self.board@,
            r.clues@ == self.clues@,
            r.model() == self.model(),
    {
        let board = self.board.copy();
        let mut clues: Vec<Clue> = Vec::new();
        let mut i: usize = 0;
        while i < self.clues.len()
            invariant
                0 <= i <= self.clues@.len(),
                clues@ == self.clues@.subrange(0, i as int),
            decreases self.clues@.len() - i,
        {
            clues.push(self.clues[i]);
            i = i + 1;
        }
        proof {
            assert(clues@ =~= self.clues@);
        }
        Puzzle { board, clues }
    }
}

/// Produces solution puzzles at random: a fully coloured board and its
/// clues.
pub trait Generator {
    /// Whether the generator can produce a puzzle.
    spec fn ready(&self) -> bool;

    /// What every puzzle the generator produces satisfies, whatever was
    /// drawn at random.
    spec fn produces(&self, p: Puzzle) -> bool;

    fn generate(&self, rng: &mut StdRng) -> (r: Puzzle)
        requires
            self.ready(),
        ensures
            r.wf(),
            self.produces(r),
    ;
}

/// Generates boards of a fixed radius with every position coloured at
/// random.
#[derive(Debug, Clone, Copy)]
pub struct RandomBoards {
    pub radius: Distance,
}

impl Generator for RandomBoards {
    open spec fn ready(&self) -> bool {
        &&& 0 < self.radius
        &&& 2 * self.radius < i32::MAX
        &&& key_count(self.radius as int) <= usize::MAX
    }

    /// A fully coloured centred board of the radius, with its own clues.
    open spec fn produces(&self, p: Puzzle) -> bool {
        &&& p.board.hexagon.radius == self.radius
        &&& p.board.hexagon.origin@ == (0int, 0int)
        &&& p.board.spec_is_solved()
        &&& p.clues@ == p.board.clue_table()
    }

    fn generate(&self, rng: &mut StdRng) -> (r: Puzzle) {
        let hexagon = Hexagon { origin: Position::zero(), radius: self.radius };
        Puzzle::with_clues(Board::random_in(rng, hexagon))
    }
}

/// Generates boards of a fixed radius that colour each listed position at
/// random among the colours its hint allows.
#[derive(Debug, Clone)]
pub struct HintedBoards {
    pub radius: Distance,
    pub hints: Vec<(Position, Hint)>,
}

impl Generator for HintedBoards {
    open spec fn ready(&self) -> bool {
        &&& 0 < self.radius
        &&& 2 * self.radius < i32::MAX
        &&& key_count(self.radius as int) <= usize::MAX
        &&& Board::hints_fit(self.radius as int, self.hints@)
    }

    /// A centred board of the radius colouring exactly the hinted
    /// positions within their hints, with its own clues.
    open spec fn produces(&self, p: Puzzle) -> bool {
        &&& p.board.hexagon.radius == self.radius
        &&& p.board.hexagon.origin@ == (0int, 0int)
        &&& p.board.from_hints(self.hints@)
        &&& p.clues@ == p.board.clue_table()
    }

    fn generate(&self, rng: &mut StdRng) -> (r: Puzzle) {
        let hexagon = Hexagon { origin: Position::zero(), radius: self.radius };
        let mut hints: Vec<(Position, Hint)> = Vec::new();
        let mut i: usize = 0;
        while i < self.hints.len()
            invariant
                0 <= i <= self.hints@.len(),
                hints@ == self.hints@.subrange(0, i as int),
            decreases self.hints@.len() - i,
        {
            hints.push(self.hints[i]);
            i = i + 1;
        }
        proof {
            assert(hints@ =~= self.hints@);
        }
        Puzzle::with_clues(Board::random_from_hints_in(rng, hexagon, hints))
    }
}

} // verus!
