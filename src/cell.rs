use vstd::prelude::*;

use rand::rngs::StdRng;

use crate::random::choose_cell;

verus! {

/// A count of cells.
pub type Count = u32;

/// One of the three colours a board position can hold.
#[derive(Debug, Clone, Copy, PartialEq, Eq, Hash, Structural)]
pub enum Cell {
    Red,
    Green,
    Blue,
}

/// The rank of a colour in enumeration order.
pub open spec fn cell_rank(c: Cell) -> int {
    match c {
        Cell::Red => 0,
        Cell::Green => 1,
        Cell::Blue => 2,
    }
}

/// How many times `c` occurs in `s`.
pub open spec fn occurrences(s: Seq<Cell>, c: Cell) -> nat
    decreases s.len(),
{
    if s.len() == 0 {
        0
    } else {
        occurrences(s.drop_last(), c) + if s.last() == c {
            1nat
        } else {
            0nat
        }
    }
}

/// `a - b`, or zero where `b` is larger.
pub open spec fn monus(a: int, b: int) -> int {
    if a >= b {
        a - b
    } else {
        0
    }
}

impl Cell {
    /// A colour drawn at random.
    pub fn random(rng: &mut StdRng) -> (r: Cell) {
        let cells = Cell::all();
        match choose_cell(&cells, rng) {
            Some(c) => c,
            None => Cell::Red,
        }
    }

    /// The three colours in enumeration order.
    pub fn all() -> (r: [Cell; 3])
        ensures
            r@ == seq![Cell::Red, Cell::Green, Cell::Blue],
    {
        [Cell::Red, Cell::Green, Cell::Blue]
    }
}

/// The number of cells of each colour along a segment.
#[derive(Debug, Clone, Copy, PartialEq, Eq, Structural)]
pub struct Clue(pub Count, pub Count, pub Count);

impl Clue {
    /// The count for colour `c`.
    pub open spec fn of(self, c: Cell) -> int {
        match c {
            Cell::Red => self.0 as int,
            Cell::Green => self.1 as int,
            Cell::Blue => self.2 as int,
        }
    }

    /// The sum of the three counts.
    pub open spec fn total(self) -> int {
        self.0 + self.1 + self.2
    }

    /// The number of colours with a non-zero count.
    pub open spec fn nonzero_colors(self) -> int {
        (if self.0 > 0 { 1int } else { 0int }) + (if self.1 > 0 { 1int } else { 0int }) + (if self.2
            > 0 {
            1int
        } else {
            0int
        })
    }

    /// Whether `c` has the largest non-zero count, later colours winning ties.
    pub open spec fn is_max_cell(self, c: Cell) -> bool {
        &&& self.of(c) > 0
        &&& forall|o: Cell|
            #![trigger self.of(o)]
            self.of(o) > self.of(c) ==> false
        &&& forall|o: Cell|
            #![trigger self.of(o)]
            self.of(o) == self.of(c) ==> cell_rank(o) <= cell_rank(c)
    }

    /// Whether `c` has the smallest non-zero count, earlier colours winning
    /// ties.
    pub open spec fn is_min_cell(self, c: Cell) -> bool {
        &&& self.of(c) > 0
        &&& forall|o: Cell|
            #![trigger self.of(o)]
            0 < self.of(o) < self.of(c) ==> false
        &&& forall|o: Cell|
            #![trigger self.of(o)]
            self.of(o) == self.of(c) ==> cell_rank(c) <= cell_rank(o)
    }

    /// The colour with the highest non-zero count, later colours winning
    /// ties.
    pub open spec fn spec_max_cell(self) -> Option<Cell> {
        if self.2 > 0 && self.2 >= self.1 && self.2 >= self.0 {
            Some(Cell::Blue)
        } else if self.1 > 0 && self.1 >= self.0 {
            Some(Cell::Green)
        } else if self.0 > 0 {
            Some(Cell::Red)
        } else {
            None
        }
    }

    /// The clue counting the colours of `s`.
    pub open spec fn of_cells(s: Seq<Cell>) -> Clue {
        Clue(
            occurrences(s, Cell::Red) as u32,
            occurrences(s, Cell::Green) as u32,
            occurrences(s, Cell::Blue) as u32,
        )
    }

    pub fn new(red: Count, green: Count, blue: Count) -> (r: Clue)
        ensures
            r == Clue(red, green, blue),
    {
        Clue(red, green, blue)
    }

    pub fn zero() -> (r: Clue)
        ensures
            r == Clue(0, 0, 0),
    {
        Clue(0, 0, 0)
    }

    pub fn is_empty(&self) -> (r: bool)
        ensures
            r == (self.0 == 0 && self.1 == 0 && self.2 == 0),
    {
        self.0 == 0 && self.1 == 0 && self.2 == 0
    }

    /// The sum of the three counts.
    pub fn count(&self) -> (r: Count)
        requires
            self.total() <= u32::MAX,
        ensures
            r == self.total(),
    {
        self.0 + self.2 + self.1
    }

    /// The colour with the lowest non-zero count; among equal counts the
    /// earliest colour.
    pub fn min_cell(&self) -> (r: Option<Cell>)
        ensures
            r is None <==> self.total() == 0,
            r matches Some(c) ==> self.is_min_cell(c),
    {
        let mut best: Option<Cell> = None;
        let mut best_count: u32 = 0;
        if self.0 > 0 {
            best = Some(Cell::Red);
            best_count = self.0;
        }
        if self.1 > 0 && (best_count == 0 || self.1 < best_count) {
            best = Some(Cell::Green);
            best_count = self.1;
        }
        if self.2 > 0 && (best_count == 0 || self.2 < best_count) {
            best = Some(Cell::Blue);
        }
        best
    }

    /// The colour with the highest non-zero count; among equal counts the
    /// latest colour.
    pub fn max_cell(&self) -> (r: Option<Cell>)
        ensures
            r is None <==> self.total() == 0,
            r matches Some(c) ==> self.is_max_cell(c),
            r == self.spec_max_cell(),
    {
        let mut best: Option<Cell> = None;
        let mut best_count: u32 = 0;
        if self.0 > 0 {
            best = Some(Cell::Red);
            best_count = self.0;
        }
        if self.1 > 0 && self.1 >= best_count {
            best = Some(Cell::Green);
            best_count = self.1;
        }
        if self.2 > 0 && self.2 >= best_count {
            best = Some(Cell::Blue);
        }
        best
    }

    /// Counts the colours of a sequence of cells.
    pub fn from_cells(cells: &[Cell]) -> (r: Clue)
        requires
            cells@.len() <= u32::MAX,
        ensures
            r == Clue::of_cells(cells@),
            r.total() == cells@.len(),
    {
        let mut red: u32 = 0;
        let mut green: u32 = 0;
        let mut blue: u32 = 0;
        let mut i: usize = 0;
        while i < cells.len()
            invariant
                0 <= i <= cells@.len() <= u32::MAX,
                red == occurrences(cells@.subrange(0, i as int), Cell::Red),
                green == occurrences(cells@.subrange(0, i as int), Cell::Green),
                blue == occurrences(cells@.subrange(0, i as int), Cell::Blue),
                red + green + blue == i,
            decreases cells@.len() - i,
        {
            let ghost before = cells@.subrange(0, i as int);
            assert(cells@.subrange(0, i + 1).drop_last() == before);
            match cells[i] {
                Cell::Red => red = red + 1,
                Cell::Green => green = green + 1,
                Cell::Blue => blue = blue + 1,
            }
            i = i + 1;
        }
        assert(cells@.subrange(0, cells@.len() as int) == cells@);
        Clue::new(red, green, blue)
    }

    pub fn red(&self) -> (r: Count)
        ensures
            r == self.0,
    {
        self.0
    }

    pub fn green(&self) -> (r: Count)
        ensures
            r == self.1,
    {
        self.1
    }

    pub fn blue(&self) -> (r: Count)
        ensures
            r == self.2,
    {
        self.2
    }

    /// The count for one colour.
    pub fn cell(&self, cell: Cell) -> (r: Count)
        ensures
            r == self.of(cell),
    {
        match cell {
            Cell::Red => self.0,
            Cell::Green => self.1,
            Cell::Blue => self.2,
        }
    }

    /// The colours that remain possible: those with a non-zero count.
    pub fn hint(&self) -> (r: Hint)
        ensures
            r == self.spec_hint(),
    {
        Hint(self.0 > 0, self.1 > 0, self.2 > 0)
    }

    pub open spec fn spec_hint(self) -> Hint {
        Hint(self.0 > 0, self.1 > 0, self.2 > 0)
    }

    /// Whether exactly one colour has a non-zero count.
    pub fn is_solved(&self) -> (r: bool)
        ensures
            r == (self.nonzero_colors() == 1),
    {
        let n: u32 = (if self.0 > 0 { 1 } else { 0 }) + (if self.1 > 0 { 1 } else { 0 }) + (if self.2
            > 0 {
            1
        } else {
            0
        });
        n == 1
    }

    /// Component-wise sum.
    pub fn add(self, other: Clue) -> (r: Clue)
        requires
            self.0 + other.0 <= u32::MAX,
            self.1 + other.1 <= u32::MAX,
            self.2 + other.2 <= u32::MAX,
        ensures
            r == Clue((self.0 + other.0) as u32, (self.1 + other.1) as u32, (self.2 + other.2) as u32),
    {
        Clue(self.0 + other.0, self.1 + other.1, self.2 + other.2)
    }

    /// Component-wise difference; a count that would drop below zero stays
    /// at zero.
    pub fn sub(self, other: Clue) -> (r: Clue)
        ensures
            r == self.spec_sub(other),
    {
        Clue(
            self.0.saturating_sub(other.0),
            self.1.saturating_sub(other.1),
            self.2.saturating_sub(other.2),
        )
    }

    pub open spec fn spec_sub(self, other: Clue) -> Clue {
        Clue(
            monus(self.0 as int, other.0 as int) as u32,
            monus(self.1 as int, other.1 as int) as u32,
            monus(self.2 as int, other.2 as int) as u32,
        )
    }
}

/// For each colour, whether it is still possible at a position.
#[derive(Debug, Clone, Copy, PartialEq, Eq, Structural)]
pub struct Hint(pub bool, pub bool, pub bool);

impl Hint {
    /// Whether colour `c` is possible.
    pub open spec fn allows(self, c: Cell) -> bool {
        match c {
            Cell::Red => self.0,
            Cell::Green => self.1,
            Cell::Blue => self.2,
        }
    }

    /// The colour this hint settles on, if exactly one is possible.
    pub open spec fn spec_solution(self) -> Option<Cell> {
        match (self.0, self.1, self.2) {
            (true, false, false) => Some(Cell::Red),
            (false, true, false) => Some(Cell::Green),
            (false, false, true) => Some(Cell::Blue),
            _ => None,
        }
    }

    pub open spec fn spec_and(self, other: Hint) -> Hint {
        Hint(self.0 && other.0, self.1 && other.1, self.2 && other.2)
    }

    /// No constraint: every colour possible.
    pub fn any() -> (r: Hint)
        ensures
            r == Hint(true, true, true),
    {
        Hint(true, true, true)
    }

    /// Nothing possible.
    pub fn none() -> (r: Hint)
        ensures
            r == Hint(false, false, false),
    {
        Hint(false, false, false)
    }

    pub fn red(&self) -> (r: bool)
        ensures
            r == self.0,
    {
        self.0
    }

    pub fn green(&self) -> (r: bool)
        ensures
            r == self.1,
    {
        self.1
    }

    pub fn blue(&self) -> (r: bool)
        ensures
            r == self.2,
    {
        self.2
    }

    /// One of the possible colours, drawn at random; `None` if none is
    /// possible.
    pub fn random(&self, rng: &mut StdRng) -> (r: Option<Cell>)
        ensures
            r is None <==> !(self.0 || self.1 || self.2),
            r matches Some(c) ==> self.allows(c),
    {
        let mut allowed: Vec<Cell> = Vec::new();
        if self.0 {
            allowed.push(Cell::Red);
        }
        if self.1 {
            allowed.push(Cell::Green);
        }
        if self.2 {
            allowed.push(Cell::Blue);
        }
        choose_cell(allowed.as_slice(), rng)
    }

    /// Whether a colour is possible.
    pub fn cell(&self, cell: Cell) -> (r: bool)
        ensures
            r == self.allows(cell),
    {
        match cell {
            Cell::Red => self.0,
            Cell::Green => self.1,
            Cell::Blue => self.2,
        }
    }

    /// The only possible colour, if exactly one is possible.
    pub fn solution(&self) -> (r: Option<Cell>)
        ensures
            r == self.spec_solution(),
    {
        match (self.0, self.1, self.2) {
            (true, false, false) => Some(Cell::Red),
            (false, true, false) => Some(Cell::Green),
            (false, false, true) => Some(Cell::Blue),
            _ => None,
        }
    }

    /// One for each possible colour, zero for the others.
    pub fn clue(&self) -> (r: Clue)
        ensures
            r == self.spec_clue(),
    {
        Clue(if self.0 { 1 } else { 0 }, if self.1 { 1 } else { 0 }, if self.2 { 1 } else { 0 })
    }

    pub open spec fn spec_clue(self) -> Clue {
        Clue(if self.0 { 1 } else { 0 }, if self.1 { 1 } else { 0 }, if self.2 { 1 } else { 0 })
    }

    /// Colour by colour conjunction: possible in both.
    pub fn and(self, other: Hint) -> (r: Hint)
        ensures
            r == self.spec_and(other),
    {
        Hint(self.0 && other.0, self.1 && other.1, self.2 && other.2)
    }
}

/// Combining a hint with any clue's hint never makes a colour possible again.
pub proof fn lemma_and_narrows(h: Hint, c: Clue)
    ensures
        forall|x: Cell| #[trigger] h.spec_and(c.spec_hint()).allows(x) ==> h.allows(x),
{
}

} // verus!
