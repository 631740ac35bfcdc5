use vstd::prelude::*;

use rand::rngs::StdRng;

use crate::cell::{Cell, Clue, Hint};
use crate::hexagon::{Hexagon, HexagonError};
use crate::puzzle::{HintedBoards, RandomBoards};
use crate::position::{abs, hex_norm, is_normalized, Direction, Distance, Position};

verus! {

/// The map from positions to colours that an association list denotes; a
/// later entry for the same position wins.
pub open spec fn map_of(s: Seq<(Position, Cell)>) -> Map<(int, int), Cell>
    decreases s.len(),
{
    if s.len() == 0 {
        Map::empty()
    } else {
        map_of(s.drop_last()).insert(s.last().0@, s.last().1)
    }
}

/// The last hint listed for position `v`, or no constraint if none is.
pub open spec fn last_hint(hints: Seq<(Position, Hint)>, v: (int, int)) -> Hint
    decreases hints.len(),
{
    if hints.len() == 0 {
        Hint(true, true, true)
    } else if hints.last().0@ == v {
        hints.last().1
    } else {
        last_hint(hints.drop_last(), v)
    }
}

/// No position occurs twice.
pub open spec fn unique_keys(s: Seq<(Position, Cell)>) -> bool {
    forall|i: int, j: int| 0 <= i < j < s.len() ==> s[i].0@ != s[j].0@
}

/// How many of the positions `pts` hold colour `c` in `m`.
pub open spec fn count_color(m: Map<(int, int), Cell>, pts: Seq<(int, int)>, c: Cell) -> nat
    decreases pts.len(),
{
    if pts.len() == 0 {
        0
    } else {
        count_color(m, pts.drop_last(), c) + if m.contains_key(pts.last()) && m[pts.last()] == c {
            1nat
        } else {
            0nat
        }
    }
}

/// How many of the positions `pts` hold any colour in `m`.
pub open spec fn count_assigned(m: Map<(int, int), Cell>, pts: Seq<(int, int)>) -> nat
    decreases pts.len(),
{
    if pts.len() == 0 {
        0
    } else {
        count_assigned(m, pts.drop_last()) + if m.contains_key(pts.last()) {
            1nat
        } else {
            0nat
        }
    }
}

/// The clue of the colours that `m` assigns along `pts`.
pub open spec fn clue_along(m: Map<(int, int), Cell>, pts: Seq<(int, int)>) -> Clue {
    Clue(
        count_color(m, pts, Cell::Red) as u32,
        count_color(m, pts, Cell::Green) as u32,
        count_color(m, pts, Cell::Blue) as u32,
    )
}

/// The number of chord keys of a hexagon of radius `r`: three canonical
/// directions times `2r + 1` distances.
pub open spec fn key_count(r: int) -> int {
    3 * (2 * r + 1)
}

/// The chord key at index `i`: canonical directions in the order XY, YZ, ZX,
/// each with distances from `-r` to `r`.
pub open spec fn key_at(r: int, i: int) -> (Direction, int) {
    let w = 2 * r + 1;
    if i < w {
        (Direction::XY, i - r)
    } else if i < 2 * w {
        (Direction::YZ, i - w - r)
    } else {
        (Direction::ZX, i - 2 * w - r)
    }
}

/// The index of a chord key.
pub open spec fn key_index(r: int, d: Direction, k: int) -> int {
    let w = 2 * r + 1;
    match d {
        Direction::XY => k + r,
        Direction::YZ => w + k + r,
        _ => 2 * w + k + r,
    }
}

/// The table index of a chord key and the key at that index agree.
pub proof fn lemma_key_round_trip(r: int, d: Direction, k: int)
    requires
        r > 0,
        is_normalized(d),
        abs(k) <= r,
    ensures
        0 <= key_index(r, d, k) < key_count(r),
        key_at(r, key_index(r, d, k)) == (d, k),
{
}

/// The assigned positions of a segment count one colour each, so the three
/// counts of its clue add up to the number of assigned positions, which is
/// at most the segment's length.
pub proof fn lemma_clue_counts_assigned(m: Map<(int, int), Cell>, pts: Seq<(int, int)>)
    ensures
        count_color(m, pts, Cell::Red) + count_color(m, pts, Cell::Green) + count_color(
            m,
            pts,
            Cell::Blue,
        ) == count_assigned(m, pts),
        count_assigned(m, pts) <= pts.len(),
    decreases pts.len(),
{
    if pts.len() > 0 {
        lemma_clue_counts_assigned(m, pts.drop_last());
    }
}

/// Every entry of a list with unique positions is in the map it denotes,
/// and every key of that map comes from an entry.
pub proof fn lemma_map_of(s: Seq<(Position, Cell)>)
    requires
        unique_keys(s),
    ensures
        forall|i: int|
            #![trigger s[i]]
            0 <= i < s.len() ==> map_of(s).contains_key(s[i].0@) && map_of(s)[s[i].0@] == s[i].1,
        forall|v: (int, int)|
            #[trigger] map_of(s).contains_key(v) ==> exists|i: int| 0 <= i < s.len() && s[i].0@ == v,
        map_of(s).dom().finite(),
        map_of(s).len() == s.len(),
    decreases s.len(),
{
    if s.len() > 0 {
        let t = s.drop_last();
        lemma_map_of(t);
        assert forall|i: int| #![trigger s[i]] 0 <= i < s.len() implies map_of(s).contains_key(s[i].0@)
            && map_of(s)[s[i].0@] == s[i].1 by {
            if i < s.len() - 1 {
                assert(t[i] == s[i]);
                assert(s[i].0@ != s[s.len() - 1].0@);
            }
        }
        assert forall|v: (int, int)| #[trigger] map_of(s).contains_key(v) implies exists|i: int|
            0 <= i < s.len() && s[i].0@ == v by {
            if v != s.last().0@ {
                let i = choose|i: int| 0 <= i < t.len() && t[i].0@ == v;
                assert(s[i].0@ == v);
            } else {
                assert(s[s.len() - 1].0@ == v);
            }
        }
        assert(!map_of(t).contains_key(s.last().0@)) by {
            if map_of(t).contains_key(s.last().0@) {
                let i = choose|i: int| 0 <= i < t.len() && t[i].0@ == s.last().0@;
                assert(s[i].0@ == s[s.len() - 1].0@);
            }
        }
    }
}

/// Replacing the colour of an entry replaces it in the map.
pub proof fn lemma_map_of_update(s: Seq<(Position, Cell)>, i: int, c: Cell)
    requires
        unique_keys(s),
        0 <= i < s.len(),
    ensures
        map_of(s.update(i, (s[i].0, c))) == map_of(s).insert(s[i].0@, c),
        unique_keys(s.update(i, (s[i].0, c))),
    decreases s.len(),
{
    let u = s.update(i, (s[i].0, c));
    if i == s.len() - 1 {
        assert(u.drop_last() == s.drop_last());
        lemma_map_of(s.drop_last());
        assert(!map_of(s.drop_last()).contains_key(s[i].0@)) by {
            if map_of(s.drop_last()).contains_key(s[i].0@) {
                let j = choose|j: int| 0 <= j < s.drop_last().len() && s.drop_last()[j].0@ == s[i].0@;
                assert(s[j].0@ == s[i].0@);
            }
        }
        assert(map_of(u) =~= map_of(s).insert(s[i].0@, c));
    } else {
        let t = s.drop_last();
        lemma_map_of_update(t, i, c);
        assert(u.drop_last() == t.update(i, (t[i].0, c)));
        assert(map_of(u) =~= map_of(s).insert(s[i].0@, c));
    }
}

/// What a board reports for one position: the position and its colour, if
/// any.
pub open spec fn reports(m: Map<(int, int), Cell>, e: (Position, Option<Cell>), v: (int, int)) -> bool {
    &&& e.0@ == v
    &&& e.0.valid()
    &&& (e.1 is Some <==> m.contains_key(v))
    &&& (e.1 matches Some(c) ==> m[v] == c)
}

/// A hexagonal board of radius `hexagon.radius` around the zero position,
/// holding a colour for some of its positions.
#[derive(Debug, Clone)]
pub struct Board {
    pub hexagon: Hexagon,
    pub cells: Vec<(Position, Cell)>,
}

impl View for Board {
    type V = Map<(int, int), Cell>;

    open spec fn view(&self) -> Map<(int, int), Cell> {
        map_of(self.cells@)
    }
}

impl Board {
    /// The boundary is a centred hexagon and every assigned position is a
    /// distinct position inside it.
    pub open spec fn wf(self) -> bool {
        &&& self.hexagon.wf()
        &&& key_count(self.hexagon.radius as int) <= usize::MAX
        &&& self.hexagon.origin@ == (0int, 0int)
        &&& unique_keys(self.cells@)
        &&& forall|i: int|
            0 <= i < self.cells@.len() ==> self.hexagon.contains_point(#[trigger] self.cells@[i].0@)
                && self.cells@[i].0.valid()
    }

    /// Whether every position of the boundary, in spiral order, holds a
    /// colour.
    pub open spec fn spec_is_solved(self) -> bool {
        forall|i: int|
            0 <= i < self.hexagon.points().len() ==> self@.contains_key(
                #[trigger] self.hexagon.points()[i],
            )
    }

    /// The clues of all chords, indexed by chord key.
    pub open spec fn clue_table(self) -> Seq<Clue> {
        Seq::new(
            key_count(self.hexagon.radius as int) as nat,
            |i: int| self.chord_clue(key_at(self.hexagon.radius as int, i).0, key_at(self.hexagon.radius as int, i).1),
        )
    }

    /// The clue of the chord with key `(d, k)` from the colours assigned so
    /// far.
    pub open spec fn chord_clue(self, d: Direction, k: int) -> Clue {
        clue_along(self@, self.hexagon.chord(k, d))
    }

    /// The three counts of a chord's clue add up to the number of its
    /// positions that hold a colour, which is at most its length.
    pub proof fn lemma_chord_clue_total(self, d: Direction, k: int)
        requires
            self.wf(),
            abs(k) <= self.hexagon.radius,
        ensures
            self.chord_clue(d, k).total() == count_assigned(self@, self.hexagon.chord(k, d)),
            self.chord_clue(d, k).total() <= self.hexagon.chord(k, d).len(),
    {
        let pts = self.hexagon.chord(k, d);
        lemma_clue_counts_assigned(self@, pts);
        assert(pts.len() <= i32::MAX);
    }

    /// The board is solved exactly when every position inside its boundary
    /// holds a colour.
    pub proof fn lemma_solved_covers(self)
        requires
            self.wf(),
        ensures
            self.spec_is_solved() == forall|v: (int, int)|
                #[trigger] self.hexagon.contains_point(v) ==> self@.contains_key(v),
    {
        self.hexagon.lemma_hexagon_points();
        self.hexagon.lemma_points_cover();
        if self.spec_is_solved() {
            assert forall|v: (int, int)| #[trigger] self.hexagon.contains_point(v) implies self@.contains_key(v) by {
                let i = choose|i: int| 0 <= i < self.hexagon.points().len() && self.hexagon.points()[i] == v;
            }
        }
    }

    proof fn lemma_wf_map(self)
        requires
            self.wf(),
        ensures
            forall|v: (int, int)|
                #[trigger] self@.contains_key(v) ==> self.hexagon.contains_point(v),
            self@.len() == self.cells@.len(),
    {
        lemma_map_of(self.cells@);
        assert forall|v: (int, int)| #[trigger] self@.contains_key(v) implies self.hexagon.contains_point(v) by {
            let i = choose|i: int| 0 <= i < self.cells@.len() && self.cells@[i].0@ == v;
        }
    }

    /// An empty board of the given radius.
    pub fn new(radius: Distance) -> (r: Result<Board, HexagonError>)
        requires
            2 * radius < i32::MAX,
            key_count(radius as int) <= usize::MAX,
        ensures
            r is Ok <==> radius > 0,
            r matches Ok(b) ==> b.wf() && b@ == Map::<(int, int), Cell>::empty() && b.hexagon.radius
                == radius,
            r matches Err(e) ==> e == HexagonError::InsufficientRadius(radius),
    {
        match Hexagon::zero(radius) {
            Ok(hexagon) => Ok(Board { hexagon, cells: Vec::new() }),
            Err(e) => Err(e),
        }
    }

    /// The colour at a position, if one is assigned.
    pub fn get(&self, position: Position) -> (r: Option<Cell>)
        requires
            self.wf(),
        ensures
            r is Some <==> self@.contains_key(position@),
            r matches Some(c) ==> self@[position@] == c,
    {
        proof {
            lemma_map_of(self.cells@);
        }
        let mut i: usize = 0;
        while i < self.cells.len()
            invariant
                self.wf(),
                0 <= i <= self.cells@.len(),
                forall|j: int| 0 <= j < i ==> (#[trigger] self.cells@[j]).0@ != position@,
            decreases self.cells@.len() - i,
        {
            if self.cells[i].0 == position {
                proof {
                    lemma_map_of(self.cells@);
                    assert(self.cells@[i as int].0@ == position@);
                    assert(self@[self.cells@[i as int].0@] == self.cells@[i as int].1);
                }
                return Some(self.cells[i].1);
            }
            i = i + 1;
        }
        None
    }

    /// Whether a colour is assigned at a position.
    pub fn contains(&self, position: Position) -> (r: bool)
        requires
            self.wf(),
        ensures
            r == self@.contains_key(position@),
    {
        self.get(position).is_some()
    }

    /// Assigns a colour to a position inside the boundary, replacing any
    /// colour it held.
    pub fn insert(&mut self, position: Position, cell: Cell)
        requires
            old(self).wf(),
            old(self).hexagon.contains_point(position@),
            position.valid(),
        ensures
            final(self).wf(),
            final(self)@ == old(self)@.insert(position@, cell),
            final(self).hexagon == old(self).hexagon,
    {
        proof {
            lemma_map_of(self.cells@);
        }
        let mut i: usize = 0;
        while i < self.cells.len()
            invariant
                *self == *old(self),
                old(self).wf(),
                old(self).hexagon.contains_point(position@),
                position.valid(),
                0 <= i <= self.cells@.len(),
                forall|j: int| 0 <= j < i ==> (#[trigger] self.cells@[j]).0@ != position@,
            decreases self.cells@.len() - i,
        {
            if self.cells[i].0 == position {
                proof {
                    lemma_map_of_update(self.cells@, i as int, cell);
                }
                self.cells.set(i, (position, cell));
                return;
            }
            i = i + 1;
        }
        let ghost before = self.cells@;
        self.cells.push((position, cell));
        assert(self.cells@.drop_last() == before);
    }

    /// A copy of the board.
    pub fn copy(&self) -> (r: Board)
        requires
            self.wf(),
        ensures
            r.wf(),
            r@ == self@,
            r.hexagon == self.hexagon,
            r.cells@ == self.cells@,
    {
        let mut cells: Vec<(Position, Cell)> = Vec::new();
        let mut i: usize = 0;
        while i < self.cells.len()
            invariant
                self.wf(),
                0 <= i <= self.cells@.len(),
                cells@ == self.cells@.subrange(0, i as int),
            decreases self.cells@.len() - i,
        {
            cells.push(self.cells[i]);
            i = i + 1;
        }
        proof {
            assert(cells@ =~= self.cells@);
        }
        Board { hexagon: self.hexagon, cells }
    }

    /// The assigned positions with their colours, in the order they were
    /// first assigned.
    pub fn cells(&self) -> (r: Vec<(Position, Cell)>)
        requires
            self.wf(),
        ensures
            r@ == self.cells@,
            map_of(r@) == self@,
            r@.len() == self@.len(),
    {
        proof {
            self.lemma_wf_map();
        }
        self.copy().cells
    }

    pub fn hexagon(&self) -> (r: Hexagon)
        ensures
            r == self.hexagon,
    {
        self.hexagon
    }

    /// Whether every position of the board holds a colour.
    pub fn is_solved(&self) -> (r: bool)
        requires
            self.wf(),
        ensures
            r == self.spec_is_solved(),
            r == forall|v: (int, int)| #[trigger] self.hexagon.contains_point(v) ==> self@.contains_key(v),
    {
        proof {
            self.lemma_solved_covers();
        }
        let positions = self.hexagon.positions();
        let mut i: usize = 0;
        while i < positions.len()
            invariant
                self.wf(),
                positions@.len() == self.hexagon.points().len(),
                forall|j: int| 0 <= j < positions@.len() ==> (#[trigger] positions@[j])@ == self.hexagon.points()[j],
                0 <= i <= positions@.len(),
                forall|j: int| 0 <= j < i ==> self@.contains_key(#[trigger] self.hexagon.points()[j]),
            decreases positions@.len() - i,
        {
            if !self.contains(positions[i]) {
                proof {
                    self.lemma_solved_covers();
                    assert(!self@.contains_key(self.hexagon.points()[i as int]));
                }
                return false;
            }
            i = i + 1;
        }
        true
    }

    /// A board of the given radius holding the listed colours; a later entry
    /// for the same position wins.
    pub fn from_cells(radius: Distance, cells: Vec<(Position, Cell)>) -> (r: Result<
        Board,
        HexagonError,
    >)
        requires
            2 * radius < i32::MAX,
            key_count(radius as int) <= usize::MAX,
            forall|i: int|
                0 <= i < cells@.len() ==> hex_norm((#[trigger] cells@[i]).0.px(), cells@[i].0.py())
                    <= radius && cells@[i].0.valid(),
        ensures
            r is Ok <==> radius > 0,
            r matches Ok(b) ==> b.wf() && b@ == map_of(cells@) && b.hexagon.radius == radius,
            r matches Err(e) ==> e == HexagonError::InsufficientRadius(radius),
    {
        let mut board = match Board::new(radius) {
            Ok(b) => b,
            Err(e) => return Err(e),
        };
        let mut i: usize = 0;
        while i < cells.len()
            invariant
                board.wf(),
                board.hexagon.radius == radius,
                0 <= i <= cells@.len(),
                board@ == map_of(cells@.subrange(0, i as int)),
                forall|i: int|
                    0 <= i < cells@.len() ==> hex_norm((#[trigger] cells@[i]).0.px(), cells@[i].0.py())
                        <= radius && cells@[i].0.valid(),
            decreases cells@.len() - i,
        {
            let (position, cell) = cells[i];
            assert(cells@.subrange(0, i + 1).drop_last() == cells@.subrange(0, i as int));
            board.insert(position, cell);
            i = i + 1;
        }
        assert(cells@.subrange(0, cells@.len() as int) == cells@);
        Ok(board)
    }

    /// A board of the given radius with every position coloured at random.
    pub fn random(rng: &mut StdRng, radius: Distance) -> (r: Result<Board, HexagonError>)
        requires
            2 * radius < i32::MAX,
            key_count(radius as int) <= usize::MAX,
        ensures
            r is Ok <==> radius > 0,
            r matches Ok(b) ==> b.wf() && b.spec_is_solved() && b.hexagon.radius == radius,
            r matches Err(e) ==> e == HexagonError::InsufficientRadius(radius),
    {
        match Hexagon::zero(radius) {
            Ok(hexagon) => Ok(Board::random_in(rng, hexagon)),
            Err(e) => Err(e),
        }
    }

    /// A generator of random boards of the given radius.
    pub fn generator(radius: Distance) -> (r: RandomBoards)
        ensures
            r.radius == radius,
    {
        RandomBoards { radius }
    }

    /// A generator of boards of the given radius coloured at random within
    /// the listed hints.
    pub fn generator_from_hints(radius: Distance, hints: Vec<(Position, Hint)>) -> (r: HintedBoards)
        ensures
            r.radius == radius,
            r.hints@ == hints@,
    {
        HintedBoards { radius, hints }
    }

    /// A board bounded by `hexagon` with every position coloured at random.
    pub fn random_in(rng: &mut StdRng, hexagon: Hexagon) -> (r: Board)
        requires
            hexagon.wf(),
            hexagon.origin@ == (0int, 0int),
            key_count(hexagon.radius as int) <= usize::MAX,
        ensures
            r.wf(),
            r.spec_is_solved(),
            r.hexagon == hexagon,
    {
        let mut board = Board { hexagon, cells: Vec::new() };
        let positions = board.hexagon.positions();
        proof {
            board.hexagon.lemma_hexagon_points();
        }
        let mut i: usize = 0;
        while i < positions.len()
            invariant
                board.wf(),
                board.hexagon == hexagon,
                positions@.len() == board.hexagon.points().len(),
                forall|j: int| 0 <= j < positions@.len() ==> (#[trigger] positions@[j])@ == board.hexagon.points()[j] && positions@[j].valid(),
                forall|j: int| 0 <= j < board.hexagon.points().len() ==> board.hexagon.contains_point(#[trigger] board.hexagon.points()[j]),
                0 <= i <= positions@.len(),
                forall|j: int| 0 <= j < i ==> board@.contains_key(#[trigger] board.hexagon.points()[j]),
            decreases positions@.len() - i,
        {
            let cell = Cell::random(rng);
            board.insert(positions[i], cell);
            i = i + 1;
        }
        board
    }

    /// A board of the given radius where each listed position gets a colour
    /// drawn at random among those its hint allows; a later hint for the
    /// same position wins.
    pub fn random_from_hints(rng: &mut StdRng, radius: Distance, hints: Vec<(Position, Hint)>) -> (r:
        Result<Board, HexagonError>)
        requires
            2 * radius < i32::MAX,
            key_count(radius as int) <= usize::MAX,
            Board::hints_fit(radius as int, hints@),
        ensures
            r is Ok <==> radius > 0,
            r matches Ok(b) ==> b.hexagon.radius == radius && b.from_hints(hints@),
            r matches Err(e) ==> e == HexagonError::InsufficientRadius(radius),
    {
        match Hexagon::zero(radius) {
            Ok(hexagon) => Ok(Board::random_from_hints_in(rng, hexagon, hints)),
            Err(e) => Err(e),
        }
    }

    /// Whether the hints name positions within `radius` of the centre, each
    /// allowing some colour.
    pub open spec fn hints_fit(radius: int, hints: Seq<(Position, Hint)>) -> bool {
        forall|i: int|
            0 <= i < hints.len() ==> {
                &&& hex_norm((#[trigger] hints[i]).0.px(), hints[i].0.py()) <= radius
                &&& hints[i].0.valid()
                &&& (hints[i].1.0 || hints[i].1.1 || hints[i].1.2)
            }
    }

    /// The board colours exactly the hinted positions, each with a colour
    /// that the last hint for it allows.
    pub open spec fn from_hints(self, hints: Seq<(Position, Hint)>) -> bool {
        &&& self.wf()
        &&& forall|v: (int, int)| #[trigger] self@.contains_key(v) ==> exists|i: int| 0 <= i < hints.len() && hints[i].0@ == v
        &&& forall|i: int|
            0 <= i < hints.len() ==> self@.contains_key((#[trigger] hints[i]).0@)
                && last_hint(hints, hints[i].0@).allows(self@[hints[i].0@])
    }

    /// A board bounded by `hexagon` where each listed position gets a colour
    /// drawn at random among those its hint allows; a later hint for the
    /// same position wins.
    pub fn random_from_hints_in(rng: &mut StdRng, hexagon: Hexagon, hints: Vec<(Position, Hint)>) -> (r: Board)
        requires
            hexagon.wf(),
            hexagon.origin@ == (0int, 0int),
            key_count(hexagon.radius as int) <= usize::MAX,
            Board::hints_fit(hexagon.radius as int, hints@),
        ensures
            r.hexagon == hexagon,
            r.from_hints(hints@),
    {
        let mut board = Board { hexagon, cells: Vec::new() };
        let mut i: usize = 0;
        while i < hints.len()
            invariant
                board.wf(),
                board.hexagon == hexagon,
                0 <= i <= hints@.len(),
                Board::hints_fit(hexagon.radius as int, hints@),
                forall|v: (int, int)| #[trigger] board@.contains_key(v) ==> exists|j: int| 0 <= j < i && hints@[j].0@ == v,
                forall|j: int|
                    0 <= j < i ==> board@.contains_key((#[trigger] hints@[j]).0@)
                        && last_hint(hints@.subrange(0, i as int), hints@[j].0@).allows(board@[hints@[j].0@]),
            decreases hints@.len() - i,
        {
            let (position, hint) = hints[i];
            let cell = match hint.random(rng) {
                Some(c) => c,
                None => Cell::Red,
            };
            let ghost before = board@;
            let ghost pre = hints@.subrange(0, i as int);
            let ghost post = hints@.subrange(0, i + 1);
            board.insert(position, cell);
            proof {
                assert(post.drop_last() == pre);
                assert(post.last() == hints@[i as int]);
                assert forall|v: (int, int)| #[trigger] board@.contains_key(v) implies exists|j: int| 0 <= j < i + 1 && hints@[j].0@ == v by {
                    if v != position@ {
                        assert(before.contains_key(v));
                        let j = choose|j: int| 0 <= j < i && hints@[j].0@ == v;
                    } else {
                        assert(hints@[i as int].0@ == v);
                    }
                }
                assert forall|j: int| 0 <= j < i + 1 implies board@.contains_key((#[trigger] hints@[j]).0@)
                    && last_hint(post, hints@[j].0@).allows(board@[hints@[j].0@]) by {
                    if hints@[j].0@ != position@ {
                        assert(before.contains_key(hints@[j].0@));
                    }
                }
            }
            i = i + 1;
        }
        assert(hints@.subrange(0, hints@.len() as int) == hints@);
        board
    }

    /// The positions of the chord at `distance` in `direction`, each with its
    /// colour if assigned; `None` if the chord misses the board.
    pub fn segment(&self, distance: Distance, direction: Direction) -> (r: Option<
        Vec<(Position, Option<Cell>)>,
    >)
        requires
            self.wf(),
        ensures
            r is Some <==> abs(distance as int) <= self.hexagon.radius,
            r matches Some(v) ==> {
                &&& v@.len() == self.hexagon.chord(distance as int, direction).len()
                &&& forall|i: int|
                    0 <= i < v@.len() ==> reports(
                        self@,
                        #[trigger] v@[i],
                        self.hexagon.chord(distance as int, direction)[i],
                    )
            },
    {
        match self.hexagon.segment(distance, direction) {
            None => None,
            Some(segment) => {
                let positions = segment.positions();
                let mut v: Vec<(Position, Option<Cell>)> = Vec::new();
                let mut i: usize = 0;
                while i < positions.len()
                    invariant
                        self.wf(),
                        0 <= i <= positions@.len(),
                        positions@.len() == self.hexagon.chord(distance as int, direction).len(),
                        forall|j: int|
                            0 <= j < positions@.len() ==> (#[trigger] positions@[j])@
                                == self.hexagon.chord(distance as int, direction)[j]
                                && positions@[j].valid(),
                        v@.len() == i,
                        forall|j: int|
                            0 <= j < i ==> reports(
                                self@,
                                #[trigger] v@[j],
                                self.hexagon.chord(distance as int, direction)[j],
                            ),
                    decreases positions@.len() - i,
                {
                    let p = positions[i];
                    v.push((p, self.get(p)));
                    i = i + 1;
                }
                Some(v)
            },
        }
    }

    /// The clue of the chord at `distance` in `direction` from the colours
    /// assigned so far.
    pub fn segment_clue(&self, distance: Distance, direction: Direction) -> (r: Clue)
        requires
            self.wf(),
            abs(distance as int) <= self.hexagon.radius,
        ensures
            r == self.chord_clue(direction, distance as int),
            r.total() <= self.hexagon.chord(distance as int, direction).len(),
    {
        let ghost pts = self.hexagon.chord(distance as int, direction);
        let entries = match self.segment(distance, direction) {
            Some(v) => v,
            None => Vec::new(),
        };
        let mut red: u32 = 0;
        let mut green: u32 = 0;
        let mut blue: u32 = 0;
        let mut i: usize = 0;
        while i < entries.len()
            invariant
                self.wf(),
                entries@.len() == pts.len(),
                pts.len() <= i32::MAX,
                forall|j: int| 0 <= j < entries@.len() ==> reports(self@, #[trigger] entries@[j], pts[j]),
                0 <= i <= entries@.len(),
                red == count_color(self@, pts.subrange(0, i as int), Cell::Red),
                green == count_color(self@, pts.subrange(0, i as int), Cell::Green),
                blue == count_color(self@, pts.subrange(0, i as int), Cell::Blue),
                red + green + blue <= i,
            decreases entries@.len() - i,
        {
            let ghost before = pts.subrange(0, i as int);
            assert(pts.subrange(0, i + 1).drop_last() == before);
            assert(reports(self@, entries@[i as int], pts[i as int]));
            match entries[i].1 {
                Some(Cell::Red) => red = red + 1,
                Some(Cell::Green) => green = green + 1,
                Some(Cell::Blue) => blue = blue + 1,
                None => {},
            }
            i = i + 1;
        }
        assert(pts.subrange(0, pts.len() as int) == pts);
        Clue(red, green, blue)
    }

    /// Whether `v` lists the chord at `distance` in `direction` as `segment`
    /// reports it.
    pub open spec fn reports_chord(self, distance: int, direction: Direction, v: Seq<(Position, Option<Cell>)>) -> bool {
        &&& v.len() == self.hexagon.chord(distance, direction).len()
        &&& forall|i: int|
            0 <= i < v.len() ==> reports(self@, #[trigger] v[i], self.hexagon.chord(distance, direction)[i])
    }

    /// Appends every chord in one direction, by increasing distance.
    fn push_segments(
        &self,
        direction: Direction,
        out: &mut Vec<((Direction, Distance), Vec<(Position, Option<Cell>)>)>,
    )
        requires
            self.wf(),
        ensures
            final(out)@.len() == old(out)@.len() + 2 * self.hexagon.radius + 1,
            forall|i: int| 0 <= i < old(out)@.len() ==> final(out)@[i] == old(out)@[i],
            forall|k: int|
                0 <= k < 2 * self.hexagon.radius + 1 ==> {
                    let e = #[trigger] final(out)@[old(out)@.len() + k];
                    &&& e.0 == (direction, (k - self.hexagon.radius) as i32)
                    &&& self.reports_chord(k - self.hexagon.radius, direction, e.1@)
                },
    {
        let ghost start = out@.len();
        let radius = self.hexagon.radius;
        let mut distance: Distance = -radius;
        while distance <= radius
            invariant
                self.wf(),
                radius == self.hexagon.radius,
                -radius <= distance <= radius + 1,
                out@.len() == start + distance + radius,
                forall|i: int| 0 <= i < old(out)@.len() ==> out@[i] == old(out)@[i],
                start == old(out)@.len(),
                forall|k: int|
                    0 <= k < distance + radius ==> {
                        let e = #[trigger] out@[start + k];
                        &&& e.0 == (direction, (k - radius) as i32)
                        &&& self.reports_chord(k - radius, direction, e.1@)
                    },
            decreases radius + 1 - distance,
        {
            let entries = match self.segment(distance, direction) {
                Some(v) => v,
                None => Vec::new(),
            };
            out.push(((direction, distance), entries));
            distance = distance + 1;
        }
    }

    /// Every chord parallel to `direction`, by increasing distance from
    /// `-radius` to `radius`, each position with its colour if assigned.
    pub fn segments(&self, direction: Direction) -> (r: Vec<(Distance, Vec<(Position, Option<Cell>)>)>)
        requires
            self.wf(),
        ensures
            r@.len() == 2 * self.hexagon.radius + 1,
            forall|k: int|
                0 <= k < r@.len() ==> {
                    let e = #[trigger] r@[k];
                    &&& e.0 == k - self.hexagon.radius
                    &&& self.reports_chord(k - self.hexagon.radius, direction, e.1@)
                },
    {
        let mut keyed: Vec<((Direction, Distance), Vec<(Position, Option<Cell>)>)> = Vec::new();
        self.push_segments(direction, &mut keyed);
        let mut r: Vec<(Distance, Vec<(Position, Option<Cell>)>)> = Vec::new();
        while keyed.len() > 0
            invariant
                self.wf(),
                keyed@.len() + r@.len() == 2 * self.hexagon.radius + 1,
                forall|k: int|
                    0 <= k < keyed@.len() ==> {
                        let e = #[trigger] keyed@[k];
                        &&& e.0 == (direction, (r@.len() + k - self.hexagon.radius) as i32)
                        &&& self.reports_chord(r@.len() + k - self.hexagon.radius, direction, e.1@)
                    },
                forall|k: int|
                    0 <= k < r@.len() ==> {
                        let e = #[trigger] r@[k];
                        &&& e.0 == k - self.hexagon.radius
                        &&& self.reports_chord(k - self.hexagon.radius, direction, e.1@)
                    },
            decreases keyed@.len(),
        {
            let ghost before = keyed@;
            let ((_, distance), entries) = keyed.remove(0);
            r.push((distance, entries));
            assert forall|k: int| 0 <= k < keyed@.len() implies {
                let e = #[trigger] keyed@[k];
                &&& e.0 == (direction, (r@.len() + k - self.hexagon.radius) as i32)
                &&& self.reports_chord(r@.len() + k - self.hexagon.radius, direction, e.1@)
            } by {
                assert(keyed@[k] == before[k + 1]);
            }
        }
        r
    }

    /// Every chord of the board, keyed by canonical direction and distance
    /// in the order of `clues`.
    pub fn normalized_segments(&self) -> (r: Vec<((Direction, Distance), Vec<(Position, Option<Cell>)>)>)
        requires
            self.wf(),
        ensures
            r@.len() == key_count(self.hexagon.radius as int),
            forall|i: int|
                0 <= i < r@.len() ==> {
                    let e = #[trigger] r@[i];
                    let key = key_at(self.hexagon.radius as int, i);
                    &&& e.0 == (key.0, key.1 as i32)
                    &&& self.reports_chord(key.1, key.0, e.1@)
                },
    {
        let mut r: Vec<((Direction, Distance), Vec<(Position, Option<Cell>)>)> = Vec::new();
        let ghost w = 2 * self.hexagon.radius + 1;
        self.push_segments(Direction::XY, &mut r);
        let ghost r1 = r@;
        self.push_segments(Direction::YZ, &mut r);
        let ghost r2 = r@;
        self.push_segments(Direction::ZX, &mut r);
        proof {
            let rad = self.hexagon.radius as int;
            assert forall|i: int| 0 <= i < r@.len() implies {
                let e = #[trigger] r@[i];
                let key = key_at(rad, i);
                &&& e.0 == (key.0, key.1 as i32)
                &&& self.reports_chord(key.1, key.0, e.1@)
            } by {
                if i < w {
                    assert(r1[0 + i] == r@[i]);
                } else if i < 2 * w {
                    assert(r2[w + (i - w)] == r@[i]);
                } else {
                    assert(r@[2 * w + (i - 2 * w)] == r@[i]);
                }
            }
        }
        r
    }

    /// Appends the clues of every chord in one direction, by increasing
    /// distance.
    fn push_clues(&self, direction: Direction, out: &mut Vec<((Direction, Distance), Clue)>)
        requires
            self.wf(),
        ensures
            final(out)@.len() == old(out)@.len() + 2 * self.hexagon.radius + 1,
            forall|i: int| 0 <= i < old(out)@.len() ==> final(out)@[i] == old(out)@[i],
            forall|k: int|
                0 <= k < 2 * self.hexagon.radius + 1 ==> #[trigger] final(out)@[old(out)@.len() + k]
                    == ((direction, (k - self.hexagon.radius) as i32), self.chord_clue(
                    direction,
                    k - self.hexagon.radius,
                )),
    {
        let ghost start = out@.len();
        let radius = self.hexagon.radius;
        let mut distance: Distance = -radius;
        while distance <= radius
            invariant
                self.wf(),
                radius == self.hexagon.radius,
                -radius <= distance <= radius + 1,
                out@.len() == start + distance + radius,
                forall|i: int| 0 <= i < old(out)@.len() ==> out@[i] == old(out)@[i],
                start == old(out)@.len(),
                forall|k: int|
                    0 <= k < distance + radius ==> #[trigger] out@[start + k] == ((
                        direction,
                        (k - radius) as i32,
                    ), self.chord_clue(direction, k - radius)),
            decreases radius + 1 - distance,
        {
            let clue = self.segment_clue(distance, direction);
            out.push(((direction, distance), clue));
            distance = distance + 1;
        }
    }

    /// The clue of every chord, keyed by canonical direction and distance:
    /// XY, then YZ, then ZX, each from distance `-radius` to `radius`. Only
    /// assigned positions count.
    pub fn clues(&self) -> (r: Vec<((Direction, Distance), Clue)>)
        requires
            self.wf(),
        ensures
            r@.len() == key_count(self.hexagon.radius as int),
            forall|i: int|
                0 <= i < r@.len() ==> #[trigger] r@[i] == ((
                    key_at(self.hexagon.radius as int, i).0,
                    key_at(self.hexagon.radius as int, i).1 as i32,
                ), self.chord_clue(
                    key_at(self.hexagon.radius as int, i).0,
                    key_at(self.hexagon.radius as int, i).1,
                )),
    {
        let mut r: Vec<((Direction, Distance), Clue)> = Vec::new();
        let ghost w = 2 * self.hexagon.radius + 1;
        self.push_clues(Direction::XY, &mut r);
        let ghost r1 = r@;
        self.push_clues(Direction::YZ, &mut r);
        let ghost r2 = r@;
        self.push_clues(Direction::ZX, &mut r);
        proof {
            let rad = self.hexagon.radius as int;
            assert forall|i: int| 0 <= i < r@.len() implies #[trigger] r@[i] == ((
                key_at(rad, i).0,
                key_at(rad, i).1 as i32,
            ), self.chord_clue(key_at(rad, i).0, key_at(rad, i).1)) by {
                if i < w {
                    assert(r1[0 + i] == r@[i]);
                } else if i < 2 * w {
                    assert(r2[w + (i - w)] == r@[i]);
                } else {
                    assert(r@[2 * w + (i - 2 * w)] == r@[i]);
                }
            }
        }
        r
    }
}

} // verus!
