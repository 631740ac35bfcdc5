use vstd::prelude::*;

use crate::board::{clue_along, count_assigned, count_color, key_index};
use crate::hexagon::Hexagon;
use crate::cell::{Cell, Clue, Hint};
use crate::hexagon::{chord_key, chord_offset};
use crate::position::{abs, is_normalized, Direction};
use crate::puzzle::Puzzle;

verus! {

/// Counting the assigned positions never exceeds their number.
pub proof fn lemma_count_bound(m: Map<(int, int), Cell>, pts: Seq<(int, int)>)
    ensures
        count_assigned(m, pts) <= pts.len(),
    decreases pts.len(),
{
    if pts.len() > 0 {
        lemma_count_bound(m, pts.drop_last());
    }
}

/// A map with more keys assigns at least as many of the positions.
pub proof fn lemma_count_monotone(m1: Map<(int, int), Cell>, m2: Map<(int, int), Cell>, pts: Seq<(int, int)>)
    requires
        forall|v: (int, int)| #[trigger] m1.contains_key(v) ==> m2.contains_key(v),
    ensures
        count_assigned(m1, pts) <= count_assigned(m2, pts),
    decreases pts.len(),
{
    if pts.len() > 0 {
        lemma_count_monotone(m1, m2, pts.drop_last());
    }
}

/// A map with more keys, one of them a position of `pts` that the smaller
/// map lacks, assigns strictly more of the positions.
pub proof fn lemma_count_grows(
    m1: Map<(int, int), Cell>,
    m2: Map<(int, int), Cell>,
    pts: Seq<(int, int)>,
    j: int,
)
    requires
        forall|v: (int, int)| #[trigger] m1.contains_key(v) ==> m2.contains_key(v),
        0 <= j < pts.len(),
        !m1.contains_key(pts[j]),
        m2.contains_key(pts[j]),
    ensures
        count_assigned(m1, pts) < count_assigned(m2, pts),
    decreases pts.len(),
{
    if j == pts.len() - 1 {
        lemma_count_monotone(m1, m2, pts.drop_last());
    } else {
        assert(pts.drop_last()[j] == pts[j]);
        lemma_count_grows(m1, m2, pts.drop_last(), j);
    }
}

/// How many positions of `pts` are open in `m` and hold colour `c` in `t`.
pub open spec fn open_color(
    m: Map<(int, int), Cell>,
    t: Map<(int, int), Cell>,
    pts: Seq<(int, int)>,
    c: Cell,
) -> nat
    decreases pts.len(),
{
    if pts.len() == 0 {
        0
    } else {
        open_color(m, t, pts.drop_last(), c) + if !m.contains_key(pts.last()) && t.contains_key(
            pts.last(),
        ) && t[pts.last()] == c {
            1nat
        } else {
            0nat
        }
    }
}

/// Where `m` is part of `t`, the colours `t` has along `pts` are those `m`
/// has plus those on positions `m` leaves open.
pub proof fn lemma_open_color(
    m: Map<(int, int), Cell>,
    t: Map<(int, int), Cell>,
    pts: Seq<(int, int)>,
    c: Cell,
)
    requires
        m.submap_of(t),
    ensures
        count_color(t, pts, c) == count_color(m, pts, c) + open_color(m, t, pts, c),
    decreases pts.len(),
{
    if pts.len() > 0 {
        lemma_open_color(m, t, pts.drop_last(), c);
        let v = pts.last();
        if m.contains_key(v) {
            assert(m.dom().contains(v));
            assert(t.dom().contains(v) && m[v] == t[v]);
        }
    }
}

/// An open position holding `c` makes the open count of `c` positive.
pub proof fn lemma_open_color_positive(
    m: Map<(int, int), Cell>,
    t: Map<(int, int), Cell>,
    pts: Seq<(int, int)>,
    c: Cell,
    i: int,
)
    requires
        0 <= i < pts.len(),
        !m.contains_key(pts[i]),
        t.contains_key(pts[i]),
        t[pts[i]] == c,
    ensures
        open_color(m, t, pts, c) > 0,
    decreases pts.len(),
{
    if i < pts.len() - 1 {
        assert(pts.drop_last()[i] == pts[i]);
        lemma_open_color_positive(m, t, pts.drop_last(), c, i);
    }
}

/// What the deduction rules read of a puzzle: its boundary and its clue
/// table.
pub struct PuzzleModel {
    pub hexagon: Hexagon,
    pub clues: Seq<Clue>,
}

impl Puzzle {
    /// What the deduction rules read of the puzzle.
    pub open spec fn model(self) -> PuzzleModel {
        PuzzleModel { hexagon: self.board.hexagon, clues: self.clues@ }
    }
}

/// The two deduction rules, as functions of a puzzle and the colours `m`
/// placed so far.
impl PuzzleModel {
    /// The clue of the chord `(d, k)`.
    pub open spec fn clue_of(self, d: Direction, k: int) -> Clue {
        self.clues[key_index(self.hexagon.radius as int, d, k)]
    }

    /// The colours still to be placed on chord `(d, k)`: the puzzle's clue
    /// minus the colours `m` already has there.
    pub open spec fn remaining(self, m: Map<(int, int), Cell>, d: Direction, k: int) -> Clue {
        self.clue_of(d, k).spec_sub(clue_along(m, self.hexagon.chord(k, d)))
    }

    /// The colours still possible at `v`: those that every chord through `v`
    /// still needs.
    pub open spec fn hint_at(self, m: Map<(int, int), Cell>, v: (int, int)) -> Hint {
        let o = self.hexagon.origin;
        self.remaining(m, Direction::XY, chord_key(v, o, Direction::XY)).spec_hint().spec_and(
            self.remaining(m, Direction::YZ, chord_key(v, o, Direction::YZ)).spec_hint(),
        ).spec_and(self.remaining(m, Direction::ZX, chord_key(v, o, Direction::ZX)).spec_hint())
    }

    /// The colour that the hint rule places at `v`: the only possible one,
    /// if `v` is still open.
    pub open spec fn hint_fix(self, m: Map<(int, int), Cell>, v: (int, int)) -> Option<Cell> {
        if m.contains_key(v) {
            None
        } else {
            self.hint_at(m, v).spec_solution()
        }
    }

    /// How many open positions of `pts` still allow colour `c`.
    pub open spec fn hinted_count(self, m: Map<(int, int), Cell>, pts: Seq<(int, int)>, c: Cell) -> nat
        decreases pts.len(),
    {
        if pts.len() == 0 {
            0
        } else {
            self.hinted_count(m, pts.drop_last(), c) + if !m.contains_key(pts.last())
                && self.hint_at(m, pts.last()).allows(c) {
                1nat
            } else {
                0nat
            }
        }
    }

    /// For each colour, how many open positions of chord `(d, k)` allow it.
    pub open spec fn hinted(self, m: Map<(int, int), Cell>, d: Direction, k: int) -> Clue {
        let pts = self.hexagon.chord(k, d);
        Clue(
            self.hinted_count(m, pts, Cell::Red) as u32,
            self.hinted_count(m, pts, Cell::Green) as u32,
            self.hinted_count(m, pts, Cell::Blue) as u32,
        )
    }

    /// Whether the chord through `v` in direction `d` forces colour `c` on
    /// `v`: as many open positions allow `c` as `c` still needs, and `v` is
    /// one of them.
    #[verifier::opaque]
    pub open spec fn claims(self, m: Map<(int, int), Cell>, d: Direction, c: Cell, v: (int, int)) -> bool {
        let k = chord_key(v, self.hexagon.origin, d);
        self.hint_at(m, v).allows(c) && self.hinted(m, d, k).of(c) == self.remaining(m, d, k).of(c)
    }

    /// The colour that the clue rule places at `v`, if `v` is open: of the
    /// chords XY, YZ, ZX and the colours red, green, blue, taken in that
    /// order, the last claim wins.
    pub open spec fn clue_fix(self, m: Map<(int, int), Cell>, v: (int, int)) -> Option<Cell> {
        if m.contains_key(v) {
            None
        } else if self.claims(m, Direction::ZX, Cell::Blue, v) {
            Some(Cell::Blue)
        } else if self.claims(m, Direction::ZX, Cell::Green, v) {
            Some(Cell::Green)
        } else if self.claims(m, Direction::ZX, Cell::Red, v) {
            Some(Cell::Red)
        } else if self.claims(m, Direction::YZ, Cell::Blue, v) {
            Some(Cell::Blue)
        } else if self.claims(m, Direction::YZ, Cell::Green, v) {
            Some(Cell::Green)
        } else if self.claims(m, Direction::YZ, Cell::Red, v) {
            Some(Cell::Red)
        } else if self.claims(m, Direction::XY, Cell::Blue, v) {
            Some(Cell::Blue)
        } else if self.claims(m, Direction::XY, Cell::Green, v) {
            Some(Cell::Green)
        } else if self.claims(m, Direction::XY, Cell::Red, v) {
            Some(Cell::Red)
        } else {
            None
        }
    }

    /// The colour that the clue rule (`by_clues`) or the hint rule places at
    /// `v`.
    pub open spec fn fix(self, m: Map<(int, int), Cell>, by_clues: bool, v: (int, int)) -> Option<Cell> {
        if by_clues {
            self.clue_fix(m, v)
        } else {
            self.hint_fix(m, v)
        }
    }

    /// The colours that one rule places among the first `n` positions of the
    /// board in spiral order.
    pub open spec fn fixes(self, m: Map<(int, int), Cell>, by_clues: bool, n: int) -> Map<(int, int), Cell> {
        let pts = self.hexagon.points();
        Map::new(
            |v: (int, int)| (exists|j: int| 0 <= j < n && pts[j] == v) && self.fix(m, by_clues, v) is Some,
            |v: (int, int)| self.fix(m, by_clues, v)->Some_0,
        )
    }

    /// Whether one rule places any colour.
    pub open spec fn progress(self, m: Map<(int, int), Cell>, by_clues: bool) -> bool {
        let pts = self.hexagon.points();
        exists|j: int| 0 <= j < pts.len() && #[trigger] self.fix(m, by_clues, pts[j]) is Some
    }

    /// The colours after one pass of one rule; every placement of the pass is
    /// found before any is applied.
    pub open spec fn after(self, m: Map<(int, int), Cell>, by_clues: bool) -> Map<(int, int), Cell> {
        m.union_prefer_right(self.fixes(m, by_clues, self.hexagon.points().len() as int))
    }

    /// Neither rule places anything more.
    pub open spec fn is_stalled(self, m: Map<(int, int), Cell>) -> bool {
        !self.progress(m, false) && !self.progress(m, true)
    }

    /// Whether `m` colours every position of the board.
    pub open spec fn covers(self, m: Map<(int, int), Cell>) -> bool {
        forall|i: int|
            0 <= i < self.hexagon.points().len() ==> m.contains_key(
                #[trigger] self.hexagon.points()[i],
            )
    }

    /// How many positions of the board `m` leaves open.
    pub open spec fn open_count(self, m: Map<(int, int), Cell>) -> int {
        self.hexagon.points().len() - count_assigned(m, self.hexagon.points())
    }

    /// Taking one more position of the spiral adds its placement, if any.
    pub proof fn lemma_fixes_step(self, m: Map<(int, int), Cell>, by_clues: bool, i: int)
        requires
            0 <= i < self.hexagon.points().len(),
        ensures
            ({
                let v = self.hexagon.points()[i];
                self.fixes(m, by_clues, i + 1) == if self.fix(m, by_clues, v) is Some {
                    self.fixes(m, by_clues, i).insert(v, self.fix(m, by_clues, v)->Some_0)
                } else {
                    self.fixes(m, by_clues, i)
                }
            }),
    {
        let v = self.hexagon.points()[i];
        if self.fix(m, by_clues, v) is Some {
            assert(self.fixes(m, by_clues, i + 1) =~= self.fixes(m, by_clues, i).insert(
                v,
                self.fix(m, by_clues, v)->Some_0,
            ));
        } else {
            assert(self.fixes(m, by_clues, i + 1) =~= self.fixes(m, by_clues, i));
        }
    }

    /// A pass of either rule keeps every placed colour and, when it makes
    /// progress, leaves fewer positions open.
    pub proof fn lemma_pass_grows(self, m: Map<(int, int), Cell>, by_clues: bool)
        ensures
            m.submap_of(self.after(m, by_clues)),
            0 <= self.open_count(self.after(m, by_clues)) <= self.open_count(m),
            self.progress(m, by_clues) ==> self.open_count(self.after(m, by_clues)) < self.open_count(m),
    {
        let pts = self.hexagon.points();
        let a = self.after(m, by_clues);
        let f = self.fixes(m, by_clues, pts.len() as int);
        assert forall|v: (int, int)| #[trigger] m.contains_key(v) implies a.contains_key(v)
            && a[v] == m[v] by {
            assert(!f.contains_key(v));
        }
        lemma_count_monotone(m, a, pts);
        lemma_count_bound(a, pts);
        if self.progress(m, by_clues) {
            let j = choose|j: int| 0 <= j < pts.len() && #[trigger] self.fix(m, by_clues, pts[j]) is Some;
            assert(f.contains_key(pts[j]));
            lemma_count_grows(m, a, pts, j);
        }
    }

    /// Once neither rule makes progress, a pass of either rule changes
    /// nothing: solving is idempotent.
    pub proof fn lemma_stalled_is_fixpoint(self, m: Map<(int, int), Cell>)
        requires
            self.is_stalled(m),
        ensures
            self.after(m, false) == m,
            self.after(m, true) == m,
    {
        let pts = self.hexagon.points();
        assert(self.fixes(m, false, pts.len() as int) =~= Map::empty());
        assert(self.fixes(m, true, pts.len() as int) =~= Map::empty());
        assert(self.after(m, false) =~= m);
        assert(self.after(m, true) =~= m);
    }

    /// Runs the two rules from `m`, the `first` rule whenever it makes
    /// progress, until the board is covered or the `first` rule stalls.
    /// The result tells whether the other rule was then needed: `Some(false)`
    /// if the board was covered by the `first` rule alone, `Some(true)` if
    /// the other rule then made progress, `None` if it did not either.
    pub open spec fn first_switch(self, m: Map<(int, int), Cell>, first: bool) -> Option<bool>
        decreases self.open_count(m),
    {
        if self.covers(m) {
            Some(false)
        } else if self.progress(m, first) {
            proof {
                self.lemma_pass_grows(m, first);
            }
            self.first_switch(self.after(m, first), first)
        } else if self.progress(m, !first) {
            Some(true)
        } else {
            None
        }
    }

    /// The colours after alternating the rules from `m`, the hint rule
    /// whenever it makes progress, until neither does.
    pub open spec fn settle(self, m: Map<(int, int), Cell>) -> Map<(int, int), Cell>
        decreases self.open_count(m),
    {
        if self.progress(m, false) {
            proof {
                self.lemma_pass_grows(m, false);
            }
            self.settle(self.after(m, false))
        } else if self.progress(m, true) {
            proof {
                self.lemma_pass_grows(m, true);
            }
            self.settle(self.after(m, true))
        } else {
            m
        }
    }

    /// The complexity of solving from `m` with the hint rule first: one for
    /// each pass of the hint rule and three for each pass of the clue rule,
    /// taken when the hint rule stalls; `None` if neither rule can finish
    /// the board.
    #[verifier::opaque]
    pub open spec fn complexity(self, m: Map<(int, int), Cell>) -> Option<int>
        decreases self.open_count(m),
    {
        if self.covers(m) {
            Some(0)
        } else if self.progress(m, false) {
            proof {
                self.lemma_pass_grows(m, false);
            }
            match self.complexity(self.after(m, false)) {
                Some(n) => Some(n + 1),
                None => None,
            }
        } else if self.progress(m, true) {
            proof {
                self.lemma_pass_grows(m, true);
            }
            match self.complexity(self.after(m, true)) {
                Some(n) => Some(n + 3),
                None => None,
            }
        } else {
            None
        }
    }

    /// One step of `complexity`.
    pub proof fn lemma_complexity_step(self, m: Map<(int, int), Cell>)
        ensures
            self.covers(m) ==> self.complexity(m) == Some(0int),
            !self.covers(m) && self.progress(m, false) ==> self.complexity(m) == (match self.complexity(
                self.after(m, false),
            ) {
                Some(n) => Some(n + 1),
                None => None,
            }),
            !self.covers(m) && !self.progress(m, false) && self.progress(m, true) ==> self.complexity(m)
                == (match self.complexity(self.after(m, true)) {
                Some(n) => Some(n + 3),
                None => None,
            }),
            !self.covers(m) && !self.progress(m, false) && !self.progress(m, true) ==> self.complexity(m)
                is None,
    {
        reveal_with_fuel(PuzzleModel::complexity, 1);
    }

    /// Runs the rules from `m`, the hint rule whenever it makes progress and
    /// the clue rule otherwise, until the board is covered or neither makes
    /// progress. The result is whether the board ended covered and whether
    /// the clue rule was used.
    pub open spec fn hint_first_run(self, m: Map<(int, int), Cell>) -> (bool, bool)
        decreases self.open_count(m),
    {
        if self.covers(m) {
            (true, false)
        } else if self.progress(m, false) {
            proof {
                self.lemma_pass_grows(m, false);
            }
            self.hint_first_run(self.after(m, false))
        } else if self.progress(m, true) {
            proof {
                self.lemma_pass_grows(m, true);
            }
            (self.hint_first_run(self.after(m, true)).0, true)
        } else {
            (false, false)
        }
    }

    /// Whether `t` colours every position of the board and agrees with every
    /// clue.
    pub open spec fn is_solution(self, t: Map<(int, int), Cell>) -> bool {
        &&& forall|v: (int, int)| #[trigger] self.hexagon.contains_point(v) ==> t.contains_key(v)
        &&& forall|d: Direction, k: int|
            is_normalized(d) && abs(k) <= self.hexagon.radius ==> #[trigger] self.clue_of(d, k)
                == clue_along(t, self.hexagon.chord(k, d))
    }

    /// Every position of the board lies on its chord in each canonical
    /// direction.
    proof fn lemma_on_chord(self, v: (int, int), d: Direction) -> (i: int)
        requires
            self.hexagon.radius > 0,
            self.hexagon.contains_point(v),
            is_normalized(d),
        ensures
            abs(chord_key(v, self.hexagon.origin, d)) <= self.hexagon.radius,
            0 <= i < self.hexagon.chord(chord_key(v, self.hexagon.origin, d), d).len(),
            self.hexagon.chord(chord_key(v, self.hexagon.origin, d), d)[i] == v,
    {
        let k = chord_key(v, self.hexagon.origin, d);
        self.hexagon.lemma_key_in_range(v, d);
        self.hexagon.lemma_chord_key(k, d);
        let s = self.hexagon.chord_start(k, d);
        chord_offset(v, s, d)
    }

    /// With `m` part of a solution `t`, what a chord still needs of colour
    /// `c` is the number of its open positions that hold `c` in `t`.
    proof fn lemma_remaining_open(self, t: Map<(int, int), Cell>, m: Map<(int, int), Cell>, d: Direction, k: int, c: Cell)
        requires
            self.hexagon.radius > 0,
            2 * self.hexagon.radius < i32::MAX,
            self.is_solution(t),
            m.submap_of(t),
            is_normalized(d),
            abs(k) <= self.hexagon.radius,
        ensures
            self.remaining(m, d, k).of(c) == open_color(m, t, self.hexagon.chord(k, d), c),
    {
        let pts = self.hexagon.chord(k, d);
        lemma_open_color(m, t, pts, Cell::Red);
        lemma_open_color(m, t, pts, Cell::Green);
        lemma_open_color(m, t, pts, Cell::Blue);
        crate::board::lemma_clue_counts_assigned(t, pts);
        crate::board::lemma_clue_counts_assigned(m, pts);
        assert(self.clue_of(d, k) == clue_along(t, pts));
    }

    /// The hint at an open position of a solution `t` allows its colour in
    /// `t`.
    proof fn lemma_hint_allows(self, t: Map<(int, int), Cell>, m: Map<(int, int), Cell>, v: (int, int))
        requires
            self.hexagon.radius > 0,
            2 * self.hexagon.radius < i32::MAX,
            self.is_solution(t),
            m.submap_of(t),
            self.hexagon.contains_point(v),
            !m.contains_key(v),
        ensures
            self.hint_at(m, v).allows(t[v]),
    {
        let o = self.hexagon.origin;
        let c = t[v];
        assert(t.contains_key(v));
        let ds = seq![Direction::XY, Direction::YZ, Direction::ZX];
        assert forall|j: int| 0 <= j < 3 implies #[trigger] self.remaining(m, ds[j], chord_key(v, o, ds[j])).of(c) > 0 by {
            let d = ds[j];
            let i = self.lemma_on_chord(v, d);
            let k = chord_key(v, o, d);
            self.lemma_remaining_open(t, m, d, k, c);
            lemma_open_color_positive(m, t, self.hexagon.chord(k, d), c, i);
        }
        assert(self.remaining(m, ds[0], chord_key(v, o, ds[0])).of(c) > 0);
        assert(self.remaining(m, ds[1], chord_key(v, o, ds[1])).of(c) > 0);
        assert(self.remaining(m, ds[2], chord_key(v, o, ds[2])).of(c) > 0);
    }

    /// Along positions of the board, every open position that holds `c` in a
    /// solution allows `c`; so when as many open positions allow `c` as hold
    /// it, every open position that allows `c` holds it.
    proof fn lemma_count_squeeze(self, t: Map<(int, int), Cell>, m: Map<(int, int), Cell>, pts: Seq<(int, int)>, c: Cell, i: int)
        requires
            self.hexagon.radius > 0,
            2 * self.hexagon.radius < i32::MAX,
            self.is_solution(t),
            m.submap_of(t),
            forall|j: int| 0 <= j < pts.len() ==> self.hexagon.contains_point(#[trigger] pts[j]),
            self.hinted_count(m, pts, c) == open_color(m, t, pts, c),
            0 <= i < pts.len(),
            !m.contains_key(pts[i]),
            self.hint_at(m, pts[i]).allows(c),
        ensures
            t[pts[i]] == c,
        decreases pts.len(),
    {
        self.lemma_counts_ordered(t, m, pts.drop_last(), c);
        let v = pts.last();
        assert(self.hexagon.contains_point(pts[pts.len() - 1]));
        assert(t.contains_key(v));
        if !m.contains_key(v) {
            self.lemma_hint_allows(t, m, v);
        }
        if i < pts.len() - 1 {
            assert(pts.drop_last()[i] == pts[i]);
            self.lemma_count_squeeze(t, m, pts.drop_last(), c, i);
        }
    }

    /// Every open position that holds `c` in a solution allows `c`, so the
    /// open count of `c` never exceeds the number of open positions allowing
    /// it.
    proof fn lemma_counts_ordered(self, t: Map<(int, int), Cell>, m: Map<(int, int), Cell>, pts: Seq<(int, int)>, c: Cell)
        requires
            self.hexagon.radius > 0,
            2 * self.hexagon.radius < i32::MAX,
            self.is_solution(t),
            m.submap_of(t),
            forall|j: int| 0 <= j < pts.len() ==> self.hexagon.contains_point(#[trigger] pts[j]),
        ensures
            open_color(m, t, pts, c) <= self.hinted_count(m, pts, c),
        decreases pts.len(),
    {
        if pts.len() > 0 {
            let v = pts.last();
            assert(self.hexagon.contains_point(pts[pts.len() - 1]));
            if !m.contains_key(v) {
                self.lemma_hint_allows(t, m, v);
            }
            self.lemma_counts_ordered(t, m, pts.drop_last(), c);
        }
    }

    /// Deduction never guesses: where the colours `m` agree with a solution
    /// `t` of the puzzle, a pass of either rule only places colours that
    /// agree with `t`.
    pub proof fn lemma_pass_sound(self, t: Map<(int, int), Cell>, m: Map<(int, int), Cell>, by_clues: bool)
        requires
            self.hexagon.wf(),
            self.is_solution(t),
            m.submap_of(t),
        ensures
            self.after(m, by_clues).submap_of(t),
    {
        let pts = self.hexagon.points();
        let f = self.fixes(m, by_clues, pts.len() as int);
        self.hexagon.lemma_hexagon_points();
        assert forall|v: (int, int)| #[trigger] f.dom().contains(v) implies t.dom().contains(v) && f[v] == t[v] by {
            let j = choose|j: int| 0 <= j < pts.len() && pts[j] == v;
            assert(self.hexagon.contains_point(pts[j]));
            assert(t.contains_key(v));
            if by_clues {
                self.lemma_clue_fix_sound(t, m, v);
            } else {
                self.lemma_hint_allows(t, m, v);
            }
        }
        assert forall|v: (int, int)| #[trigger] self.after(m, by_clues).dom().contains(v) implies t.dom().contains(v)
            && self.after(m, by_clues)[v] == t[v] by {
            if f.dom().contains(v) {
            } else {
                assert(m.dom().contains(v));
            }
        }
    }

    /// A colour the clue rule places at an open position agrees with a
    /// solution.
    proof fn lemma_clue_fix_sound(self, t: Map<(int, int), Cell>, m: Map<(int, int), Cell>, v: (int, int))
        requires
            self.hexagon.wf(),
            self.is_solution(t),
            m.submap_of(t),
            self.hexagon.contains_point(v),
            self.clue_fix(m, v) is Some,
        ensures
            self.clue_fix(m, v) == Some(t[v]),
    {
        reveal(PuzzleModel::claims);
        let o = self.hexagon.origin;
        let c = self.clue_fix(m, v)->Some_0;
        let d = if self.claims(m, Direction::ZX, c, v) {
            Direction::ZX
        } else if self.claims(m, Direction::YZ, c, v) {
            Direction::YZ
        } else {
            Direction::XY
        };
        assert(self.claims(m, d, c, v));
        let k = chord_key(v, o, d);
        let i = self.lemma_on_chord(v, d);
        let pts = self.hexagon.chord(k, d);
        self.lemma_remaining_open(t, m, d, k, c);
        self.hexagon.lemma_chord(k, d);
        assert forall|j: int| 0 <= j < pts.len() implies self.hexagon.contains_point(#[trigger] pts[j]) by {}
        self.lemma_counts_ordered(t, m, pts, c);
        assert(self.hinted_count(m, pts, c) <= pts.len()) by {
            self.lemma_hinted_bound(m, pts, c);
        }
        assert(self.hinted(m, d, k).of(c) == self.hinted_count(m, pts, c));
        self.lemma_count_squeeze(t, m, pts, c, i);
    }

    proof fn lemma_hinted_bound(self, m: Map<(int, int), Cell>, pts: Seq<(int, int)>, c: Cell)
        ensures
            self.hinted_count(m, pts, c) <= pts.len(),
        decreases pts.len(),
    {
        if pts.len() > 0 {
            self.lemma_hinted_bound(m, pts.drop_last(), c);
        }
    }

    /// Whether every remaining clue, given the colours `m`, still has at
    /// least two colours.
    pub open spec fn all_ambiguous(self, m: Map<(int, int), Cell>) -> bool {
        forall|d: Direction, k: int|
            is_normalized(d) && abs(k) <= self.hexagon.radius ==> #[trigger] self.remaining(
                m,
                d,
                k,
            ).nonzero_colors() > 1
    }
}

} // verus!
