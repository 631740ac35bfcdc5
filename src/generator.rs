use vstd::prelude::*;

use rand::rngs::StdRng;

use crate::board::{key_at, key_count, lemma_key_round_trip, reports, Board};
use crate::cell::{Cell, Clue};
use crate::hexagon::Hexagon;
use crate::position::{abs, Direction, Distance, Position};
use crate::deduction::PuzzleModel;
use crate::puzzle::Puzzle;
use crate::solver::Solver;

verus! {

/// The clues of a keyed list of clues.
pub open spec fn clue_seq(s: Seq<((Direction, Distance), Clue)>) -> Seq<Clue> {
    Seq::new(s.len(), |i: int| s[i].1)
}

/// The index of the first clue of `cs` with the largest non-zero total.
pub open spec fn busiest_in(cs: Seq<Clue>) -> Option<int>
    decreases cs.len(),
{
    if cs.len() == 0 {
        None
    } else {
        let b = busiest_in(cs.drop_last());
        if cs.last().total() > 0 && (b is None || cs.last().total() > cs[b->Some_0].total()) {
            Some(cs.len() - 1)
        } else {
            b
        }
    }
}

/// Adding an entry of a map to a part of it keeps it a part.
pub proof fn lemma_insert_submap(a: Map<(int, int), Cell>, b: Map<(int, int), Cell>, v: (int, int), c: Cell)
    requires
        a.submap_of(b),
        b.contains_key(v),
        b[v] == c,
    ensures
        a.insert(v, c).submap_of(b),
{
    assert forall|w: (int, int)| #[trigger] a.insert(v, c).dom().contains(w) implies b.dom().contains(w) && a.insert(v, c)[w] == b[w] by {
        if w != v {
            assert(a.dom().contains(w));
        }
    }
}

/// Being part of is transitive.
pub proof fn lemma_submap_trans(a: Map<(int, int), Cell>, b: Map<(int, int), Cell>, c: Map<(int, int), Cell>)
    requires
        a.submap_of(b),
        b.submap_of(c),
    ensures
        a.submap_of(c),
{
    assert forall|v: (int, int)| #[trigger] a.dom().contains(v) implies c.dom().contains(v) && a[v] == c[v] by {
        assert(b.dom().contains(v));
    }
}

/// The chosen indices lie within the sequence.
pub proof fn lemma_chosen_in_range(cs: Seq<Clue>)
    ensures
        busiest_in(cs) matches Some(i) ==> 0 <= i < cs.len(),
    decreases cs.len(),
{
    if cs.len() > 0 {
        lemma_chosen_in_range(cs.drop_last());
    }
}

/// The first index of `pts` that `t` colours `c` and `m` leaves open.
pub open spec fn first_hidden(
    t: Map<(int, int), Cell>,
    m: Map<(int, int), Cell>,
    pts: Seq<(int, int)>,
    c: Cell,
) -> Option<int>
    decreases pts.len(),
{
    if pts.len() == 0 {
        None
    } else {
        match first_hidden(t, m, pts.drop_last(), c) {
            Some(j) => Some(j),
            None => if t.contains_key(pts.last()) && t[pts.last()] == c && !m.contains_key(
                pts.last(),
            ) {
                Some(pts.len() - 1)
            } else {
                None
            },
        }
    }
}

/// The largest number of cells that generation reveals on a board of radius
/// `r`.
pub open spec fn reveal_limit(r: int) -> int {
    if r >= 2 {
        (r - 1) * (r - 2) / 2
    } else {
        0
    }
}

impl PuzzleModel {
    /// The remaining clues of all chords, by chord key, given the colours `m`.
    pub open spec fn remaining_seq(self, m: Map<(int, int), Cell>) -> Seq<Clue> {
        Seq::new(
            key_count(self.hexagon.radius as int) as nat,
            |i: int| self.remaining(m, key_at(self.hexagon.radius as int, i).0, key_at(self.hexagon.radius as int, i).1),
        )
    }

    /// The cell of the solution `t` revealed next, given the colours `m`: on
    /// the chord with the largest non-empty remaining clue, its most needed
    /// colour, at the first position that `t` colours so and `m` leaves open.
    pub open spec fn reveal_step(self, t: Map<(int, int), Cell>, m: Map<(int, int), Cell>) -> Option<
        ((int, int), Cell),
    > {
        let cs = self.remaining_seq(m);
        match busiest_in(cs) {
            None => None,
            Some(i) => match cs[i].spec_max_cell() {
                None => None,
                Some(c) => {
                    let key = key_at(self.hexagon.radius as int, i);
                    let pts = self.hexagon.chord(key.1, key.0);
                    match first_hidden(t, m, pts, c) {
                        None => None,
                        Some(j) => Some((pts[j], c)),
                    }
                },
            },
        }
    }

    /// The revealed cells with which generation from the solution `t` ends,
    /// having revealed `revealed` (`added` cells so far) and placed `m`:
    /// solve; if the board is covered, done; otherwise reveal one more cell,
    /// giving up when no cell can be revealed or more than `limit` would be.
    pub open spec fn reveal_run(
        self,
        t: Map<(int, int), Cell>,
        revealed: Map<(int, int), Cell>,
        m: Map<(int, int), Cell>,
        added: int,
        limit: int,
    ) -> Option<Map<(int, int), Cell>>
        decreases limit - added,
    {
        let settled = self.settle(m);
        if self.covers(settled) {
            Some(revealed)
        } else {
            match self.reveal_step(t, settled) {
                None => None,
                Some((v, c)) => if added + 1 > limit {
                    None
                } else {
                    self.reveal_run(t, revealed.insert(v, c), settled.insert(v, c), added + 1, limit)
                },
            }
        }
    }
}

/// What an accepted puzzle satisfies: every remaining clue of its known
/// cells is still ambiguous, and solving it with the hint rule first
/// covers the board and needs the clue rule at least once.
pub open spec fn accepted(p: Puzzle) -> bool {
    &&& p.wf()
    &&& p.model().all_ambiguous(p.board@)
    &&& p.model().hint_first_run(p.board@) == (true, true)
}

/// Whether every remaining clue of the solver still has at least two
/// colours.
pub fn no_solved_clues(solver: &Solver) -> (r: bool)
    requires
        solver.wf(),
    ensures
        r == solver.puzzle.model().all_ambiguous(solver.solution@),
{
    let clues = solver.computed_clues();
    let ghost rad = solver.hexagon().radius as int;
    let ghost p = solver.puzzle.model();
    let mut i: usize = 0;
    while i < clues.len()
        invariant
            solver.wf(),
            rad == solver.hexagon().radius,
            p == solver.puzzle.model(),
            clues@.len() == key_count(rad),
            forall|j: int|
                0 <= j < clues@.len() ==> #[trigger] clues@[j] == ((key_at(rad, j).0, key_at(rad, j).1 as i32), solver.remaining(
                    key_at(rad, j).0,
                    key_at(rad, j).1,
                )),
            0 <= i <= clues@.len(),
            forall|j: int| 0 <= j < i ==> (#[trigger] clues@[j]).1.nonzero_colors() > 1,
        decreases clues@.len() - i,
    {
        let clue = clues[i].1;
        let n: u32 = (if clue.red() > 0 { 1 } else { 0 }) + (if clue.green() > 0 { 1 } else { 0 }) + (
        if clue.blue() > 0 {
            1
        } else {
            0
        });
        if n <= 1 {
            proof {
                let key = key_at(rad, i as int);
                assert(clue.nonzero_colors() <= 1);
                assert(crate::position::is_normalized(key.0) && abs(key.1) <= rad);
                assert(clues@[i as int].1 == p.remaining(solver.solution@, key.0, key.1));
                assert(!p.all_ambiguous(solver.solution@));
            }
            return false;
        }
        i = i + 1;
    }
    proof {
        assert forall|d: Direction, k: int|
            crate::position::is_normalized(d) && abs(k) <= rad implies #[trigger] p.remaining(
                solver.solution@,
                d,
                k,
            ).nonzero_colors() > 1 by {
            lemma_key_round_trip(rad, d, k);
            let j = crate::board::key_index(rad, d, k);
            assert(clues@[j].1.nonzero_colors() > 1);
        }
    }
    true
}

/// The total of a clue, computed without overflow.
fn total(clue: Clue) -> (r: u64)
    ensures
        r == clue.total(),
{
    clue.0 as u64 + clue.1 as u64 + clue.2 as u64
}

/// The chord to reveal from: the first one, in key order, whose remaining
/// clue is non-empty with the largest total.
fn busiest_clue(clues: &Vec<((Direction, Distance), Clue)>) -> (r: Option<usize>)
    ensures
        r matches Some(i) ==> i < clues@.len(),
        r == (match busiest_in(clue_seq(clues@)) {
            Some(i) => Some(i as usize),
            None => None,
        }),
{
    let ghost cs = clue_seq(clues@);
    let mut best: Option<usize> = None;
    let mut best_count: u64 = 0;
    let mut i: usize = 0;
    while i < clues.len()
        invariant
            cs == clue_seq(clues@),
            0 <= i <= clues@.len(),
            best matches Some(b) ==> b < i && cs[b as int].total() == best_count && best_count > 0,
            best is None ==> best_count == 0,
            busiest_in(cs.subrange(0, i as int)) == (match best {
                Some(b) => Some(b as int),
                None => None,
            }),
        decreases clues@.len() - i,
    {
        let count = total(clues[i].1);
        assert(cs.subrange(0, i + 1).drop_last() == cs.subrange(0, i as int));
        if count > best_count {
            best = Some(i);
            best_count = count;
        }
        i = i + 1;
    }
    assert(cs.subrange(0, clues@.len() as int) == cs);
    best
}

/// The first index of `entries` holding `cell` at a position that the
/// solver has not placed.
fn hidden_position(solver: &Solver, entries: &Vec<(Position, Option<Cell>)>, cell: Cell) -> (r: Option<usize>)
    requires
        solver.wf(),
    ensures
        r matches Some(j) ==> j < entries@.len() && entries@[j as int].1 == Some(cell)
            && !solver.solution@.contains_key(entries@[j as int].0@),
        forall|t: Map<(int, int), Cell>, pts: Seq<(int, int)>|
            pts.len() == entries@.len() && (forall|j: int|
                0 <= j < pts.len() ==> #[trigger] reports(t, entries@[j], pts[j])) ==> #[trigger] first_hidden(
                t,
                solver.solution@,
                pts,
                cell,
            ) == (match r {
                Some(j) => Some(j as int),
                None => None,
            }),
{
    let mut i: usize = 0;
    while i < entries.len()
        invariant
            solver.wf(),
            0 <= i <= entries@.len(),
            forall|t: Map<(int, int), Cell>, pts: Seq<(int, int)>|
                pts.len() == entries@.len() && (forall|j: int|
                    0 <= j < pts.len() ==> #[trigger] reports(t, entries@[j], pts[j])) ==> #[trigger] first_hidden(
                    t,
                    solver.solution@,
                    pts.subrange(0, i as int),
                    cell,
                ) is None,
        decreases entries@.len() - i,
    {
        let (position, found) = entries[i];
        let wanted = match found {
            Some(c) => c == cell,
            None => false,
        };
        let open = !solver.solution.contains(position);
        proof {
            assert forall|t: Map<(int, int), Cell>, pts: Seq<(int, int)>|
                pts.len() == entries@.len() && (forall|j: int|
                    0 <= j < pts.len() ==> #[trigger] reports(t, entries@[j], pts[j])) implies #[trigger] first_hidden(
                    t,
                    solver.solution@,
                    pts.subrange(0, i + 1),
                    cell,
                ) == if wanted && open {
                    Some(i as int)
                } else {
                    None::<int>
                } by {
                assert(first_hidden(t, solver.solution@, pts.subrange(0, i as int), cell) is None);
                assert(pts.subrange(0, i + 1).drop_last() == pts.subrange(0, i as int));
                assert(reports(t, entries@[i as int], pts[i as int]));
                assert(pts.subrange(0, i + 1).last() == pts[i as int]);
            }
        }
        if wanted && open {
            proof {
                assert forall|t: Map<(int, int), Cell>, pts: Seq<(int, int)>|
                    pts.len() == entries@.len() && (forall|j: int|
                        0 <= j < pts.len() ==> #[trigger] reports(t, entries@[j], pts[j])) implies #[trigger] first_hidden(
                        t,
                        solver.solution@,
                        pts,
                        cell,
                    ) == Some(i as int) by {
                    lemma_first_hidden_prefix(t, solver.solution@, pts, cell, i as int + 1);
                }
            }
            return Some(i);
        }
        i = i + 1;
    }
    proof {
        assert forall|t: Map<(int, int), Cell>, pts: Seq<(int, int)>|
            pts.len() == entries@.len() && (forall|j: int|
                0 <= j < pts.len() ==> #[trigger] reports(t, entries@[j], pts[j])) implies #[trigger] first_hidden(
                t,
                solver.solution@,
                pts,
                cell,
            ) is None by {
            assert(pts.subrange(0, entries@.len() as int) == pts);
        }
    }
    None
}

/// A first hidden position is one that `t` colours `c` and `m` leaves open.
pub proof fn lemma_first_hidden_found(
    t: Map<(int, int), Cell>,
    m: Map<(int, int), Cell>,
    pts: Seq<(int, int)>,
    c: Cell,
)
    ensures
        first_hidden(t, m, pts, c) matches Some(j) ==> {
            &&& 0 <= j < pts.len()
            &&& t.contains_key(pts[j])
            &&& t[pts[j]] == c
            &&& !m.contains_key(pts[j])
        },
    decreases pts.len(),
{
    if pts.len() > 0 {
        lemma_first_hidden_found(t, m, pts.drop_last(), c);
    }
}

/// Once found in a prefix, the first hidden position stays the same.
proof fn lemma_first_hidden_prefix(
    t: Map<(int, int), Cell>,
    m: Map<(int, int), Cell>,
    pts: Seq<(int, int)>,
    c: Cell,
    n: int,
)
    requires
        0 <= n <= pts.len(),
        first_hidden(t, m, pts.subrange(0, n), c) is Some,
    ensures
        first_hidden(t, m, pts, c) == first_hidden(t, m, pts.subrange(0, n), c),
    decreases pts.len() - n,
{
    if n < pts.len() {
        assert(pts.subrange(0, n + 1).drop_last() == pts.subrange(0, n));
        lemma_first_hidden_prefix(t, m, pts, c, n + 1);
    } else {
        assert(pts.subrange(0, n) == pts);
    }
}

/// Reveals one cell of the solution to the solver: on the chord whose
/// remaining clue is largest, a position of its most needed colour that the
/// solver has not placed yet. Returns whether a cell was revealed.
#[verifier::rlimit(60)]
fn reveal_one(solution: &Puzzle, solver: &mut Solver) -> (r: bool)
    requires
        solution.wf(),
        old(solver).wf(),
        solution.board.hexagon == old(solver).puzzle.board.hexagon,
        old(solver).puzzle.board@.submap_of(old(solver).solution@),
    ensures
        final(solver).wf(),
        final(solver).puzzle.board@.submap_of(final(solver).solution@),
        old(solver).puzzle.board@.submap_of(solution.board@) ==> final(solver).puzzle.board@.submap_of(
            solution.board@,
        ),
        final(solver).puzzle.clues == old(solver).puzzle.clues,
        final(solver).puzzle.board.hexagon == old(solver).puzzle.board.hexagon,
        final(solver).puzzle.model() == old(solver).puzzle.model(),
        old(solver).solution@.submap_of(final(solver).solution@),
        old(solver).puzzle.board@.submap_of(final(solver).puzzle.board@),
        forall|v: (int, int)|
            #[trigger] final(solver).puzzle.board@.contains_key(v) ==> old(solver).puzzle.board@.contains_key(v)
                || (solution.board@.contains_key(v) && solution.board@[v] == final(solver).puzzle.board@[v]),
        r ==> old(solver).puzzle.model().open_count(final(solver).solution@) < old(
            solver,
        ).puzzle.model().open_count(old(solver).solution@),
        !r ==> *final(solver) == *old(solver),
        r == old(solver).puzzle.model().reveal_step(solution.board@, old(solver).solution@) is Some,
        old(solver).puzzle.model().reveal_step(solution.board@, old(solver).solution@) matches Some(
            (v, c),
        ) ==> final(solver).solution@ == old(solver).solution@.insert(v, c)
            && final(solver).puzzle.board@ == old(solver).puzzle.board@.insert(v, c),
{
    let ghost model = solver.puzzle.model();
    let ghost rad = model.hexagon.radius as int;
    let clues = solver.computed_clues();
    assert(clue_seq(clues@) =~= model.remaining_seq(solver.solution@));
    let index = match busiest_clue(&clues) {
        Some(i) => i,
        None => return false,
    };
    let ghost cs = model.remaining_seq(solver.solution@);
    proof {
        lemma_chosen_in_range(cs);
    }
    assert(busiest_in(cs) == Some(index as int));
    let ((direction, distance), clue) = clues[index];
    assert(clue == cs[index as int]);
    assert(direction == key_at(rad, index as int).0 && distance == key_at(rad, index as int).1);
    let cell = match clue.max_cell() {
        Some(c) => c,
        None => {
            assert(model.reveal_step(solution.board@, solver.solution@) is None);
            return false;
        },
    };
    let entries = match solution.board.segment(distance, direction) {
        Some(v) => v,
        None => return false,
    };
    let ghost pts = solution.board.hexagon.chord(distance as int, direction);
    let j = match hidden_position(solver, &entries, cell) {
        Some(j) => j,
        None => return false,
    };
    let position = entries[j].0;
    let ghost h = solution.board.hexagon;
    let ghost before = solver.solution@;
    let ghost p = solver.puzzle.model();
    proof {
        h.lemma_chord(distance as int, direction);
        let s = h.chord_start(distance as int, direction);
        assert(h.chord(distance as int, direction)[j as int] == crate::position::walk(s.0, s.1, direction, j as int));
        assert(h.contains_point(position@));
    }
    let ghost known = solver.puzzle.board@;
    solver.puzzle.board.insert(position, cell);
    solver.solution.insert(position, cell);
    proof {
        assert(reports(solution.board@, entries@[j as int], pts[j as int]));
        if known.submap_of(solution.board@) {
            lemma_insert_submap(known, solution.board@, position@, cell);
        }
        h.lemma_points_cover();
        let k = choose|k: int| 0 <= k < h.points().len() && h.points()[k] == position@;
        crate::deduction::lemma_count_grows(before, solver.solution@, h.points(), k);
    }
    true
}

/// Generates one candidate puzzle of the given radius from a board coloured
/// at random; see `generate_from`.
pub fn generate(rng: &mut StdRng, radius: Distance) -> (r: Option<Puzzle>)
    requires
        0 < radius,
        2 * radius < i32::MAX,
        key_count(radius as int) <= usize::MAX,
    ensures
        r matches Some(p) ==> accepted(p) && p.board.hexagon.radius == radius,
{
    let hexagon = Hexagon { origin: Position::zero(), radius };
    generate_from(Board::random_in(rng, hexagon))
}

/// Turns a fully coloured board into a candidate puzzle: its clues, an
/// empty board, then cells of the board revealed one by one until the
/// solver can finish. Returns the puzzle of revealed cells and clues if it
/// is accepted, `None` if it is rejected: a remaining clue settled before
/// any reveal, more reveals than `(radius - 1)(radius - 2) / 2`, no cell
/// left to reveal, or a final puzzle that is stuck, has a settled clue, or
/// can be solved by the hint rule alone. The revealed cells agree with the
/// board.
pub fn generate_from(board: Board) -> (r: Option<Puzzle>)
    requires
        board.wf(),
    ensures
        r matches Some(p) ==> {
            &&& accepted(p)
            &&& p.board.hexagon == board.hexagon
            &&& p.board@.submap_of(board@)
            &&& p.clues@ == board.clue_table()
        },
        r is Some <==> ({
            let model = PuzzleModel { hexagon: board.hexagon, clues: board.clue_table() };
            &&& model.all_ambiguous(Map::empty())
            &&& model.reveal_run(
                board@,
                Map::empty(),
                Map::empty(),
                0,
                reveal_limit(board.hexagon.radius as int),
            ) matches Some(known)
            &&& model.all_ambiguous(known)
            &&& model.hint_first_run(known) == (true, true)
        }),
        r matches Some(p) ==> (PuzzleModel { hexagon: board.hexagon, clues: board.clue_table() }).reveal_run(
            board@,
            Map::empty(),
            Map::empty(),
            0,
            reveal_limit(board.hexagon.radius as int),
        ) == Some(p.board@),
{
    let radius = board.hexagon.radius;
    let solution = Puzzle::with_clues(board);
    let mut puzzle = solution.copy();
    puzzle.clear();
    let mut solver = Solver::new(puzzle);
    let ghost model = PuzzleModel { hexagon: board.hexagon, clues: board.clue_table() };
    assert(solver.puzzle.model() == model);
    assert(solver.solution@ == Map::<(int, int), Cell>::empty());
    assert(solver.puzzle.board@ == Map::<(int, int), Cell>::empty());
    if !no_solved_clues(&solver) {
        return None;
    }
    let limit = reveal_cap(radius);
    if !reveal_until_solved(&solution, &mut solver, limit) {
        return None;
    }
    accept(solver.puzzle)
}

/// The largest number of cells revealed on a board of radius `radius`:
/// `(radius - 1)(radius - 2) / 2`, and none below radius two.
pub(crate) fn reveal_cap(radius: Distance) -> (r: u64)
    requires
        0 < radius,
        2 * radius < i32::MAX,
    ensures
        r == reveal_limit(radius as int),
        r < 0x1000_0000_0000_0000,
{
    if radius >= 2 {
        let a = radius as u64 - 1;
        let b = radius as u64 - 2;
        assert(a * b < 0x1000_0000_0000_0000) by (nonlinear_arith)
            requires
                a < 0x4000_0000,
                b < 0x4000_0000,
        ;
        a * b / 2
    } else {
        0
    }
}

/// Solves, then reveals one cell of the solution at a time, until the
/// solver covers the board; gives up when no cell can be revealed or more
/// than `limit` cells would be. Returns whether the board got covered.
#[verifier::rlimit(60)]
pub(crate) fn reveal_until_solved(solution: &Puzzle, solver: &mut Solver, limit: u64) -> (r: bool)
    requires
        solution.wf(),
        old(solver).wf(),
        solution.board.hexagon == old(solver).puzzle.board.hexagon,
        old(solver).puzzle.board@.submap_of(old(solver).solution@),
        old(solver).puzzle.board@.submap_of(solution.board@),
        limit < 0x1000_0000_0000_0000,
    ensures
        final(solver).wf(),
        final(solver).puzzle.model() == old(solver).puzzle.model(),
        final(solver).puzzle.board.hexagon == old(solver).puzzle.board.hexagon,
        final(solver).puzzle.board@.submap_of(solution.board@),
        r == old(solver).puzzle.model().reveal_run(
            solution.board@,
            old(solver).puzzle.board@,
            old(solver).solution@,
            0,
            limit as int,
        ) is Some,
        r ==> old(solver).puzzle.model().reveal_run(
            solution.board@,
            old(solver).puzzle.board@,
            old(solver).solution@,
            0,
            limit as int,
        ) == Some(final(solver).puzzle.board@),
{
    let ghost model = solver.puzzle.model();
    let ghost goal = model.reveal_run(solution.board@, solver.puzzle.board@, solver.solution@, 0, limit as int);
    let mut added: u64 = 0;
    loop
        invariant
            solver.wf(),
            solution.wf(),
            solution.board.hexagon == solver.puzzle.board.hexagon,
            solver.puzzle.model() == model,
            model == old(solver).puzzle.model(),
            solver.puzzle.board.hexagon == old(solver).puzzle.board.hexagon,
            goal == model.reveal_run(solution.board@, old(solver).puzzle.board@, old(solver).solution@, 0, limit as int),
            solver.puzzle.board@.submap_of(solver.solution@),
            solver.puzzle.board@.submap_of(solution.board@),
            model.reveal_run(solution.board@, solver.puzzle.board@, solver.solution@, added as int, limit as int) == goal,
            added <= limit,
            limit < 0x1000_0000_0000_0000,
        decreases limit - added,
    {
        let ghost before = solver.solution@;
        let solved = solver.solve();
        let ghost settled = solver.solution@;
        proof {
            lemma_submap_trans(solver.puzzle.board@, before, settled);
        }
        assert(solved == model.covers(settled));
        if solved {
            return true;
        }
        if !reveal_one(solution, solver) {
            return false;
        }
        added = added + 1;
        if added > limit {
            return false;
        }
    }
}

/// Solves the puzzle afresh, the hint rule first, and returns it exactly
/// when it is accepted.
pub fn accept(puzzle: Puzzle) -> (r: Option<Puzzle>)
    requires
        puzzle.wf(),
    ensures
        r is Some <==> accepted(puzzle),
        r matches Some(p) ==> p == puzzle,
{
    let mut resolver = Solver::new(puzzle);
    let ghost p = resolver.puzzle.model();
    let ghost start = resolver.solution@;
    let no_solved = no_solved_clues(&resolver);
    let mut requires_clue_solving = false;
    loop
        invariant
            resolver.wf(),
            resolver.puzzle == puzzle,
            start == puzzle.board@,
            no_solved == p.all_ambiguous(start),
            resolver.puzzle.model() == p,
            p.hint_first_run(start) == (p.hint_first_run(resolver.solution@).0, p.hint_first_run(
                resolver.solution@,
            ).1 || requires_clue_solving),
        ensures
            resolver.wf(),
            resolver.puzzle == puzzle,
            start == puzzle.board@,
            no_solved == p.all_ambiguous(start),
            resolver.puzzle.model() == p,
            p.hint_first_run(start) == (true, requires_clue_solving),
        decreases p.open_count(resolver.solution@),
    {
        let ghost m = resolver.solution@;
        proof {
            p.lemma_pass_grows(m, false);
            p.lemma_pass_grows(m, true);
        }
        if resolver.solution.is_solved() {
            assert(p.covers(m));
            break;
        }
        if resolver.solve_hints() {
            continue;
        }
        if !resolver.solve_clues() {
            assert(p.hint_first_run(m) == (false, false));
            return None;
        }
        requires_clue_solving = true;
    }
    if no_solved && requires_clue_solving {
        Some(resolver.puzzle)
    } else {
        None
    }
}

/// The complexity of solving the puzzle afresh with the hint rule first:
/// one for each pass of the hint rule, three for each pass of the clue rule;
/// `None` if the rules cannot finish the board.
#[verifier::rlimit(60)]
pub fn complexity(puzzle: &Puzzle) -> (r: Option<u64>)
    requires
        puzzle.wf(),
    ensures
        r == (match puzzle.model().complexity(puzzle.board@) {
            Some(n) => Some(n as u64),
            None => None,
        }),
        r matches Some(n) ==> puzzle.model().complexity(puzzle.board@) == Some(n as int),
{
    let mut solver = Solver::new(puzzle.copy());
    let ghost p = solver.puzzle.model();
    let ghost start = solver.solution@;
    let ghost radius = p.hexagon.radius as int;
    proof {
        p.hexagon.lemma_spiral_len(radius);
        crate::deduction::lemma_count_bound(start, p.hexagon.points());
        assert(3 * crate::hexagon::Hexagon::area(radius) < 0xffff_ffff_ffff_fff0) by (nonlinear_arith)
            requires
                0 < radius,
                2 * radius < 0x7fff_ffff,
        ;
    }
    let mut score: u64 = 0;
    loop
        invariant
            solver.wf(),
            solver.puzzle.model() == p,
            p == puzzle.model(),
            start == puzzle.board@,
            0 <= p.open_count(start) <= crate::hexagon::Hexagon::area(radius),
            3 * crate::hexagon::Hexagon::area(radius) < 0xffff_ffff_ffff_fff0,
            0 <= p.open_count(solver.solution@),
            score + 3 * p.open_count(solver.solution@) <= 3 * p.open_count(start),
            p.complexity(start) == (match p.complexity(solver.solution@) {
                Some(n) => Some(n + score),
                None => None,
            }),
        decreases p.open_count(solver.solution@),
    {
        let ghost m = solver.solution@;
        proof {
            p.lemma_pass_grows(m, false);
            p.lemma_pass_grows(m, true);
            p.lemma_complexity_step(m);
        }
        if solver.solution.is_solved() {
            assert(p.covers(m));
            return Some(score);
        }
        assert(!p.covers(m));
        if solver.solve_hints() {
            assert(solver.solution@ == p.after(m, false));
            assert(p.complexity(m) == (match p.complexity(p.after(m, false)) {
                Some(n) => Some(n + 1),
                None => None,
            }));
            score = score + 1;
        } else if solver.solve_clues() {
            assert(!p.progress(m, false));
            assert(solver.solution@ == p.after(m, true));
            assert(p.complexity(m) == (match p.complexity(p.after(m, true)) {
                Some(n) => Some(n + 3),
                None => None,
            }));
            score = score + 3;
        } else {
            assert(p.complexity(m) is None);
            return None;
        }
    }
}

/// Generates candidates until one is accepted, at most `attempts` times.
pub fn generate_good(rng: &mut StdRng, radius: Distance, attempts: u64) -> (r: Option<Puzzle>)
    requires
        0 < radius,
        2 * radius < i32::MAX,
        key_count(radius as int) <= usize::MAX,
    ensures
        r matches Some(p) ==> accepted(p) && p.board.hexagon.radius == radius,
{
    let mut tried: u64 = 0;
    while tried < attempts
        invariant
            0 < radius,
            2 * radius < i32::MAX,
            key_count(radius as int) <= usize::MAX,
        decreases attempts - tried,
    {
        let candidate = generate(rng, radius);
        if candidate.is_some() {
            return candidate;
        }
        tried = tried + 1;
    }
    None
}

} // verus!
