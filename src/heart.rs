use vstd::prelude::*;

use rand::rngs::StdRng;

use crate::board::{last_hint, Board};
use crate::cell::{Cell, Hint};
use crate::hexagon::Hexagon;
use crate::position::Position;
use crate::puzzle::{Generator, Puzzle};

verus! {

/// Generates boards of radius five whose red cells draw a heart and whose
/// other cells are green or blue:
///
/// ```text
///      X X X X X X
///     X X X X X X X
///    X R R X X R R X
///   X R R R X R R R X
///  X X R R R R R R X X
/// X X X R R R R R X X X
///  X X X R R R R X X X
///   X X X R R R X X X
///    X X X R R X X X
///     X X X R X X X
///      X X X X X X
/// ```
#[derive(Debug, Clone, Copy)]
pub struct HeartGenerator;

/// The heart's outline, as `(x, y)` coordinates of positions mirrored
/// through the centre.
pub open spec fn heart_points() -> Seq<(int, int)> {
    seq![
        (-1, 4), (0, 3), (3, 0), (4, -1), (-2, 4), (-1, 3), (0, 2), (2, 0), (3, -1), (4, -2),
        (-2, 3), (-1, 2), (0, 1), (1, 0), (2, -1), (3, -2), (-2, 2), (-1, 1), (0, 0), (1, -1),
        (2, -2), (-2, 1), (-1, 0), (0, -1), (1, -2), (-2, 0), (-1, -1), (0, -2), (-2, -1),
        (-1, -2), (-2, -2),
    ]
}

/// Whether the position `v` is red in the heart: its mirror through the
/// centre is on the outline.
pub open spec fn on_heart(v: (int, int)) -> bool {
    exists|i: int| 0 <= i < heart_points().len() && heart_points()[i] == (-v.0, -v.1)
}

/// The hint of a heart position: red on the heart, green or blue elsewhere.
pub open spec fn heart_hint(v: (int, int)) -> Hint {
    if on_heart(v) {
        Hint(true, false, false)
    } else {
        Hint(false, true, true)
    }
}

/// Where every hint is the heart's hint for its position, so is the last
/// hint for any listed position.
proof fn lemma_last_heart_hint(hints: Seq<(Position, Hint)>, v: (int, int))
    requires
        forall|j: int| 0 <= j < hints.len() ==> (#[trigger] hints[j]).1 == heart_hint(hints[j].0@),
        exists|j: int| 0 <= j < hints.len() && hints[j].0@ == v,
    ensures
        last_hint(hints, v) == heart_hint(v),
    decreases hints.len(),
{
    if hints.last().0@ != v {
        let j = choose|j: int| 0 <= j < hints.len() && hints[j].0@ == v;
        assert(hints.drop_last()[j] == hints[j]);
        lemma_last_heart_hint(hints.drop_last(), v);
    }
}

fn heart_outline() -> (r: Vec<(i32, i32)>)
    ensures
        r@.len() == heart_points().len(),
        forall|i: int| 0 <= i < r@.len() ==> (#[trigger] r@[i].0 as int, r@[i].1 as int) == heart_points()[i],
{
    vec![
        (-1, 4), (0, 3), (3, 0), (4, -1), (-2, 4), (-1, 3), (0, 2), (2, 0), (3, -1), (4, -2),
        (-2, 3), (-1, 2), (0, 1), (1, 0), (2, -1), (3, -2), (-2, 2), (-1, 1), (0, 0), (1, -1),
        (2, -2), (-2, 1), (-1, 0), (0, -1), (1, -2), (-2, 0), (-1, -1), (0, -2), (-2, -1),
        (-1, -2), (-2, -2),
    ]
}

/// Whether the position mirrored through the centre lies on the outline.
fn in_heart(outline: &Vec<(i32, i32)>, position: Position) -> (r: bool)
    requires
        position.px() > i32::MIN,
        position.py() > i32::MIN,
        outline@.len() == heart_points().len(),
        forall|i: int| 0 <= i < outline@.len() ==> (#[trigger] outline@[i].0 as int, outline@[i].1 as int) == heart_points()[i],
    ensures
        r == on_heart(position@),
{
    let x = -position.x();
    let y = -position.y();
    let mut i: usize = 0;
    while i < outline.len()
        invariant
            0 <= i <= outline@.len(),
            x == -position.px(),
            y == -position.py(),
            outline@.len() == heart_points().len(),
            forall|i: int| 0 <= i < outline@.len() ==> (#[trigger] outline@[i].0 as int, outline@[i].1 as int) == heart_points()[i],
            forall|j: int| 0 <= j < i ==> !(outline@[j].0 == x && outline@[j].1 == y),
        decreases outline@.len() - i,
    {
        if outline[i].0 == x && outline[i].1 == y {
            return true;
        }
        i = i + 1;
    }
    proof {
        if on_heart(position@) {
            let k = choose|k: int| 0 <= k < heart_points().len() && heart_points()[k] == (-position@.0, -position@.1);
            assert((outline@[k].0 as int, outline@[k].1 as int) == heart_points()[k]);
        }
    }
    false
}

impl Generator for HeartGenerator {
    open spec fn ready(&self) -> bool {
        true
    }

    /// A fully coloured centred board of radius five, red exactly on the
    /// heart and green or blue elsewhere, with its own clues.
    open spec fn produces(&self, p: Puzzle) -> bool {
        &&& p.board.hexagon.radius == 5
        &&& p.board.hexagon.origin@ == (0int, 0int)
        &&& p.board.spec_is_solved()
        &&& p.clues@ == p.board.clue_table()
        &&& forall|v: (int, int)|
            #[trigger] p.board.hexagon.contains_point(v) ==> p.board@.contains_key(v) && (p.board@[v]
                == Cell::Red <==> on_heart(v))
    }

    fn generate(&self, rng: &mut StdRng) -> (r: Puzzle) {
        let hexagon = Hexagon { origin: Position::zero(), radius: 5 };
        let outline = heart_outline();
        let positions = hexagon.positions();
        proof {
            hexagon.lemma_hexagon_points();
        }
        let mut hints: Vec<(Position, Hint)> = Vec::new();
        let mut i: usize = 0;
        while i < positions.len()
            invariant
                hexagon.radius == 5,
                hexagon.origin@ == (0int, 0int),
                positions@.len() == hexagon.points().len(),
                forall|j: int| 0 <= j < hexagon.points().len() ==> hexagon.contains_point(#[trigger] hexagon.points()[j]),
                forall|j: int|
                    0 <= j < positions@.len() ==> (#[trigger] positions@[j])@ == hexagon.points()[j]
                        && positions@[j].valid(),
                0 <= i <= positions@.len(),
                hints@.len() == i,
                outline@.len() == heart_points().len(),
                forall|i: int| 0 <= i < outline@.len() ==> (#[trigger] outline@[i].0 as int, outline@[i].1 as int) == heart_points()[i],
                forall|j: int| 0 <= j < i ==> (#[trigger] hints@[j]).0 == positions@[j],
                forall|j: int| 0 <= j < i ==> (#[trigger] hints@[j]).1 == heart_hint(hints@[j].0@),
                Board::hints_fit(5, hints@),
            decreases positions@.len() - i,
        {
            let p = positions[i];
            let hint = if in_heart(&outline, p) {
                Hint(true, false, false)
            } else {
                Hint(false, true, true)
            };
            hints.push((p, hint));
            i = i + 1;
        }
        let board = Board::random_from_hints_in(rng, hexagon, hints);
        proof {
            hexagon.lemma_points_cover();
            assert forall|k: int| 0 <= k < hexagon.points().len() implies board@.contains_key(
                #[trigger] hexagon.points()[k],
            ) by {
                assert(hints@[k].0@ == hexagon.points()[k]);
            }
            assert forall|v: (int, int)| #[trigger] hexagon.contains_point(v) implies board@.contains_key(v)
                && (board@[v] == Cell::Red <==> on_heart(v)) by {
                let k = choose|k: int| 0 <= k < hexagon.points().len() && hexagon.points()[k] == v;
                assert(hints@[k].0@ == v);
                lemma_last_heart_hint(hints@, v);
            }
        }
        Puzzle::with_clues(board)
    }
}

} // verus!
