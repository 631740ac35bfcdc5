use vstd::prelude::*;

use crate::line::Line;
use crate::position::{valid_view, walk, Direction, Distance, Position};

verus! {

/// A bounded run of `length` positions starting at the line's origin and
/// stretching in the line's direction.
#[derive(Debug, Clone, Copy, PartialEq, Eq, Structural)]
pub struct Segment {
    pub line: Line,
    pub length: Distance,
}

/// Why a segment could not be built.
#[derive(Debug, Clone, Copy, PartialEq, Eq)]
pub enum SegmentError {
    InsufficientLength(Distance),
}

impl Segment {
    /// The segment is non-empty and all of its positions are representable.
    pub open spec fn wf(self) -> bool {
        &&& self.length > 0
        &&& self.line.origin.valid()
        &&& valid_view(self.line.point(self.length - 1))
    }

    /// The `i`-th position of the segment.
    pub open spec fn point(self, i: int) -> (int, int) {
        self.line.point(i)
    }

    /// The positions of the segment, in order.
    pub open spec fn points(self) -> Seq<(int, int)> {
        Seq::new(self.length as nat, |i: int| self.point(i))
    }

    /// Every position between the two ends is representable.
    pub proof fn lemma_points_valid(self, i: int)
        requires
            self.wf(),
            0 <= i < self.length,
        ensures
            valid_view(self.point(i)),
    {
    }

    /// A segment of length `L` starts at its first position and ends at its
    /// position `L - 1`; `position` has nothing outside `0..L`.
    pub proof fn lemma_ends(self)
        requires
            self.wf(),
        ensures
            self.point(0) == self.line.origin@,
            self.points().len() == self.length,
            self.points()[0] == self.line.origin@,
            self.points()[self.length - 1] == self.line.point(self.length - 1),
    {
    }

    /// The segment of `length` positions from `origin` in `direction`; the
    /// length must be positive.
    pub fn new(origin: Position, length: Distance, direction: Direction) -> (r: Result<
        Segment,
        SegmentError,
    >)
        requires
            origin.valid(),
            length > 0 ==> valid_view(walk(origin.px(), origin.py(), direction, length - 1)),
        ensures
            r is Ok <==> length > 0,
            r matches Ok(s) ==> s.wf() && s.line.origin == origin && s.length == length
                && s.line.direction == direction,
            r matches Err(e) ==> e == SegmentError::InsufficientLength(length),
    {
        if length > 0 {
            Ok(Segment { line: Line::new(origin, direction), length })
        } else {
            Err(SegmentError::InsufficientLength(length))
        }
    }

    pub fn start(&self) -> (r: Position)
        ensures
            r == self.line.origin,
    {
        self.line.origin()
    }

    pub fn end(&self) -> (r: Position)
        requires
            self.wf(),
        ensures
            r@ == self.point(self.length - 1),
            r.valid(),
    {
        self.line.position(self.length - 1)
    }

    pub fn length(&self) -> (r: Distance)
        ensures
            r == self.length,
    {
        self.length
    }

    /// The position `distance` steps from the start, if that lies on the
    /// segment.
    pub fn position(&self, distance: Distance) -> (r: Option<Position>)
        requires
            self.wf(),
        ensures
            r is Some <==> 0 <= distance < self.length,
            r matches Some(p) ==> p@ == self.point(distance as int) && p.valid(),
    {
        if distance >= 0 && distance < self.length {
            proof {
                self.lemma_points_valid(distance as int);
            }
            Some(self.line.position(distance))
        } else {
            None
        }
    }

    pub fn direction(&self) -> (r: Direction)
        ensures
            r == self.line.direction,
    {
        self.line.direction()
    }

    pub fn line(&self) -> (r: Line)
        ensures
            r == self.line,
    {
        self.line
    }

    /// The positions of the segment from start to end.
    pub fn positions(&self) -> (r: Vec<Position>)
        requires
            self.wf(),
        ensures
            r@.len() == self.length,
            forall|i: int| 0 <= i < r@.len() ==> (#[trigger] r@[i])@ == self.point(i) && r@[i].valid(),
    {
        let mut r: Vec<Position> = Vec::new();
        let mut i: i32 = 0;
        while i < self.length
            invariant
                self.wf(),
                0 <= i <= self.length,
                r@.len() == i,
                forall|j: int| 0 <= j < i ==> (#[trigger] r@[j])@ == self.point(j) && r@[j].valid(),
            decreases self.length - i,
        {
            proof {
                self.lemma_points_valid(i as int);
            }
            r.push(self.line.position(i));
            i = i + 1;
        }
        r
    }
}

} // verus!
