use vstd::prelude::*;

use crate::position::{
    step, step_x, step_y, valid_view, walk, Direction, Distance, Position,
};

verus! {

/// An infinite straight line: every position reachable from `origin` by a
/// whole number of steps in `direction`.
#[derive(Debug, Clone, Copy, PartialEq, Eq, Structural)]
pub struct Line {
    pub origin: Position,
    pub direction: Direction,
}

impl Line {
    /// The position `k` steps from the origin.
    pub open spec fn point(self, k: int) -> (int, int) {
        walk(self.origin.px(), self.origin.py(), self.direction, k)
    }

    /// The origin of the normal form: shifted along the line so that its
    /// coordinate on the canonical direction's positive axis is zero.
    pub open spec fn normal_origin(self) -> (int, int) {
        let d = self.direction.spec_normalize();
        let deviation = self.origin.axis_value(d.spec_axes().0);
        (self.origin.px() - step_x(d, deviation), self.origin.py() - step_y(d, deviation))
    }

    /// Two lines have the same normal form exactly when their directions are
    /// equal or opposite and the origin of one lies on the other: when they
    /// cover the same positions.
    pub proof fn lemma_normal_form(self, other: Line)
        ensures
            (self.normal_origin() == other.normal_origin() && self.direction.spec_normalize()
                == other.direction.spec_normalize()) <==> (self.direction.spec_normalize()
                == other.direction.spec_normalize() && exists|k: int| self.point(k) == other.origin@),
    {
        let d = self.direction.spec_normalize();
        if d == other.direction.spec_normalize() {
            let a = self.origin.axis_value(d.spec_axes().0);
            let b = other.origin.axis_value(d.spec_axes().0);
            let k = if self.direction == d {
                b - a
            } else {
                a - b
            };
            if self.normal_origin() == other.normal_origin() {
                assert(self.point(k) == other.origin@);
            }
            if exists|k: int| self.point(k) == other.origin@ {
                let j = choose|j: int| self.point(j) == other.origin@;
                assert(self.normal_origin() == other.normal_origin());
            }
        }
    }

    /// The line through `origin` in `direction`.
    pub fn new(origin: Position, direction: Direction) -> (r: Line)
        ensures
            r.origin == origin,
            r.direction == direction,
    {
        Line { origin, direction }
    }

    /// The normal form of the line through `origin` in `direction`.
    pub fn normalized(origin: Position, direction: Direction) -> (r: Line)
        requires
            origin.valid(),
            valid_view(Line { origin, direction }.normal_origin()),
        ensures
            r.origin@ == (Line { origin, direction }).normal_origin(),
            r.direction == direction.spec_normalize(),
    {
        Line::new(origin, direction).normalize()
    }

    /// The position `distance` steps from the origin (negative steps go
    /// backwards).
    pub fn position(&self, distance: Distance) -> (r: Position)
        requires
            valid_view(self.point(distance as int)),
        ensures
            r@ == self.point(distance as int),
            r.valid(),
    {
        let (dx, dy) = step(self.direction, distance as i64);
        Position::from_xy(self.origin.x() as i64 + dx, self.origin.y() as i64 + dy)
    }

    pub fn origin(&self) -> (r: Position)
        ensures
            r == self.origin,
    {
        self.origin
    }

    pub fn direction(&self) -> (r: Direction)
        ensures
            r == self.direction,
    {
        self.direction
    }

    /// The canonical form of the line: its direction normalized and its
    /// origin moved along the line to where the direction's positive axis
    /// coordinate is zero. Two lines cover the same positions exactly when
    /// their normal forms are equal.
    pub fn normalize(&self) -> (r: Line)
        requires
            self.origin.valid(),
            valid_view(self.normal_origin()),
        ensures
            r.origin@ == self.normal_origin(),
            r.direction == self.direction.spec_normalize(),
    {
        let direction = self.direction.normalize();
        let deviation = self.origin.axis(direction.positive_axis());
        let (dx, dy) = step(direction, deviation as i64);
        let origin = Position::from_xy(self.origin.x() as i64 - dx, self.origin.y() as i64 - dy);
        Line { origin, direction }
    }
}

/// Walks a line in both directions from its origin: `next` yields the origin
/// and then the positions ahead of it, `next_back` the positions behind it.
#[derive(Debug, Clone, Copy)]
pub struct LineIterator {
    pub line: Line,
    pub distance: Distance,
    pub distance_back: Distance,
}

impl LineIterator {
    pub fn new(line: Line) -> (r: LineIterator)
        ensures
            r.line == line,
            r.distance == 0,
            r.distance_back == -1,
    {
        LineIterator { line, distance: 0, distance_back: -1 }
    }

    /// The next position ahead; a line never ends.
    pub fn next(&mut self) -> (r: Option<Position>)
        requires
            old(self).distance < i32::MAX,
            valid_view(old(self).line.point(old(self).distance as int)),
        ensures
            r matches Some(p) && p@ == old(self).line.point(old(self).distance as int),
            final(self).distance == old(self).distance + 1,
            final(self).distance_back == old(self).distance_back,
            final(self).line == old(self).line,
    {
        let distance = self.distance;
        self.distance = distance + 1;
        Some(self.line.position(distance))
    }

    /// The next position behind the origin.
    pub fn next_back(&mut self) -> (r: Option<Position>)
        requires
            old(self).distance_back > i32::MIN,
            valid_view(old(self).line.point(old(self).distance_back as int)),
        ensures
            r matches Some(p) && p@ == old(self).line.point(old(self).distance_back as int),
            final(self).distance_back == old(self).distance_back - 1,
            final(self).distance == old(self).distance,
            final(self).line == old(self).line,
    {
        let distance_back = self.distance_back;
        self.distance_back = distance_back - 1;
        Some(self.line.position(distance_back))
    }
}

} // verus!
