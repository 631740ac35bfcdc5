use hexclue::hexagon::{Hexagon, HexagonError, HexagonIterator};
use hexclue::line::{Line, LineIterator};
use hexclue::ring::{Ring, RingError, RingIterator};
use hexclue::segment::{Segment, SegmentError};
use hexclue::{Axis, Direction, Position, PositionError};

fn pos(x: i32, y: i32, z: i32) -> Position {
    Position::new((x, y, z)).unwrap()
}

#[test]
fn contains() {
    let hexagon = Hexagon::new(Position::new((3, -4, 1)).unwrap(), 3).unwrap();

    assert!(hexagon.contains(Position::new((3, -4, 1)).unwrap()));
    assert!(hexagon.contains(Position::new((3, -5, 2)).unwrap()));
    assert!(hexagon.contains(Position::new((3, -1, -2)).unwrap()));
    assert!(hexagon.contains(Position::new((2, -1, -1)).unwrap()));
    assert!(!hexagon.contains(Position::new((3, 0, -3)).unwrap()));
    assert!(!hexagon.contains(Position::new((2, 0, -2)).unwrap()));

    assert!(Ring::new(hexagon.origin(), 3)
        .unwrap()
        .positions()
        .into_iter()
        .all(|position| hexagon.contains(position)));
    assert!(Ring::new(hexagon.origin(), 4)
        .unwrap()
        .positions()
        .into_iter()
        .all(|position| !hexagon.contains(position)));
}

#[test]
fn hexagon_segment() {
    let hexagon = Hexagon::new(Position::new((3, -4, 1)).unwrap(), 3).unwrap();

    let segment = hexagon.segment(0, Direction::XY).unwrap();
    assert_eq!((0, -1, 1), segment.start().into());
    assert_eq!((6, -7, 1), segment.end().into());
    assert_eq!(segment.length(), 7);

    let segment = hexagon.segment(3, Direction::ZY).unwrap();
    assert_eq!((6, -4, -2), segment.start().into());
    assert_eq!((6, -7, 1), segment.end().into());
    assert_eq!(segment.length(), 4);

    let segment = hexagon.segment(-3, Direction::ZY).unwrap();
    assert_eq!((0, -1, 1), segment.start().into());
    assert_eq!((0, -4, 4), segment.end().into());
    assert_eq!(segment.length(), 4);
}

#[test]
fn segments() {
    let hexagon = Hexagon::new(Position::new((3, -4, 1)).unwrap(), 3).unwrap();
    let mut iterator = hexagon.segments(Direction::XZ).into_iter();

    let expected = [
        (-3, (3, -7, 4), (6, -7, 1), 4),
        (-2, (2, -6, 4), (6, -6, 0), 5),
        (-1, (1, -5, 4), (6, -5, -1), 6),
        (0, (0, -4, 4), (6, -4, -2), 7),
        (1, (0, -3, 3), (5, -3, -2), 6),
        (2, (0, -2, 2), (4, -2, -2), 5),
        (3, (0, -1, 1), (3, -1, -2), 4),
    ];
    for (d, start, end, length) in expected {
        let (distance, segment) = iterator.next().unwrap();
        assert_eq!(d, distance);
        assert_eq!(start, segment.start().into());
        assert_eq!(end, segment.end().into());
        assert_eq!(segment.length(), length);
        assert!(segment
            .positions()
            .into_iter()
            .all(|position| hexagon.contains(position)));
    }

    assert!(iterator.next().is_none());
}

#[test]
fn hexagon_iterator() {
    let hexagon = Hexagon::new(Position::new((3, -4, 1)).unwrap(), 2).unwrap();
    let mut iterator = HexagonIterator::new(hexagon);

    assert_eq!((3, -4, 1), iterator.next().unwrap().into());

    assert_eq!((4, -5, 1), iterator.next().unwrap().into());
    assert_eq!((4, -4, 0), iterator.next().unwrap().into());
    assert_eq!((3, -3, 0), iterator.next().unwrap().into());
    assert_eq!((2, -3, 1), iterator.next().unwrap().into());
    assert_eq!((2, -4, 2), iterator.next().unwrap().into());
    assert_eq!((3, -5, 2), iterator.next().unwrap().into());

    assert_eq!((5, -6, 1), iterator.next().unwrap().into());
    assert_eq!((5, -5, 0), iterator.next().unwrap().into());
    assert_eq!((5, -4, -1), iterator.next().unwrap().into());
    assert_eq!((4, -3, -1), iterator.next().unwrap().into());
    assert_eq!((3, -2, -1), iterator.next().unwrap().into());
    assert_eq!((2, -2, 0), iterator.next().unwrap().into());
    assert_eq!((1, -2, 1), iterator.next().unwrap().into());
    assert_eq!((1, -3, 2), iterator.next().unwrap().into());
    assert_eq!((1, -4, 3), iterator.next().unwrap().into());
    assert_eq!((2, -5, 3), iterator.next().unwrap().into());
    assert_eq!((3, -6, 3), iterator.next().unwrap().into());
    assert_eq!((4, -6, 2), iterator.next().unwrap().into());

    assert!(iterator.next().is_none());

    assert!(hexagon
        .positions()
        .into_iter()
        .all(|position| hexagon.contains(position)));
}

#[test]
fn corner() {
    let ring = Ring::new(Position::new((1, -3, 2)).unwrap(), 2).unwrap();

    assert_eq!((3, -5, 2), ring.corner(Direction::XY).into());
    assert_eq!((3, -3, 0), ring.corner(Direction::XZ).into());
    assert_eq!((-1, -1, 2), ring.corner(Direction::YX).into());
    assert_eq!((1, -1, 0), ring.corner(Direction::YZ).into());
    assert_eq!((-1, -3, 4), ring.corner(Direction::ZX).into());
    assert_eq!((1, -5, 4), ring.corner(Direction::ZY).into());
}

#[test]
fn ring_segment() {
    let ring = Ring::new(Position::new((1, -3, 2)).unwrap(), 4).unwrap();
    let segment = ring.segment(Direction::XY);

    assert_eq!(ring.corner(Direction::XY), segment.position(0).unwrap());
    assert_eq!((5, -7, 2), segment.position(0).unwrap().into());
    assert_eq!((5, -6, 1), segment.position(1).unwrap().into());
    assert_eq!((5, -5, 0), segment.position(2).unwrap().into());
    assert_eq!((5, -4, -1), segment.position(3).unwrap().into());
    assert_eq!((5, -3, -2), ring.corner(Direction::XZ).into());
}

#[test]
fn ring_iterator() {
    let ring = Ring::new(Position::new((1, -3, 2)).unwrap(), 2).unwrap();
    let mut iterator = RingIterator::new(ring);

    assert_eq!((3, -5, 2), iterator.next().unwrap().into());
    assert_eq!((3, -4, 1), iterator.next().unwrap().into());
    assert_eq!((3, -3, 0), iterator.next().unwrap().into());
    assert_eq!((2, -2, 0), iterator.next().unwrap().into());
    assert_eq!((1, -1, 0), iterator.next().unwrap().into());
    assert_eq!((0, -1, 1), iterator.next().unwrap().into());
    assert_eq!((-1, -1, 2), iterator.next().unwrap().into());
    assert_eq!((-1, -2, 3), iterator.next().unwrap().into());
    assert_eq!((-1, -3, 4), iterator.next().unwrap().into());
    assert_eq!((0, -4, 4), iterator.next().unwrap().into());
    assert_eq!((1, -5, 4), iterator.next().unwrap().into());
    assert_eq!((2, -5, 3), iterator.next().unwrap().into());
    assert!(iterator.next().is_none());
}

#[test]
fn line_position() {
    let line = Line::new(Position::new((0, 1, -1)).unwrap(), Direction::XY);

    assert_eq!((0, 1, -1), line.position(0).into());
    assert_eq!((1, 0, -1), line.position(1).into());
    assert_eq!((-1, 2, -1), line.position(-1).into());
    assert_eq!((5, -4, -1), line.position(5).into());
    assert_eq!((-5, 6, -1), line.position(-5).into());
}

#[test]
fn line_iterator() {
    let line = Line::new(Position::new((0, 1, -1)).unwrap(), Direction::XY);

    let mut iterator = LineIterator::new(line);
    assert_eq!((0, 1, -1), iterator.next().unwrap().into());
    assert_eq!((1, 0, -1), iterator.next().unwrap().into());
    assert_eq!((-1, 2, -1), iterator.next_back().unwrap().into());
    assert_eq!((2, -1, -1), iterator.next().unwrap().into());
    assert_eq!((-2, 3, -1), iterator.next_back().unwrap().into());
}

#[test]
fn normalize() {
    let line = Line::new(Position::new((-3, 4, -1)).unwrap(), Direction::ZY);

    assert_eq!((-3, 0, 3), line.normalize().position(0).into());
    assert_eq!(Direction::YZ, line.normalize().direction());
    assert_eq!(line.normalize().position(0), line.position(4));

    let other_line: Line = Line::new(Position::new((-3, -2, 5)).unwrap(), Direction::YZ);

    assert_eq!(line.normalize(), other_line.normalize());
}

#[test]
fn segment_iterator() {
    let segment = Segment::new(Position::new((1, 2, -3)).unwrap(), 3, Direction::XZ).unwrap();
    let mut iterator = segment.positions().into_iter();

    assert_eq!((1, 2, -3), iterator.next().unwrap().into());
    assert_eq!((1, 2, -3), segment.start().into());
    assert_eq!((2, 2, -4), iterator.next().unwrap().into());
    assert_eq!((3, 2, -5), iterator.next().unwrap().into());
    assert_eq!((3, 2, -5), segment.end().into());
    assert!(iterator.next().is_none());
}

#[test]
fn segment_position() {
    let segment = Segment::new(Position::new((1, 2, -3)).unwrap(), 3, Direction::XZ).unwrap();

    assert_eq!(segment.start(), segment.position(0).unwrap());
    assert_eq!((1, 2, -3), segment.position(0).unwrap().into());
    assert_eq!((2, 2, -4), segment.position(1).unwrap().into());
    assert_eq!((3, 2, -5), segment.position(2).unwrap().into());
    assert_eq!(segment.end(), segment.position(2).unwrap());

    assert!(segment.position(-1).is_none());
    assert!(segment.position(-3).is_none());
}

#[test]
fn position_rejects_invalid_triples() {
    assert!(matches!(
        Position::new((1, 1, 1)),
        Err(PositionError::InvalidCoordinates((1, 1, 1)))
    ));
    assert!(Position::new((2, -5, 3)).is_ok());
    for (x, y) in [(0, 0), (5, -9), (-7, 3), (100, 200)] {
        let (a, b, c) = Position::new((x, y, -x - y)).unwrap().coordinates();
        assert_eq!(a + b + c, 0);
    }
}

#[test]
fn position_arithmetic() {
    let p = pos(2, -5, 3);
    let q = pos(-1, 4, -3);
    assert_eq!((1, -1, 0), p.add(q).into());
    assert_eq!((3, -9, 6), p.sub(q).into());
    assert_eq!((-2, 5, -3), p.neg().into());
    assert_eq!((6, -15, 9), p.mul(3).into());
    assert_eq!(p.distance(), 5);
    assert_eq!(p.axis(Axis::Z), 3);
}

#[test]
fn direction_cycles() {
    for direction in Direction::all() {
        assert_eq!(direction.rotate().rotate_back(), direction);
        assert_eq!(direction.opposite().opposite(), direction);
        let n = direction.normalize();
        assert!(Direction::normalized().contains(&n));
        let unit: Position = direction.into();
        assert_eq!(unit.distance(), 1);
    }
    assert_eq!(Direction::XZ.normalize(), Direction::ZX);
    assert_eq!(Direction::XY.axes(), (Axis::X, Axis::Z, Axis::Y));
}

#[test]
fn hexagon_counts_every_position_once() {
    for r in 1..6 {
        let hexagon = Hexagon::new(Position::zero(), r).unwrap();
        let positions = hexagon.positions();
        assert_eq!(positions.len() as i32, 1 + 3 * r * (r + 1));
        for (i, p) in positions.iter().enumerate() {
            assert!(p.distance() <= r);
            assert!(!positions[..i].contains(p));
        }
    }
}

#[test]
fn ring_positions_at_radius() {
    for r in 1..6 {
        let ring = Ring::zero(r).unwrap();
        let positions = ring.positions();
        assert_eq!(positions.len() as i32, 6 * r);
        assert!(positions.iter().all(|p| p.distance() == r));
    }
}

#[test]
fn segment_ends() {
    let segment = Segment::new(pos(-2, 1, 1), 5, Direction::YZ).unwrap();
    assert_eq!(segment.position(0), Some(segment.start()));
    assert_eq!(segment.position(4), Some(segment.end()));
    assert_eq!((-2, 5, -3), segment.end().into());
    assert!(segment.position(-1).is_none());
    assert!(segment.position(5).is_none());
}

#[test]
fn construction_errors() {
    assert!(matches!(
        Hexagon::new(Position::zero(), 0),
        Err(HexagonError::InsufficientRadius(0))
    ));
    assert!(matches!(
        Ring::new(Position::zero(), -2),
        Err(RingError::InsufficientRadius(-2))
    ));
    assert!(matches!(
        Segment::new(Position::zero(), 0, Direction::XY),
        Err(SegmentError::InsufficientLength(0))
    ));
    assert!(Hexagon::new(Position::zero(), 1).unwrap().ring(2).is_none());
    assert!(Hexagon::new(Position::zero(), 2).unwrap().segment(3, Direction::XY).is_none());
}

#[test]
fn normalized_lines_are_equal() {
    let a = Line::normalized(pos(1, 2, -3), Direction::XY);
    let b = Line::normalized(pos(4, -1, -3), Direction::YX);
    assert_eq!(a, b);
    assert_eq!(a.origin(), pos(0, 3, -3));
}
