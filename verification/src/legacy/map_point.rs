use vstd::prelude::*;

use super::compass::Compass;

verus! {

/// Column and row step of a direction: north is up (row - 1), east is right (column + 1).
pub open spec fn step(orientation: Compass) -> (int, int) {
    match orientation {
        Compass::Center => (0, 0),
        Compass::N => (0, -1),
        Compass::NE => (1, -1),
        Compass::E => (1, 0),
        Compass::SE => (1, 1),
        Compass::S => (0, 1),
        Compass::SW => (-1, 1),
        Compass::W => (-1, 0),
        Compass::NW => (-1, -1),
    }
}

/// A point of an `X` by `Y` map; `x` counts columns, `y` rows.
#[derive(Copy, Clone, PartialEq, Eq, Hash, Debug)]
pub struct MapPoint<const X: usize, const Y: usize> {
    x: usize,
    y: usize,
}

impl<const X: usize, const Y: usize> Default for MapPoint<X, Y> {
    fn default() -> (p: MapPoint<X, Y>)
        ensures
            p.spec_x() == 0,
            p.spec_y() == 0,
    {
        MapPoint { x: 0, y: 0 }
    }
}

impl<const X: usize, const Y: usize> MapPoint<X, Y> {
    pub closed spec fn spec_x(self) -> usize {
        self.x
    }

    pub closed spec fn spec_y(self) -> usize {
        self.y
    }

    /// The point at column `x`, row `y`.
    pub closed spec fn spec_new(x: usize, y: usize) -> MapPoint<X, Y> {
        MapPoint { x, y }
    }

    /// A point is given by its coordinates.
    pub broadcast proof fn lemma_spec_new(x: usize, y: usize)
        ensures
            #[trigger] Self::spec_new(x, y).spec_x() == x,
            Self::spec_new(x, y).spec_y() == y,
    {
    }

    /// Points with the same coordinates are equal.
    pub proof fn lemma_point_ext(p: MapPoint<X, Y>, q: MapPoint<X, Y>)
        requires
            p.spec_x() == q.spec_x(),
            p.spec_y() == q.spec_y(),
        ensures
            p == q,
    {
    }

    /// Row-major position of the point.
    pub open spec fn pos(self) -> int {
        self.spec_y() * X + self.spec_x()
    }

    /// Every point handed out lies inside the map.
    pub open spec fn wf(self) -> bool {
        self.spec_x() < X && self.spec_y() < Y
    }

    /// The point at column `x`, row `y`; both must lie inside the map.
    pub fn new(x: usize, y: usize) -> (p: MapPoint<X, Y>)
        requires
            X > 0,
            Y > 0,
            x < X,
            y < Y,
        ensures
            p.wf(),
            p.spec_x() == x,
            p.spec_y() == y,
            p == Self::spec_new(x, y),
    {
        MapPoint { x, y }
    }

    pub fn x(&self) -> (r: usize)
        ensures
            r == self.spec_x(),
    {
        self.x
    }

    pub fn y(&self) -> (r: usize)
        ensures
            r == self.spec_y(),
    {
        self.y
    }

    pub fn is_in_map(&self) -> (b: bool)
        ensures
            b == self.wf(),
            b == (self.spec_x() < X && self.spec_y() < Y),
    {
        self.x < X && self.y < Y
    }

    /// The next point in row-major order, `None` after the last one.
    pub fn forward_x(&self) -> (r: Option<MapPoint<X, Y>>)
        requires
            self.wf(),
        ensures
            self.pos() + 1 < X * Y <==> r is Some,
            r matches Some(q) ==> q.wf() && q.pos() == self.pos() + 1 && (if self.spec_x() + 1
                == X {
                q.spec_x() == 0 && q.spec_y() == self.spec_y() + 1
            } else {
                q.spec_x() == self.spec_x() + 1 && q.spec_y() == self.spec_y()
            }),
    {
        proof {
            lemma_row_major(self.x as int, self.y as int, X as int, Y as int);
        }
        let mut result = *self;
        result.x = result.x + 1;
        if result.x == X {
            result.y = result.y + 1;
            if result.y == Y {
                return None;
            }
            result.x = 0;
        }
        Some(result)
    }

    /// The point moved by `offset` in both coordinates, `None` if it leaves the map.
    pub fn offset_pp(&self, offset: (usize, usize)) -> (r: Option<MapPoint<X, Y>>)
        requires
            self.spec_x() + offset.0 <= usize::MAX,
            self.spec_y() + offset.1 <= usize::MAX,
        ensures
            (self.spec_x() + offset.0 < X && self.spec_y() + offset.1 < Y) <==> r is Some,
            r matches Some(q) ==> q.wf() && q.spec_x() == self.spec_x() + offset.0 && q.spec_y()
                == self.spec_y() + offset.1,
    {
        let result = MapPoint { x: self.x + offset.0, y: self.y + offset.1 };
        if result.is_in_map() {
            Some(result)
        } else {
            None
        }
    }

    /// The point moved back by `offset` in both coordinates, `None` if it leaves the map.
    pub fn offset_mm(&self, offset: (usize, usize)) -> (r: Option<MapPoint<X, Y>>)
        ensures
            (offset.0 <= self.spec_x() && offset.1 <= self.spec_y() && self.spec_x() - offset.0 < X
                && self.spec_y() - offset.1 < Y) <==> r is Some,
            r matches Some(q) ==> q.wf() && q.spec_x() == self.spec_x() - offset.0 && q.spec_y()
                == self.spec_y() - offset.1,
    {
        if offset.0 > self.x || offset.1 > self.y {
            return None;
        }
        let result = MapPoint { x: self.x - offset.0, y: self.y - offset.1 };
        if result.is_in_map() {
            Some(result)
        } else {
            None
        }
    }

    /// The neighbouring point in direction `orientation` (the point itself for the centre),
    /// `None` if it lies outside the map.
    pub fn neighbor(&self, orientation: Compass) -> (r: Option<MapPoint<X, Y>>)
        requires
            self.wf(),
            X < usize::MAX,
            Y < usize::MAX,
        ensures
            ({
                let nx = self.spec_x() + step(orientation).0;
                let ny = self.spec_y() + step(orientation).1;
                &&& (0 <= nx < X && 0 <= ny < Y) <==> r is Some
                &&& r matches Some(q) ==> q.wf() && q.spec_x() == nx && q.spec_y() == ny
            }),
    {
        match orientation {
            Compass::Center => Some(*self),
            Compass::N => self.offset_mm((0, 1)),
            Compass::NE => match self.offset_mm((0, 1)) {
                Some(n) => n.offset_pp((1, 0)),
                None => None,
            },
            Compass::E => self.offset_pp((1, 0)),
            Compass::SE => self.offset_pp((1, 1)),
            Compass::S => self.offset_pp((0, 1)),
            Compass::SW => match self.offset_pp((0, 1)) {
                Some(s) => s.offset_mm((1, 0)),
                None => None,
            },
            Compass::W => self.offset_mm((1, 0)),
            Compass::NW => self.offset_mm((1, 1)),
        }
    }
}

/// Row-major positions: the successor of a point is the next column, or the first column of
/// the next row; the last point has none.
proof fn lemma_row_major(x: int, y: int, cols: int, rows: int)
    requires
        0 <= x < cols,
        0 <= y < rows,
    ensures
        (y * cols + x) + 1 < cols * rows <==> (x + 1 < cols || y + 1 < rows),
        (y + 1) * cols + 0 == y * cols + x + 1 <== x + 1 == cols,
{
    assert((y * cols + x) + 1 < cols * rows <==> (x + 1 < cols || y + 1 < rows)) by (nonlinear_arith)
        requires
            0 <= x < cols,
            0 <= y < rows,
    ;
    assert((y + 1) * cols == y * cols + cols) by (nonlinear_arith);
}

} // verus!
