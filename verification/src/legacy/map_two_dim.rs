use vstd::prelude::*;

use super::map_point::MapPoint;

verus! {

/// A map of `X` columns and `Y` rows; the outer array holds the rows.
#[derive(Copy, Clone, PartialEq, Eq, Hash, Debug)]
pub struct MyMap2D<T, const X: usize, const Y: usize> {
    items: [[T; X]; Y],
}

impl<T, const X: usize, const Y: usize> View for MyMap2D<T, X, Y> {
    type V = Seq<Seq<T>>;

    /// The rows, each as a sequence of its cells.
    closed spec fn view(&self) -> Seq<Seq<T>> {
        Seq::new(Y as nat, |y: int| self.items@[y]@)
    }
}

impl<T, const X: usize, const Y: usize> MyMap2D<T, X, Y> {
    /// The value at column `x`, row `y`.
    pub open spec fn cell(self, x: int, y: int) -> T {
        self@[y][x]
    }

    /// The map has `Y` rows of `X` cells.
    pub broadcast proof fn lemma_shape(self)
        ensures
            #[trigger] self@.len() == Y,
            forall|y: int| 0 <= y < Y ==> (#[trigger] self@[y]).len() == X,
    {
    }

    /// The value at point `p`.
    pub open spec fn at(self, p: MapPoint<X, Y>) -> T {
        self.cell(p.spec_x() as int, p.spec_y() as int)
    }
}

impl<T: Copy + Default, const X: usize, const Y: usize> MyMap2D<T, X, Y> {
    /// A map with every cell set to `T::default()`; the map must have a column and a row.
    pub fn new() -> (m: Self)
        requires
            X > 0,
            Y > 0,
        ensures
            call_ensures(T::default, (), m.cell(0, 0)),
            forall|x: int, y: int| 0 <= x < X && 0 <= y < Y ==> #[trigger] m.cell(x, y) == m.cell(0, 0),
    {
        let d = T::default();
        let m = MyMap2D { items: [[d; X]; Y] };
        proof {
            assert(m.items@[0]@[0] == d);
        }
        m
    }

    /// A map with every cell set to `init_element`; the map must have a column and a row.
    pub fn init(init_element: T) -> (m: Self)
        requires
            X > 0,
            Y > 0,
        ensures
            forall|x: int, y: int| 0 <= x < X && 0 <= y < Y ==> #[trigger] m.cell(x, y) == init_element,
    {
        MyMap2D { items: [[init_element; X]; Y] }
    }

    pub fn get(&self, coordinates: MapPoint<X, Y>) -> (r: &T)
        requires
            coordinates.wf(),
        ensures
            *r == self.at(coordinates),
    {
        &self.items[coordinates.y()][coordinates.x()]
    }

    /// Mutable access to one cell; the other cells stay unchanged.
    pub fn get_mut(&mut self, coordinates: MapPoint<X, Y>) -> (r: &mut T)
        requires
            coordinates.wf(),
        ensures
            *r == old(self).at(coordinates),
            final(self).at(coordinates) == *final(r),
            forall|x: int, y: int|
                0 <= x < X && 0 <= y < Y && !(x == coordinates.spec_x() && y == coordinates.spec_y())
                    ==> #[trigger] final(self).cell(x, y) == old(self).cell(x, y),
    {
        let y = coordinates.y();
        let x = coordinates.x();
        &mut self.items[y][x]
    }

    /// Stores `value` at `coordinates` and returns the stored value; the other cells stay.
    pub fn set(&mut self, coordinates: MapPoint<X, Y>, value: T) -> (r: &T)
        requires
            coordinates.wf(),
        ensures
            *r == value,
            final(self)@ == old(self)@.update(
                coordinates.spec_y() as int,
                old(self)@[coordinates.spec_y() as int].update(coordinates.spec_x() as int, value),
            ),
    {
        let y = coordinates.y();
        let x = coordinates.x();
        let mut row = self.items[y];
        row[x] = value;
        self.items[y] = row;
        proof {
            assert(self@ =~= old(self)@.update(
                coordinates.spec_y() as int,
                old(self)@[coordinates.spec_y() as int].update(coordinates.spec_x() as int, value),
            ));
        }
        &self.items[y][x]
    }
}

impl<T: Copy, const X: usize, const Y: usize> MyMap2D<T, X, Y> {
    /// The cells of row `r`, from column 0 on.
    pub fn iter_row(&self, r: usize) -> (v: Vec<(MapPoint<X, Y>, T)>)
        requires
            r < Y,
        ensures
            v@.len() == X,
            forall|x: int|
                0 <= x < X ==> (#[trigger] v@[x]).0.spec_x() == x && v@[x].0.spec_y() == r && v@[x].1
                    == self.cell(x, r as int),
    {
        let mut v: Vec<(MapPoint<X, Y>, T)> = Vec::new();
        let mut x: usize = 0;
        while x < X
            invariant
                0 <= x <= X,
                r < Y,
                v@.len() == x,
                forall|k: int|
                    0 <= k < x ==> (#[trigger] v@[k]).0.spec_x() == k && v@[k].0.spec_y() == r
                        && v@[k].1 == self.cell(k, r as int),
            decreases X - x,
        {
            v.push((MapPoint::new(x, r), self.items[r][x]));
            x = x + 1;
        }
        v
    }

    /// The cells of column `c`, from row 0 on.
    pub fn iter_column(&self, c: usize) -> (v: Vec<(MapPoint<X, Y>, T)>)
        requires
            c < X,
        ensures
            v@.len() == Y,
            forall|y: int|
                0 <= y < Y ==> (#[trigger] v@[y]).0.spec_x() == c && v@[y].0.spec_y() == y && v@[y].1
                    == self.cell(c as int, y),
    {
        let mut v: Vec<(MapPoint<X, Y>, T)> = Vec::new();
        let mut y: usize = 0;
        while y < Y
            invariant
                0 <= y <= Y,
                c < X,
                v@.len() == y,
                forall|k: int|
                    0 <= k < y ==> (#[trigger] v@[k]).0.spec_x() == c && v@[k].0.spec_y() == k
                        && v@[k].1 == self.cell(c as int, k),
            decreases Y - y,
        {
            v.push((MapPoint::new(c, y), self.items[y][c]));
            y = y + 1;
        }
        v
    }

    /// The diagonal from the top left corner: points `(k, k)` while inside the map.
    pub fn iter_diagonale_top_left(&self) -> (v: Vec<(MapPoint<X, Y>, T)>)
        requires
            X > 0,
            Y > 0,
        ensures
            v@.len() == if X < Y { X } else { Y },
            forall|k: int|
                0 <= k < v@.len() ==> (#[trigger] v@[k]).0.spec_x() == k && v@[k].0.spec_y() == k
                    && v@[k].1 == self.cell(k, k),
    {
        let mut v: Vec<(MapPoint<X, Y>, T)> = Vec::new();
        let mut k: usize = 0;
        while k < X && k < Y
            invariant
                0 <= k <= X,
                k <= Y,
                v@.len() == k,
                forall|j: int|
                    0 <= j < k ==> (#[trigger] v@[j]).0.spec_x() == j && v@[j].0.spec_y() == j
                        && v@[j].1 == self.cell(j, j),
            decreases X - k,
        {
            v.push((MapPoint::new(k, k), self.items[k][k]));
            k = k + 1;
        }
        v
    }

    /// The diagonal from the top right corner: points `(X - 1 - k, k)` while inside the map.
    pub fn iter_diagonale_top_right(&self) -> (v: Vec<(MapPoint<X, Y>, T)>)
        requires
            X > 0,
            Y > 0,
        ensures
            v@.len() == if X < Y { X } else { Y },
            forall|k: int|
                0 <= k < v@.len() ==> (#[trigger] v@[k]).0.spec_x() == X - 1 - k && v@[k].0.spec_y()
                    == k && v@[k].1 == self.cell(X - 1 - k, k),
    {
        let mut v: Vec<(MapPoint<X, Y>, T)> = Vec::new();
        let mut k: usize = 0;
        while k < X && k < Y
            invariant
                0 <= k <= X,
                k <= Y,
                v@.len() == k,
                forall|j: int|
                    0 <= j < k ==> (#[trigger] v@[j]).0.spec_x() == X - 1 - j && v@[j].0.spec_y() == j
                        && v@[j].1 == self.cell(X - 1 - j, j),
            decreases X - k,
        {
            v.push((MapPoint::new(X - 1 - k, k), self.items[k][X - 1 - k]));
            k = k + 1;
        }
        v
    }

    /// All cells in row-major order: row 0 from column 0 on, then row 1, and so on.
    pub fn iter(&self) -> (v: Vec<(MapPoint<X, Y>, T)>)
        ensures
            v@.len() == X * Y,
            forall|x: int, y: int|
                0 <= x < X && 0 <= y < Y ==> (#[trigger] v@[y * X + x]).0.spec_x() == x && v@[y * X
                    + x].0.spec_y() == y && v@[y * X + x].1 == self.cell(x, y),
    {
        let mut v: Vec<(MapPoint<X, Y>, T)> = Vec::new();
        let mut y: usize = 0;
        while y < Y
            invariant
                0 <= y <= Y,
                v@.len() == y * X,
                forall|a: int, b: int|
                    0 <= a < X && 0 <= b < y ==> (#[trigger] v@[b * X + a]).0.spec_x() == a && v@[b
                        * X + a].0.spec_y() == b && v@[b * X + a].1 == self.cell(a, b),
            decreases Y - y,
        {
            let row = self.iter_row(y);
            let ghost before = v@;
            let mut x: usize = 0;
            while x < X
                invariant
                    0 <= x <= X,
                    0 <= y < Y,
                    v@.len() == y * X + x,
                    row@.len() == X,
                    forall|k: int|
                        0 <= k < X ==> (#[trigger] row@[k]).0.spec_x() == k && row@[k].0.spec_y() == y
                            && row@[k].1 == self.cell(k, y as int),
                    forall|k: int| 0 <= k < y * X ==> #[trigger] v@[k] == before[k],
                    before.len() == y * X,
                    forall|k: int| 0 <= k < x ==> #[trigger] v@[y * X + k] == row@[k],
                decreases X - x,
            {
                v.push(row[x]);
                x = x + 1;
            }
            proof {
                assert forall|a: int, b: int|
                    0 <= a < X && 0 <= b < y + 1 implies (#[trigger] v@[b * X + a]).0.spec_x() == a
                    && v@[b * X + a].0.spec_y() == b && v@[b * X + a].1 == self.cell(a, b) by {
                    lemma_row_index(a, b, X as int, y as int);
                    if b < y {
                        assert(v@[b * X + a] == before[b * X + a]);
                    } else {
                        assert(v@[y * X + a] == row@[a]);
                    }
                }
                assert((y + 1) * X == y * X + X) by (nonlinear_arith);
            }
            y = y + 1;
        }
        v
    }
}

/// Positions of earlier rows come before the current row.
proof fn lemma_row_index(a: int, b: int, cols: int, y: int)
    requires
        0 <= a < cols,
        0 <= b <= y,
    ensures
        b < y ==> b * cols + a < y * cols,
        b == y ==> b * cols + a == y * cols + a,
        0 <= b * cols + a,
{
    if b < y {
        assert(b * cols + a < y * cols) by (nonlinear_arith)
            requires
                0 <= a < cols,
                0 <= b < y,
        ;
    }
    assert(0 <= b * cols) by (nonlinear_arith)
        requires
            0 <= b,
            0 <= cols,
    ;
}

} // verus!
