use vstd::prelude::*;

use super::compass::{compass_of_rose, Compass};
use super::map_point::{step, MapPoint};

verus! {

/// `k` steps along an axis in direction `d`.
pub open spec fn along(k: int, d: int) -> int {
    if d > 0 {
        k
    } else if d < 0 {
        -k
    } else {
        0
    }
}

/// How many positions `c, c + d, c + 2d, ...` lie in `0..size`; `None` when `d` is 0.
pub open spec fn axis_room(c: int, d: int, size: int) -> Option<int> {
    if d > 0 {
        Some(size - c)
    } else if d < 0 {
        Some(c + 1)
    } else {
        None
    }
}

/// Number of points of the map on the ray from column `x`, row `y` in direction `o`, the start
/// included.
pub open spec fn ray_len(x: int, y: int, o: Compass, cols: int, rows: int) -> int {
    match (axis_room(x, step(o).0, cols), axis_room(y, step(o).1, rows)) {
        (Some(a), Some(b)) => if a < b {
            a
        } else {
            b
        },
        (Some(a), None) => a,
        (None, Some(b)) => b,
        (None, None) => 1,
    }
}

/// The points of the map from `p` on in direction `o`, `p` first, until the edge.
pub open spec fn ray<const X: usize, const Y: usize>(p: MapPoint<X, Y>, o: Compass) -> Seq<
    MapPoint<X, Y>,
> {
    Seq::new(
        ray_len(p.spec_x() as int, p.spec_y() as int, o, X as int, Y as int) as nat,
        |k: int|
            MapPoint::<X, Y>::spec_new(
                (p.spec_x() + along(k, step(o).0)) as usize,
                (p.spec_y() + along(k, step(o).1)) as usize,
            ),
    )
}

/// The points of the map from a start point on in one direction, the start point first, until
/// the edge of the map.
pub struct OrientationIter<const X: usize, const Y: usize> {
    current_point: MapPoint<X, Y>,
    orientation: Compass,
    finished: bool,
}

impl<const X: usize, const Y: usize> OrientationIter<X, Y> {
    pub closed spec fn inv(&self) -> bool {
        &&& self.current_point.wf()
        &&& self.orientation != Compass::Center
        &&& X < usize::MAX
        &&& Y < usize::MAX
    }

    /// The points still to come.
    pub closed spec fn remaining(&self) -> Seq<MapPoint<X, Y>> {
        if self.finished {
            seq![]
        } else {
            ray(self.current_point, self.orientation)
        }
    }

    /// A walk from `start_point` in direction `orientation`, which is not the centre.
    pub fn new(start_point: MapPoint<X, Y>, orientation: Compass) -> (it: OrientationIter<X, Y>)
        requires
            start_point.wf(),
            orientation != Compass::Center,
            X < usize::MAX,
            Y < usize::MAX,
        ensures
            it.inv(),
            it.remaining() == ray(start_point, orientation),
    {
        OrientationIter { current_point: start_point, orientation, finished: false }
    }

    /// The next point, `None` past the edge.
    pub fn next(&mut self) -> (r: Option<MapPoint<X, Y>>)
        requires
            old(self).inv(),
        ensures
            final(self).inv(),
            old(self).remaining().len() == 0 ==> r is None && final(self).remaining().len() == 0,
            old(self).remaining().len() > 0 ==> r == Some(old(self).remaining()[0])
                && final(self).remaining() == old(self).remaining().drop_first(),
    {
        if self.finished {
            return None;
        }
        let result = self.current_point;
        let ghost p = result;
        let ghost o = self.orientation;
        let ghost x = p.spec_x() as int;
        let ghost y = p.spec_y() as int;
        let ghost old_ray = ray(p, o);
        proof {
            MapPoint::<X, Y>::lemma_spec_new(x as usize, y as usize);
            MapPoint::<X, Y>::lemma_point_ext(p, MapPoint::<X, Y>::spec_new(x as usize, y as usize));
            assert(old_ray[0] == p);
        }
        match self.current_point.neighbor(self.orientation) {
            Some(point) => {
                self.current_point = point;
                proof {
                    let new_ray = ray(point, o);
                    assert(new_ray.len() == old_ray.len() - 1);
                    assert forall|k: int| 0 <= k < new_ray.len() implies new_ray[k] == old_ray.drop_first()[k] by {
                        assert(along(k + 1, step(o).0) == step(o).0 + along(k, step(o).0));
                        assert(along(k + 1, step(o).1) == step(o).1 + along(k, step(o).1));
                    }
                    assert(new_ray =~= old_ray.drop_first());
                }
            },
            None => {
                self.finished = true;
                proof {
                    assert(old_ray.len() == 1);
                    assert(old_ray.drop_first() =~= Seq::<MapPoint<X, Y>>::empty());
                }
            },
        }
        Some(result)
    }
}

impl<const X: usize, const Y: usize> MapPoint<X, Y> {
    /// The points from this one on in direction `orientation`, see [`OrientationIter`].
    pub fn iter_orientation(&self, orientation: Compass) -> (it: OrientationIter<X, Y>)
        requires
            self.wf(),
            orientation != Compass::Center,
            X < usize::MAX,
            Y < usize::MAX,
        ensures
            it.inv(),
            it.remaining() == ray(*self, orientation),
    {
        OrientationIter::new(*self, orientation)
    }
}

/// Position `k` steps clockwise of rose position `r` (both in `0..8`, `k <= 8`).
pub open spec fn rose_add(r: int, k: int) -> int {
    if r + k < 8 {
        r + k
    } else {
        r + k - 8
    }
}

/// Clockwise steps from rose position `r` to `ri`.
pub open spec fn rose_dist(r: int, ri: int) -> int {
    if ri >= r {
        ri - r
    } else {
        ri - r + 8
    }
}

/// One turn of a neighbour walk: to the next direction, or the one after it when corners are
/// left out, clockwise or counterclockwise; the centre stays.
pub open spec fn turn(o: Compass, corners: bool, clockwise: bool) -> Compass {
    if o == Compass::Center {
        Compass::Center
    } else {
        let s = if corners {
            1int
        } else {
            2int
        };
        compass_of_rose(
            if clockwise {
                rose_add(o.rose(), s)
            } else {
                rose_add(o.rose(), 8 - s)
            },
        )
    }
}

/// Number of turns from `o` until `initial` is reached again.
#[verifier::opaque]
pub open spec fn turns_left(o: Compass, initial: Compass, corners: bool, clockwise: bool) -> int {
    if o == Compass::Center {
        1
    } else {
        let d = if clockwise {
            rose_dist(o.rose(), initial.rose())
        } else {
            rose_dist(initial.rose(), o.rose())
        };
        if corners {
            if d == 0 {
                8
            } else {
                d
            }
        } else {
            if d == 0 {
                4
            } else {
                d / 2
            }
        }
    }
}

/// The directions a neighbour walk looks at from `o` on, until it is back at `initial`.
pub open spec fn directions(o: Compass, initial: Compass, corners: bool, clockwise: bool) -> Seq<
    Compass,
>
    decreases turns_left(o, initial, corners, clockwise),
{
    let next = turn(o, corners, clockwise);
    if next == initial || turns_left(next, initial, corners, clockwise) >= turns_left(
        o,
        initial,
        corners,
        clockwise,
    ) || turns_left(next, initial, corners, clockwise) < 0 {
        seq![o]
    } else {
        seq![o] + directions(next, initial, corners, clockwise)
    }
}

/// The neighbour of `p` in direction `o` (`p` itself for the centre), if it lies in the map.
pub open spec fn neighbor_of<const X: usize, const Y: usize>(p: MapPoint<X, Y>, o: Compass) -> Option<
    MapPoint<X, Y>,
> {
    let nx = p.spec_x() + step(o).0;
    let ny = p.spec_y() + step(o).1;
    if 0 <= nx < X && 0 <= ny < Y {
        Some(MapPoint::<X, Y>::spec_new(nx as usize, ny as usize))
    } else {
        None
    }
}

/// The neighbours of `p` inside the map in the directions `os`, each with its direction.
pub open spec fn neighbors_in<const X: usize, const Y: usize>(p: MapPoint<X, Y>, os: Seq<Compass>) -> Seq<
    (MapPoint<X, Y>, Compass),
>
    decreases os.len(),
{
    if os.len() == 0 {
        seq![]
    } else {
        match neighbor_of(p, os[0]) {
            Some(q) => seq![(q, os[0])] + neighbors_in(p, os.drop_first()),
            None => neighbors_in(p, os.drop_first()),
        }
    }
}

/// Whether directions `o` and `initial` lie an even number of steps apart on the rose.
pub open spec fn same_parity(o: Compass, initial: Compass) -> bool {
    rose_dist(o.rose(), initial.rose()) % 2 == 0
}

/// The neighbours of a point inside the map, turning around it from an initial direction until
/// back there, with or without the corners, clockwise or counterclockwise, optionally the point
/// itself first (as its own neighbour in the centre direction).
pub struct NeighborIter<const X: usize, const Y: usize> {
    include_center: bool,
    include_corners: bool,
    center_point: MapPoint<X, Y>,
    initial_orientation: Compass,
    current_orientation: Compass,
    rotation_direction: bool,
    finished: bool,
}

impl<const X: usize, const Y: usize> NeighborIter<X, Y> {
    pub closed spec fn inv(&self) -> bool {
        &&& self.center_point.wf()
        &&& X < usize::MAX
        &&& Y < usize::MAX
        &&& (self.current_orientation == Compass::Center) == (self.initial_orientation
            == Compass::Center)
        &&& !self.include_corners ==> same_parity(self.current_orientation, self.initial_orientation)
        &&& self.include_center ==> self.current_orientation == self.initial_orientation
    }

    /// The directions still to look at.
    pub closed spec fn pending_directions(&self) -> Seq<Compass> {
        if self.finished {
            seq![]
        } else {
            (if self.include_center {
                seq![Compass::Center]
            } else {
                seq![]
            }) + directions(
                self.current_orientation,
                self.initial_orientation,
                self.include_corners,
                self.rotation_direction,
            )
        }
    }

    /// The neighbours still to come.
    pub closed spec fn remaining(&self) -> Seq<(MapPoint<X, Y>, Compass)> {
        neighbors_in(self.center_point, self.pending_directions())
    }

    /// A walk around `center_point` starting in direction `initial_orientation`, clockwise when
    /// `rotation_direction` holds.
    pub fn new(
        center_point: MapPoint<X, Y>,
        initial_orientation: Compass,
        include_center: bool,
        include_corners: bool,
        rotation_direction: bool,
    ) -> (it: NeighborIter<X, Y>)
        requires
            center_point.wf(),
            X < usize::MAX,
            Y < usize::MAX,
        ensures
            it.inv(),
            it.remaining() == neighbors_in(
                center_point,
                (if include_center {
                    seq![Compass::Center]
                } else {
                    seq![]
                }) + directions(initial_orientation, initial_orientation, include_corners, rotation_direction),
            ),
    {
        NeighborIter {
            include_center,
            include_corners,
            center_point,
            initial_orientation,
            current_orientation: initial_orientation,
            rotation_direction,
            finished: false,
        }
    }

    /// Measure of the walk: directions still to look at.
    spec fn left(&self) -> int {
        if self.finished {
            0
        } else {
            (if self.include_center {
                1int
            } else {
                0int
            }) + turns_left(
                self.current_orientation,
                self.initial_orientation,
                self.include_corners,
                self.rotation_direction,
            )
        }
    }

    /// Moves to the next direction: past the centre first, then one turn.
    fn rotate_orientation(&mut self)
        requires
            old(self).inv(),
            !old(self).finished,
        ensures
            final(self).inv(),
            final(self).pending_directions() == old(self).pending_directions().drop_first(),
            0 <= final(self).left() < old(self).left(),
            final(self).center_point == old(self).center_point,
    {
        if self.include_center {
            self.include_center = false;
            proof {
                lemma_turn(
                    self.current_orientation,
                    self.initial_orientation,
                    self.include_corners,
                    self.rotation_direction,
                );
                assert(final(self).pending_directions() =~= old(self).pending_directions().drop_first());
            }
        } else {
            let ghost o = self.current_orientation;
            let ghost init = self.initial_orientation;
            let ghost corners = self.include_corners;
            let ghost cw = self.rotation_direction;
            if self.rotation_direction {
                self.current_orientation = if self.include_corners {
                    self.current_orientation.clockwise()
                } else {
                    self.current_orientation.clockwise().clockwise()
                };
            } else {
                self.current_orientation = if self.include_corners {
                    self.current_orientation.counterclockwise()
                } else {
                    self.current_orientation.counterclockwise().counterclockwise()
                };
            }
            self.finished = self.current_orientation == self.initial_orientation;
            proof {
                if o != Compass::Center {
                    lemma_rose(o);
                    lemma_rose_step(o.rose());
                    let r1 = rose_add(o.rose(), 1);
                    let r7 = rose_add(o.rose(), 7);
                    lemma_rose_back(r1);
                    lemma_rose_back(r7);
                    lemma_rose_step(r1);
                    lemma_rose_step(r7);
                    lemma_rose(self.current_orientation);
                    lemma_rose_back(rose_add(o.rose(), 2));
                    lemma_rose_back(rose_add(o.rose(), 6));
                }
                lemma_turn(o, init, corners, cw);
                assert(self.current_orientation == turn(o, corners, cw));
                assert(final(self).pending_directions() =~= old(self).pending_directions().drop_first());
            }
        }
    }

    /// The next neighbour inside the map with its direction, `None` once the walk is around.
    pub fn next(&mut self) -> (r: Option<(MapPoint<X, Y>, Compass)>)
        requires
            old(self).inv(),
        ensures
            final(self).inv(),
            old(self).remaining().len() == 0 ==> r is None && final(self).remaining().len() == 0,
            old(self).remaining().len() > 0 ==> r == Some(old(self).remaining()[0])
                && final(self).remaining() == old(self).remaining().drop_first(),
    {
        while !self.finished
            invariant
                self.inv(),
                self.center_point == old(self).center_point,
                self.remaining() == old(self).remaining(),
            decreases self.left(),
        {
            let ghost before = self.pending_directions();
            let ghost o = before[0];
            let ghost p = self.center_point;
            proof {
                if !self.include_center {
                    assert(directions(self.current_orientation, self.initial_orientation, self.include_corners, self.rotation_direction)[0] == self.current_orientation);
                }
            }
            let result = if self.include_center {
                proof {
                    MapPoint::<X, Y>::lemma_spec_new(p.spec_x(), p.spec_y());
                    MapPoint::<X, Y>::lemma_point_ext(p, MapPoint::<X, Y>::spec_new(p.spec_x(), p.spec_y()));
                    assert(neighbor_of(p, o) == Some(p));
                }
                Some((self.center_point, Compass::Center))
            } else {
                match self.center_point.neighbor(self.current_orientation) {
                    Some(n) => {
                        proof {
                            let nx = (p.spec_x() + step(o).0) as usize;
                            let ny = (p.spec_y() + step(o).1) as usize;
                            MapPoint::<X, Y>::lemma_spec_new(nx, ny);
                            MapPoint::<X, Y>::lemma_point_ext(n, MapPoint::<X, Y>::spec_new(nx, ny));
                            assert(neighbor_of(p, o) == Some(n));
                        }
                        Some((n, self.current_orientation))
                    },
                    None => None,
                }
            };
            proof {
                assert(result == (match neighbor_of(p, o) {
                    Some(q) => Some((q, o)),
                    None => None::<(MapPoint<X, Y>, Compass)>,
                }));
            }
            self.rotate_orientation();
            match result {
                Some(map_point) => {
                    return Some(map_point);
                },
                None => (),
            }
        }
        None
    }
}

/// Rose positions and directions other than the centre correspond one to one.
proof fn lemma_rose(c: Compass)
    ensures
        c != Compass::Center ==> 0 <= c.rose() < 8 && compass_of_rose(c.rose()) == c,
{
}

/// Turning once on the rose, in either sense, in terms of [`rose_add`].
proof fn lemma_rose_step(x: int)
    requires
        0 <= x < 8,
    ensures
        (x + 1) % 8 == rose_add(x, 1),
        (x + 7) % 8 == rose_add(x, 7),
        rose_add(rose_add(x, 1), 1) == rose_add(x, 2),
        rose_add(rose_add(x, 7), 7) == rose_add(x, 6),
{
}

proof fn lemma_rose_back(x: int)
    requires
        0 <= x < 8,
    ensures
        compass_of_rose(x) != Compass::Center,
        compass_of_rose(x).rose() == x,
{
}

/// A turn of `s` steps keeps the parity of the distance to `ri`, and unless it lands on `ri` it
/// shortens the way there.
proof fn lemma_rose_turn(r: int, ri: int, s: int, clockwise: bool)
    requires
        0 <= r < 8,
        0 <= ri < 8,
        s == 1 || s == 2,
        s == 2 ==> rose_dist(r, ri) % 2 == 0,
    ensures
        ({
            let r2 = if clockwise {
                rose_add(r, s)
            } else {
                rose_add(r, 8 - s)
            };
            let d = if clockwise { rose_dist(r, ri) } else { rose_dist(ri, r) };
            let d2 = if clockwise { rose_dist(r2, ri) } else { rose_dist(ri, r2) };
            &&& 0 <= r2 < 8
            &&& s == 2 ==> rose_dist(r2, ri) % 2 == 0
            &&& r2 != ri ==> 0 < d2 && (d == 0 ==> d2 == 8 - s) && (d != 0 ==> d2 == d - s)
            &&& r2 == ri <==> d == s
        }),
{
}

/// One turn moves to the next direction of the walk and brings it closer to its end.
proof fn lemma_turn(o: Compass, initial: Compass, corners: bool, clockwise: bool)
    requires
        (o == Compass::Center) == (initial == Compass::Center),
        !corners ==> same_parity(o, initial),
    ensures
        ({
            let next = turn(o, corners, clockwise);
            &&& (next == Compass::Center) == (initial == Compass::Center)
            &&& !corners ==> same_parity(next, initial)
            &&& next != initial ==> 0 <= turns_left(next, initial, corners, clockwise) == turns_left(
                o,
                initial,
                corners,
                clockwise,
            ) - 1
            &&& turns_left(o, initial, corners, clockwise) >= 1
        }),
{
    reveal(turns_left);
    if o != Compass::Center {
        let s = if corners {
            1int
        } else {
            2int
        };
        lemma_rose(o);
        lemma_rose(initial);
        lemma_rose_turn(o.rose(), initial.rose(), s, clockwise);
        let r2 = if clockwise {
            rose_add(o.rose(), s)
        } else {
            rose_add(o.rose(), 8 - s)
        };
        lemma_rose_back(r2);
        assert(turn(o, corners, clockwise) == compass_of_rose(r2));
        if compass_of_rose(r2) != initial {
            assert(r2 != initial.rose());
        }
    }
}
/// A walk is one turn from its start only when a single turn is left.
proof fn lemma_last_turn(o: Compass, initial: Compass, corners: bool, clockwise: bool)
    requires
        o != Compass::Center,
        initial != Compass::Center,
        !corners ==> same_parity(o, initial),
        turn(o, corners, clockwise) == initial,
    ensures
        turns_left(o, initial, corners, clockwise) == 1,
{
    reveal(turns_left);
    let s = if corners {
        1int
    } else {
        2int
    };
    lemma_rose(o);
    lemma_rose(initial);
    lemma_rose_turn(o.rose(), initial.rose(), s, clockwise);
    let r2 = if clockwise {
        rose_add(o.rose(), s)
    } else {
        rose_add(o.rose(), 8 - s)
    };
    lemma_rose_back(r2);
    assert(r2 == initial.rose());
}

/// The directions of a walk from `o` count as many as the turns left to its start.
proof fn lemma_directions_len(o: Compass, initial: Compass, corners: bool, clockwise: bool)
    requires
        (o == Compass::Center) == (initial == Compass::Center),
        !corners ==> same_parity(o, initial),
    ensures
        directions(o, initial, corners, clockwise).len() == turns_left(o, initial, corners, clockwise),
    decreases turns_left(o, initial, corners, clockwise),
{
    lemma_turn(o, initial, corners, clockwise);
    let next = turn(o, corners, clockwise);
    if next != initial {
        lemma_directions_len(next, initial, corners, clockwise);
    } else if o != Compass::Center {
        lemma_last_turn(o, initial, corners, clockwise);
    } else {
        reveal(turns_left);
    }
}

/// A walk around a point looks at every direction once before it is back at the start: eight
/// directions with the corners, four without, and only the centre when it starts there.
pub proof fn lemma_neighbor_walk_len(initial: Compass, corners: bool, clockwise: bool)
    ensures
        directions(initial, initial, corners, clockwise).len() == (if initial == Compass::Center {
            1int
        } else if corners {
            8int
        } else {
            4int
        }),
{
    reveal(turns_left);
    lemma_directions_len(initial, initial, corners, clockwise);
    if initial != Compass::Center {
        lemma_rose(initial);
    }
}

} // verus!
