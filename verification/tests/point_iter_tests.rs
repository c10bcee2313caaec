use cg_ultimate_tic_tac_toe::legacy::compass::Compass;
use cg_ultimate_tic_tac_toe::legacy::map_point::MapPoint;
use cg_ultimate_tic_tac_toe::legacy::point_iter::{NeighborIter, OrientationIter};

fn pt(x: usize, y: usize) -> MapPoint<3, 3> {
    MapPoint::new(x, y)
}

fn ray(start: MapPoint<3, 3>, o: Compass) -> Vec<(usize, usize)> {
    let mut it = start.iter_orientation(o);
    let mut out = Vec::new();
    while let Some(p) = it.next() {
        out.push((p.x(), p.y()));
    }
    assert!(it.next().is_none());
    out
}

fn neighbors(it: &mut NeighborIter<3, 3>) -> Vec<((usize, usize), Compass)> {
    let mut out = Vec::new();
    while let Some((p, o)) = it.next() {
        out.push(((p.x(), p.y()), o));
    }
    assert!(it.next().is_none());
    out
}

#[test]
fn test_orientation_iter_runs_to_the_edge() {
    assert_eq!(ray(pt(0, 0), Compass::SE), vec![(0, 0), (1, 1), (2, 2)]);
    assert_eq!(ray(pt(2, 0), Compass::SW), vec![(2, 0), (1, 1), (0, 2)]);
    assert_eq!(ray(pt(1, 1), Compass::N), vec![(1, 1), (1, 0)]);
    assert_eq!(ray(pt(0, 1), Compass::E), vec![(0, 1), (1, 1), (2, 1)]);
    assert_eq!(ray(pt(0, 0), Compass::W), vec![(0, 0)]);
    let mut it = OrientationIter::new(pt(2, 2), Compass::NW);
    assert_eq!(it.next(), Some(pt(2, 2)));
    assert_eq!(it.next(), Some(pt(1, 1)));
    assert_eq!(it.next(), Some(pt(0, 0)));
    assert_eq!(it.next(), None);
}

#[test]
fn test_neighbor_iter_around_the_centre() {
    let mut it = NeighborIter::new(pt(1, 1), Compass::N, false, true, true);
    assert_eq!(
        neighbors(&mut it),
        vec![
            ((1, 0), Compass::N),
            ((2, 0), Compass::NE),
            ((2, 1), Compass::E),
            ((2, 2), Compass::SE),
            ((1, 2), Compass::S),
            ((0, 2), Compass::SW),
            ((0, 1), Compass::W),
            ((0, 0), Compass::NW),
        ]
    );
}

#[test]
fn test_neighbor_iter_in_a_corner() {
    let mut it = NeighborIter::new(pt(0, 0), Compass::N, true, true, true);
    assert_eq!(
        neighbors(&mut it),
        vec![
            ((0, 0), Compass::Center),
            ((1, 0), Compass::E),
            ((1, 1), Compass::SE),
            ((0, 1), Compass::S),
        ]
    );
    let mut it = NeighborIter::new(pt(0, 0), Compass::E, false, false, false);
    assert_eq!(neighbors(&mut it), vec![((1, 0), Compass::E), ((0, 1), Compass::S)]);
    let mut it = NeighborIter::new(pt(2, 2), Compass::NE, false, false, true);
    assert_eq!(neighbors(&mut it), vec![((1, 1), Compass::NW)]);
    let mut it = NeighborIter::new(pt(1, 1), Compass::Center, false, true, true);
    assert_eq!(neighbors(&mut it), vec![((1, 1), Compass::Center)]);
}
