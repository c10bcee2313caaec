use vstd::prelude::*;

verus! {

/// The eight directions and the centre.
#[derive(Clone, Copy, PartialEq, Eq, Debug, Structural)]
pub enum Compass {
    N,
    NE,
    E,
    SE,
    S,
    SW,
    W,
    NW,
    Center,
}

impl Default for Compass {
    fn default() -> (r: Compass)
        ensures
            r == Compass::N,
    {
        Compass::N
    }
}

impl Compass {
    /// Position of a direction on the compass rose, clockwise from north; the centre is 8.
    pub open spec fn rose(self) -> int {
        match self {
            Compass::N => 0,
            Compass::NE => 1,
            Compass::E => 2,
            Compass::SE => 3,
            Compass::S => 4,
            Compass::SW => 5,
            Compass::W => 6,
            Compass::NW => 7,
            Compass::Center => 8,
        }
    }

    /// The next direction clockwise; the centre stays.
    pub fn clockwise(&self) -> (r: Compass)
        ensures
            *self == Compass::Center ==> r == Compass::Center,
            *self != Compass::Center ==> r.rose() == (self.rose() + 1) % 8,
    {
        match self {
            Compass::N => Compass::NE,
            Compass::NE => Compass::E,
            Compass::E => Compass::SE,
            Compass::SE => Compass::S,
            Compass::S => Compass::SW,
            Compass::SW => Compass::W,
            Compass::W => Compass::NW,
            Compass::NW => Compass::N,
            Compass::Center => Compass::Center,
        }
    }

    /// The next direction counterclockwise; the centre stays.
    pub fn counterclockwise(&self) -> (r: Compass)
        ensures
            *self == Compass::Center ==> r == Compass::Center,
            *self != Compass::Center ==> r.rose() == (self.rose() + 7) % 8,
    {
        match self {
            Compass::N => Compass::NW,
            Compass::NW => Compass::W,
            Compass::W => Compass::SW,
            Compass::SW => Compass::S,
            Compass::S => Compass::SE,
            Compass::SE => Compass::E,
            Compass::E => Compass::NE,
            Compass::NE => Compass::N,
            Compass::Center => Compass::Center,
        }
    }

    pub fn is_center(&self) -> (b: bool)
        ensures
            b == (*self == Compass::Center),
    {
        match self {
            Compass::Center => true,
            _ => false,
        }
    }
}

/// The direction whose rose position is `r`, for `0 <= r < 8`.
pub open spec fn compass_of_rose(r: int) -> Compass {
    if r == 0 {
        Compass::N
    } else if r == 1 {
        Compass::NE
    } else if r == 2 {
        Compass::E
    } else if r == 3 {
        Compass::SE
    } else if r == 4 {
        Compass::S
    } else if r == 5 {
        Compass::SW
    } else if r == 6 {
        Compass::W
    } else {
        Compass::NW
    }
}

/// Turning clockwise and then counterclockwise, or the other way round, returns to the same
/// direction; the centre never turns.
pub proof fn lemma_rotation_inverse(c: Compass)
    ensures
        c != Compass::Center ==> compass_of_rose((compass_of_rose((c.rose() + 1) % 8).rose() + 7)
            % 8) == c,
        c != Compass::Center ==> compass_of_rose((compass_of_rose((c.rose() + 7) % 8).rose() + 1)
            % 8) == c,
{
}

} // verus!
