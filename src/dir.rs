use vstd::prelude::*;

use crate::coord::Coord;

verus! {

/// One of the six axis-aligned directions.
#[derive(Clone, Copy, Debug, PartialEq, Eq, Structural, Hash)]
pub enum Dir {
    /// +Z
    North,
    /// -Z
    South,
    /// +X
    East,
    /// -X
    West,
    /// +Y
    Up,
    /// -Y
    Down,
}

/// The direction with ordinal `n` (0 to 5).
pub open spec fn dir_of_ordinal(n: int) -> Dir {
    if n == 0 {
        Dir::North
    } else if n == 1 {
        Dir::South
    } else if n == 2 {
        Dir::East
    } else if n == 3 {
        Dir::West
    } else if n == 4 {
        Dir::Up
    } else {
        Dir::Down
    }
}

impl Dir {
    /// The stable small integer of each direction.
    pub open spec fn ordinal(self) -> int {
        match self {
            Dir::North => 0,
            Dir::South => 1,
            Dir::East => 2,
            Dir::West => 3,
            Dir::Up => 4,
            Dir::Down => 5,
        }
    }

    pub open spec fn dx(self) -> int {
        match self {
            Dir::East => 1,
            Dir::West => -1,
            _ => 0,
        }
    }

    pub open spec fn dy(self) -> int {
        match self {
            Dir::Up => 1,
            Dir::Down => -1,
            _ => 0,
        }
    }

    pub open spec fn dz(self) -> int {
        match self {
            Dir::North => 1,
            Dir::South => -1,
            _ => 0,
        }
    }

    /// All six directions, in ordinal order.
    pub fn iter() -> (r: DirIter)
        ensures
            r.remaining() == 6,
    {
        DirIter::new()
    }

    /// The ordinal of this direction.
    pub fn index(self) -> (r: u8)
        ensures
            r == self.ordinal(),
    {
        match self {
            Dir::North => 0,
            Dir::South => 1,
            Dir::East => 2,
            Dir::West => 3,
            Dir::Up => 4,
            Dir::Down => 5,
        }
    }

    /// The direction with ordinal `n`; there is none above 5.
    pub fn from_index(n: u8) -> (r: Dir)
        requires
            n < 6,
        ensures
            r == dir_of_ordinal(n as int),
            r.ordinal() == n,
    {
        if n == 0 {
            Dir::North
        } else if n == 1 {
            Dir::South
        } else if n == 2 {
            Dir::East
        } else if n == 3 {
            Dir::West
        } else if n == 4 {
            Dir::Up
        } else {
            Dir::Down
        }
    }

    /// The unit step of this direction.
    pub fn offset(self) -> (r: (i8, i8, i8))
        ensures
            r.0 == self.dx(),
            r.1 == self.dy(),
            r.2 == self.dz(),
    {
        match self {
            Dir::North => (0, 0, 1),
            Dir::South => (0, 0, -1),
            Dir::East => (1, 0, 0),
            Dir::West => (-1, 0, 0),
            Dir::Up => (0, 1, 0),
            Dir::Down => (0, -1, 0),
        }
    }
}

impl From<Dir> for Coord {
    fn from(dir: Dir) -> (r: Coord) {
        let (dx, dy, dz) = dir.offset();
        Coord { x: dx as i32, y: dy as i32, z: dz as i32 }
    }
}

impl vstd::std_specs::convert::FromSpecImpl<Dir> for Coord {
    open spec fn obeys_from_spec() -> bool {
        true
    }

    open spec fn from_spec(dir: Dir) -> Coord {
        Coord { x: dir.dx() as i32, y: dir.dy() as i32, z: dir.dz() as i32 }
    }
}

/// Walks the six directions in ordinal order.
pub struct DirIter {
    current: u8,
}

impl DirIter {
    #[verifier::type_invariant]
    spec fn inv(&self) -> bool {
        self.current <= 6
    }

    /// How many directions are still to come.
    pub closed spec fn remaining(&self) -> int {
        6 - self.current
    }

    pub fn new() -> (r: DirIter)
        ensures
            r.remaining() == 6,
    {
        DirIter { current: 0 }
    }

    /// The next direction, or `None` once all six have been given.
    pub fn next(&mut self) -> (r: Option<Dir>)
        ensures
            0 <= final(self).remaining() <= 6,
            old(self).remaining() > 0 ==> r == Some(dir_of_ordinal(6 - old(self).remaining()))
                && final(self).remaining() == old(self).remaining() - 1,
            old(self).remaining() == 0 ==> r.is_none() && final(self).remaining() == 0,
    {
        proof {
            use_type_invariant(&*self);
        }
        if self.current < 6 {
            let d = Dir::from_index(self.current);
            self.current = self.current + 1;
            Some(d)
        } else {
            None
        }
    }
}

} // verus!
