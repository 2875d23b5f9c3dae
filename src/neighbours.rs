use vstd::prelude::*;

use crate::dir::Dir;

verus! {

/// One optional value per face-adjacent direction.
#[derive(Debug, Clone)]
pub struct Neighbours<T> {
    pub north: Option<T>,
    pub south: Option<T>,
    pub west: Option<T>,
    pub east: Option<T>,
    pub up: Option<T>,
    pub down: Option<T>,
}

/// The order in which the entries of a [`Neighbours`] are visited.
pub open spec fn visit_dir(k: int) -> Dir {
    if k == 0 {
        Dir::North
    } else if k == 1 {
        Dir::South
    } else if k == 2 {
        Dir::West
    } else if k == 3 {
        Dir::East
    } else if k == 4 {
        Dir::Up
    } else {
        Dir::Down
    }
}

impl<T> Neighbours<T> {
    /// The entry for direction `d`.
    pub open spec fn slot(self, d: Dir) -> Option<T> {
        match d {
            Dir::North => self.north,
            Dir::South => self.south,
            Dir::West => self.west,
            Dir::East => self.east,
            Dir::Up => self.up,
            Dir::Down => self.down,
        }
    }

    /// No entry is set.
    pub open spec fn is_clear(self) -> bool {
        &&& self.north.is_none()
        &&& self.south.is_none()
        &&& self.west.is_none()
        &&& self.east.is_none()
        &&& self.up.is_none()
        &&& self.down.is_none()
    }

    /// The first visiting position at or after `k` whose entry is set, or 6.
    pub open spec fn first_set_from(self, k: int) -> int
        decreases 6 - k,
    {
        if k >= 6 {
            6
        } else if self.slot(visit_dir(k)).is_some() {
            k
        } else {
            self.first_set_from(k + 1)
        }
    }

    /// Walks the set entries in the order north, south, west, east, up, down.
    pub fn iter(&self) -> (r: NeighboursIter<'_, T>)
        ensures
            r.position() == 0,
            r.target() == *self,
    {
        NeighboursIter { current: 0, neighbours: self }
    }

    /// Unsets every entry.
    pub fn clear(&mut self)
        ensures
            final(self).is_clear(),
    {
        self.north = None;
        self.south = None;
        self.west = None;
        self.east = None;
        self.up = None;
        self.down = None;
    }

    pub fn new() -> (r: Self)
        ensures
            r.is_clear(),
    {
        Self { north: None, south: None, west: None, east: None, up: None, down: None }
    }

    /// The entry for direction `dir`.
    pub fn get(&self, dir: Dir) -> (r: Option<&T>)
        ensures
            r.is_some() == self.slot(dir).is_some(),
            r.is_some() ==> *r.unwrap() == self.slot(dir).unwrap(),
    {
        match dir {
            Dir::North => self.north.as_ref(),
            Dir::South => self.south.as_ref(),
            Dir::West => self.west.as_ref(),
            Dir::East => self.east.as_ref(),
            Dir::Up => self.up.as_ref(),
            Dir::Down => self.down.as_ref(),
        }
    }
}

/// Walks the set entries of a [`Neighbours`] value.
pub struct NeighboursIter<'a, T> {
    current: u8,
    neighbours: &'a Neighbours<T>,
}

impl<'a, T> NeighboursIter<'a, T> {
    #[verifier::type_invariant]
    spec fn inv(&self) -> bool {
        self.current <= 6
    }

    /// The visiting position to look at next.
    pub closed spec fn position(&self) -> int {
        self.current as int
    }

    /// The value being walked.
    pub closed spec fn target(&self) -> Neighbours<T> {
        *self.neighbours
    }

    /// The next set entry with its direction, or `None` when no set entry is left.
    pub fn next(&mut self) -> (r: Option<(Dir, &'a T)>)
        ensures
            0 <= final(self).position() <= 6,
            final(self).target() == old(self).target(),
            ({
                let k = old(self).target().first_set_from(old(self).position());
                if k < 6 {
                    &&& r.is_some()
                    &&& r.unwrap().0 == visit_dir(k)
                    &&& *r.unwrap().1 == old(self).target().slot(visit_dir(k)).unwrap()
                    &&& final(self).position() == k + 1
                } else {
                    &&& r.is_none()
                    &&& final(self).position() == 6
                }
            }),
    {
        proof {
            use_type_invariant(&*self);
        }
        while self.current < 6
            invariant
                self.current <= 6,
                self.neighbours == old(self).neighbours,
                self.neighbours.first_set_from(self.current as int) == old(
                    self,
                ).neighbours.first_set_from(old(self).current as int),
            decreases 6 - self.current,
        {
            let k = self.current;
            self.current = self.current + 1;
            let found = if k == 0 {
                self.neighbours.north.as_ref()
            } else if k == 1 {
                self.neighbours.south.as_ref()
            } else if k == 2 {
                self.neighbours.west.as_ref()
            } else if k == 3 {
                self.neighbours.east.as_ref()
            } else if k == 4 {
                self.neighbours.up.as_ref()
            } else {
                self.neighbours.down.as_ref()
            };
            if let Some(v) = found {
                let d = if k == 0 {
                    Dir::North
                } else if k == 1 {
                    Dir::South
                } else if k == 2 {
                    Dir::West
                } else if k == 3 {
                    Dir::East
                } else if k == 4 {
                    Dir::Up
                } else {
                    Dir::Down
                };
                return Some((d, v));
            }
        }
        None
    }
}

} // verus!
