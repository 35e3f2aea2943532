//! The eight pointer codes and the neighbour each one leads to.
use vstd::prelude::*;

verus! {

/// One of the eight compass neighbours of a cell. Rows grow southward and
/// columns grow eastward.
#[derive(Clone, Copy, Debug, PartialEq, Eq, Structural)]
pub enum Direction {
    NorthEast,
    East,
    SouthEast,
    South,
    SouthWest,
    West,
    NorthWest,
    North,
}

/// The direction that a pointer code stands for, if the code is one of the
/// eight legal ones.
pub open spec fn direction_of_code(code: u64) -> Option<Direction> {
    if code == 1 {
        Some(Direction::NorthEast)
    } else if code == 2 {
        Some(Direction::East)
    } else if code == 4 {
        Some(Direction::SouthEast)
    } else if code == 8 {
        Some(Direction::South)
    } else if code == 16 {
        Some(Direction::SouthWest)
    } else if code == 32 {
        Some(Direction::West)
    } else if code == 64 {
        Some(Direction::NorthWest)
    } else if code == 128 {
        Some(Direction::North)
    } else {
        None
    }
}

impl Direction {
    /// Change of row when stepping this way.
    pub open spec fn row_delta(self) -> int {
        match self {
            Direction::NorthEast | Direction::NorthWest | Direction::North => -1,
            Direction::East | Direction::West => 0,
            Direction::SouthEast | Direction::South | Direction::SouthWest => 1,
        }
    }

    /// Change of column when stepping this way.
    pub open spec fn col_delta(self) -> int {
        match self {
            Direction::NorthEast | Direction::East | Direction::SouthEast => 1,
            Direction::South | Direction::North => 0,
            Direction::SouthWest | Direction::West | Direction::NorthWest => -1,
        }
    }

    /// The code of this direction in a back-link grid.
    pub open spec fn code(self) -> u64 {
        match self {
            Direction::NorthEast => 1,
            Direction::East => 2,
            Direction::SouthEast => 4,
            Direction::South => 8,
            Direction::SouthWest => 16,
            Direction::West => 32,
            Direction::NorthWest => 64,
            Direction::North => 128,
        }
    }

    /// Looks a pointer code up; any value but the eight codes is refused.
    pub fn from_code(code: u64) -> (r: Option<Direction>)
        ensures
            r == direction_of_code(code),
            r matches Some(d) ==> d.code() == code,
    {
        match code {
            1 => Some(Direction::NorthEast),
            2 => Some(Direction::East),
            4 => Some(Direction::SouthEast),
            8 => Some(Direction::South),
            16 => Some(Direction::SouthWest),
            32 => Some(Direction::West),
            64 => Some(Direction::NorthWest),
            128 => Some(Direction::North),
            _ => None,
        }
    }

    /// The offset `(row change, column change)` of the neighbour this way.
    pub fn offset(&self) -> (r: (i8, i8))
        ensures
            r.0 as int == self.row_delta(),
            r.1 as int == self.col_delta(),
    {
        match self {
            Direction::NorthEast => (-1, 1),
            Direction::East => (0, 1),
            Direction::SouthEast => (1, 1),
            Direction::South => (1, 0),
            Direction::SouthWest => (1, -1),
            Direction::West => (0, -1),
            Direction::NorthWest => (-1, -1),
            Direction::North => (-1, 0),
        }
    }
}

} // verus!
