use vstd::prelude::*;

verus! {

/// A move direction.
#[derive(Clone, Copy, Debug, PartialEq, Eq, Hash, Structural)]
pub enum Direction {
    Up,
    Down,
    Left,
    Right,
}

/// The axis along which a direction slides tiles.
#[derive(Clone, Copy, Debug, PartialEq, Eq, Hash, Structural)]
pub enum Axis {
    Vertical,
    Horizontal,
}

/// Up and Down slide along the vertical axis, Left and Right along the horizontal one.
pub open spec fn axis_of(d: Direction) -> Axis {
    match d {
        Direction::Up | Direction::Down => Axis::Vertical,
        Direction::Left | Direction::Right => Axis::Horizontal,
    }
}

/// Down and Right merge from the far end of a line, Up and Left from the near end.
pub open spec fn is_rev(d: Direction) -> bool {
    match d {
        Direction::Up | Direction::Left => false,
        Direction::Down | Direction::Right => true,
    }
}

impl Direction {
    pub fn to_axis(&self) -> (r: Axis)
        ensures
            r == axis_of(*self),
    {
        match self {
            Direction::Up | Direction::Down => Axis::Vertical,
            Direction::Left | Direction::Right => Axis::Horizontal,
        }
    }

    /// Whether this direction merges from the far end of each line.
    pub fn is_dir_rev(&self) -> (r: bool)
        ensures
            r == is_rev(*self),
    {
        match self {
            Direction::Up | Direction::Left => false,
            Direction::Down | Direction::Right => true,
        }
    }
}

} // verus!
