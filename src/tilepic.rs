//! Kinds of drawn features and the hints that tell where markers are drawn.
use vstd::prelude::*;
use crate::geometry::{Dir4, Pos};

verus! {

/// Kind of a feature as it is drawn on a tile picture.
#[derive(Clone, Debug, PartialEq, Eq, Hash, Copy, Structural)]
pub enum SegmentPicType {
    City,
    Road,
    Field,
    River,
    Feature,
    Junction,
    Cut,
    Bridge,
    Roundabout,
    Tunnel,
}

/// Axis along which markers drawn at a hint point are spread.
#[derive(Clone, Copy, PartialEq, Eq, Debug, Structural)]
pub enum HintLine {
    NoLine,
    UD,
    LR,
}

impl Default for HintLine {
    fn default() -> (r: HintLine)
        ensures
            r == HintLine::NoLine,
    {
        HintLine::NoLine
    }
}

impl HintLine {
    /// A direction along the axis, if there is one.
    pub fn try_dir4(&self) -> (r: Option<Dir4>)
        ensures
            r == match *self {
                HintLine::NoLine => None,
                HintLine::LR => Some(Dir4::Right),
                HintLine::UD => Some(Dir4::Up),
            },
    {
        match self {
            HintLine::NoLine => None,
            HintLine::LR => Some(Dir4::Right),
            HintLine::UD => Some(Dir4::Up),
        }
    }

    /// The axis that a direction runs along.
    pub fn from_dir4(dir: Dir4) -> (r: HintLine)
        ensures
            r == (if dir == Dir4::Left || dir == Dir4::Right {
                HintLine::LR
            } else {
                HintLine::UD
            }),
    {
        match dir {
            Dir4::Left | Dir4::Right => HintLine::LR,
            Dir4::Down | Dir4::Up => HintLine::UD,
        }
    }
}

/// Where markers on a feature are drawn.
#[derive(Debug, Clone)]
pub enum Hint {
    Hintline { pos: Vec<(Pos, HintLine)> },
    LineSegment { line: Vec<(Pos, Pos)> },
}

impl Hint {
    pub fn is_empty(&self) -> (r: bool)
        ensures
            r == match *self {
                Hint::Hintline { pos } => pos@.len() == 0,
                Hint::LineSegment { line } => line@.len() == 0,
            },
    {
        match self {
            Hint::Hintline { pos } => pos.len() == 0,
            Hint::LineSegment { line } => line.len() == 0,
        }
    }
}

impl Default for Hint {
    fn default() -> (r: Hint)
        ensures
            r matches Hint::Hintline { pos } && pos@.len() == 0,
    {
        Hint::Hintline { pos: Vec::new() }
    }
}

/// An end point of a drawn line: a pixel, a numbered point feature, or the
/// middle of an edge.
#[derive(Debug)]
pub enum AnyPos {
    Pos { pos: Pos },
    Point { typ: SegmentPicType, index: usize },
    Dir { dir: Dir4 },
}

} // verus!
