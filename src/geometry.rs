//! Grid positions, the four edges of a tile, the eight connection points on
//! its perimeter, and quarter-turn rotations.
use vstd::prelude::*;
use core::ops::Neg;

verus! {

/// A rotation applied to a tile when it is placed, in clockwise quarter turns.
#[derive(Copy, Clone, Debug, PartialEq, Eq, Structural)]
pub enum Spin {
    No,
    Clockwise,
    Spin180,
    CounterClockwise,
}

impl Spin {
    /// Number of clockwise quarter turns, in `0..4`.
    pub open spec fn spec_id(self) -> int {
        match self {
            Spin::No => 0,
            Spin::Clockwise => 1,
            Spin::Spin180 => 2,
            Spin::CounterClockwise => 3,
        }
    }

    /// The rotation of `id` quarter turns, taken modulo four.
    pub open spec fn spec_from_id(id: int) -> Spin {
        let m = id % 4;
        if m == 0 {
            Spin::No
        } else if m == 1 {
            Spin::Clockwise
        } else if m == 2 {
            Spin::Spin180
        } else {
            Spin::CounterClockwise
        }
    }

    pub fn id(&self) -> (r: usize)
        ensures
            r == self.spec_id(),
    {
        match self {
            Spin::No => 0,
            Spin::Clockwise => 1,
            Spin::Spin180 => 2,
            Spin::CounterClockwise => 3,
        }
    }

    pub fn from_id(id: usize) -> (r: Spin)
        ensures
            r == Spin::spec_from_id(id as int),
    {
        match id % 4 {
            0 => Spin::No,
            1 => Spin::Clockwise,
            2 => Spin::Spin180,
            _ => Spin::CounterClockwise,
        }
    }

    /// The inverse rotation.
    pub open spec fn spec_neg(self) -> Spin {
        Spin::spec_from_id(4 - self.spec_id())
    }
}

impl core::ops::Neg for Spin {
    type Output = Spin;

    fn neg(self) -> (r: Spin)
        ensures
            r == self.spec_neg(),
    {
        Spin::from_id((4 - self.id()) % 4)
    }
}

impl vstd::std_specs::ops::NegSpecImpl for Spin {
    open spec fn obeys_neg_spec() -> bool {
        true
    }

    open spec fn neg_req(self) -> bool {
        true
    }

    open spec fn neg_spec(self) -> Spin {
        self.spec_neg()
    }
}

/// One edge of a tile, also used as a unit step on the grid.
#[derive(Copy, Clone, Hash, PartialEq, Eq, Debug, Structural)]
pub enum Dir4 {
    Up,
    Right,
    Down,
    Left,
}

impl Dir4 {
    /// Position of the edge in clockwise order starting from `Up`.
    pub open spec fn spec_id(self) -> int {
        match self {
            Dir4::Up => 0,
            Dir4::Right => 1,
            Dir4::Down => 2,
            Dir4::Left => 3,
        }
    }

    /// The edge at clockwise position `id`, taken modulo four.
    pub open spec fn spec_from_id(id: int) -> Dir4 {
        let m = id % 4;
        if m == 0 {
            Dir4::Up
        } else if m == 1 {
            Dir4::Right
        } else if m == 2 {
            Dir4::Down
        } else {
            Dir4::Left
        }
    }

    /// The edge reached by turning this one clockwise by `s`.
    pub open spec fn spec_rotate(self, s: Spin) -> Dir4 {
        Dir4::spec_from_id(self.spec_id() + s.spec_id())
    }

    /// The opposite edge.
    pub open spec fn spec_neg(self) -> Dir4 {
        self.spec_rotate(Spin::Spin180)
    }

    /// Horizontal component of the unit step (x grows to the right).
    pub open spec fn dx(self) -> int {
        match self {
            Dir4::Right => 1,
            Dir4::Left => -1,
            _ => 0,
        }
    }

    /// Vertical component of the unit step (y grows downwards).
    pub open spec fn dy(self) -> int {
        match self {
            Dir4::Up => -1,
            Dir4::Down => 1,
            _ => 0,
        }
    }

    pub fn id(&self) -> (r: usize)
        ensures
            r == self.spec_id(),
    {
        match self {
            Dir4::Up => 0,
            Dir4::Right => 1,
            Dir4::Down => 2,
            Dir4::Left => 3,
        }
    }

    pub fn from_id(id: usize) -> (r: Dir4)
        ensures
            r == Dir4::spec_from_id(id as int),
    {
        match id % 4 {
            0 => Dir4::Up,
            1 => Dir4::Right,
            2 => Dir4::Down,
            _ => Dir4::Left,
        }
    }

    pub fn rotate(&self, orient: Spin) -> (r: Dir4)
        ensures
            r == self.spec_rotate(orient),
    {
        Dir4::from_id(self.id() + orient.id())
    }

    /// The unit step that crosses this edge.
    pub fn to_pos(self) -> (r: Pos)
        ensures
            r.x == self.dx(),
            r.y == self.dy(),
    {
        match self {
            Dir4::Up => Pos { x: 0, y: -1 },
            Dir4::Down => Pos { x: 0, y: 1 },
            Dir4::Left => Pos { x: -1, y: 0 },
            Dir4::Right => Pos { x: 1, y: 0 },
        }
    }

    /// Pixel position inside a tile image, `inward` pixels in from the middle
    /// of this edge.
    pub fn to_tilepos(self, inward: i32) -> (r: Pos)
        requires
            inward >= 2 * Pos::HALFTILE - i32::MAX,
        ensures
            r.x == Pos::HALFTILE + self.dx() * (Pos::HALFTILE - inward),
            r.y == Pos::HALFTILE + self.dy() * (Pos::HALFTILE - inward),
    {
        let k: i32 = Pos::HALFTILE - inward;
        match self {
            Dir4::Up => Pos { x: Pos::HALFTILE, y: Pos::HALFTILE - k },
            Dir4::Down => Pos { x: Pos::HALFTILE, y: Pos::HALFTILE + k },
            Dir4::Left => Pos { x: Pos::HALFTILE - k, y: Pos::HALFTILE },
            Dir4::Right => Pos { x: Pos::HALFTILE + k, y: Pos::HALFTILE },
        }
    }
}

impl core::ops::Neg for Dir4 {
    type Output = Dir4;

    fn neg(self) -> (r: Dir4)
        ensures
            r == self.spec_neg(),
    {
        self.rotate(Spin::Spin180)
    }
}

impl vstd::std_specs::ops::NegSpecImpl for Dir4 {
    open spec fn obeys_neg_spec() -> bool {
        true
    }

    open spec fn neg_req(self) -> bool {
        true
    }

    open spec fn neg_spec(self) -> Dir4 {
        self.spec_neg()
    }
}

/// One of the eight connection points on a tile's perimeter: an edge and which
/// of its two halves.
#[derive(Copy, Clone, Hash, PartialEq, Eq, Debug, Structural)]
pub struct Dir8 {
    pub dir: Dir4,
    pub clockwise_side: bool,
}

impl Dir8 {
    /// The point after turning the tile by `s`: the edge turns, the half stays.
    pub open spec fn spec_rotate(self, s: Spin) -> Dir8 {
        Dir8 { dir: self.dir.spec_rotate(s), clockwise_side: self.clockwise_side }
    }

    /// The point met across the shared edge: the opposite edge, the other half.
    pub open spec fn spec_neg(self) -> Dir8 {
        Dir8 { dir: self.dir.spec_neg(), clockwise_side: !self.clockwise_side }
    }

    pub fn new(dir: Dir4, clockwise_side: bool) -> (r: Dir8)
        ensures
            r == (Dir8 { dir, clockwise_side }),
    {
        Dir8 { dir: dir, clockwise_side: clockwise_side }
    }

    pub fn rotate(&self, orient: Spin) -> (r: Dir8)
        ensures
            r == self.spec_rotate(orient),
    {
        Dir8 { dir: self.dir.rotate(orient), clockwise_side: self.clockwise_side }
    }
}

impl core::ops::Neg for Dir8 {
    type Output = Dir8;

    fn neg(self) -> (r: Dir8)
        ensures
            r == self.spec_neg(),
    {
        Dir8 { dir: self.dir.neg(), clockwise_side: !self.clockwise_side }
    }
}

impl vstd::std_specs::ops::NegSpecImpl for Dir8 {
    open spec fn obeys_neg_spec() -> bool {
        true
    }

    open spec fn neg_req(self) -> bool {
        true
    }

    open spec fn neg_spec(self) -> Dir8 {
        self.spec_neg()
    }
}

/// Coarse kind of a tile edge, compared when tiles are laid side by side.
#[derive(Copy, Clone, Hash, PartialEq, Eq, Debug, Structural)]
pub enum SideType {
    City,
    Road,
    Field,
    River,
}

/// A grid coordinate (x to the right, y downwards).
#[derive(Copy, Clone, Hash, PartialEq, Eq, PartialOrd, Ord, Debug, Structural)]
pub struct Pos {
    pub x: i32,
    pub y: i32,
}

/// Offset of the `k`-th position around a tile, clockwise from north.
pub open spec fn around_offset(k: int) -> (int, int) {
    if k == 0 {
        (0, -1)
    } else if k == 1 {
        (1, -1)
    } else if k == 2 {
        (1, 0)
    } else if k == 3 {
        (1, 1)
    } else if k == 4 {
        (0, 1)
    } else if k == 5 {
        (-1, 1)
    } else if k == 6 {
        (-1, 0)
    } else {
        (-1, -1)
    }
}

impl Pos {
    pub const TILE: i32 = 64;

    pub const HALFTILE: i32 = 32;

    /// Both coordinates lie strictly inside the range of `i32`, so every
    /// neighbouring position can be computed.
    pub open spec fn inner(self) -> bool {
        i32::MIN < self.x < i32::MAX && i32::MIN < self.y < i32::MAX
    }

    /// The neighbouring position across edge `d`.
    pub open spec fn step(self, d: Dir4) -> Pos {
        Pos { x: (self.x + d.dx()) as i32, y: (self.y + d.dy()) as i32 }
    }

    pub fn new(x: i32, y: i32) -> (r: Pos)
        ensures
            r == (Pos { x, y }),
    {
        Pos { x: x, y: y }
    }

    /// The eight surrounding positions, clockwise from north.
    pub fn around(&self) -> (r: Vec<Pos>)
        requires
            self.inner(),
        ensures
            r@.len() == 8,
            forall|k: int|
                0 <= k < 8 ==> r@[k].x == self.x + around_offset(k).0 && r@[k].y == self.y
                    + around_offset(k).1,
    {
        let x = self.x;
        let y = self.y;
        vec![
            Pos { x: x, y: y - 1 },
            Pos { x: x + 1, y: y - 1 },
            Pos { x: x + 1, y: y },
            Pos { x: x + 1, y: y + 1 },
            Pos { x: x, y: y + 1 },
            Pos { x: x - 1, y: y + 1 },
            Pos { x: x - 1, y: y },
            Pos { x: x - 1, y: y - 1 },
        ]
    }
}

impl core::ops::Add<Pos> for Pos {
    type Output = Pos;

    fn add(self, rhs: Pos) -> (r: Pos)
        ensures
            r.x == self.x + rhs.x,
            r.y == self.y + rhs.y,
    {
        Pos { x: self.x + rhs.x, y: self.y + rhs.y }
    }
}

impl vstd::std_specs::ops::AddSpecImpl<Pos> for Pos {
    open spec fn obeys_add_spec() -> bool {
        true
    }

    open spec fn add_req(self, rhs: Pos) -> bool {
        i32::MIN <= self.x + rhs.x <= i32::MAX && i32::MIN <= self.y + rhs.y <= i32::MAX
    }

    open spec fn add_spec(self, rhs: Pos) -> Pos {
        Pos { x: (self.x + rhs.x) as i32, y: (self.y + rhs.y) as i32 }
    }
}

impl core::ops::Add<Dir4> for Pos {
    type Output = Pos;

    fn add(self, rhs: Dir4) -> (r: Pos)
        ensures
            r == self.step(rhs),
    {
        self + rhs.to_pos()
    }
}

impl vstd::std_specs::ops::AddSpecImpl<Dir4> for Pos {
    open spec fn obeys_add_spec() -> bool {
        true
    }

    open spec fn add_req(self, rhs: Dir4) -> bool {
        i32::MIN <= self.x + rhs.dx() <= i32::MAX && i32::MIN <= self.y + rhs.dy() <= i32::MAX
    }

    open spec fn add_spec(self, rhs: Dir4) -> Pos {
        self.step(rhs)
    }
}

impl core::ops::Sub<Pos> for Pos {
    type Output = Pos;

    fn sub(self, rhs: Pos) -> (r: Pos)
        ensures
            r.x == self.x - rhs.x,
            r.y == self.y - rhs.y,
    {
        Pos { x: self.x - rhs.x, y: self.y - rhs.y }
    }
}

impl vstd::std_specs::ops::SubSpecImpl<Pos> for Pos {
    open spec fn obeys_sub_spec() -> bool {
        true
    }

    open spec fn sub_req(self, rhs: Pos) -> bool {
        i32::MIN <= self.x - rhs.x <= i32::MAX && i32::MIN <= self.y - rhs.y <= i32::MAX
    }

    open spec fn sub_spec(self, rhs: Pos) -> Pos {
        Pos { x: (self.x - rhs.x) as i32, y: (self.y - rhs.y) as i32 }
    }
}

impl core::ops::Sub<Dir4> for Pos {
    type Output = Pos;

    fn sub(self, rhs: Dir4) -> (r: Pos)
        ensures
            r.x == self.x - rhs.dx(),
            r.y == self.y - rhs.dy(),
    {
        self - rhs.to_pos()
    }
}

impl vstd::std_specs::ops::SubSpecImpl<Dir4> for Pos {
    open spec fn obeys_sub_spec() -> bool {
        true
    }

    open spec fn sub_req(self, rhs: Dir4) -> bool {
        i32::MIN <= self.x - rhs.dx() <= i32::MAX && i32::MIN <= self.y - rhs.dy() <= i32::MAX
    }

    open spec fn sub_spec(self, rhs: Dir4) -> Pos {
        Pos { x: (self.x - rhs.dx()) as i32, y: (self.y - rhs.dy()) as i32 }
    }
}

impl core::ops::Mul<i32> for Pos {
    type Output = Pos;

    fn mul(self, rhs: i32) -> (r: Pos)
        ensures
            r.x == self.x * rhs,
            r.y == self.y * rhs,
    {
        Pos { x: self.x * rhs, y: self.y * rhs }
    }
}

impl vstd::std_specs::ops::MulSpecImpl<i32> for Pos {
    open spec fn obeys_mul_spec() -> bool {
        true
    }

    open spec fn mul_req(self, rhs: i32) -> bool {
        i32::MIN <= self.x * rhs <= i32::MAX && i32::MIN <= self.y * rhs <= i32::MAX
    }

    open spec fn mul_spec(self, rhs: i32) -> Pos {
        Pos { x: (self.x * rhs) as i32, y: (self.y * rhs) as i32 }
    }
}

/// Turning by a rotation and then by its inverse gives back the edge.
pub proof fn lemma_rotate_inverse(d: Dir4, s: Spin)
    ensures
        d.spec_rotate(s).spec_rotate(s.spec_neg()) == d,
{
}

/// Crossing an edge and then the opposite edge returns to the start.
pub proof fn lemma_step_back(p: Pos, d: Dir4)
    requires
        p.inner(),
    ensures
        p.step(d).step(d.spec_neg()) == p,
        d.spec_neg().spec_neg() == d,
{
}

/// Meeting the point across the shared edge twice gives back the point.
pub proof fn lemma_dir8_neg_involutive(d: Dir8)
    ensures
        d.spec_neg().spec_neg() == d,
{
}

} // verus!
