//! Textures: colors as a function of surface coordinates and position.
use vstd::prelude::*;
use crate::fixed::{self, floor_div, LIMIT};
use crate::vec3::{Vec3, v3};

verus! {

/// A single color everywhere.
#[derive(Clone, Copy, PartialEq, Eq, Structural, Debug)]
pub struct Solid {
    pub albedo: Vec3,
}

/// A three-dimensional checker pattern of cells `scale` wide; cells whose
/// coordinates sum to an even number show `even`, the others `odd`.
#[derive(Debug)]
pub struct Checkered {
    pub scale: i64,
    pub even: Box<Texture>,
    pub odd: Box<Texture>,
}

/// A color as a function of position.
#[derive(Debug)]
pub enum Texture {
    Solid(Solid),
    Checkered(Checkered),
}

impl Solid {
    pub fn new(albedo: Vec3) -> (r: Solid)
        ensures
            r.albedo == albedo,
    {
        Solid { albedo }
    }

    /// The constant color, whatever the position.
    pub fn value(&self, uv: (i64, i64), point: &Vec3) -> (r: Vec3)
        ensures
            r == self.albedo,
    {
        self.albedo
    }
}

impl Checkered {
    /// The sum of the cell coordinates of `p`.
    pub open spec fn cell_sum(self, p: Vec3) -> int {
        floor_div(p.x as int, self.scale as int) + floor_div(p.y as int, self.scale as int)
            + floor_div(p.z as int, self.scale as int)
    }

    /// `p` lies in a cell that shows the even texture.
    pub open spec fn even_at(self, p: Vec3) -> bool {
        self.cell_sum(p) % 2 == 0
    }

    pub fn new(scale: i64, even: Box<Texture>, odd: Box<Texture>) -> (r: Checkered)
        ensures
            r.scale == scale,
            r.even == even,
            r.odd == odd,
    {
        Checkered { scale, even, odd }
    }

    /// Whether `point` lies in an even cell.
    pub fn is_even(&self, point: &Vec3) -> (r: bool)
        ensures
            r == self.even_at(*point),
    {
        let s = fixed::floor_div_int(point.x, self.scale) + fixed::floor_div_int(point.y, self.scale)
            + fixed::floor_div_int(point.z, self.scale);
        if s >= 0 {
            s % 2 == 0
        } else {
            (-s) % 2 == 0
        }
    }
}

impl Texture {
    /// The color at `p`.
    pub open spec fn spec_value(self, p: Vec3) -> Vec3
        decreases self,
    {
        match self {
            Texture::Solid(s) => s.albedo,
            Texture::Checkered(c) => if c.even_at(p) {
                c.even.spec_value(p)
            } else {
                c.odd.spec_value(p)
            },
        }
    }

    /// The color at `point`; `uv` is not used by any texture.
    pub fn value(&self, uv: (i64, i64), point: &Vec3) -> (r: Vec3)
        ensures
            r == self.spec_value(*point),
        decreases self,
    {
        match self {
            Texture::Solid(s) => s.value(uv, point),
            Texture::Checkered(c) => {
                if c.is_even(point) {
                    c.even.value(uv, point)
                } else {
                    c.odd.value(uv, point)
                }
            },
        }
    }
}

/// Moving a point by one cell width along x moves it to a cell of the other parity.
pub proof fn lemma_checkered_parity(c: Checkered, p: Vec3)
    requires
        c.scale != 0,
        -LIMIT <= p.x <= LIMIT,
        -LIMIT <= p.y <= LIMIT,
        -LIMIT <= p.z <= LIMIT,
        -LIMIT <= p.x + c.scale <= LIMIT,
    ensures
        c.even_at(p) != c.even_at(p.spec_add(v3(c.scale as int, 0, 0))),
{
    let s = c.scale as int;
    let q = p.spec_add(v3(s, 0, 0));
    assert(q.x == p.x + s && q.y == p.y && q.z == p.z);
    if s > 0 {
        vstd::arithmetic::div_mod::lemma_div_plus_one(p.x as int, s);
        assert(floor_div(q.x as int, s) == floor_div(p.x as int, s) + 1);
    } else {
        vstd::arithmetic::div_mod::lemma_div_plus_one(-(p.x as int), -s);
        assert(-(q.x as int) == -(p.x as int) + (-s));
        assert(floor_div(q.x as int, s) == floor_div(p.x as int, s) + 1);
    }
    assert(c.cell_sum(q) == c.cell_sum(p) + 1);
}

} // verus!
