//! Points, axis-aligned bounding boxes, and the footprint of a box on the
//! placement grid.
use crate::scalar::Scalar;
use vstd::prelude::*;

verus! {

/// A point or a vector of three single-precision coordinates.
#[derive(Clone, Copy, Debug, PartialEq, Eq, Structural)]
pub struct Point3 {
    pub x: Scalar,
    pub y: Scalar,
    pub z: Scalar,
}

/// Whole grid cells along the three axes.
#[derive(Clone, Copy, Debug, PartialEq, Eq, Structural)]
pub struct Cells {
    pub x: i32,
    pub y: i32,
    pub z: i32,
}

/// An axis-aligned box, by its least and greatest corner.
#[derive(Clone, Copy, Debug, PartialEq, Eq, Structural)]
pub struct BoundingBox {
    pub mins: Point3,
    pub maxs: Point3,
}

impl Point3 {
    /// The coordinate-wise difference `self - other`, each coordinate
    /// rounded as binary32 subtraction rounds.
    pub open spec fn spec_minus(self, other: Point3) -> Point3 {
        Point3 {
            x: self.x.spec_minus(other.x),
            y: self.y.spec_minus(other.y),
            z: self.z.spec_minus(other.z),
        }
    }

    pub fn new(x: Scalar, y: Scalar, z: Scalar) -> (p: Point3)
        ensures
            p == (Point3 { x, y, z }),
    {
        Point3 { x, y, z }
    }

    pub fn from_bits(x: u32, y: u32, z: u32) -> (p: Point3)
        ensures
            p.x.bits == x,
            p.y.bits == y,
            p.z.bits == z,
    {
        Point3 { x: Scalar { bits: x }, y: Scalar { bits: y }, z: Scalar { bits: z } }
    }

    pub fn minus(self, other: Point3) -> (p: Point3)
        ensures
            p == self.spec_minus(other),
    {
        Point3 {
            x: self.x.minus(other.x),
            y: self.y.minus(other.y),
            z: self.z.minus(other.z),
        }
    }
}

impl BoundingBox {
    /// The box of no points at all: every least coordinate is `+infinity`
    /// and every greatest one `-infinity`, so the box is inverted.
    pub open spec fn spec_empty() -> BoundingBox {
        BoundingBox {
            mins: Point3 {
                x: Scalar { bits: 0x7f80_0000 },
                y: Scalar { bits: 0x7f80_0000 },
                z: Scalar { bits: 0x7f80_0000 },
            },
            maxs: Point3 {
                x: Scalar { bits: 0xff80_0000 },
                y: Scalar { bits: 0xff80_0000 },
                z: Scalar { bits: 0xff80_0000 },
            },
        }
    }

    /// The unit box, from the origin to `(1, 1, 1)`.
    pub open spec fn spec_unit() -> BoundingBox {
        BoundingBox {
            mins: Point3 { x: Scalar { bits: 0 }, y: Scalar { bits: 0 }, z: Scalar { bits: 0 } },
            maxs: Point3 {
                x: Scalar { bits: 0x3f80_0000 },
                y: Scalar { bits: 0x3f80_0000 },
                z: Scalar { bits: 0x3f80_0000 },
            },
        }
    }

    /// The box widened to hold `v`. A NaN coordinate of `v` widens nothing.
    pub open spec fn spec_enclose(self, v: Point3) -> BoundingBox {
        BoundingBox {
            mins: Point3 {
                x: v.x.spec_lesser(self.mins.x),
                y: v.y.spec_lesser(self.mins.y),
                z: v.z.spec_lesser(self.mins.z),
            },
            maxs: Point3 {
                x: v.x.spec_greater(self.maxs.x),
                y: v.y.spec_greater(self.maxs.y),
                z: v.z.spec_greater(self.maxs.z),
            },
        }
    }

    /// The least box that holds every vertex, widened from the empty box one
    /// vertex after the other.
    pub open spec fn spec_of(vertices: Seq<Point3>) -> BoundingBox
        decreases vertices.len(),
    {
        if vertices.len() == 0 {
            Self::spec_empty()
        } else {
            Self::spec_of(vertices.drop_last()).spec_enclose(vertices.last())
        }
    }

    /// The extents: greatest corner minus least corner.
    pub open spec fn spec_extents(self) -> Point3 {
        self.maxs.spec_minus(self.mins)
    }

    /// The grid cells that the box takes on each axis: each extent raised to
    /// one unit where it is below, then cut to a whole number.
    pub open spec fn spec_cells(self) -> (int, int, int) {
        let e = self.spec_extents();
        (e.x.spec_cells(), e.y.spec_cells(), e.z.spec_cells())
    }

    pub fn new(mins: Point3, maxs: Point3) -> (b: BoundingBox)
        ensures
            b == (BoundingBox { mins, maxs }),
    {
        BoundingBox { mins, maxs }
    }

    pub fn empty() -> (b: BoundingBox)
        ensures
            b == Self::spec_empty(),
    {
        BoundingBox {
            mins: Point3::new(Scalar::infinity(), Scalar::infinity(), Scalar::infinity()),
            maxs: Point3::new(
                Scalar::negative_infinity(),
                Scalar::negative_infinity(),
                Scalar::negative_infinity(),
            ),
        }
    }

    pub fn unit() -> (b: BoundingBox)
        ensures
            b == Self::spec_unit(),
    {
        BoundingBox {
            mins: Point3::new(Scalar::zero(), Scalar::zero(), Scalar::zero()),
            maxs: Point3::new(Scalar::one(), Scalar::one(), Scalar::one()),
        }
    }

    /// The box widened to hold `v`.
    pub fn enclose(self, v: Point3) -> (b: BoundingBox)
        ensures
            b == self.spec_enclose(v),
    {
        BoundingBox {
            mins: Point3 {
                x: v.x.lesser(self.mins.x),
                y: v.y.lesser(self.mins.y),
                z: v.z.lesser(self.mins.z),
            },
            maxs: Point3 {
                x: v.x.greater(self.maxs.x),
                y: v.y.greater(self.maxs.y),
                z: v.z.greater(self.maxs.z),
            },
        }
    }

    pub fn extents(&self) -> (e: Point3)
        ensures
            e == self.spec_extents(),
    {
        self.maxs.minus(self.mins)
    }

    /// The grid cells that the box takes on each axis, each at least one.
    pub fn cells(&self) -> (c: Cells)
        ensures
            (c.x as int, c.y as int, c.z as int) == self.spec_cells(),
            c.x >= 1,
            c.y >= 1,
            c.z >= 1,
    {
        let e = self.extents();
        Cells { x: e.x.cells(), y: e.y.cells(), z: e.z.cells() }
    }
}

impl Default for BoundingBox {
    fn default() -> (b: BoundingBox)
        ensures
            b == BoundingBox::spec_unit(),
    {
        BoundingBox::unit()
    }
}

/// The bounding box of a mesh: the running least and greatest coordinate on
/// each axis over all its vertices. A mesh without vertices gives the
/// inverted empty box.
pub fn calculate_aabb(vertices: &Vec<Point3>) -> (b: BoundingBox)
    ensures
        b == BoundingBox::spec_of(vertices@),
{
    let mut b = BoundingBox::empty();
    let mut i: usize = 0;
    while i < vertices.len()
        invariant
            i <= vertices.len(),
            b == BoundingBox::spec_of(vertices@.take(i as int)),
        decreases vertices.len() - i,
    {
        proof {
            let next = vertices@.take(i + 1);
            assert(next.drop_last() =~= vertices@.take(i as int));
            assert(next.last() == vertices@[i as int]);
        }
        b = b.enclose(vertices[i]);
        i = i + 1;
    }
    proof {
        assert(vertices@.take(i as int) =~= vertices@);
    }
    b
}

/// The bounding box of a model of several sub-meshes: that of the first
/// one; the others are not looked at. A model without a sub-mesh has none.
pub open spec fn spec_first_mesh_box(meshes: Seq<Vec<Point3>>) -> Option<BoundingBox> {
    if meshes.len() == 0 {
        None
    } else {
        Some(BoundingBox::spec_of(meshes[0]@))
    }
}

/// The bounding box of a model: that of its first sub-mesh, or none where
/// it has no sub-mesh.
pub fn first_mesh_box(meshes: &Vec<Vec<Point3>>) -> (r: Option<BoundingBox>)
    ensures
        r == spec_first_mesh_box(meshes@),
        r is None <==> meshes@.len() == 0,
        r matches Some(b) ==> b == BoundingBox::spec_of(meshes@[0]@),
{
    if meshes.len() == 0 {
        None
    } else {
        Some(calculate_aabb(&meshes[0]))
    }
}

/// The bounding box holds every vertex: on each axis no coordinate that is a
/// number lies below the least corner or above the greatest, and the
/// corners themselves are never NaN.
pub proof fn lemma_box_holds_vertices(vertices: Seq<Point3>, i: int)
    requires
        0 <= i < vertices.len(),
    ensures
        ({
            let b = BoundingBox::spec_of(vertices);
            let v = vertices[i];
            &&& !v.x.spec_less(b.mins.x) && !b.maxs.x.spec_less(v.x)
            &&& !v.y.spec_less(b.mins.y) && !b.maxs.y.spec_less(v.y)
            &&& !v.z.spec_less(b.mins.z) && !b.maxs.z.spec_less(v.z)
        }),
    decreases vertices.len(),
{
    lemma_corners_are_numbers(vertices);
    lemma_corners_are_numbers(vertices.drop_last());
    if i < vertices.len() - 1 {
        lemma_box_holds_vertices(vertices.drop_last(), i);
    }
}

/// No corner coordinate of a bounding box of vertices is NaN.
pub proof fn lemma_corners_are_numbers(vertices: Seq<Point3>)
    ensures
        ({
            let b = BoundingBox::spec_of(vertices);
            &&& !b.mins.x.is_nan() && !b.maxs.x.is_nan()
            &&& !b.mins.y.is_nan() && !b.maxs.y.is_nan()
            &&& !b.mins.z.is_nan() && !b.maxs.z.is_nan()
        }),
    decreases vertices.len(),
{
    if vertices.len() > 0 {
        lemma_corners_are_numbers(vertices.drop_last());
    }
}

} // verus!
