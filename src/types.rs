//! Index types and the symmetry metadata stored beside a mesh.
use vstd::prelude::*;

verus! {

/// Position of a vertex in the mesh's vertex array.
pub type VertIndex = usize;

/// Position of a line in the mesh's line array.
pub type LineIndex = usize;

/// Position of a poly in the mesh's poly array.
pub type PolyIndex = usize;

/// An edge: an unordered pair of vertex indices.
pub type Line = (VertIndex, VertIndex);

/// A face: a cyclic list of vertex indices in winding order.
pub type Poly = Vec<VertIndex>;

/// One of the three coordinate axes.
#[derive(Clone, Copy, Debug, PartialEq, Eq, Structural)]
pub enum Axis {
    X,
    Y,
    Z,
}

/// Coordinate number of the axis: 0 for x, 1 for y, 2 for z.
pub open spec fn axis_coordinate(a: Axis) -> usize {
    match a {
        Axis::X => 0,
        Axis::Y => 1,
        Axis::Z => 2,
    }
}

/// The pair of coordinates that a turn about the axis acts on, first to
/// second being the positive sense: x acts on (z, y), y on (x, z), z on
/// (x, y).
pub open spec fn axis_plane(a: Axis) -> (usize, usize) {
    match a {
        Axis::X => (2, 1),
        Axis::Y => (0, 2),
        Axis::Z => (0, 1),
    }
}

impl Axis {
    pub fn coordinate(self) -> (r: usize)
        ensures
            r == axis_coordinate(self),
    {
        match self {
            Axis::X => 0,
            Axis::Y => 1,
            Axis::Z => 2,
        }
    }

    /// The coordinates of the plane of a turn about this axis; see
    /// [`axis_plane`].
    pub fn rotation_plane(self) -> (r: (usize, usize))
        ensures
            r == axis_plane(self),
    {
        match self {
            Axis::X => (2, 1),
            Axis::Y => (0, 2),
            Axis::Z => (0, 1),
        }
    }
}

/// Symmetry hint for a renderer. It never changes the stored geometry.
#[derive(Clone, Copy, Debug, PartialEq, Eq, Structural)]
pub enum MirrorMode {
    Off,
    Bilateral,
    RadialX(u8),
    RadialY(u8),
    RadialZ(u8),
}

} // verus!
