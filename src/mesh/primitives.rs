//! A ready-made box: eight corners, twelve edges and six quads.
use vstd::prelude::*;
use super::Mesh;
use crate::types::{Line, VertIndex};

verus! {

/// The twelve edges of a box whose corners are numbered front face
/// 0, 1, 2, 3 and back face 4, 5, 6, 7.
pub open spec fn box_lines() -> Seq<Line> {
    seq![(0, 1), (1, 2), (2, 3), (3, 0), (4, 5), (5, 6), (6, 7), (7, 4), (0, 4), (1, 5), (2, 6), (3, 7)]
}

/// The six faces of the box, in winding order: front, back, bottom, top,
/// left, right.
pub open spec fn box_faces() -> Seq<Seq<VertIndex>> {
    seq![
        seq![0usize, 1, 2, 3],
        seq![5usize, 4, 7, 6],
        seq![0usize, 4, 5, 1],
        seq![3usize, 2, 6, 7],
        seq![0usize, 3, 7, 4],
        seq![1usize, 5, 6, 2],
    ]
}

impl<P: Copy> Mesh<P> {
    /// A box with the given corners (front face first, then back face, each
    /// in the same turning order), its edges and its faces.
    pub fn from_box_corners(corners: [P; 8]) -> (r: Self)
        ensures
            r@.wf(),
            r@.verts == corners@,
            r@.lines == box_lines(),
            r@.polys == box_faces(),
            r@.mirror_mode == crate::types::MirrorMode::Off,
    {
        let mut mesh = Mesh::new();
        let mut i: usize = 0;
        while i < 8
            invariant
                i <= 8,
                mesh@.verts == corners@.take(i as int),
                mesh@.lines.len() == 0,
                mesh@.polys.len() == 0,
                mesh@.mirror_mode == crate::types::MirrorMode::Off,
            decreases 8 - i,
        {
            mesh.add_vert(corners[i]);
            proof {
                assert(corners@.take(i + 1) =~= corners@.take(i as int).push(corners@[i as int]));
            }
            i += 1;
        }
        proof {
            assert(corners@.take(8) =~= corners@);
        }
        add_box_lines_and_faces(&mut mesh);
        mesh
    }
}

fn add_box_lines_and_faces<P: Copy>(mesh: &mut Mesh<P>)
    requires
        old(mesh)@.verts.len() == 8,
        old(mesh)@.lines.len() == 0,
        old(mesh)@.polys.len() == 0,
    ensures
        final(mesh)@.wf(),
        final(mesh)@.verts == old(mesh)@.verts,
        final(mesh)@.mirror_mode == old(mesh)@.mirror_mode,
        final(mesh)@.lines == box_lines(),
        final(mesh)@.polys == box_faces(),
{
    proof {
        assert(mesh@.wf());
    }
    let ghost v = mesh@.verts;
    mesh.add_line((0, 1));
    mesh.add_line((1, 2));
    mesh.add_line((2, 3));
    mesh.add_line((3, 0));
    mesh.add_line((4, 5));
    mesh.add_line((5, 6));
    mesh.add_line((6, 7));
    mesh.add_line((7, 4));
    mesh.add_line((0, 4));
    mesh.add_line((1, 5));
    mesh.add_line((2, 6));
    mesh.add_line((3, 7));
    proof {
        assert(mesh@.lines =~= box_lines());
        let f = box_faces();
        assert forall|i: int| 0 <= i < 6 implies #[trigger] f[i].no_duplicates() by {
            assert(f[i].len() == 4);
        }
    }
    mesh.add_poly(vec![0, 1, 2, 3]);
    mesh.add_poly(vec![5, 4, 7, 6]);
    mesh.add_poly(vec![0, 4, 5, 1]);
    mesh.add_poly(vec![3, 2, 6, 7]);
    mesh.add_poly(vec![0, 3, 7, 4]);
    mesh.add_poly(vec![1, 5, 6, 2]);
    proof {
        assert(mesh@.polys =~= box_faces());
    }
}

} // verus!
