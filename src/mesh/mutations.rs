//! Moving a selection of vertices about its centroid.
use vstd::prelude::*;
use super::{Mesh, MeshView};
use crate::types::VertIndex;

verus! {

broadcast use vstd::seq_lib::group_seq_properties;

/// The positions of the listed vertices, in the order listed.
pub open spec fn positions_of<P>(verts: Seq<P>, idx: Seq<VertIndex>) -> Seq<P> {
    idx.map_values(|v: VertIndex| verts[v as int])
}

/// Each listed vertex of `before` has, in `after`, a position that
/// `mutation` gives for its old position and the centroid `c`; the others
/// are where they were.
pub open spec fn moved_by<P, F: Fn(P, P) -> P>(
    before: Seq<P>,
    after: Seq<P>,
    idx: Seq<VertIndex>,
    c: P,
    mutation: F,
) -> bool {
    &&& after.len() == before.len()
    &&& forall|v: int|
        0 <= v < before.len() ==> if idx.contains(v as VertIndex) {
            exists|k: int|
                0 <= k < idx.len() && idx[k] == v && mutation.ensures(
                    (before[v], c),
                    #[trigger] after[v],
                )
        } else {
            after[v] == before[v]
        }
}

impl<P: Copy> Mesh<P> {
    /// Moves the listed vertices: `centroid` is given their current
    /// positions, in the order listed, and each listed vertex is then moved to
    /// `mutation(its position, centroid)`. `false`, with nothing changed,
    /// when an index is out of range; nothing moves for an empty list.
    pub fn mutate_verts<C: Fn(&Vec<P>) -> P, F: Fn(P, P) -> P>(
        &mut self,
        vert_indicies: &[VertIndex],
        centroid: C,
        mutation: F,
    ) -> (r: bool)
        requires
            forall|pts: &Vec<P>| centroid.requires((pts,)),
            forall|v: P, c: P| mutation.requires((v, c)),
        ensures
            r <==> forall|k: int|
                0 <= k < vert_indicies@.len() ==> #[trigger] vert_indicies@[k] < old(self)@.verts.len(),
            final(self)@.same_topology(old(self)@),
            !r || vert_indicies@.len() == 0 ==> final(self)@ == old(self)@,
            r && vert_indicies@.len() > 0 ==> exists|pts: Vec<P>, c: P|
                #[trigger] centroid.ensures((&pts,), c) && pts@ == positions_of(
                    old(self)@.verts,
                    vert_indicies@,
                ) && moved_by(old(self)@.verts, final(self)@.verts, vert_indicies@, c, mutation),
    {
        let n = self.verts.len();
        let mut k: usize = 0;
        while k < vert_indicies.len()
            invariant
                n == self@.verts.len(),
                k <= vert_indicies@.len(),
                forall|j: int| 0 <= j < k ==> #[trigger] vert_indicies@[j] < n,
            decreases vert_indicies@.len() - k,
        {
            if vert_indicies[k] >= n {
                return false;
            }
            k += 1;
        }
        if vert_indicies.len() == 0 {
            return true;
        }
        let ghost old_view = self@;
        let mut pts: Vec<P> = Vec::new();
        let mut k: usize = 0;
        while k < vert_indicies.len()
            invariant
                n == self@.verts.len(),
                forall|j: int| 0 <= j < vert_indicies@.len() ==> #[trigger] vert_indicies@[j] < n,
                k <= vert_indicies@.len(),
                pts@ =~= positions_of(self@.verts, vert_indicies@.take(k as int)),
            decreases vert_indicies@.len() - k,
        {
            let v = vert_indicies[k];
            pts.push(self.verts[v]);
            k += 1;
        }
        proof {
            assert(vert_indicies@.take(k as int) =~= vert_indicies@);
        }
        let c = centroid(&pts);
        let mut k: usize = 0;
        while k < vert_indicies.len()
            invariant
                n == old_view.verts.len(),
                forall|j: int| 0 <= j < vert_indicies@.len() ==> #[trigger] vert_indicies@[j] < n,
                forall|v: P, c: P| mutation.requires((v, c)),
                pts@ == positions_of(old_view.verts, vert_indicies@),
                k <= vert_indicies@.len(),
                self@.same_topology(old_view),
                moved_by(old_view.verts, self@.verts, vert_indicies@.take(k as int), c, mutation),
            decreases vert_indicies@.len() - k,
        {
            let v = vert_indicies[k];
            let moved = mutation(pts[k], c);
            let ghost before = self@.verts;
            self.verts.set(v, moved);
            proof {
                let done = vert_indicies@.take(k + 1);
                assert(done =~= vert_indicies@.take(k as int).push(v));
                assert forall|u: int| 0 <= u < n implies if done.contains(u as VertIndex) {
                    exists|j: int|
                        0 <= j < done.len() && done[j] == u && mutation.ensures(
                            (old_view.verts[u], c),
                            #[trigger] self@.verts[u],
                        )
                } else {
                    self@.verts[u] == old_view.verts[u]
                } by {
                    if u == v {
                        assert(done[k as int] == v);
                    } else if done.contains(u as VertIndex) {
                        let w = choose|w: int| 0 <= w < done.len() && done[w] == u as VertIndex;
                        assert(vert_indicies@.take(k as int)[w] == u);
                        assert(vert_indicies@.take(k as int).contains(u as VertIndex));
                        let j = choose|j: int|
                            0 <= j < vert_indicies@.take(k as int).len() && vert_indicies@.take(
                                k as int,
                            )[j] == u && mutation.ensures((old_view.verts[u], c), #[trigger] before[u]);
                        assert(done[j] == u);
                    } else {
                        assert(!vert_indicies@.take(k as int).contains(u as VertIndex));
                    }
                }
            }
            k += 1;
        }
        proof {
            assert(vert_indicies@.take(k as int) =~= vert_indicies@);
        }
        true
    }
}

} // verus!
