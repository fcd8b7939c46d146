//! Reads of the stored data by index: picked vertices, lines and polys, the
//! positions at the ends of lines, and paths between vertices.
use vstd::prelude::*;
use super::bfs::{connected, is_walk, mesh_bfs};
use super::{items_at, line_in_range, Mesh};
use crate::types::{Line, LineIndex, Poly, PolyIndex, VertIndex};

verus! {

broadcast use vstd::seq_lib::group_seq_properties;

/// The positions at the two ends of a line, or `missing` for an end that
/// names no vertex.
pub open spec fn line_ends<P>(verts: Seq<P>, l: Line, missing: P) -> (P, P) {
    (
        if l.0 < verts.len() { verts[l.0 as int] } else { missing },
        if l.1 < verts.len() { verts[l.1 as int] } else { missing },
    )
}

/// Whether `i` is listed.
pub(crate) fn is_listed(list: &[usize], i: usize) -> (r: bool)
    ensures
        r == list@.contains(i),
{
    let mut k: usize = 0;
    while k < list.len()
        invariant
            k <= list@.len(),
            forall|j: int| 0 <= j < k ==> #[trigger] list@[j] != i,
        decreases list@.len() - k,
    {
        if list[k] == i {
            return true;
        }
        k += 1;
    }
    false
}

/// A copy of the poly.
fn poly_copy(poly: &Poly) -> (r: Poly)
    ensures
        r@ == poly@,
{
    let mut r: Vec<VertIndex> = Vec::new();
    let mut k: usize = 0;
    while k < poly.len()
        invariant
            k <= poly@.len(),
            r@ =~= poly@.take(k as int),
        decreases poly@.len() - k,
    {
        r.push(poly[k]);
        k += 1;
    }
    r
}

impl<P: Copy> Mesh<P> {
    /// The positions of the listed vertices, in vertex order.
    pub fn selected_indicies_to_verts(&self, indicies: &[VertIndex]) -> (r: Vec<P>)
        ensures
            r@ == items_at(self@.verts, indicies@.to_set()),
    {
        let mut r: Vec<P> = Vec::new();
        let mut i: usize = 0;
        while i < self.verts.len()
            invariant
                i <= self@.verts.len(),
                r@ == items_at(self@.verts.take(i as int), indicies@.to_set()),
            decreases self@.verts.len() - i,
        {
            proof {
                assert(self@.verts.take(i + 1).drop_last() =~= self@.verts.take(i as int));
            }
            if is_listed(indicies, i) {
                r.push(self.verts[i]);
            }
            i += 1;
        }
        proof {
            assert(self@.verts.take(i as int) =~= self@.verts);
        }
        r
    }

    /// The listed lines, in line order.
    pub fn selected_indicies_to_lines(&self, indicies: &[LineIndex]) -> (r: Vec<Line>)
        ensures
            r@ == items_at(self@.lines, indicies@.to_set()),
    {
        let mut r: Vec<Line> = Vec::new();
        let mut i: usize = 0;
        while i < self.lines.len()
            invariant
                i <= self@.lines.len(),
                r@ == items_at(self@.lines.take(i as int), indicies@.to_set()),
            decreases self@.lines.len() - i,
        {
            proof {
                assert(self@.lines.take(i + 1).drop_last() =~= self@.lines.take(i as int));
            }
            if is_listed(indicies, i) {
                r.push(self.lines[i]);
            }
            i += 1;
        }
        proof {
            assert(self@.lines.take(i as int) =~= self@.lines);
        }
        r
    }

    /// Copies of the listed polys, in poly order.
    pub fn selected_indicies_to_polys(&self, indicies: &[PolyIndex]) -> (r: Vec<Poly>)
        ensures
            r@.map_values(|p: Poly| p@) == items_at(self@.polys, indicies@.to_set()),
    {
        let mut r: Vec<Poly> = Vec::new();
        let mut i: usize = 0;
        while i < self.polys.len()
            invariant
                i <= self@.polys.len(),
                r@.map_values(|p: Poly| p@) == items_at(self@.polys.take(i as int), indicies@.to_set()),
            decreases self@.polys.len() - i,
        {
            proof {
                assert(self@.polys.take(i + 1).drop_last() =~= self@.polys.take(i as int));
            }
            if is_listed(indicies, i) {
                let q = poly_copy(&self.polys[i]);
                let ghost before = r@;
                r.push(q);
                proof {
                    assert(r@.map_values(|p: Poly| p@) =~= before.map_values(|p: Poly| p@).push(q@));
                }
            }
            i += 1;
        }
        proof {
            assert(self@.polys.take(i as int) =~= self@.polys);
        }
        r
    }

    /// The positions at the two ends of every stored line, in line order.
    pub fn lines_to_vert_pairs(&self) -> (r: Vec<(P, P)>)
        requires
            self@.wf(),
        ensures
            r@.len() == self@.lines.len(),
            forall|i: int|
                0 <= i < r@.len() ==> #[trigger] r@[i] == (
                    self@.verts[self@.lines[i].0 as int],
                    self@.verts[self@.lines[i].1 as int],
                ),
    {
        let mut r: Vec<(P, P)> = Vec::new();
        let mut i: usize = 0;
        while i < self.lines.len()
            invariant
                self@.wf(),
                i <= self@.lines.len(),
                r@.len() == i,
                forall|k: int|
                    0 <= k < i ==> #[trigger] r@[k] == (
                        self@.verts[self@.lines[k].0 as int],
                        self@.verts[self@.lines[k].1 as int],
                    ),
            decreases self@.lines.len() - i,
        {
            let l = self.lines[i];
            proof {
                assert(line_in_range(self@.lines[i as int], self@.verts.len()));
            }
            r.push((self.verts[l.0], self.verts[l.1]));
            i += 1;
        }
        r
    }

    /// The positions at the two ends of each given line, in order; an end
    /// that names no vertex reads as `missing`, so that a stale index shows.
    pub fn lines_to_vert_pairs_from_list(&self, lines: &[Line], missing: P) -> (r: Vec<(P, P)>)
        ensures
            r@.len() == lines@.len(),
            forall|i: int|
                0 <= i < r@.len() ==> #[trigger] r@[i] == line_ends(self@.verts, lines@[i], missing),
    {
        let mut r: Vec<(P, P)> = Vec::new();
        let mut i: usize = 0;
        while i < lines.len()
            invariant
                i <= lines@.len(),
                r@.len() == i,
                forall|k: int|
                    0 <= k < i ==> #[trigger] r@[k] == line_ends(self@.verts, lines@[k], missing),
            decreases lines@.len() - i,
        {
            let l = lines[i];
            let a = if l.0 < self.verts.len() {
                self.verts[l.0]
            } else {
                missing
            };
            let b = if l.1 < self.verts.len() {
                self.verts[l.1]
            } else {
                missing
            };
            r.push((a, b));
            i += 1;
        }
        r
    }

    /// A shortest path over the mesh's lines, from `end_index` back to
    /// `start_index`; see [`mesh_bfs`].
    pub fn find_verts_between(&self, start_index: VertIndex, end_index: VertIndex) -> (r: Vec<
        VertIndex,
    >)
        ensures
            r@.len() == 0 <==> !connected(self@.lines, start_index, end_index),
            r@.len() > 0 ==> r@[0] == end_index && r@.last() == start_index && is_walk(
                self@.lines,
                r@,
            ),
            r@.len() > 0 ==> forall|p: Seq<VertIndex>|
                #[trigger] is_walk(self@.lines, p) && p.len() > 0 && p[0] == start_index && p.last()
                    == end_index ==> r@.len() <= p.len(),
            start_index == end_index ==> r@ == seq![start_index],
    {
        mesh_bfs(start_index, end_index, self.lines.as_slice())
    }
}

} // verus!
