//! The mesh store: vertex positions, lines and polys, with the
//! well-formedness that every mutation keeps.
use vstd::prelude::*;
use crate::types::{Line, LineIndex, MirrorMode, Poly, PolyIndex, VertIndex};

pub mod bfs;
pub mod duplicate;
pub mod fan;
pub mod mutations;
pub mod primitives;
pub mod query;
pub mod select;
pub mod split;

pub use bfs::mesh_bfs;

verus! {

broadcast use vstd::seq_lib::group_seq_properties, vstd::seq_lib::group_filter_ensures;

/// Abstract value of a mesh.
pub ghost struct MeshView<P> {
    pub verts: Seq<P>,
    pub lines: Seq<Line>,
    pub polys: Seq<Seq<VertIndex>>,
    pub mirror_mode: MirrorMode,
}

/// A line whose two endpoints name existing vertices, of which there are `n`.
pub open spec fn line_in_range(l: Line, n: nat) -> bool {
    l.0 < n && l.1 < n
}

/// Every index of `p` names one of `n` vertices.
pub open spec fn poly_in_range(p: Seq<VertIndex>, n: nat) -> bool {
    forall|k: int| 0 <= k < p.len() ==> #[trigger] p[k] < n
}

/// A poly that may be stored in a mesh of `n` vertices: at least three
/// distinct indices, each naming an existing vertex.
pub open spec fn poly_valid(p: Seq<VertIndex>, n: nat) -> bool {
    p.len() >= 3 && p.no_duplicates() && poly_in_range(p, n)
}

/// The elements of `s` whose positions are in `set`, in order.
pub open spec fn items_at<A>(s: Seq<A>, set: Set<usize>) -> Seq<A>
    decreases s.len(),
{
    if s.len() == 0 {
        Seq::empty()
    } else {
        let rest = items_at(s.drop_last(), set);
        if set.contains((s.len() - 1) as usize) {
            rest.push(s.last())
        } else {
            rest
        }
    }
}

/// The elements of `s` whose positions are not in `set`, in order.
pub open spec fn items_not_at<A>(s: Seq<A>, set: Set<usize>) -> Seq<A>
    decreases s.len(),
{
    if s.len() == 0 {
        Seq::empty()
    } else {
        let rest = items_not_at(s.drop_last(), set);
        if set.contains((s.len() - 1) as usize) {
            rest
        } else {
            rest.push(s.last())
        }
    }
}

/// `s` with its element `i` removed by moving the last element into its slot.
pub open spec fn swap_removed<A>(s: Seq<A>, i: int) -> Seq<A> {
    s.update(i, s.last()).drop_last()
}

/// Index `x` after the vertex at `from` has moved to slot `to`.
pub open spec fn remap_index(x: VertIndex, from: VertIndex, to: VertIndex) -> VertIndex {
    if x == from {
        to
    } else {
        x
    }
}

/// Both endpoints of a line renamed as by [`remap_index`].
pub open spec fn remap_line(l: Line, from: VertIndex, to: VertIndex) -> Line {
    (remap_index(l.0, from, to), remap_index(l.1, from, to))
}

/// The line does not touch vertex `v`.
pub open spec fn line_avoids(l: Line, v: VertIndex) -> bool {
    l.0 != v && l.1 != v
}

/// Predicate: the line does not touch vertex `v`.
pub open spec fn avoids_vert(v: VertIndex) -> spec_fn(Line) -> bool {
    |l: Line| line_avoids(l, v)
}

/// Predicate: the index is not `v`.
pub open spec fn other_than(v: VertIndex) -> spec_fn(VertIndex) -> bool {
    |x: VertIndex| x != v
}

/// Renaming of indices after the vertex at `from` moved to slot `to`.
pub open spec fn index_renaming(from: VertIndex, to: VertIndex) -> spec_fn(VertIndex) -> VertIndex {
    |x: VertIndex| remap_index(x, from, to)
}

/// Renaming of line endpoints after the vertex at `from` moved to slot `to`.
pub open spec fn line_renaming(from: VertIndex, to: VertIndex) -> spec_fn(Line) -> Line {
    |l: Line| remap_line(l, from, to)
}

/// Predicate: the poly still has three or more vertices.
pub open spec fn big_enough() -> spec_fn(Seq<VertIndex>) -> bool {
    |p: Seq<VertIndex>| p.len() >= 3
}

/// The lines left when vertex `v` is deleted and the vertex at `last` moves
/// into its slot: those touching `v` are dropped, the others renamed.
pub open spec fn lines_after_vert_delete(
    lines: Seq<Line>,
    v: VertIndex,
    last: VertIndex,
) -> Seq<Line> {
    lines.filter(avoids_vert(v)).map_values(line_renaming(last, v))
}

/// A poly with vertex `v` left out and `last` renamed to `v`.
pub open spec fn poly_after_vert_delete(
    p: Seq<VertIndex>,
    v: VertIndex,
    last: VertIndex,
) -> Seq<VertIndex> {
    p.filter(other_than(v)).map_values(index_renaming(last, v))
}

/// The map [`poly_after_vert_delete`] applies to each poly.
pub open spec fn poly_shrinking(v: VertIndex, last: VertIndex) -> spec_fn(Seq<VertIndex>) -> Seq<
    VertIndex,
> {
    |p: Seq<VertIndex>| poly_after_vert_delete(p, v, last)
}

/// The polys left when vertex `v` is deleted: each loses `v`, is renamed, and
/// is dropped when fewer than three vertices remain.
pub open spec fn polys_after_vert_delete(
    polys: Seq<Seq<VertIndex>>,
    v: VertIndex,
    last: VertIndex,
) -> Seq<Seq<VertIndex>> {
    polys.map_values(poly_shrinking(v, last)).filter(big_enough())
}

proof fn lemma_lines_after_vert_delete_in_range(lines: Seq<Line>, v: VertIndex, last: VertIndex)
    requires
        v <= last,
        forall|i: int| 0 <= i < lines.len() ==> line_in_range(#[trigger] lines[i], (last + 1) as nat),
    ensures
        forall|i: int|
            0 <= i < lines_after_vert_delete(lines, v, last).len() ==> line_in_range(
                #[trigger] lines_after_vert_delete(lines, v, last)[i],
                last as nat,
            ),
{
    let pred = avoids_vert(v);
    let kept = lines.filter(pred);
    assert forall|i: int| 0 <= i < kept.len() implies line_in_range(
        #[trigger] remap_line(kept[i], last, v),
        last as nat,
    ) by {
        assert(pred(kept[i]));
        assert(kept.contains(kept[i]));
        lines.lemma_filter_contains_rev(pred, kept[i]);
    }
}

/// Leaving a vertex out of a valid poly and renaming the vertex that moved
/// into its slot keeps the indices distinct and below the new vertex count.
proof fn lemma_poly_after_vert_delete_valid(p: Seq<VertIndex>, v: VertIndex, last: VertIndex)
    requires
        v <= last,
        p.no_duplicates(),
        poly_in_range(p, (last + 1) as nat),
    ensures
        poly_after_vert_delete(p, v, last).no_duplicates(),
        poly_in_range(poly_after_vert_delete(p, v, last), last as nat),
        forall|x: VertIndex| #[trigger] poly_after_vert_delete(p, v, last).contains(x) ==> exists|k: int|
            0 <= k < p.len() && p[k] != v && x == remap_index(p[k], last, v),
    decreases p.len(),
{
    let keep = other_than(v);
    let f = index_renaming(last, v);
    if p.len() > 0 {
        let rest = p.drop_last();
        let x = p.last();
        assert(rest.push(x) =~= p);
        assert(rest.no_duplicates());
        lemma_poly_after_vert_delete_valid(rest, v, last);
        rest.lemma_filter_push(x, keep);
        let q = poly_after_vert_delete(rest, v, last);
        if x != v {
            rest.filter(keep).lemma_push_map_commute(f, x);
            assert(poly_after_vert_delete(p, v, last) == q.push(f(x)));
            if q.contains(f(x)) {
                let k = choose|k: int| 0 <= k < rest.len() && rest[k] != v && f(x) == remap_index(rest[k], last, v);
                assert(p[k] == rest[k]);
                assert(p[p.len() - 1] == x);
            }
            assert forall|y: VertIndex| #[trigger] q.push(f(x)).contains(y) implies exists|k: int|
                0 <= k < p.len() && p[k] != v && y == remap_index(p[k], last, v) by {
                if y == f(x) {
                    assert(p[p.len() - 1] == x);
                } else {
                    assert(q.contains(y));
                    let k = choose|k: int| 0 <= k < rest.len() && rest[k] != v && y == remap_index(rest[k], last, v);
                    assert(p[k] == rest[k]);
                }
            }
        } else {
            assert forall|y: VertIndex| #[trigger] q.contains(y) implies exists|k: int|
                0 <= k < p.len() && p[k] != v && y == remap_index(p[k], last, v) by {
                let k = choose|k: int| 0 <= k < rest.len() && rest[k] != v && y == remap_index(rest[k], last, v);
                assert(p[k] == rest[k]);
            }
        }
    } else {
        assert(poly_after_vert_delete(p, v, last) =~= Seq::<VertIndex>::empty());
    }
}

proof fn lemma_polys_after_vert_delete_valid(polys: Seq<Seq<VertIndex>>, v: VertIndex, last: VertIndex)
    requires
        v <= last,
        forall|i: int| 0 <= i < polys.len() ==> poly_valid(#[trigger] polys[i], (last + 1) as nat),
    ensures
        forall|i: int|
            0 <= i < polys_after_vert_delete(polys, v, last).len() ==> poly_valid(
                #[trigger] polys_after_vert_delete(polys, v, last)[i],
                last as nat,
            ),
{
    let shrink = poly_shrinking(v, last);
    let big = big_enough();
    let shrunk = polys.map_values(shrink);
    let out = shrunk.filter(big);
    assert forall|i: int| 0 <= i < out.len() implies poly_valid(#[trigger] out[i], last as nat) by {
        assert(big(out[i]));
        assert(out.contains(out[i]));
        shrunk.lemma_filter_contains_rev(big, out[i]);
        let j = choose|j: int| 0 <= j < shrunk.len() && shrunk[j] == out[i];
        lemma_poly_after_vert_delete_valid(polys[j], v, last);
    }
}

/// The abstract mesh made of the given parts.
pub open spec fn parts_view<P>(
    verts: Seq<P>,
    lines: Seq<Line>,
    polys: Seq<Seq<VertIndex>>,
    mirror_mode: MirrorMode,
) -> MeshView<P> {
    MeshView { verts, lines, polys, mirror_mode }
}

/// Taking a well-formed mesh apart gives parts that are accepted back, and
/// rebuilding from them gives the same mesh, field for field.
pub proof fn lemma_parts_round_trip<P>(m: MeshView<P>)
    requires
        m.wf(),
    ensures
        parts_view(m.verts, m.lines, m.polys, m.mirror_mode).wf(),
        parts_view(m.verts, m.lines, m.polys, m.mirror_mode) == m,
{
}

impl<P> MeshView<P> {
    /// Referential integrity: every line and poly names existing vertices,
    /// and every poly has three or more distinct vertices.
    pub open spec fn wf(self) -> bool {
        &&& forall|i: int|
            0 <= i < self.lines.len() ==> line_in_range(#[trigger] self.lines[i], self.verts.len())
        &&& forall|i: int|
            0 <= i < self.polys.len() ==> poly_valid(#[trigger] self.polys[i], self.verts.len())
    }

    /// Same lines, polys and symmetry; positions may differ.
    pub open spec fn same_topology(self, other: Self) -> bool {
        &&& self.lines == other.lines
        &&& self.polys == other.polys
        &&& self.mirror_mode == other.mirror_mode
    }
}

/// An indexed mesh. Positions are of any type `P`: the kernel never reads
/// them, it only stores, copies and moves them.
#[derive(Clone, Debug, PartialEq)]
pub struct Mesh<P> {
    mirror_mode: MirrorMode,
    verts: Vec<P>,
    lines: Vec<Line>,
    polys: Vec<Poly>,
}

impl<P> View for Mesh<P> {
    type V = MeshView<P>;

    closed spec fn view(&self) -> MeshView<P> {
        MeshView {
            verts: self.verts@,
            lines: self.lines@,
            polys: self.polys@.map_values(|p: Poly| p@),
            mirror_mode: self.mirror_mode,
        }
    }
}

impl<P: Copy> Mesh<P> {
    /// An empty mesh with no symmetry.
    pub fn new() -> (r: Self)
        ensures
            r@.verts.len() == 0,
            r@.lines.len() == 0,
            r@.polys.len() == 0,
            r@.mirror_mode == MirrorMode::Off,
            r@.wf(),
    {
        Mesh { mirror_mode: MirrorMode::Off, verts: Vec::new(), lines: Vec::new(), polys: Vec::new() }
    }

    pub fn verts(&self) -> (r: &Vec<P>)
        ensures
            r@ == self@.verts,
    {
        &self.verts
    }

    pub fn lines(&self) -> (r: &Vec<Line>)
        ensures
            r@ == self@.lines,
    {
        &self.lines
    }

    pub fn polys(&self) -> (r: &Vec<Poly>)
        ensures
            r@.len() == self@.polys.len(),
            forall|i: int| 0 <= i < r@.len() ==> (#[trigger] r@[i])@ == self@.polys[i],
    {
        &self.polys
    }

    pub fn mirror_mode(&self) -> (r: &MirrorMode)
        ensures
            *r == self@.mirror_mode,
    {
        &self.mirror_mode
    }

    pub fn set_mirror_mode(&mut self, mode: MirrorMode)
        ensures
            final(self)@ == (MeshView { mirror_mode: mode, ..old(self)@ }),
    {
        self.mirror_mode = mode;
    }

    /// Appends a vertex and returns its index.
    pub fn add_vert(&mut self, coord: P) -> (r: VertIndex)
        requires
            old(self)@.verts.len() < usize::MAX,
        ensures
            r == old(self)@.verts.len(),
            final(self)@.verts == old(self)@.verts.push(coord),
            final(self)@.same_topology(old(self)@),
            old(self)@.wf() ==> final(self)@.wf(),
    {
        let ghost old_view = self@;
        self.verts.push(coord);
        proof {
            self.lemma_wf_after_verts_change(old_view);
        }
        self.verts.len() - 1
    }

    /// Overwrites the position of an existing vertex; `None` when `index` is
    /// out of range, with nothing changed.
    pub fn update_vert(&mut self, index: VertIndex, coord: P) -> (r: Option<()>)
        ensures
            r.is_some() <==> index < old(self)@.verts.len(),
            r.is_some() ==> final(self)@.verts == old(self)@.verts.update(index as int, coord),
            r.is_none() ==> final(self)@.verts == old(self)@.verts,
            final(self)@.same_topology(old(self)@),
            old(self)@.wf() ==> final(self)@.wf(),
    {
        if index >= self.verts.len() {
            return None;
        }
        let ghost old_view = self@;
        self.verts.set(index, coord);
        proof {
            self.lemma_wf_after_verts_change(old_view);
        }
        Some(())
    }

    /// Appends a line; `None` when an endpoint is out of range, with nothing
    /// changed. Duplicate lines are allowed.
    pub fn add_line(&mut self, line: Line) -> (r: Option<()>)
        requires
            old(self)@.wf(),
        ensures
            r.is_some() <==> line_in_range(line, old(self)@.verts.len()),
            r.is_some() ==> final(self)@ == (MeshView {
                lines: old(self)@.lines.push(line),
                ..old(self)@
            }),
            r.is_none() ==> final(self)@ == old(self)@,
            final(self)@.wf(),
    {
        if !self.validate_line_indicies(line) {
            return None;
        }
        self.lines.push(line);
        Some(())
    }

    /// Appends a poly as given, keeping its winding order; `None` when it has
    /// fewer than three indices, repeats one, or names a missing vertex, with
    /// nothing changed.
    pub fn add_poly(&mut self, poly: Poly) -> (r: Option<()>)
        requires
            old(self)@.wf(),
        ensures
            r.is_some() <==> poly_valid(poly@, old(self)@.verts.len()),
            r.is_some() ==> final(self)@ == (MeshView {
                polys: old(self)@.polys.push(poly@),
                ..old(self)@
            }),
            r.is_none() ==> final(self)@ == old(self)@,
            final(self)@.wf(),
    {
        if !self.validate_poly_indicies(&poly) {
            return None;
        }
        let ghost old_polys = self.polys@;
        self.polys.push(poly);
        proof {
            assert(self.polys@.map_values(|p: Poly| p@) =~= old_polys.map_values(|p: Poly| p@).push(poly@));
        }
        Some(())
    }

    /// Removes a line by moving the last line into its slot; `None` when
    /// `index` is out of range, with nothing changed.
    pub fn remove_line(&mut self, index: LineIndex) -> (r: Option<Line>)
        requires
            old(self)@.wf(),
        ensures
            r.is_some() <==> index < old(self)@.lines.len(),
            r.is_some() ==> r == Some(old(self)@.lines[index as int]) && final(self)@ == (MeshView {
                lines: swap_removed(old(self)@.lines, index as int),
                ..old(self)@
            }),
            r.is_none() ==> final(self)@ == old(self)@,
            final(self)@.wf(),
    {
        if index >= self.lines.len() {
            return None;
        }
        let removed = self.lines.swap_remove(index);
        Some(removed)
    }

    /// Removes a poly by moving the last poly into its slot; `None` when
    /// `index` is out of range, with nothing changed.
    pub fn remove_poly(&mut self, index: PolyIndex) -> (r: Option<Poly>)
        requires
            old(self)@.wf(),
        ensures
            r.is_some() <==> index < old(self)@.polys.len(),
            r.is_some() ==> r.unwrap()@ == old(self)@.polys[index as int] && final(self)@ == (
            MeshView { polys: swap_removed(old(self)@.polys, index as int), ..old(self)@ }),
            r.is_none() ==> final(self)@ == old(self)@,
            final(self)@.wf(),
    {
        if index >= self.polys.len() {
            return None;
        }
        let ghost old_polys = self.polys@;
        let removed = self.polys.swap_remove(index);
        proof {
            assert(self.polys@.map_values(|p: Poly| p@) =~= swap_removed(
                old_polys.map_values(|p: Poly| p@),
                index as int,
            ));
        }
        Some(removed)
    }

    /// Deletes a vertex by moving the last vertex into its slot, and cascades:
    /// lines touching it are dropped, references to the moved vertex are
    /// renamed, the vertex is left out of every poly and polys with fewer than
    /// three vertices left are dropped. `None` when `index` is out of range,
    /// with nothing changed.
    pub fn delete_vert(&mut self, index: VertIndex) -> (r: Option<P>)
        requires
            old(self)@.wf(),
        ensures
            final(self)@.wf(),
            r.is_some() <==> index < old(self)@.verts.len(),
            r.is_none() ==> final(self)@ == old(self)@,
            r.is_some() ==> {
                let last = (old(self)@.verts.len() - 1) as VertIndex;
                &&& r == Some(old(self)@.verts[index as int])
                &&& final(self)@.verts == swap_removed(old(self)@.verts, index as int)
                &&& final(self)@.lines == lines_after_vert_delete(old(self)@.lines, index, last)
                &&& final(self)@.polys == polys_after_vert_delete(old(self)@.polys, index, last)
                &&& final(self)@.mirror_mode == old(self)@.mirror_mode
            },
    {
        if index >= self.verts.len() {
            return None;
        }
        let ghost old_view = self@;
        let last_vert_index = self.verts.len() - 1;
        let removed_value = self.verts.swap_remove(index);
        self.remove_lines_containing_vert(index);
        if index != last_vert_index {
            self.remap_swaped_vertex_indicies(last_vert_index, index);
        } else {
            proof {
                let kept = old_view.lines.filter(avoids_vert(index));
                assert(kept.map_values(line_renaming(last_vert_index, index)) =~= kept);
            }
        }
        self.cleanup_polys_after_point_removal(index, last_vert_index);
        proof {
            lemma_lines_after_vert_delete_in_range(old_view.lines, index, last_vert_index);
            lemma_polys_after_vert_delete_valid(old_view.polys, index, last_vert_index);
            let new_lines = lines_after_vert_delete(old_view.lines, index, last_vert_index);
            assert(self@.lines == new_lines);
            assert forall|i: int| 0 <= i < self@.lines.len() implies line_in_range(
                #[trigger] self@.lines[i],
                self@.verts.len(),
            ) by {
                assert(line_in_range(new_lines[i], last_vert_index as nat));
            }
        }
        Some(removed_value)
    }

    /// Drops every line touching `vert_index`, keeping the others in order.
    fn remove_lines_containing_vert(&mut self, vert_index: VertIndex)
        ensures
            final(self)@ == (MeshView {
                lines: old(self)@.lines.filter(avoids_vert(vert_index)),
                ..old(self)@
            }),
    {
        let mut kept: Vec<Line> = Vec::new();
        let mut i: usize = 0;
        while i < self.lines.len()
            invariant
                i <= self.lines@.len(),
                kept@ == self.lines@.take(i as int).filter(avoids_vert(vert_index)),
            decreases self.lines@.len() - i,
        {
            let l = self.lines[i];
            proof {
                assert(self.lines@.take(i + 1) =~= self.lines@.take(i as int).push(l));
                self.lines@.take(i as int).lemma_filter_push(l, avoids_vert(vert_index));
            }
            if l.0 != vert_index && l.1 != vert_index {
                kept.push(l);
            }
            i += 1;
        }
        proof {
            assert(self.lines@.take(i as int) =~= self.lines@);
        }
        self.lines = kept;
    }

    /// Renames every line endpoint equal to `old_index` to `new_index`.
    fn remap_swaped_vertex_indicies(&mut self, old_index: VertIndex, new_index: VertIndex)
        ensures
            final(self)@ == (MeshView {
                lines: old(self)@.lines.map_values(line_renaming(old_index, new_index)),
                ..old(self)@
            }),
    {
        let mut remapped: Vec<Line> = Vec::new();
        let mut i: usize = 0;
        while i < self.lines.len()
            invariant
                i <= self.lines@.len(),
                remapped@ =~= self.lines@.take(i as int).map_values(line_renaming(old_index, new_index)),
            decreases self.lines@.len() - i,
        {
            let mut line = self.lines[i];
            if line.0 == old_index {
                line.0 = new_index;
            }
            if line.1 == old_index {
                line.1 = new_index;
            }
            remapped.push(line);
            i += 1;
        }
        proof {
            assert(self.lines@.take(i as int) =~= self.lines@);
        }
        self.lines = remapped;
    }

    /// Leaves `removed_vert_index` out of every poly, renames
    /// `replaced_vert_index` to it, and drops polys left with fewer than three
    /// vertices.
    fn cleanup_polys_after_point_removal(
        &mut self,
        removed_vert_index: VertIndex,
        replaced_vert_index: VertIndex,
    )
        ensures
            final(self)@ == (MeshView {
                polys: polys_after_vert_delete(
                    old(self)@.polys,
                    removed_vert_index,
                    replaced_vert_index,
                ),
                ..old(self)@
            }),
    {
        let ghost src = self@.polys;
        let mut kept: Vec<Poly> = Vec::new();
        let mut i: usize = 0;
        while i < self.polys.len()
            invariant
                i <= self.polys@.len(),
                src == self@.polys,
                kept@.map_values(|p: Poly| p@) == src.take(i as int).map_values(
                    poly_shrinking(removed_vert_index, replaced_vert_index),
                ).filter(big_enough()),
            decreases self.polys@.len() - i,
        {
            let poly = Self::poly_without_vert(&self.polys[i], removed_vert_index, replaced_vert_index);
            proof {
                assert(src.take(i + 1) =~= src.take(i as int).push(src[i as int]));
                let shrink = poly_shrinking(removed_vert_index, replaced_vert_index);
                src.take(i as int).lemma_push_map_commute(shrink, src[i as int]);
                src.take(i as int).map_values(shrink).lemma_filter_push(shrink(src[i as int]), big_enough());
            }
            if poly.len() >= 3 {
                let ghost before = kept@;
                kept.push(poly);
                proof {
                    assert(kept@.map_values(|p: Poly| p@) =~= before.map_values(|p: Poly| p@).push(poly@));
                }
            }
            i += 1;
        }
        proof {
            assert(src.take(i as int) =~= src);
        }
        self.polys = kept;
    }

    /// `poly` with `removed` left out and `replaced` renamed to `removed`.
    fn poly_without_vert(poly: &Poly, removed: VertIndex, replaced: VertIndex) -> (r: Poly)
        ensures
            r@ == poly_after_vert_delete(poly@, removed, replaced),
    {
        let mut out: Vec<VertIndex> = Vec::new();
        let mut i: usize = 0;
        while i < poly.len()
            invariant
                i <= poly@.len(),
                out@ == poly@.take(i as int).filter(other_than(removed)).map_values(index_renaming(replaced, removed)),
            decreases poly@.len() - i,
        {
            let x = poly[i];
            proof {
                assert(poly@.take(i + 1) =~= poly@.take(i as int).push(x));
                poly@.take(i as int).lemma_filter_push(x, other_than(removed));
                poly@.take(i as int).filter(other_than(removed)).lemma_push_map_commute(
                    index_renaming(replaced, removed),
                    x,
                );
            }
            if x != removed {
                if x == replaced {
                    out.push(removed);
                } else {
                    out.push(x);
                }
            }
            i += 1;
        }
        proof {
            assert(poly@.take(i as int) =~= poly@);
        }
        out
    }

    /// Changing positions without shrinking the vertex array keeps the mesh
    /// well formed.
    proof fn lemma_wf_after_verts_change(&self, before: MeshView<P>)
        requires
            self@.same_topology(before),
            self@.verts.len() >= before.verts.len(),
        ensures
            before.wf() ==> self@.wf(),
    {
        if before.wf() {
            assert forall|i: int| 0 <= i < self@.lines.len() implies line_in_range(
                #[trigger] self@.lines[i],
                self@.verts.len(),
            ) by {
                assert(line_in_range(before.lines[i], before.verts.len()));
            }
            assert forall|i: int| 0 <= i < self@.polys.len() implies poly_valid(
                #[trigger] self@.polys[i],
                self@.verts.len(),
            ) by {
                assert(poly_valid(before.polys[i], before.verts.len()));
            }
        }
    }

    /// Rebuilds a mesh from its parts, as a snapshot reader does; `None`
    /// unless they are well formed.
    pub fn from_parts(verts: Vec<P>, lines: Vec<Line>, polys: Vec<Poly>, mirror_mode: MirrorMode) -> (r:
        Option<Self>)
        ensures
            r.is_some() <==> parts_view(
                verts@,
                lines@,
                polys@.map_values(|p: Poly| p@),
                mirror_mode,
            ).wf(),
            r.is_some() ==> r.unwrap()@ == parts_view(
                verts@,
                lines@,
                polys@.map_values(|p: Poly| p@),
                mirror_mode,
            ),
    {
        let n = verts.len();
        let mut i: usize = 0;
        while i < lines.len()
            invariant
                i <= lines@.len(),
                n == verts@.len(),
                forall|k: int| 0 <= k < i ==> line_in_range(#[trigger] lines@[k], n as nat),
            decreases lines@.len() - i,
        {
            if !(lines[i].0 < n && lines[i].1 < n) {
                proof {
                    let m = parts_view(verts@, lines@, polys@.map_values(|p: Poly| p@), mirror_mode);
                    assert(!line_in_range(m.lines[i as int], m.verts.len()));
                }
                return None;
            }
            i += 1;
        }
        let mut i: usize = 0;
        while i < polys.len()
            invariant
                i <= polys@.len(),
                n == verts@.len(),
                forall|k: int| 0 <= k < i ==> poly_valid(#[trigger] polys@[k]@, n as nat),
            decreases polys@.len() - i,
        {
            if !Self::poly_fits(&polys[i], n) {
                proof {
                    let m = parts_view(verts@, lines@, polys@.map_values(|p: Poly| p@), mirror_mode);
                    assert(!poly_valid(m.polys[i as int], m.verts.len()));
                }
                return None;
            }
            i += 1;
        }
        Some(Mesh { mirror_mode, verts, lines, polys })
    }

    /// The parts of the mesh, for a snapshot writer.
    pub fn into_parts(self) -> (r: (Vec<P>, Vec<Line>, Vec<Poly>, MirrorMode))
        ensures
            parts_view(r.0@, r.1@, r.2@.map_values(|p: Poly| p@), r.3) == self@,
    {
        (self.verts, self.lines, self.polys, self.mirror_mode)
    }

    fn validate_line_indicies(&self, line: Line) -> (r: bool)
        ensures
            r == line_in_range(line, self@.verts.len()),
    {
        line.0 < self.verts.len() && line.1 < self.verts.len()
    }

    fn validate_poly_indicies(&self, poly: &Poly) -> (r: bool)
        ensures
            r == poly_valid(poly@, self@.verts.len()),
    {
        Self::poly_fits(poly, self.verts.len())
    }

    /// Whether the poly may be stored in a mesh of `n` vertices.
    fn poly_fits(poly: &Poly, n: usize) -> (r: bool)
        ensures
            r == poly_valid(poly@, n as nat),
    {
        if poly.len() < 3 {
            return false;
        }
        if Self::check_for_poly_dup_indicies(poly) {
            return false;
        }
        let mut k: usize = 0;
        while k < poly.len()
            invariant
                k <= poly@.len(),
                forall|j: int| 0 <= j < k ==> #[trigger] poly@[j] < n,
            decreases poly@.len() - k,
        {
            if poly[k] >= n {
                return false;
            }
            k += 1;
        }
        true
    }

    /// Whether some vertex index occurs twice in the poly.
    fn check_for_poly_dup_indicies(poly: &Poly) -> (r: bool)
        ensures
            r == !poly@.no_duplicates(),
    {
        let mut i: usize = 0;
        while i < poly.len()
            invariant
                i <= poly@.len(),
                forall|a: int, b: int| 0 <= a < b < i ==> poly@[a] != poly@[b],
            decreases poly@.len() - i,
        {
            let mut j: usize = 0;
            while j < i
                invariant
                    j <= i < poly@.len(),
                    forall|a: int| 0 <= a < j ==> poly@[a] != poly@[i as int],
                decreases i - j,
            {
                if poly[j] == poly[i] {
                    return true;
                }
                j += 1;
            }
            i += 1;
        }
        false
    }
}

} // verus!
