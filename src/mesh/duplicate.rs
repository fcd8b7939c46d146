//! Duplicating a vertex selection, optionally extruding it.
use vstd::prelude::*;
use super::query::{poly_within_set, within_set};
use super::{line_in_range, poly_valid, Mesh, MeshView};
use crate::types::{Line, Poly, VertIndex};

verus! {

broadcast use vstd::seq_lib::group_seq_properties, vstd::seq_lib::group_filter_ensures;

/// Where `v` stands in `idx` (some such position, when it occurs).
pub open spec fn position_in(idx: Seq<VertIndex>, v: VertIndex) -> int {
    choose|j: int| 0 <= j < idx.len() && idx[j] == v
}

/// The copy of vertex `v` when the vertices of `idx` are copied, in order,
/// to the end of an array of `n` vertices.
pub open spec fn dup_of(idx: Seq<VertIndex>, n: nat, v: VertIndex) -> VertIndex {
    (n + position_in(idx, v)) as VertIndex
}

/// [`dup_of`] as a map on indices.
pub open spec fn copy_index(idx: Seq<VertIndex>, n: nat) -> spec_fn(VertIndex) -> VertIndex {
    |v: VertIndex| dup_of(idx, n, v)
}

/// A line renamed to the copies of its endpoints.
pub open spec fn copy_line(idx: Seq<VertIndex>, n: nat) -> spec_fn(Line) -> Line {
    |l: Line| (dup_of(idx, n, l.0), dup_of(idx, n, l.1))
}

/// A poly renamed to the copies of its vertices.
pub open spec fn copy_poly(idx: Seq<VertIndex>, n: nat) -> spec_fn(Seq<VertIndex>) -> Seq<
    VertIndex,
> {
    |p: Seq<VertIndex>| p.map_values(copy_index(idx, n))
}

/// The lines from each vertex of `idx` to its copy.
pub open spec fn side_lines(idx: Seq<VertIndex>, n: nat) -> Seq<Line> {
    Seq::new(idx.len(), |j: int| (idx[j], (n + j) as VertIndex))
}

/// Predicate: the line joins two different vertices.
pub open spec fn not_a_loop() -> spec_fn(Line) -> bool {
    |l: Line| l.0 != l.1
}

/// The quad that joins a line to its copy: `(a, b, copy of b, copy of a)`.
pub open spec fn bridge(idx: Seq<VertIndex>, n: nat) -> spec_fn(Line) -> Seq<VertIndex> {
    |l: Line| seq![l.0, l.1, dup_of(idx, n, l.1), dup_of(idx, n, l.0)]
}

/// The table that sends each vertex of `idx` to its copy; the other slots
/// hold `usize::MAX`.
pub open spec fn is_dup_table(t: Seq<usize>, idx: Seq<VertIndex>, n: nat) -> bool {
    &&& t.len() == n
    &&& forall|v: int|
        0 <= v < n ==> (#[trigger] t[v] != usize::MAX <==> idx.contains(v as VertIndex))
    &&& forall|v: int| 0 <= v < n && idx.contains(v as VertIndex) ==> #[trigger] t[v] == dup_of(idx, n, v as VertIndex)
}

proof fn lemma_position_in(idx: Seq<VertIndex>, j: int)
    requires
        idx.no_duplicates(),
        0 <= j < idx.len(),
    ensures
        position_in(idx, idx[j]) == j,
{
    let p = position_in(idx, idx[j]);
    assert(0 <= p < idx.len() && idx[p] == idx[j]);
}

proof fn lemma_copy_poly_valid(p: Seq<VertIndex>, idx: Seq<VertIndex>, n: nat)
    requires
        idx.no_duplicates(),
        poly_valid(p, n),
        forall|k: int| 0 <= k < p.len() ==> idx.contains(#[trigger] p[k]),
        n + idx.len() <= usize::MAX,
    ensures
        poly_valid(copy_poly(idx, n)(p), n + idx.len()),
{
    let q = copy_poly(idx, n)(p);
    assert forall|k: int| 0 <= k < q.len() implies #[trigger] q[k] < n + idx.len() by {
        assert(idx.contains(p[k]));
    }
    assert forall|a: int, b: int| 0 <= a < q.len() && 0 <= b < q.len() && a != b implies q[a]
        != q[b] by {
        assert(idx.contains(p[a]));
        assert(idx.contains(p[b]));
        let pa = position_in(idx, p[a]);
        let pb = position_in(idx, p[b]);
        assert(idx[pa] == p[a]);
        assert(idx[pb] == p[b]);
    }
}

impl<P: Copy> Mesh<P> {
    /// Copies the vertices of `vert_indicies_to_dup`, in the order given, to
    /// the end of the vertex array, with the lines and polys lying wholly
    /// within them, renamed to the copies. With extrusion, each vertex is
    /// also joined to its copy by a line, and each copied line (not a loop)
    /// to its copy by a quad. `false`, with nothing changed, when an index is
    /// out of range or listed twice.
    pub fn duplicate_verts(&mut self, vert_indicies_to_dup: &[VertIndex], with_extrusion: bool) -> (r:
        bool)
        requires
            old(self)@.wf(),
            old(self)@.verts.len() + vert_indicies_to_dup@.len() < usize::MAX,
        ensures
            final(self)@.wf(),
            r <==> vert_indicies_to_dup@.no_duplicates() && forall|j: int|
                0 <= j < vert_indicies_to_dup@.len() ==> #[trigger] vert_indicies_to_dup@[j]
                    < old(self)@.verts.len(),
            !r ==> final(self)@ == old(self)@,
            r ==> ({
                let idx = vert_indicies_to_dup@;
                let n = old(self)@.verts.len();
                let s = idx.to_set();
                let lines = old(self)@.lines.filter(within_set(s));
                let polys = old(self)@.polys.filter(poly_within_set(s));
                let bridged = lines.filter(not_a_loop());
                &&& final(self)@.verts.len() == n + idx.len()
                &&& final(self)@.lines.len() == old(self)@.lines.len() + lines.len() + if with_extrusion {
                    idx.len()
                } else {
                    0
                }
                &&& final(self)@.polys.len() == old(self)@.polys.len() + polys.len() + if with_extrusion {
                    bridged.len()
                } else {
                    0
                }
                &&& final(self)@.verts.take(n as int) == old(self)@.verts
                &&& forall|j: int|
                    0 <= j < idx.len() ==> #[trigger] final(self)@.verts[n + j] == old(
                        self,
                    )@.verts[idx[j] as int]
                &&& final(self)@.lines == old(self)@.lines + lines.map_values(copy_line(idx, n))
                    + if with_extrusion {
                    side_lines(idx, n)
                } else {
                    Seq::empty()
                }
                &&& final(self)@.polys == old(self)@.polys + polys.map_values(copy_poly(idx, n))
                    + if with_extrusion {
                    bridged.map_values(bridge(idx, n))
                } else {
                    Seq::empty()
                }
                &&& final(self)@.mirror_mode == old(self)@.mirror_mode
            }),
    {
        let table = match self.duplication_table(vert_indicies_to_dup) {
            Some(t) => t,
            None => {
                return false;
            },
        };
        let ghost old_view = self@;
        let ghost idx = vert_indicies_to_dup@;
        let ghost n = old_view.verts.len();
        let n_verts = self.verts.len();
        let lines_to_dup = self.lines_to_copy(&table, Ghost(idx));
        let mut new_polys = self.polys_copied(&table, Ghost(idx));
        self.duplicate_and_add_verts(vert_indicies_to_dup);
        let mut new_lines: Vec<Line> = Vec::new();
        let mut i: usize = 0;
        while i < lines_to_dup.len()
            invariant
                is_dup_table(table@, idx, n),
                forall|k: int| 0 <= k < lines_to_dup@.len() ==> line_in_range(#[trigger] lines_to_dup@[k], n),
                forall|k: int| 0 <= k < lines_to_dup@.len() ==> idx.contains(#[trigger] lines_to_dup@[k].0) && idx.contains(lines_to_dup@[k].1),
                i <= lines_to_dup@.len(),
                new_lines@ =~= lines_to_dup@.take(i as int).map_values(copy_line(idx, n)),
            decreases lines_to_dup@.len() - i,
        {
            let l = lines_to_dup[i];
            proof {
                assert(line_in_range(lines_to_dup@[i as int], n));
                assert(idx.contains(l.0) && idx.contains(l.1));
            }
            new_lines.push((table[l.0], table[l.1]));
            i += 1;
        }
        proof {
            assert(lines_to_dup@.take(i as int) =~= lines_to_dup@);
        }
        let ghost copied_polys = new_polys@.map_values(|p: Poly| p@);
        self.lines.append(&mut new_lines);
        let ghost before_polys = self.polys@;
        self.polys.append(&mut new_polys);
        proof {
            assert(self.polys@.map_values(|p: Poly| p@) =~= before_polys.map_values(|p: Poly| p@)
                + copied_polys);
        }
        let ghost mid = self@;
        if with_extrusion {
            self.connect_duplicated_verts(vert_indicies_to_dup, n_verts);
            self.connect_duplicated_lines(&lines_to_dup, &table, Ghost(idx));
        }
        proof {
            let s = idx.to_set();
            let w = old_view.lines.filter(within_set(s));
            let q = old_view.polys.filter(poly_within_set(s));
            let bridged = w.filter(not_a_loop());
            let extra_lines = if with_extrusion { side_lines(idx, n) } else { Seq::empty() };
            let extra_polys = if with_extrusion { bridged.map_values(bridge(idx, n)) } else { Seq::empty() };
            assert(self@.lines =~= old_view.lines + w.map_values(copy_line(idx, n)) + extra_lines);
            assert(self@.polys =~= old_view.polys + q.map_values(copy_poly(idx, n)) + extra_polys);
            let m = self@.verts.len();
            assert(m == n + idx.len());
            assert forall|i: int| 0 <= i < self@.lines.len() implies line_in_range(
                #[trigger] self@.lines[i],
                m,
            ) by {
                let a = old_view.lines.len();
                let b = a + w.len();
                if i < a {
                    assert(line_in_range(old_view.lines[i], n));
                } else if i < b {
                    let l = w[i - a];
                    assert(within_set(s)(l));
                    let pa = position_in(idx, l.0);
                    let pb = position_in(idx, l.1);
                    assert(idx[pa] == l.0);
                    assert(idx[pb] == l.1);
                } else {
                    assert(self@.lines[i] == side_lines(idx, n)[i - b]);
                }
            }
            assert forall|i: int| 0 <= i < self@.polys.len() implies poly_valid(
                #[trigger] self@.polys[i],
                m,
            ) by {
                let a = old_view.polys.len();
                let b = a + q.len();
                if i < a {
                    assert(poly_valid(old_view.polys[i], n));
                } else if i < b {
                    let p = q[i - a];
                    assert(poly_within_set(s)(p));
                    assert(q.contains(p));
                    old_view.polys.lemma_filter_contains_rev(poly_within_set(s), p);
                    let k = choose|k: int| 0 <= k < old_view.polys.len() && old_view.polys[k] == p;
                    assert(poly_valid(old_view.polys[k], n));
                    assert forall|k: int| 0 <= k < p.len() implies idx.contains(#[trigger] p[k]) by {
                        assert(s.contains(p[k]));
                    }
                    lemma_copy_poly_valid(p, idx, n);
                } else {
                    let l = bridged[i - b];
                    assert(not_a_loop()(l));
                    assert(bridged.contains(l));
                    w.lemma_filter_contains_rev(not_a_loop(), l);
                    assert(w.contains(l));
                    let k = choose|k: int| 0 <= k < w.len() && w[k] == l;
                    assert(within_set(s)(w[k]));
                    assert(w.contains(w[k]));
                    old_view.lines.lemma_filter_contains_rev(within_set(s), l);
                    let k2 = choose|k2: int| 0 <= k2 < old_view.lines.len() && old_view.lines[k2] == l;
                    assert(line_in_range(old_view.lines[k2], n));
                    let pa = position_in(idx, l.0);
                    let pb = position_in(idx, l.1);
                    assert(idx[pa] == l.0);
                    assert(idx[pb] == l.1);
                    let quad = bridge(idx, n)(l);
                    assert(self@.polys[i] == quad);
                    assert(quad.no_duplicates());
                }
            }
        }
        true
    }

    /// Appends a copy of each listed vertex, in the order given.
    fn duplicate_and_add_verts(&mut self, vert_indicies_to_dup: &[VertIndex])
        requires
            forall|j: int|
                0 <= j < vert_indicies_to_dup@.len() ==> #[trigger] vert_indicies_to_dup@[j]
                    < old(self)@.verts.len(),
        ensures
            final(self)@.verts.len() == old(self)@.verts.len() + vert_indicies_to_dup@.len(),
            final(self)@.verts.take(old(self)@.verts.len() as int) == old(self)@.verts,
            forall|j: int|
                0 <= j < vert_indicies_to_dup@.len() ==> #[trigger] final(self)@.verts[old(
                    self,
                )@.verts.len() + j] == old(self)@.verts[vert_indicies_to_dup@[j] as int],
            final(self)@.same_topology(old(self)@),
    {
        let ghost old_view = self@;
        let n = self.verts.len();
        let mut j: usize = 0;
        while j < vert_indicies_to_dup.len()
            invariant
                n == old_view.verts.len(),
                forall|k: int|
                    0 <= k < vert_indicies_to_dup@.len() ==> #[trigger] vert_indicies_to_dup@[k] < n,
                j <= vert_indicies_to_dup@.len(),
                self@.verts.len() == n + j,
                self@.verts.take(n as int) == old_view.verts,
                forall|k: int|
                    0 <= k < j ==> #[trigger] self@.verts[n + k]
                        == old_view.verts[vert_indicies_to_dup@[k] as int],
                self@.same_topology(old_view),
            decreases vert_indicies_to_dup@.len() - j,
        {
            let v = vert_indicies_to_dup[j];
            proof {
                assert(v < n);
                assert(self@.verts[v as int] == self@.verts.take(n as int)[v as int]);
            }
            let p = self.verts[v];
            self.verts.push(p);
            proof {
                assert(self@.verts.take(n as int) =~= old_view.verts);
            }
            j += 1;
        }
    }

    /// The lines whose two endpoints are both to be copied, in line order.
    fn lines_to_copy(&self, table: &Vec<usize>, Ghost(idx): Ghost<Seq<VertIndex>>) -> (r: Vec<Line>)
        requires
            self@.wf(),
            is_dup_table(table@, idx, self@.verts.len()),
        ensures
            r@ == self@.lines.filter(within_set(idx.to_set())),
    {
        let mut r: Vec<Line> = Vec::new();
        let mut i: usize = 0;
        while i < self.lines.len()
            invariant
                self@.wf(),
                is_dup_table(table@, idx, self@.verts.len()),
                i <= self@.lines.len(),
                r@ == self@.lines.take(i as int).filter(within_set(idx.to_set())),
            decreases self@.lines.len() - i,
        {
            let l = self.lines[i];
            proof {
                assert(line_in_range(self@.lines[i as int], self@.verts.len()));
                assert(self@.lines.take(i + 1) =~= self@.lines.take(i as int).push(l));
                self@.lines.take(i as int).lemma_filter_push(l, within_set(idx.to_set()));
                assert(table@[l.0 as int] != usize::MAX <==> idx.contains(l.0));
                assert(table@[l.1 as int] != usize::MAX <==> idx.contains(l.1));
            }
            if table[l.0] != usize::MAX && table[l.1] != usize::MAX {
                r.push(l);
            }
            i += 1;
        }
        proof {
            assert(self@.lines.take(i as int) =~= self@.lines);
        }
        r
    }

    /// The copies of the polys whose vertices are all to be copied, in poly
    /// order, renamed to the copied vertices.
    fn polys_copied(&self, table: &Vec<usize>, Ghost(idx): Ghost<Seq<VertIndex>>) -> (r: Vec<Poly>)
        requires
            self@.wf(),
            is_dup_table(table@, idx, self@.verts.len()),
        ensures
            r@.map_values(|p: Poly| p@) == self@.polys.filter(poly_within_set(idx.to_set())).map_values(
                copy_poly(idx, self@.verts.len()),
            ),
    {
        let ghost n = self@.verts.len();
        let ghost f = copy_poly(idx, n);
        let mut r: Vec<Poly> = Vec::new();
        let mut i: usize = 0;
        while i < self.polys.len()
            invariant
                self@.wf(),
                n == self@.verts.len(),
                is_dup_table(table@, idx, n),
                i <= self@.polys.len(),
                r@.map_values(|p: Poly| p@) == self@.polys.take(i as int).filter(
                    poly_within_set(idx.to_set()),
                ).map_values(copy_poly(idx, n)),
            decreases self@.polys.len() - i,
        {
            let ghost p = self@.polys[i as int];
            proof {
                assert(self@.polys.take(i + 1) =~= self@.polys.take(i as int).push(p));
                self@.polys.take(i as int).lemma_filter_push(p, poly_within_set(idx.to_set()));
                self@.polys.take(i as int).filter(poly_within_set(idx.to_set())).lemma_push_map_commute(
                    copy_poly(idx, n),
                    p,
                );
            }
            match Self::copy_if_within(&self.polys[i], table, Ghost(idx), Ghost(n)) {
                Some(q) => {
                    let ghost before = r@;
                    r.push(q);
                    proof {
                        assert(r@.map_values(|p: Poly| p@) =~= before.map_values(|p: Poly| p@).push(q@));
                    }
                },
                None => {},
            }
            i += 1;
        }
        proof {
            assert(self@.polys.take(i as int) =~= self@.polys);
        }
        r
    }

    /// The poly renamed to the copies of its vertices, when they are all to
    /// be copied.
    fn copy_if_within(
        poly: &Poly,
        table: &Vec<usize>,
        Ghost(idx): Ghost<Seq<VertIndex>>,
        Ghost(n): Ghost<nat>,
    ) -> (r: Option<Poly>)
        requires
            is_dup_table(table@, idx, n),
            forall|k: int| 0 <= k < poly@.len() ==> #[trigger] poly@[k] < n,
        ensures
            r.is_some() <==> poly_within_set(idx.to_set())(poly@),
            r.is_some() ==> r.unwrap()@ == copy_poly(idx, n)(poly@),
    {
        let mut out: Vec<VertIndex> = Vec::new();
        let mut k: usize = 0;
        while k < poly.len()
            invariant
                is_dup_table(table@, idx, n),
                forall|j: int| 0 <= j < poly@.len() ==> #[trigger] poly@[j] < n,
                k <= poly@.len(),
                forall|j: int| 0 <= j < k ==> idx.contains(#[trigger] poly@[j]),
                out@ =~= poly@.take(k as int).map_values(copy_index(idx, n)),
            decreases poly@.len() - k,
        {
            let v = poly[k];
            proof {
                assert(v < n);
            }
            let t = table[v];
            if t == usize::MAX {
                proof {
                    assert(!idx.to_set().contains(poly@[k as int]));
                }
                return None;
            }
            out.push(t);
            k += 1;
        }
        proof {
            assert(poly@.take(k as int) =~= poly@);
        }
        Some(out)
    }

    /// Joins each listed vertex to its copy, the `j`-th copy being at index
    /// `n + j`.
    fn connect_duplicated_verts(&mut self, source_points: &[VertIndex], n: usize)
        requires
            n + source_points@.len() < usize::MAX,
        ensures
            final(self)@ == (MeshView {
                lines: old(self)@.lines + side_lines(source_points@, n as nat),
                ..old(self)@
            }),
    {
        let ghost old_view = self@;
        let mut j: usize = 0;
        while j < source_points.len()
            invariant
                n + source_points@.len() < usize::MAX,
                j <= source_points@.len(),
                self@ == (MeshView {
                    lines: old_view.lines + side_lines(source_points@.take(j as int), n as nat),
                    ..old_view
                }),
            decreases source_points@.len() - j,
        {
            self.lines.push((source_points[j], n + j));
            proof {
                assert(side_lines(source_points@.take(j + 1), n as nat) =~= side_lines(
                    source_points@.take(j as int),
                    n as nat,
                ).push((source_points@[j as int], (n + j) as VertIndex)));
                assert(self@.lines =~= old_view.lines + side_lines(source_points@.take(j + 1), n as nat));
            }
            j += 1;
        }
        proof {
            assert(source_points@.take(j as int) =~= source_points@);
        }
    }

    /// Adds, for each copied line that is not a loop, the quad that joins it
    /// to its copy.
    fn connect_duplicated_lines(
        &mut self,
        source_lines: &Vec<Line>,
        table: &Vec<usize>,
        Ghost(idx): Ghost<Seq<VertIndex>>,
    )
        requires
            forall|k: int|
                0 <= k < source_lines@.len() ==> idx.contains(#[trigger] source_lines@[k].0)
                    && idx.contains(source_lines@[k].1) && source_lines@[k].0 < table@.len()
                    && source_lines@[k].1 < table@.len(),
            is_dup_table(table@, idx, table@.len() as nat),
        ensures
            final(self)@ == (MeshView {
                polys: old(self)@.polys + source_lines@.filter(not_a_loop()).map_values(
                    bridge(idx, table@.len() as nat),
                ),
                ..old(self)@
            }),
    {
        let ghost old_view = self@;
        let ghost n = table@.len() as nat;
        let mut i: usize = 0;
        while i < source_lines.len()
            invariant
                n == table@.len(),
                forall|k: int|
                    0 <= k < source_lines@.len() ==> idx.contains(#[trigger] source_lines@[k].0)
                        && idx.contains(source_lines@[k].1) && source_lines@[k].0 < n
                        && source_lines@[k].1 < n,
                is_dup_table(table@, idx, n),
                i <= source_lines@.len(),
                self@ == (MeshView {
                    polys: old_view.polys + source_lines@.take(i as int).filter(
                        not_a_loop(),
                    ).map_values(bridge(idx, n)),
                    ..old_view
                }),
            decreases source_lines@.len() - i,
        {
            let l = source_lines[i];
            proof {
                let pre = source_lines@.take(i as int);
                assert(source_lines@.take(i + 1) =~= pre.push(l));
                pre.lemma_filter_push(l, not_a_loop());
                pre.filter(not_a_loop()).lemma_push_map_commute(bridge(idx, n), l);
                assert(idx.contains(l.0) && idx.contains(l.1));
            }
            if l.0 != l.1 {
                let quad: Poly = vec![l.0, l.1, table[l.1], table[l.0]];
                let ghost before = self.polys@;
                self.polys.push(quad);
                proof {
                    assert(quad@ =~= bridge(idx, n)(l));
                    assert(self.polys@.map_values(|p: Poly| p@) =~= before.map_values(|p: Poly| p@).push(quad@));
                }
            }
            i += 1;
        }
        proof {
            assert(source_lines@.take(i as int) =~= source_lines@);
        }
    }

    /// The table from each listed vertex to its copy, or `None` when an index
    /// is out of range or listed twice.
    fn duplication_table(&self, idx: &[VertIndex]) -> (r: Option<Vec<usize>>)
        requires
            self@.verts.len() + idx@.len() < usize::MAX,
        ensures
            r.is_some() <==> idx@.no_duplicates() && forall|j: int|
                0 <= j < idx@.len() ==> #[trigger] idx@[j] < self@.verts.len(),
            r.is_some() ==> is_dup_table(r.unwrap()@, idx@, self@.verts.len()),
    {
        let n = self.verts.len();
        let mut table: Vec<usize> = Vec::new();
        let mut v: usize = 0;
        while v < n
            invariant
                v <= n,
                table@.len() == v,
                forall|u: int| 0 <= u < v ==> #[trigger] table@[u] == usize::MAX,
            decreases n - v,
        {
            table.push(usize::MAX);
            v += 1;
        }
        let mut j: usize = 0;
        while j < idx.len()
            invariant
                n == self@.verts.len(),
                n + idx@.len() < usize::MAX,
                j <= idx@.len(),
                table@.len() == n,
                idx@.take(j as int).no_duplicates(),
                forall|k: int| 0 <= k < j ==> #[trigger] idx@[k] < n,
                forall|k: int| 0 <= k < j ==> #[trigger] table@[idx@[k] as int] == n + k,
                forall|u: int|
                    0 <= u < n ==> (#[trigger] table@[u] != usize::MAX <==> idx@.take(
                        j as int,
                    ).contains(u as VertIndex)),
            decreases idx@.len() - j,
        {
            let v = idx[j];
            if v >= n {
                return None;
            }
            if table[v] != usize::MAX {
                proof {
                    let k = choose|k: int| 0 <= k < j && idx@.take(j as int)[k] == v;
                    assert(idx@[k] == idx@[j as int]);
                }
                return None;
            }
            table.set(v, n + j);
            proof {
                assert(idx@.take(j + 1) =~= idx@.take(j as int).push(v));
                assert forall|u: int| 0 <= u < n implies (#[trigger] table@[u] != usize::MAX
                    <==> idx@.take(j + 1).contains(u as VertIndex)) by {
                    if u != v {
                        if idx@.take(j + 1).contains(u as VertIndex) {
                            let k = choose|k: int| 0 <= k <= j && #[trigger] idx@.take(j + 1)[k] == u as VertIndex;
                            assert(k < j);
                            assert(idx@.take(j as int)[k] == u);
                        }
                    }
                }
                assert forall|k: int| 0 <= k <= j implies #[trigger] table@[idx@[k] as int] == n + k by {
                    if k < j {
                        assert(idx@.take(j as int).contains(idx@[k]));
                        assert(idx@[k] != v);
                    }
                }
            }
            j += 1;
        }
        proof {
            assert(idx@.take(j as int) =~= idx@);
            assert forall|u: int| 0 <= u < n && idx@.contains(u as VertIndex) implies #[trigger] table@[u]
                == dup_of(idx@, n as nat, u as VertIndex) by {
                let k = choose|k: int| 0 <= k < idx@.len() && idx@[k] == u as VertIndex;
                lemma_position_in(idx@, k);
            }
        }
        Some(table)
    }
}

} // verus!
