//! Splitting lines at their midpoints, with the polys that use them repaired.
use vstd::prelude::*;
use std::collections::HashSet;
use super::{items_at, items_not_at, line_in_range, poly_valid, Mesh, MeshView};
use crate::types::{Line, LineIndex, Poly, VertIndex};

verus! {

broadcast use vstd::std_specs::hash::group_hash_axioms, vstd::seq_lib::group_seq_properties;


/// The two halves of each split line: the `k`-th split line `(a, b)` with
/// new vertex `m = first + k` becomes `(a, m)` and `(m, b)`.
pub open spec fn split_halves(split: Seq<Line>, first: nat) -> Seq<Line>
    decreases split.len(),
{
    if split.len() == 0 {
        Seq::empty()
    } else {
        let l = split.last();
        let m = (first + split.len() - 1) as VertIndex;
        split_halves(split.drop_last(), first).push((l.0, m)).push((m, l.1))
    }
}

/// The vertex after position `j` in the cyclic poly.
pub open spec fn cyclic_next(p: Seq<VertIndex>, j: int) -> VertIndex {
    if j + 1 < p.len() {
        p[j + 1]
    } else {
        p[0]
    }
}

/// Positions `j` and the one after it, cyclically, hold the edge `{a, b}`.
pub open spec fn edge_at(p: Seq<VertIndex>, j: int, a: VertIndex, b: VertIndex) -> bool {
    let u = p[j];
    let w = cyclic_next(p, j);
    (u == a && w == b) || (u == b && w == a)
}

/// The first position at or after `j` that holds the edge `{a, b}`, or -1.
pub open spec fn first_edge_from(p: Seq<VertIndex>, a: VertIndex, b: VertIndex, j: int) -> int
    decreases p.len() - j,
{
    if j < 0 || j >= p.len() {
        -1
    } else if edge_at(p, j, a, b) {
        j
    } else {
        first_edge_from(p, a, b, j + 1)
    }
}

/// The poly with `x` inserted between the two vertices of its first edge
/// `{a, b}`; unchanged when it has no such edge.
pub open spec fn insert_on_edge(p: Seq<VertIndex>, a: VertIndex, b: VertIndex, x: VertIndex) -> Seq<
    VertIndex,
> {
    let j = first_edge_from(p, a, b, 0);
    if j < 0 {
        p
    } else {
        p.insert(j + 1, x)
    }
}

/// The map [`insert_on_edge`] applies to each poly.
pub open spec fn edge_insertion(a: VertIndex, b: VertIndex, x: VertIndex) -> spec_fn(
    Seq<VertIndex>,
) -> Seq<VertIndex> {
    |p: Seq<VertIndex>| insert_on_edge(p, a, b, x)
}

/// The polys after splitting the lines of `split` in turn, the `k`-th one
/// with new vertex `first + k`.
pub open spec fn polys_after_splits(
    polys: Seq<Seq<VertIndex>>,
    split: Seq<Line>,
    first: nat,
) -> Seq<Seq<VertIndex>>
    decreases split.len(),
{
    if split.len() == 0 {
        polys
    } else {
        let l = split.last();
        let m = (first + split.len() - 1) as VertIndex;
        polys_after_splits(polys, split.drop_last(), first).map_values(edge_insertion(l.0, l.1, m))
    }
}

proof fn lemma_picked_lines_in_range(lines: Seq<Line>, s: Set<LineIndex>, n: nat)
    requires
        forall|i: int| 0 <= i < lines.len() ==> line_in_range(#[trigger] lines[i], n),
    ensures
        items_at(lines, s).len() + items_not_at(lines, s).len() == lines.len(),
        forall|i: int|
            0 <= i < items_at(lines, s).len() ==> line_in_range(#[trigger] items_at(lines, s)[i], n),
        forall|i: int|
            0 <= i < items_not_at(lines, s).len() ==> line_in_range(
                #[trigger] items_not_at(lines, s)[i],
                n,
            ),
    decreases lines.len(),
{
    if lines.len() > 0 {
        lemma_picked_lines_in_range(lines.drop_last(), s, n);
        assert(line_in_range(lines[lines.len() - 1], n));
    }
}

proof fn lemma_split_halves(split: Seq<Line>, first: nat, n: nat)
    requires
        first >= n,
        forall|i: int| 0 <= i < split.len() ==> line_in_range(#[trigger] split[i], n),
    ensures
        split_halves(split, first).len() == 2 * split.len(),
        forall|i: int|
            0 <= i < split_halves(split, first).len() ==> line_in_range(
                #[trigger] split_halves(split, first)[i],
                first + split.len(),
            ),
    decreases split.len(),
{
    if split.len() > 0 {
        lemma_split_halves(split.drop_last(), first, n);
        assert(line_in_range(split[split.len() - 1], n));
    }
}

proof fn lemma_split_halves_len(split: Seq<Line>, first: nat)
    ensures
        split_halves(split, first).len() == 2 * split.len(),
    decreases split.len(),
{
    if split.len() > 0 {
        lemma_split_halves_len(split.drop_last(), first);
    }
}

proof fn lemma_first_edge_from(p: Seq<VertIndex>, a: VertIndex, b: VertIndex, j: int)
    ensures
        first_edge_from(p, a, b, j) == -1 || (j <= first_edge_from(p, a, b, j) < p.len()
            && edge_at(p, first_edge_from(p, a, b, j), a, b)),
    decreases p.len() - j,
{
    if 0 <= j < p.len() && !edge_at(p, j, a, b) {
        lemma_first_edge_from(p, a, b, j + 1);
    }
}

/// Inserting a vertex index that is new to a valid poly keeps it valid.
proof fn lemma_insert_on_edge_valid(p: Seq<VertIndex>, a: VertIndex, b: VertIndex, x: VertIndex)
    requires
        poly_valid(p, x as nat),
    ensures
        poly_valid(insert_on_edge(p, a, b, x), (x + 1) as nat),
{
    lemma_first_edge_from(p, a, b, 0);
    let j = first_edge_from(p, a, b, 0);
    if j >= 0 {
        let r = p.insert(j + 1, x);
        assert forall|k: int| 0 <= k < r.len() implies #[trigger] r[k] < x + 1 by {
            if k > j + 1 {
                assert(r[k] == p[k - 1]);
            }
        }
        assert forall|u: int, v: int| 0 <= u < r.len() && 0 <= v < r.len() && u != v implies r[u]
            != r[v] by {
            if u != j + 1 && v != j + 1 {
                let pu = if u < j + 1 { u } else { u - 1 };
                let pv = if v < j + 1 { v } else { v - 1 };
                assert(r[u] == p[pu]);
                assert(r[v] == p[pv]);
            } else if u == j + 1 {
                let pv = if v < j + 1 { v } else { v - 1 };
                assert(r[v] == p[pv]);
            } else {
                let pu = if u < j + 1 { u } else { u - 1 };
                assert(r[u] == p[pu]);
            }
        }
    }
}

proof fn lemma_insertion_keeps_valid(polys: Seq<Seq<VertIndex>>, a: VertIndex, b: VertIndex, x: VertIndex)
    requires
        forall|i: int| 0 <= i < polys.len() ==> poly_valid(#[trigger] polys[i], x as nat),
    ensures
        forall|i: int|
            0 <= i < polys.len() ==> poly_valid(
                #[trigger] polys.map_values(edge_insertion(a, b, x))[i],
                (x + 1) as nat,
            ),
{
    assert forall|i: int| 0 <= i < polys.len() implies poly_valid(
        #[trigger] polys.map_values(edge_insertion(a, b, x))[i],
        (x + 1) as nat,
    ) by {
        lemma_insert_on_edge_valid(polys[i], a, b, x);
    }
}

/// The law of a single split: in a poly that has the edge `{a, b}`, the new
/// vertex `x` is inserted exactly once, strictly between `a` and `b`, and
/// taking it out again gives back the poly as it was.
pub proof fn lemma_split_inserts_between(
    polys: Seq<Seq<VertIndex>>,
    i: int,
    a: VertIndex,
    b: VertIndex,
    x: VertIndex,
)
    requires
        0 <= i < polys.len(),
        poly_valid(polys[i], x as nat),
        exists|j: int| 0 <= j < polys[i].len() && edge_at(polys[i], j, a, b),
    ensures
        ({
            let p = polys[i];
            let r = polys_after_splits(polys, seq![(a, b)], x as nat)[i];
            &&& r.len() == p.len() + 1
            &&& exists|k: int|
                0 < k < r.len() && r[k] == x && r.remove(k) == p && ((r[k - 1] == a
                    && cyclic_next(r, k) == b) || (r[k - 1] == b && cyclic_next(r, k) == a))
        }),
{
    let p = polys[i];
    let split = seq![(a, b)];
    assert(split.drop_last() =~= Seq::<Line>::empty());
    assert(split.last() == (a, b));
    assert(polys_after_splits(polys, split.drop_last(), x as nat) == polys);
    assert(polys_after_splits(polys, split, x as nat) == polys.map_values(edge_insertion(a, b, x)));
    let r = polys_after_splits(polys, split, x as nat)[i];
    assert(r == insert_on_edge(p, a, b, x));
    let w = choose|j: int| 0 <= j < p.len() && edge_at(p, j, a, b);
    lemma_first_edge_from(p, a, b, 0);
    lemma_first_is_found(p, a, b, 0, w);
    let j = first_edge_from(p, a, b, 0);
    let k = j + 1;
    assert(r == p.insert(k, x));
    assert(r.remove(k) =~= p);
    assert(r[k - 1] == p[j]);
    if j + 1 < p.len() {
        assert(cyclic_next(r, k) == r[k + 1]);
        assert(r[k + 1] == p[j + 1]);
    } else {
        assert(cyclic_next(r, k) == r[0]);
    }
}

proof fn lemma_first_is_found(p: Seq<VertIndex>, a: VertIndex, b: VertIndex, j: int, w: int)
    requires
        0 <= j <= w < p.len(),
        edge_at(p, w, a, b),
    ensures
        first_edge_from(p, a, b, j) >= 0,
    decreases w - j,
{
    if !edge_at(p, j, a, b) {
        lemma_first_is_found(p, a, b, j + 1, w);
    }
}

impl<P: Copy> Mesh<P> {
    /// Splits each line whose index is in `line_indicies`, taken in line
    /// order. The `k`-th one, `(a, b)`, gets a new vertex at index `n + k`
    /// (with `n` the old vertex count) placed at `midpoint` of its ends; the
    /// line is replaced by `(a, n + k)` and `(n + k, b)`, and every poly
    /// holding the edge `{a, b}` gets the new vertex between `a` and `b`.
    pub fn split_lines<F: Fn(P, P) -> P>(&mut self, line_indicies: &HashSet<LineIndex>, midpoint: F)
        requires
            old(self)@.wf(),
            forall|a: P, b: P| midpoint.requires((a, b)),
            old(self)@.verts.len() + old(self)@.lines.len() <= usize::MAX,
            2 * old(self)@.lines.len() <= usize::MAX,
        ensures
            final(self)@.wf(),
            ({
                let n = old(self)@.verts.len();
                let split = items_at(old(self)@.lines, line_indicies@);
                &&& final(self)@.verts.len() == n + split.len()
                &&& final(self)@.verts.take(n as int) == old(self)@.verts
                &&& forall|k: int|
                    0 <= k < split.len() ==> midpoint.ensures(
                        (old(self)@.verts[split[k].0 as int], old(self)@.verts[split[k].1 as int]),
                        #[trigger] final(self)@.verts[n + k],
                    )
                &&& final(self)@.lines == items_not_at(old(self)@.lines, line_indicies@)
                    + split_halves(split, n)
                &&& final(self)@.polys == polys_after_splits(old(self)@.polys, split, n)
                &&& final(self)@.mirror_mode == old(self)@.mirror_mode
            }),
    {
        let ghost old_view = self@;
        let ghost set = line_indicies@;
        proof {
            lemma_picked_lines_in_range(old_view.lines, set, old_view.verts.len());
        }
        let (lines_ordered, kept) = self.partition_lines(line_indicies);
        let ghost split = lines_ordered@;
        let n = self.verts.len();
        self.add_midpoints(&lines_ordered, &midpoint);
        self.lines = kept;
        self.join_split_lines(&lines_ordered, n);
        proof {
            lemma_split_halves(split, n as nat, n as nat);
            let rest = items_not_at(old_view.lines, set);
            assert forall|i: int| 0 <= i < self@.lines.len() implies line_in_range(
                #[trigger] self@.lines[i],
                self@.verts.len(),
            ) by {
                if i >= rest.len() {
                    assert(self@.lines[i] == split_halves(split, n as nat)[i - rest.len()]);
                }
            }
        }
    }

    /// Adds the two halves of each line of `split`, the `k`-th one meeting at
    /// vertex `n + k`, and puts that vertex into the polys holding the line.
    fn join_split_lines(&mut self, split: &Vec<Line>, n: usize)
        requires
            n + split@.len() == old(self)@.verts.len(),
            n + split@.len() <= usize::MAX,
            old(self)@.lines.len() + 2 * split@.len() <= usize::MAX,
            forall|i: int|
                0 <= i < old(self)@.polys.len() ==> poly_valid(#[trigger] old(self)@.polys[i], n as nat),
        ensures
            final(self)@.verts == old(self)@.verts,
            final(self)@.mirror_mode == old(self)@.mirror_mode,
            final(self)@.lines == old(self)@.lines + split_halves(split@, n as nat),
            final(self)@.polys == polys_after_splits(old(self)@.polys, split@, n as nat),
            forall|i: int|
                0 <= i < final(self)@.polys.len() ==> poly_valid(
                    #[trigger] final(self)@.polys[i],
                    final(self)@.verts.len(),
                ),
    {
        let ghost old_view = self@;
        let mut k: usize = 0;
        while k < split.len()
            invariant
                n + split@.len() == old_view.verts.len(),
                n + split@.len() <= usize::MAX,
                old_view.lines.len() + 2 * split@.len() <= usize::MAX,
                k <= split@.len(),
                self@.verts == old_view.verts,
                self@.mirror_mode == old_view.mirror_mode,
                self@.lines == old_view.lines + split_halves(split@.take(k as int), n as nat),
                self@.polys == polys_after_splits(old_view.polys, split@.take(k as int), n as nat),
                forall|i: int|
                    0 <= i < self@.polys.len() ==> poly_valid(#[trigger] self@.polys[i], (n + k) as nat),
            decreases split@.len() - k,
        {
            let l = split[k];
            let new_vert_index = n + k;
            proof {
                lemma_split_halves_len(split@.take(k as int), n as nat);
            }
            self.lines.push((l.0, new_vert_index));
            self.lines.push((new_vert_index, l.1));
            proof {
                assert(split@.take(k + 1).drop_last() =~= split@.take(k as int));
                assert(self@.lines =~= old_view.lines + split_halves(split@.take(k + 1), n as nat));
                lemma_insertion_keeps_valid(self@.polys, l.0, l.1, new_vert_index);
            }
            self.update_polys_with_new_vert_between_old_verts(&l, new_vert_index);
            k += 1;
        }
        proof {
            assert(split@.take(k as int) =~= split@);
        }
    }

    /// The lines whose indices are in `line_indicies`, and the others, each
    /// in line order.
    fn partition_lines(&self, line_indicies: &HashSet<LineIndex>) -> (r: (Vec<Line>, Vec<Line>))
        ensures
            r.0@ == items_at(self@.lines, line_indicies@),
            r.1@ == items_not_at(self@.lines, line_indicies@),
    {
        let mut picked: Vec<Line> = Vec::new();
        let mut kept: Vec<Line> = Vec::new();
        let mut i: usize = 0;
        while i < self.lines.len()
            invariant
                i <= self@.lines.len(),
                picked@ == items_at(self@.lines.take(i as int), line_indicies@),
                kept@ == items_not_at(self@.lines.take(i as int), line_indicies@),
            decreases self@.lines.len() - i,
        {
            proof {
                assert(self@.lines.take(i + 1).drop_last() =~= self@.lines.take(i as int));
            }
            if line_indicies.contains(&i) {
                picked.push(self.lines[i]);
            } else {
                kept.push(self.lines[i]);
            }
            i += 1;
        }
        proof {
            assert(self@.lines.take(i as int) =~= self@.lines);
        }
        (picked, kept)
    }

    /// Appends, for each line of `split` in turn, a vertex at the midpoint
    /// of its ends.
    fn add_midpoints<F: Fn(P, P) -> P>(&mut self, split: &Vec<Line>, midpoint: &F)
        requires
            forall|j: int|
                0 <= j < split@.len() ==> line_in_range(#[trigger] split@[j], old(self)@.verts.len()),
            forall|a: P, b: P| midpoint.requires((a, b)),
            old(self)@.verts.len() + split@.len() <= usize::MAX,
        ensures
            ({
                let n = old(self)@.verts.len();
                &&& final(self)@.verts.len() == n + split@.len()
                &&& final(self)@.verts.take(n as int) == old(self)@.verts
                &&& forall|k: int|
                    0 <= k < split@.len() ==> midpoint.ensures(
                        (old(self)@.verts[split@[k].0 as int], old(self)@.verts[split@[k].1 as int]),
                        #[trigger] final(self)@.verts[n + k],
                    )
                &&& final(self)@.same_topology(old(self)@)
            }),
    {
        let ghost old_view = self@;
        let n = self.verts.len();
        let mut k: usize = 0;
        while k < split.len()
            invariant
                n == old_view.verts.len(),
                n + split@.len() <= usize::MAX,
                forall|j: int| 0 <= j < split@.len() ==> line_in_range(#[trigger] split@[j], n as nat),
                forall|a: P, b: P| midpoint.requires((a, b)),
                k <= split@.len(),
                self@.verts.len() == n + k,
                self@.verts.take(n as int) == old_view.verts,
                self@.same_topology(old_view),
                forall|j: int|
                    0 <= j < k ==> midpoint.ensures(
                        (old_view.verts[split@[j].0 as int], old_view.verts[split@[j].1 as int]),
                        #[trigger] self@.verts[n + j],
                    ),
            decreases split@.len() - k,
        {
            let l = split[k];
            proof {
                assert(line_in_range(split@[k as int], n as nat));
                assert(self@.verts[l.0 as int] == self@.verts.take(n as int)[l.0 as int]);
                assert(self@.verts[l.1 as int] == self@.verts.take(n as int)[l.1 as int]);
            }
            let va = self.verts[l.0];
            let vb = self.verts[l.1];
            let c = midpoint(va, vb);
            self.verts.push(c);
            proof {
                assert(self@.verts.take(n as int) =~= old_view.verts);
            }
            k += 1;
        }
    }

    /// Puts `new_vert` between the two vertices of the edge `old_verts` in
    /// every poly that has that edge.
    fn update_polys_with_new_vert_between_old_verts(&mut self, old_verts: &Line, new_vert: VertIndex)
        ensures
            final(self)@ == (MeshView {
                polys: old(self)@.polys.map_values(edge_insertion(old_verts.0, old_verts.1, new_vert)),
                ..old(self)@
            }),
    {
        let ghost src = self@.polys;
        let mut updated: Vec<Poly> = Vec::new();
        let mut i: usize = 0;
        while i < self.polys.len()
            invariant
                src == self@.polys,
                i <= src.len(),
                updated@.map_values(|p: Poly| p@) =~= src.take(i as int).map_values(
                    edge_insertion(old_verts.0, old_verts.1, new_vert),
                ),
            decreases src.len() - i,
        {
            let poly = Self::insert_between(&self.polys[i], old_verts.0, old_verts.1, new_vert);
            let ghost before = updated@;
            updated.push(poly);
            proof {
                assert(updated@.map_values(|p: Poly| p@) =~= before.map_values(|p: Poly| p@).push(poly@));
            }
            i += 1;
        }
        proof {
            assert(src.take(i as int) =~= src);
        }
        self.polys = updated;
    }

    /// A copy of the poly with `x` between the vertices of its first edge `{a, b}`.
    fn insert_between(poly: &Poly, a: VertIndex, b: VertIndex, x: VertIndex) -> (r: Poly)
        ensures
            r@ == insert_on_edge(poly@, a, b, x),
    {
        let len = poly.len();
        let mut j: usize = 0;
        let mut found = false;
        while j < len && !found
            invariant
                len == poly@.len(),
                j <= len,
                first_edge_from(poly@, a, b, 0) == first_edge_from(poly@, a, b, j as int),
                found ==> j < len && edge_at(poly@, j as int, a, b),
            decreases len - j + if found { 0int } else { 1int },
        {
            let u = poly[j];
            let w = if j + 1 < len {
                poly[j + 1]
            } else {
                poly[0]
            };
            if (u == a && w == b) || (u == b && w == a) {
                found = true;
            } else {
                j += 1;
            }
        }
        proof {
            if found {
                assert(first_edge_from(poly@, a, b, j as int) == j);
            }
        }
        let mut r: Vec<VertIndex> = Vec::new();
        let mut k: usize = 0;
        while k < len
            invariant
                len == poly@.len(),
                k <= len,
                r@ == poly@.take(k as int),
            decreases len - k,
        {
            r.push(poly[k]);
            proof {
                assert(poly@.take(k + 1) =~= poly@.take(k as int).push(poly@[k as int]));
            }
            k += 1;
        }
        proof {
            assert(poly@.take(k as int) =~= poly@);
        }
        if found {
            r.insert(j + 1, x);
        }
        r
    }
}

} // verus!
