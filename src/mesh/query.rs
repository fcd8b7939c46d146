//! Queries that expand a vertex selection into the lines and polys it
//! covers, and back.
use vstd::prelude::*;
use std::collections::HashSet;
use super::{Mesh, MeshView};
use crate::types::{Line, LineIndex, PolyIndex, VertIndex};

verus! {

broadcast use vstd::std_specs::hash::group_hash_axioms;

/// Both endpoints of the line are in `s`.
pub open spec fn line_within(l: Line, s: Set<VertIndex>) -> bool {
    s.contains(l.0) && s.contains(l.1)
}

/// Every vertex of the poly is in `s`.
pub open spec fn poly_within(p: Seq<VertIndex>, s: Set<VertIndex>) -> bool {
    forall|k: int| 0 <= k < p.len() ==> s.contains(#[trigger] p[k])
}

/// How many entries of the poly are in `s`.
pub open spec fn count_within(p: Seq<VertIndex>, s: Set<VertIndex>) -> nat
    decreases p.len(),
{
    if p.len() == 0 {
        0
    } else {
        count_within(p.drop_last(), s) + if s.contains(p.last()) {
            1nat
        } else {
            0nat
        }
    }
}

/// `r` lists, in increasing order, exactly the positions `i` of `s` for
/// which `pred(s[i])` holds.
pub open spec fn selects<A>(r: Seq<usize>, s: Seq<A>, pred: spec_fn(A) -> bool) -> bool {
    &&& forall|a: int, b: int| 0 <= a < b < r.len() ==> r[a] < r[b]
    &&& forall|k: int| 0 <= k < r.len() ==> #[trigger] r[k] < s.len() && pred(s[r[k] as int])
    &&& forall|i: int| 0 <= i < s.len() && pred(#[trigger] s[i]) ==> r.contains(i as usize)
}

/// [`line_within`] as a predicate on lines.
pub open spec fn within_set(s: Set<VertIndex>) -> spec_fn(Line) -> bool {
    |l: Line| line_within(l, s)
}

/// [`poly_within`] as a predicate on polys.
pub open spec fn poly_within_set(s: Set<VertIndex>) -> spec_fn(Seq<VertIndex>) -> bool {
    |p: Seq<VertIndex>| poly_within(p, s)
}

/// The vertices of the listed polys, poly after poly; indices that name no
/// poly are skipped.
pub open spec fn verts_of_polys(polys: Seq<Seq<VertIndex>>, idx: Seq<PolyIndex>) -> Seq<VertIndex>
    decreases idx.len(),
{
    if idx.len() == 0 {
        Seq::empty()
    } else {
        let rest = verts_of_polys(polys, idx.drop_last());
        if idx.last() < polys.len() {
            rest + polys[idx.last() as int]
        } else {
            rest
        }
    }
}

impl<P: Copy> Mesh<P> {
    /// Indices of the lines whose two endpoints are both in `index_set`.
    pub fn lines_in_vertex_indicies(&self, index_set: &HashSet<VertIndex>) -> (r: Vec<LineIndex>)
        ensures
            selects(r@, self@.lines, within_set(index_set@)),
    {
        let mut r: Vec<LineIndex> = Vec::new();
        let mut i: usize = 0;
        while i < self.lines.len()
            invariant
                i <= self@.lines.len(),
                forall|a: int, b: int| 0 <= a < b < r@.len() ==> r@[a] < r@[b],
                forall|k: int|
                    0 <= k < r@.len() ==> #[trigger] r@[k] < i && within_set(index_set@)(
                        self@.lines[r@[k] as int],
                    ),
                forall|j: int|
                    0 <= j < i && within_set(index_set@)(#[trigger] self@.lines[j]) ==> r@.contains(
                        j as usize,
                    ),
            decreases self@.lines.len() - i,
        {
            let l = self.lines[i];
            if index_set.contains(&l.0) && index_set.contains(&l.1) {
                let ghost before = r@;
                r.push(i);
                proof {
                    assert forall|x: usize| before.contains(x) implies r@.contains(x) by {
                        let k = choose|k: int| 0 <= k < before.len() && before[k] == x;
                        assert(r@[k] == x);
                    }
                }
                proof {
                    assert(r@[r@.len() - 1] == i);
                }
            }
            i += 1;
        }
        r
    }

    /// Whether every vertex of the poly is in `index_set`.
    fn poly_in_set(poly: &Vec<VertIndex>, index_set: &HashSet<VertIndex>) -> (r: bool)
        ensures
            r == poly_within(poly@, index_set@),
    {
        let mut k: usize = 0;
        while k < poly.len()
            invariant
                k <= poly@.len(),
                forall|j: int| 0 <= j < k ==> index_set@.contains(#[trigger] poly@[j]),
            decreases poly@.len() - k,
        {
            if !index_set.contains(&poly[k]) {
                return false;
            }
            k += 1;
        }
        true
    }

    /// How many vertices of the poly are in `index_set`.
    fn count_in_set(poly: &Vec<VertIndex>, index_set: &HashSet<VertIndex>) -> (r: usize)
        ensures
            r == count_within(poly@, index_set@),
    {
        let mut count: usize = 0;
        let mut k: usize = 0;
        while k < poly.len()
            invariant
                k <= poly@.len(),
                count == count_within(poly@.take(k as int), index_set@),
                count <= k,
            decreases poly@.len() - k,
        {
            proof {
                assert(poly@.take(k + 1).drop_last() =~= poly@.take(k as int));
            }
            if index_set.contains(&poly[k]) {
                count += 1;
            }
            k += 1;
        }
        proof {
            assert(poly@.take(k as int) =~= poly@);
        }
        count
    }

    /// Indices of the polys whose vertices are all in `index_set`.
    pub fn polys_in_vertex_indicies(&self, index_set: &HashSet<VertIndex>) -> (r: Vec<PolyIndex>)
        ensures
            selects(r@, self@.polys, poly_within_set(index_set@)),
    {
        let mut r: Vec<PolyIndex> = Vec::new();
        let mut i: usize = 0;
        while i < self.polys.len()
            invariant
                i <= self@.polys.len(),
                forall|a: int, b: int| 0 <= a < b < r@.len() ==> r@[a] < r@[b],
                forall|k: int|
                    0 <= k < r@.len() ==> #[trigger] r@[k] < i && poly_within_set(index_set@)(
                        self@.polys[r@[k] as int],
                    ),
                forall|j: int|
                    0 <= j < i && poly_within_set(index_set@)(#[trigger] self@.polys[j])
                        ==> r@.contains(j as usize),
            decreases self@.polys.len() - i,
        {
            if Self::poly_in_set(&self.polys[i], index_set) {
                let ghost before = r@;
                r.push(i);
                proof {
                    assert forall|x: usize| before.contains(x) implies r@.contains(x) by {
                        let k = choose|k: int| 0 <= k < before.len() && before[k] == x;
                        assert(r@[k] == x);
                    }
                }
                proof {
                    assert(r@[r@.len() - 1] == i);
                }
            }
            i += 1;
        }
        r
    }

    /// Indices of the polys with at least three of their vertices in
    /// `index_set`: the polys that a selection borders.
    pub fn polys_partially_in_vertex_indicies(&self, index_set: &HashSet<VertIndex>) -> (r:
        HashSet<PolyIndex>)
        ensures
            forall|i: PolyIndex|
                #[trigger] r@.contains(i) <==> i < self@.polys.len() && count_within(
                    self@.polys[i as int],
                    index_set@,
                ) >= 3,
    {
        let mut r: HashSet<PolyIndex> = HashSet::new();
        let mut i: usize = 0;
        while i < self.polys.len()
            invariant
                i <= self@.polys.len(),
                forall|j: PolyIndex|
                    #[trigger] r@.contains(j) <==> j < i && count_within(
                        self@.polys[j as int],
                        index_set@,
                    ) >= 3,
            decreases self@.polys.len() - i,
        {
            if Self::count_in_set(&self.polys[i], index_set) >= 3 {
                r.insert(i);
            }
            i += 1;
        }
        r
    }

    /// The vertex indices of the listed polys, poly after poly, repeats kept;
    /// indices that name no poly are skipped.
    pub fn vert_indicies_from_poly_indicies(&self, poly_indicies: &[PolyIndex]) -> (r: Vec<
        VertIndex,
    >)
        ensures
            r@ == verts_of_polys(self@.polys, poly_indicies@),
    {
        let mut r: Vec<VertIndex> = Vec::new();
        let mut i: usize = 0;
        while i < poly_indicies.len()
            invariant
                i <= poly_indicies@.len(),
                r@ == verts_of_polys(self@.polys, poly_indicies@.take(i as int)),
            decreases poly_indicies@.len() - i,
        {
            let pi = poly_indicies[i];
            proof {
                assert(poly_indicies@.take(i + 1).drop_last() =~= poly_indicies@.take(i as int));
            }
            if pi < self.polys.len() {
                let poly = &self.polys[pi];
                let ghost before = r@;
                let mut k: usize = 0;
                while k < poly.len()
                    invariant
                        k <= poly@.len(),
                        r@ == before + poly@.take(k as int),
                    decreases poly@.len() - k,
                {
                    r.push(poly[k]);
                    proof {
                        assert(before + poly@.take(k + 1) =~= (before + poly@.take(k as int)).push(poly@[k as int]));
                    }
                    k += 1;
                }
                proof {
                    assert(poly@.take(k as int) =~= poly@);
                }
            }
            i += 1;
        }
        proof {
            assert(poly_indicies@.take(i as int) =~= poly_indicies@);
        }
        r
    }
}

} // verus!
