//! Triangle-fan expansion of polys into index triples.
use vstd::prelude::*;
use std::collections::HashSet;
use super::{items_at, Mesh};
use crate::types::{Poly, PolyIndex, VertIndex};

verus! {

broadcast use vstd::std_specs::hash::group_hash_axioms, vstd::seq_lib::group_seq_properties;

/// The first `t` triangles of the fan of `p`: `(p[0], p[k], p[k + 1])` for
/// `k` from 1 to `t`.
pub open spec fn fan_upto(p: Seq<VertIndex>, t: int) -> Seq<VertIndex>
    decreases t,
{
    if t <= 0 {
        Seq::empty()
    } else {
        fan_upto(p, t - 1) + seq![p[0], p[t], p[t + 1]]
    }
}

/// The `n - 2` triangles that fan out from the first vertex of an
/// `n`-vertex poly, as index triples; nothing for fewer than three vertices.
pub open spec fn fan(p: Seq<VertIndex>) -> Seq<VertIndex> {
    if p.len() < 3 {
        Seq::empty()
    } else {
        fan_upto(p, p.len() - 2)
    }
}

/// The fans of all the polys, poly after poly.
pub open spec fn fans(polys: Seq<Seq<VertIndex>>) -> Seq<VertIndex>
    decreases polys.len(),
{
    if polys.len() == 0 {
        Seq::empty()
    } else {
        fans(polys.drop_last()) + fan(polys.last())
    }
}

impl<P: Copy> Mesh<P> {
    /// Index triples of the fan triangulation of one poly.
    pub fn poly_indicies_to_triangle_indicies(poly: &Poly) -> (r: Vec<VertIndex>)
        ensures
            r@ == fan(poly@),
    {
        if poly.len() < 3 {
            return Vec::new();
        }
        let v0 = poly[0];
        let mut r: Vec<VertIndex> = Vec::new();
        let mut k: usize = 1;
        while k < poly.len() - 1
            invariant
                poly@.len() >= 3,
                v0 == poly@[0],
                1 <= k < poly@.len(),
                r@ == fan_upto(poly@, k - 1),
            decreases poly@.len() - k,
        {
            let ghost before = r@;
            r.push(v0);
            r.push(poly[k]);
            r.push(poly[k + 1]);
            proof {
                assert(r@ =~= before + seq![poly@[0], poly@[k as int], poly@[k + 1]]);
            }
            k += 1;
        }
        r
    }

    /// Index triples of the fan triangulation of every poly, poly after poly.
    pub fn polys_to_triangle_indicies(&self) -> (r: Vec<VertIndex>)
        ensures
            r@ == fans(self@.polys),
    {
        let mut r: Vec<VertIndex> = Vec::new();
        let mut i: usize = 0;
        while i < self.polys.len()
            invariant
                i <= self@.polys.len(),
                r@ == fans(self@.polys.take(i as int)),
            decreases self@.polys.len() - i,
        {
            let mut t = Self::poly_indicies_to_triangle_indicies(&self.polys[i]);
            proof {
                assert(self@.polys.take(i + 1).drop_last() =~= self@.polys.take(i as int));
            }
            r.append(&mut t);
            i += 1;
        }
        proof {
            assert(self@.polys.take(i as int) =~= self@.polys);
        }
        r
    }

    /// Index triples of the fan triangulation of the selected polys, in poly
    /// order.
    pub fn selected_polys_to_triangle_indicies(
        &self,
        selected_poly_indicies: &HashSet<PolyIndex>,
    ) -> (r: Vec<VertIndex>)
        ensures
            r@ == fans(items_at(self@.polys, selected_poly_indicies@)),
    {
        let mut r: Vec<VertIndex> = Vec::new();
        let mut i: usize = 0;
        while i < self.polys.len()
            invariant
                i <= self@.polys.len(),
                r@ == fans(items_at(self@.polys.take(i as int), selected_poly_indicies@)),
            decreases self@.polys.len() - i,
        {
            proof {
                assert(self@.polys.take(i + 1).drop_last() =~= self@.polys.take(i as int));
            }
            if selected_poly_indicies.contains(&i) {
                let mut t = Self::poly_indicies_to_triangle_indicies(&self.polys[i]);
                proof {
                    let picked = items_at(self@.polys.take(i as int), selected_poly_indicies@);
                    assert(picked.push(self@.polys[i as int]).drop_last() =~= picked);
                }
                r.append(&mut t);
            }
            i += 1;
        }
        proof {
            assert(self@.polys.take(i as int) =~= self@.polys);
        }
        r
    }
}

} // verus!
