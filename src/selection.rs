//! The editor's vertex selection: an ordered list of vertex indices.
use vstd::prelude::*;
use std::collections::HashSet;
use crate::types::VertIndex;

verus! {

broadcast use vstd::std_specs::hash::group_hash_axioms, vstd::seq_lib::group_seq_properties;

/// The selected vertex indices, in the order they were selected.
pub struct Selection {
    selected_vert_indicies: Vec<VertIndex>,
}

/// Predicate: the index is not in `list`.
pub open spec fn not_in(list: Seq<VertIndex>) -> spec_fn(VertIndex) -> bool {
    |i: VertIndex| !list.contains(i)
}

impl View for Selection {
    type V = Seq<VertIndex>;

    closed spec fn view(&self) -> Seq<VertIndex> {
        self.selected_vert_indicies@
    }
}

impl Selection {
    pub fn new() -> (r: Selection)
        ensures
            r@ == Seq::<VertIndex>::empty(),
    {
        Selection { selected_vert_indicies: Vec::new() }
    }

    pub fn selected_vert_indicies(&self) -> (r: &Vec<VertIndex>)
        ensures
            r@ == self@,
    {
        &self.selected_vert_indicies
    }

    pub fn selected_vert_indicies_set(&self) -> (r: HashSet<VertIndex>)
        ensures
            r@ == self@.to_set(),
    {
        let mut r: HashSet<VertIndex> = HashSet::new();
        let mut k: usize = 0;
        while k < self.selected_vert_indicies.len()
            invariant
                k <= self@.len(),
                r@ == self@.take(k as int).to_set(),
            decreases self@.len() - k,
        {
            let v = self.selected_vert_indicies[k];
            proof {
                assert(self@.take(k + 1) =~= self@.take(k as int).push(v));
                self@.take(k as int).lemma_push_to_set_commute(v);
            }
            r.insert(v);
            k += 1;
        }
        proof {
            assert(self@.take(k as int) =~= self@);
        }
        r
    }

    pub fn replace_selected_vert_indicies(&mut self, new_indicies: &[VertIndex])
        ensures
            final(self)@ == new_indicies@,
    {
        let mut v: Vec<VertIndex> = Vec::new();
        let mut k: usize = 0;
        while k < new_indicies.len()
            invariant
                k <= new_indicies@.len(),
                v@ =~= new_indicies@.take(k as int),
            decreases new_indicies@.len() - k,
        {
            v.push(new_indicies[k]);
            k += 1;
        }
        self.selected_vert_indicies = v;
    }

    pub fn add_selected_vert_indicies(&mut self, new_indicies: &[VertIndex])
        ensures
            final(self)@ == old(self)@ + new_indicies@,
    {
        let ghost start = self@;
        let mut k: usize = 0;
        while k < new_indicies.len()
            invariant
                k <= new_indicies@.len(),
                self@ =~= start + new_indicies@.take(k as int),
            decreases new_indicies@.len() - k,
        {
            self.selected_vert_indicies.push(new_indicies[k]);
            k += 1;
        }
        proof {
            assert(new_indicies@.take(k as int) =~= new_indicies@);
        }
    }

    /// Drops every listed index, keeping the order of the rest.
    pub fn remove_selected_vert_indicies(&mut self, remove_indicies: &[VertIndex])
        ensures
            final(self)@ == old(self)@.filter(not_in(remove_indicies@)),
    {
        let mut kept: Vec<VertIndex> = Vec::new();
        let mut k: usize = 0;
        while k < self.selected_vert_indicies.len()
            invariant
                k <= self@.len(),
                kept@ == self@.take(k as int).filter(not_in(remove_indicies@)),
            decreases self@.len() - k,
        {
            let v = self.selected_vert_indicies[k];
            proof {
                assert(self@.take(k + 1) =~= self@.take(k as int).push(v));
                self@.take(k as int).lemma_filter_push(v, not_in(remove_indicies@));
            }
            if !crate::mesh::select::is_listed(remove_indicies, v) {
                kept.push(v);
            }
            k += 1;
        }
        proof {
            assert(self@.take(k as int) =~= self@);
        }
        self.selected_vert_indicies = kept;
    }

    /// Unselects the index where it is selected (its first occurrence), and
    /// selects it at the end otherwise.
    pub fn toggle_selected_vert_index(&mut self, index: VertIndex)
        ensures
            old(self)@.contains(index) ==> exists|p: int|
                0 <= p < old(self)@.len() && old(self)@[p] == index && (forall|q: int|
                    0 <= q < p ==> old(self)@[q] != index) && final(self)@ == old(self)@.remove(p),
            !old(self)@.contains(index) ==> final(self)@ == old(self)@.push(index),
    {
        let mut pos: usize = 0;
        while pos < self.selected_vert_indicies.len() && self.selected_vert_indicies[pos] != index
            invariant
                pos <= self@.len(),
                forall|q: int| 0 <= q < pos ==> self@[q] != index,
            decreases self@.len() - pos,
        {
            pos += 1;
        }
        if pos < self.selected_vert_indicies.len() {
            self.selected_vert_indicies.remove(pos);
        } else {
            self.selected_vert_indicies.push(index);
        }
    }

    pub fn clear(&mut self)
        ensures
            final(self)@ == Seq::<VertIndex>::empty(),
    {
        self.selected_vert_indicies.clear();
    }
}

} // verus!
