//! Breadth-first search for a shortest path between two vertices over the
//! line graph.
use vstd::prelude::*;
use std::collections::{HashMap, HashSet};
use crate::types::{Line, VertIndex};

verus! {

broadcast use vstd::std_specs::hash::group_hash_axioms, vstd::seq_lib::group_seq_properties;

/// Some line joins `a` and `b`, in either direction.
pub open spec fn linked(lines: Seq<Line>, a: VertIndex, b: VertIndex) -> bool {
    exists|i: int|
        0 <= i < lines.len() && ((#[trigger] lines[i].0 == a && lines[i].1 == b) || (lines[i].0 == b
            && lines[i].1 == a))
}

/// Each vertex of `p` is joined by a line to the next one.
pub open spec fn is_walk(lines: Seq<Line>, p: Seq<VertIndex>) -> bool {
    forall|i: int| 0 <= i < p.len() - 1 ==> linked(lines, #[trigger] p[i], p[i + 1])
}

/// Some walk over the lines leads from `a` to `b`.
pub open spec fn connected(lines: Seq<Line>, a: VertIndex, b: VertIndex) -> bool {
    exists|p: Seq<VertIndex>| #[trigger] is_walk(lines, p) && p.len() > 0 && p[0] == a && p.last() == b
}

/// The vertices that a search from `start` can ever reach: `start` and the
/// endpoints of the lines.
spec fn reach_bound(start: VertIndex, lines: Seq<Line>) -> Seq<VertIndex> {
    seq![start] + lines.map_values(|l: Line| l.0) + lines.map_values(|l: Line| l.1)
}

/// Every line with one endpoint in `s` has the other one in `s` too.
spec fn closed_under_lines(s: Set<VertIndex>, lines: Seq<Line>) -> bool {
    forall|i: int|
        0 <= i < lines.len() ==> (s.contains(#[trigger] lines[i].0) <==> s.contains(lines[i].1))
}

proof fn lemma_walk_stays_inside(s: Set<VertIndex>, lines: Seq<Line>, p: Seq<VertIndex>, k: int)
    requires
        closed_under_lines(s, lines),
        is_walk(lines, p),
        p.len() > 0,
        s.contains(p[0]),
        0 <= k < p.len(),
    ensures
        s.contains(p[k]),
    decreases k,
{
    if k > 0 {
        lemma_walk_stays_inside(s, lines, p, k - 1);
        assert(linked(lines, p[k - 1], p[k]));
        let i = choose|i: int|
            0 <= i < lines.len() && ((#[trigger] lines[i].0 == p[k - 1] && lines[i].1 == p[k]) || (
            lines[i].0 == p[k] && lines[i].1 == p[k - 1]));
    }
}

/// Along any walk from the start, as long as the walk is shorter than the
/// search distance of the vertex about to be taken from the queue, each
/// vertex is already found, at a distance no more than its place on the walk.
proof fn lemma_bfs_lower_bound(
    lines: Seq<Line>,
    queue: Seq<VertIndex>,
    visited: Set<VertIndex>,
    dist: Map<VertIndex, nat>,
    head: int,
    p: Seq<VertIndex>,
    i: int,
)
    requires
        0 <= head < queue.len(),
        queue[0] == p[0],
        dist[queue[0]] == 0,
        visited == queue.to_set(),
        is_walk(lines, p),
        0 <= i < p.len(),
        i <= dist[queue[head]],
        forall|k: int, j: int|
            0 <= k < head && 0 <= j < lines.len() ==> (#[trigger] queue[k] == lines[j].0
                ==> visited.contains(lines[j].1) && dist[lines[j].1] <= dist[queue[k]] + 1) && (queue[k]
                == #[trigger] lines[j].1 ==> visited.contains(lines[j].0) && dist[lines[j].0]
                <= dist[queue[k]] + 1),
        forall|a: int, b: int|
            0 <= a <= b < queue.len() ==> dist[#[trigger] queue[a]] <= dist[#[trigger] queue[b]],
    ensures
        visited.contains(p[i]),
        dist[p[i]] <= i,
    decreases i,
{
    if i == 0 {
        assert(queue.contains(queue[0]));
    } else {
        lemma_bfs_lower_bound(lines, queue, visited, dist, head, p, i - 1);
        let k = choose|k: int| 0 <= k < queue.len() && queue[k] == p[i - 1];
        if k >= head {
            assert(dist[queue[head]] <= dist[queue[k]]);
        }
        assert(linked(lines, p[i - 1], p[i]));
        let j = choose|j: int|
            0 <= j < lines.len() && ((#[trigger] lines[j].0 == p[i - 1] && lines[j].1 == p[i]) || (
            lines[j].0 == p[i] && lines[j].1 == p[i - 1]));
        assert(queue[k] == lines[j].0 || queue[k] == lines[j].1);
    }
}

/// A walk read backwards is a walk: lines have no direction.
pub proof fn lemma_reversed_walk(lines: Seq<Line>, p: Seq<VertIndex>)
    requires
        is_walk(lines, p),
    ensures
        is_walk(lines, p.reverse()),
{
    let r = p.reverse();
    assert forall|i: int| 0 <= i < r.len() - 1 implies linked(lines, #[trigger] r[i], r[i + 1]) by {
        let j = p.len() - 2 - i;
        assert(linked(lines, p[j], p[j + 1]));
        let w = choose|w: int|
            0 <= w < lines.len() && ((#[trigger] lines[w].0 == p[j] && lines[w].1 == p[j + 1]) || (
            lines[w].0 == p[j + 1] && lines[w].1 == p[j]));
        assert(r[i] == p[j + 1]);
        assert(r[i + 1] == p[j]);
    }
}

/// Breadth-first search from `start` to `target` over the undirected graph
/// of `lines`, hop count only, neighbours taken in line order. The result is
/// a shortest walk, listed from `target` back to `start`; it is `[start]`
/// when the two are equal, and empty when no walk joins them.
pub fn mesh_bfs(start: VertIndex, target: VertIndex, lines: &[Line]) -> (r: Vec<VertIndex>)
    ensures
        r@.len() == 0 <==> !connected(lines@, start, target),
        r@.len() > 0 ==> r@[0] == target && r@.last() == start && is_walk(lines@, r@),
        r@.len() > 0 ==> forall|p: Seq<VertIndex>|
            #[trigger] is_walk(lines@, p) && p.len() > 0 && p[0] == start && p.last() == target
                ==> r@.len() <= p.len(),
        start == target ==> r@ == seq![start],
{
    let ghost bound = reach_bound(start, lines@);
    let mut visited: HashSet<VertIndex> = HashSet::new();
    visited.insert(start);
    let mut queue: Vec<VertIndex> = vec![start];
    let mut prev: HashMap<VertIndex, VertIndex> = HashMap::new();
    let ghost mut dist: Map<VertIndex, nat> = map![start => 0nat];
    let mut head: usize = 0;
    let mut found = false;
    proof {
        assert(visited@ =~= queue@.to_set());
        assert(bound[0] == start);
    }
    while head < queue.len() && !found
        invariant
            bound == reach_bound(start, lines@),
            queue@.len() > 0,
            queue@[0] == start,
            queue@.no_duplicates(),
            visited@ == queue@.to_set(),
            visited@.subset_of(bound.to_set()),
            head <= queue@.len(),
            found ==> head < queue@.len() && queue@[head as int] == target,
            forall|k: int| 0 <= k < head ==> #[trigger] queue@[k] != target,
            forall|v: VertIndex| #[trigger] prev@.contains_key(v) <==> visited@.contains(v) && v != start,
            forall|v: VertIndex| #[trigger] visited@.contains(v) ==> dist.contains_key(v),
            dist[start] == 0,
            forall|v: VertIndex|
                #[trigger] prev@.contains_key(v) ==> linked(lines@, prev@[v], v) && visited@.contains(
                    prev@[v],
                ) && dist[prev@[v]] + 1 == dist[v],
            forall|k: int, i: int|
                0 <= k < head && 0 <= i < lines@.len() ==> (#[trigger] queue@[k] == lines@[i].0
                    ==> visited@.contains(lines@[i].1) && dist[lines@[i].1] <= dist[queue@[k]] + 1)
                    && (queue@[k] == #[trigger] lines@[i].1 ==> visited@.contains(lines@[i].0)
                    && dist[lines@[i].0] <= dist[queue@[k]] + 1),
            forall|a: int, b: int|
                0 <= a <= b < queue@.len() ==> dist[#[trigger] queue@[a]] <= dist[#[trigger] queue@[b]],
            head < queue@.len() ==> forall|k: int|
                0 <= k < queue@.len() ==> dist[#[trigger] queue@[k]] <= dist[queue@[head as int]] + 1,
        decreases bound.len() - head + if found { 0int } else { 1int },
    {
        proof {
            bound.lemma_cardinality_of_set();
            queue@.unique_seq_to_set();
            vstd::set_lib::lemma_len_subset(visited@, bound.to_set());
        }
        let v = queue[head];
        if v == target {
            found = true;
        } else {
            let mut i: usize = 0;
            while i < lines.len()
                invariant
                    bound == reach_bound(start, lines@),
                    queue@.len() > 0,
                    queue@[0] == start,
                    queue@.no_duplicates(),
                    visited@ == queue@.to_set(),
                    visited@.subset_of(bound.to_set()),
                    head < queue@.len(),
                    v == queue@[head as int],
                    v != target,
                    forall|k: int| 0 <= k < head ==> #[trigger] queue@[k] != target,
                    forall|u: VertIndex|
                        #[trigger] prev@.contains_key(u) <==> visited@.contains(u) && u != start,
                    forall|u: VertIndex| #[trigger] visited@.contains(u) ==> dist.contains_key(u),
                    dist[start] == 0,
                    forall|u: VertIndex|
                        #[trigger] prev@.contains_key(u) ==> linked(lines@, prev@[u], u)
                            && visited@.contains(prev@[u]) && dist[prev@[u]] + 1 == dist[u],
                    forall|k: int, j: int|
                        0 <= k < head && 0 <= j < lines@.len() ==> (#[trigger] queue@[k]
                            == lines@[j].0 ==> visited@.contains(lines@[j].1) && dist[lines@[j].1]
                            <= dist[queue@[k]] + 1) && (queue@[k] == #[trigger] lines@[j].1
                            ==> visited@.contains(lines@[j].0) && dist[lines@[j].0] <= dist[queue@[k]]
                            + 1),
                    forall|a: int, b: int|
                        0 <= a <= b < queue@.len() ==> dist[#[trigger] queue@[a]] <= dist[#[trigger] queue@[b]],
                    forall|k: int|
                        0 <= k < queue@.len() ==> dist[#[trigger] queue@[k]] <= dist[v] + 1,
                    i <= lines@.len(),
                    forall|j: int|
                        0 <= j < i ==> (v == #[trigger] lines@[j].0 ==> visited@.contains(lines@[j].1)
                            && dist[lines@[j].1] <= dist[v] + 1) && (v == lines@[j].1
                            ==> visited@.contains(lines@[j].0) && dist[lines@[j].0] <= dist[v] + 1),
                decreases lines@.len() - i,
            {
                let l = lines[i];
                if l.0 == v || l.1 == v {
                    let w = if l.0 == v {
                        l.1
                    } else {
                        l.0
                    };
                    proof {
                        if visited@.contains(w) {
                            let k = choose|k: int| 0 <= k < queue@.len() && queue@[k] == w;
                            assert(dist[queue@[k]] <= dist[v] + 1);
                        }
                    }
                    if !visited.contains(&w) {
                        proof {
                            assert(linked(lines@, v, w));
                            assert(queue@.contains(v));
                            if l.0 == v {
                                assert(bound[1 + lines@.len() + i] == w);
                            } else {
                                assert(bound[1 + i] == w);
                            }
                            assert(bound.contains(w));
                            assert(!queue@.contains(w));
                            dist = dist.insert(w, dist[v] + 1);
                        }
                        visited.insert(w);
                        prev.insert(w, v);
                        queue.push(w);
                        proof {
                            assert(queue@.to_set() =~= queue@.drop_last().to_set().insert(w));
                            assert(queue@.drop_last() =~= queue@.take(queue@.len() - 1));
                            assert forall|k: int, j: int|
                                0 <= k < head && 0 <= j < lines@.len() implies (#[trigger] queue@[k]
                                == lines@[j].0 ==> visited@.contains(lines@[j].1) && dist[lines@[j].1]
                                <= dist[queue@[k]] + 1) && (queue@[k] == #[trigger] lines@[j].1
                                ==> visited@.contains(lines@[j].0) && dist[lines@[j].0]
                                <= dist[queue@[k]] + 1) by {
                                assert(queue@[k] == queue@.drop_last()[k]);
                            }
                            assert forall|a: int, b: int|
                                0 <= a <= b < queue@.len() implies dist[#[trigger] queue@[a]]
                                <= dist[#[trigger] queue@[b]] by {
                                if b < queue@.len() - 1 {
                                    assert(queue@[a] == queue@.drop_last()[a]);
                                    assert(queue@[b] == queue@.drop_last()[b]);
                                } else if a < queue@.len() - 1 {
                                    assert(queue@[a] == queue@.drop_last()[a]);
                                }
                            }
                            assert forall|k: int| 0 <= k < queue@.len() implies dist[#[trigger] queue@[k]]
                                <= dist[v] + 1 by {
                                if k < queue@.len() - 1 {
                                    assert(queue@[k] == queue@.drop_last()[k]);
                                }
                            }
                        }
                    }
                }
                i += 1;
            }
            proof {
                if head + 1 < queue@.len() {
                    assert(dist[queue@[head as int]] <= dist[queue@[head + 1]]);
                }
            }
            head += 1;
        }
    }
    if !found {
        proof {
            assert(closed_under_lines(visited@, lines@)) by {
                assert forall|i: int| 0 <= i < lines@.len() implies (visited@.contains(
                    #[trigger] lines@[i].0,
                ) <==> visited@.contains(lines@[i].1)) by {
                    if visited@.contains(lines@[i].0) {
                        let k = choose|k: int| 0 <= k < queue@.len() && queue@[k] == lines@[i].0;
                    }
                    if visited@.contains(lines@[i].1) {
                        let k = choose|k: int| 0 <= k < queue@.len() && queue@[k] == lines@[i].1;
                    }
                }
            }
            assert(!visited@.contains(target));
            assert forall|p: Seq<VertIndex>| #[trigger] is_walk(lines@, p) && p.len() > 0 && p[0]
                == start implies p.last() != target by {
                assert(queue@.contains(start));
                lemma_walk_stays_inside(visited@, lines@, p, p.len() - 1);
            }
        }
        return Vec::new();
    }
    let mut path: Vec<VertIndex> = vec![target];
    let mut current = target;
    let mut done = false;
    proof {
        assert(queue@.contains(target));
    }
    while !done
        invariant
            forall|u: VertIndex| #[trigger] prev@.contains_key(u) <==> visited@.contains(u) && u != start,
            forall|u: VertIndex| #[trigger] visited@.contains(u) ==> dist.contains_key(u),
            forall|u: VertIndex|
                #[trigger] prev@.contains_key(u) ==> linked(lines@, prev@[u], u) && visited@.contains(
                    prev@[u],
                ) && dist[prev@[u]] + 1 == dist[u],
            visited@.contains(current),
            path@.len() > 0,
            path@[0] == target,
            path@.last() == current,
            is_walk(lines@, path@),
            done ==> current == start,
            start == target ==> path@ == seq![start],
            dist[start] == 0,
            path@.len() + dist[current] == dist[target] + 1,
        decreases dist[current] + if done { 0int } else { 1int },
    {
        match prev.get(&current) {
            Some(p) => {
                let p = *p;
                let ghost before = path@;
                path.push(p);
                proof {
                    assert(linked(lines@, p, current));
                    let w = choose|w: int|
                        0 <= w < lines@.len() && ((#[trigger] lines@[w].0 == p && lines@[w].1
                            == current) || (lines@[w].0 == current && lines@[w].1 == p));
                    assert(linked(lines@, current, p));
                    assert forall|i: int| 0 <= i < path@.len() - 1 implies linked(
                        lines@,
                        #[trigger] path@[i],
                        path@[i + 1],
                    ) by {
                        if i < before.len() - 1 {
                            assert(linked(lines@, before[i], before[i + 1]));
                        }
                    }
                }
                current = p;
            },
            None => {
                done = true;
            },
        }
    }
    proof {
        assert(queue@.contains(target));
        let t = choose|t: int| 0 <= t < queue@.len() && queue@[t] == target;
        assert(t == head) by {
            assert(queue@[head as int] == target);
        }
        assert forall|p: Seq<VertIndex>|
            #[trigger] is_walk(lines@, p) && p.len() > 0 && p[0] == start && p.last() == target
                implies path@.len() <= p.len() by {
            if p.len() < dist[target] + 1 {
                lemma_bfs_lower_bound(lines@, queue@, visited@, dist, head as int, p, p.len() - 1);
            }
        }
        lemma_reversed_walk(lines@, path@);
        let rp = path@.reverse();
        assert(rp[0] == start);
        assert(rp.last() == target);
        assert(is_walk(lines@, rp));
    }
    path
}

} // verus!
