//! The editor's insert tool: what a pending insertion adds to a mesh.
use vstd::prelude::*;
use crate::mesh::bfs::{connected, is_walk, lemma_reversed_walk};
use crate::mesh::Mesh;
use crate::types::{Line, Poly, VertIndex};

verus! {

/// A new vertex, joined by a line to `selected_vert` when there is one.
pub struct InsertVertOperation<P> {
    pub selected_vert: Option<VertIndex>,
    pub new_vert: P,
}

/// A new line; when it `completes_poly`, the shortest walk back between its
/// ends becomes a poly.
pub struct InsertLineOperation {
    pub new_line: Line,
    pub completes_poly: bool,
}

pub enum InsertOperation<P> {
    Vert(InsertVertOperation<P>),
    Line(InsertLineOperation),
    Nothing,
}

/// What an insertion adds: at most one vertex, one line and one poly.
pub struct InsertOperationResult<P> {
    pub new_vert: Option<P>,
    pub new_line: Option<Line>,
    pub new_poly: Option<Poly>,
}

impl<P> InsertVertOperation<P> {
    pub fn new(new_vert: P, selected_vert: Option<VertIndex>) -> (r: InsertVertOperation<P>)
        ensures
            r.new_vert == new_vert,
            r.selected_vert == selected_vert,
    {
        InsertVertOperation { new_vert, selected_vert }
    }
}

impl InsertLineOperation {
    pub fn new(new_line: Line, completes_poly: bool) -> (r: InsertLineOperation)
        ensures
            r.new_line == new_line,
            r.completes_poly == completes_poly,
    {
        InsertLineOperation { new_line, completes_poly }
    }
}

impl<P> InsertOperationResult<P> {
    pub fn new(new_vert: Option<P>, new_line: Option<Line>, new_poly: Option<Poly>) -> (r:
        InsertOperationResult<P>)
        ensures
            r.new_vert == new_vert,
            r.new_line == new_line,
            r.new_poly == new_poly,
    {
        InsertOperationResult { new_vert, new_line, new_poly }
    }

    pub fn empty() -> (r: InsertOperationResult<P>)
        ensures
            r.new_vert.is_none(),
            r.new_line.is_none(),
            r.new_poly.is_none(),
    {
        InsertOperationResult { new_vert: None, new_line: None, new_poly: None }
    }
}

impl<P: Copy> InsertOperation<P> {
    /// What the operation adds to `mesh`. A vertex comes with a line from the
    /// selected vertex to the index it will take. A line that completes a
    /// poly brings the shortest walk between its ends, from the second end
    /// back to the first, when that walk has at least three vertices.
    pub fn insert_into(&self, mesh: &Mesh<P>) -> (r: InsertOperationResult<P>)
        ensures
            match self {
                InsertOperation::Vert(op) => {
                    &&& r.new_vert == Some(op.new_vert)
                    &&& r.new_line == match op.selected_vert {
                        Some(s) => Some((s, mesh@.verts.len() as VertIndex)),
                        None => None,
                    }
                    &&& r.new_poly.is_none()
                },
                InsertOperation::Line(op) => {
                    let (a, b) = op.new_line;
                    &&& r.new_vert.is_none()
                    &&& r.new_line == Some(op.new_line)
                    &&& r.new_poly.is_some() <==> op.completes_poly && connected(mesh@.lines, a, b)
                        && forall|p: Seq<VertIndex>|
                        #[trigger] is_walk(mesh@.lines, p) && p.len() > 0 && p[0] == a && p.last()
                            == b ==> p.len() >= 3
                    &&& r.new_poly.is_some() ==> {
                        let q = r.new_poly.unwrap()@;
                        &&& q[0] == b
                        &&& q.last() == a
                        &&& is_walk(mesh@.lines, q)
                        &&& forall|p: Seq<VertIndex>|
                            #[trigger] is_walk(mesh@.lines, p) && p.len() > 0 && p[0] == a
                                && p.last() == b ==> q.len() <= p.len()
                    }
                },
                InsertOperation::Nothing => r.new_vert.is_none() && r.new_line.is_none()
                    && r.new_poly.is_none(),
            },
    {
        match self {
            InsertOperation::Vert(vert_op) => {
                let new_line = match vert_op.selected_vert {
                    Some(selected_index) => Some((selected_index, mesh.verts().len())),
                    None => None,
                };
                InsertOperationResult::new(Some(vert_op.new_vert), new_line, None)
            },
            InsertOperation::Line(line_op) => {
                let new_line = line_op.new_line;
                let new_poly = if line_op.completes_poly {
                    let points_between = mesh.find_verts_between(new_line.0, new_line.1);
                    proof {
                        let lines = mesh@.lines;
                        let (a, b) = new_line;
                        if points_between@.len() > 0 {
                            lemma_reversed_walk(lines, points_between@);
                            let rev = points_between@.reverse();
                            assert(rev[0] == a);
                            assert(rev.last() == b);
                            assert(is_walk(lines, rev));
                            assert(rev.len() == points_between@.len());
                        }
                    }
                    if points_between.len() >= 3 {
                        Some(points_between)
                    } else {
                        None
                    }
                } else {
                    None
                };
                InsertOperationResult::new(None, Some(new_line), new_poly)
            },
            InsertOperation::Nothing => InsertOperationResult::empty(),
        }
    }
}

} // verus!
