//! The connectivity kernel: three append-only arrays of records addressed by
//! handles, and the invariants that tie them together.

use vstd::prelude::*;
use crate::handles::{
    EdgeId, FaceId, VertexId, MAX_HANDLE, edge_at, face_at, vertex_at, edge_id, face_id,
    vertex_id, VertexIdIterator, EdgeIdIterator, FaceIdIterator, lemma_edge_at_idx, lemma_face_at_idx,
};
pub mod construct;
pub mod split;
pub mod walk;

use crate::ring::{rings_linked, rings_one_face, placed, linked, rotate, is_ring, lemma_rotated_ring,
    lemma_ring_len};

verus! {

/// One directed half of an edge.
#[derive(Copy, Clone, Debug, PartialEq, Eq, Structural)]
pub struct HalfEdge {
    /// The next half-edge around the face.
    pub next: EdgeId,
    /// The previous half-edge around the face.
    pub prev: EdgeId,
    /// The vertex this half-edge starts from.
    pub vertex: VertexId,
    /// The twin running the other way along the same edge.
    pub opposite: EdgeId,
    /// The face this half-edge bounds.
    pub face: FaceId,
}

/// A face: the start of its boundary ring and the list of holes inside it.
#[derive(Copy, Clone, Debug, PartialEq, Eq, Structural)]
pub struct Face {
    pub first_edge: EdgeId,
    /// The first hole nested inside this face, or none.
    pub first_interior: FaceId,
    /// The next hole of the enclosing face, or none.
    pub next_sibling: FaceId,
}

/// A vertex, anchored by one half-edge that starts from it.
#[derive(Copy, Clone, Debug, PartialEq, Eq, Structural)]
pub struct Vertex {
    pub first_edge: EdgeId,
}

/// Owns the vertex, half-edge and face arrays. The ghost `rings` lists the
/// cycles that `next` forms over the half-edges, and `loc` gives for each
/// half-edge its ring and position there.
pub struct ConnectivityKernel {
    pub(crate) edges: Vec<HalfEdge>,
    pub(crate) vertices: Vec<Vertex>,
    pub(crate) faces: Vec<Face>,
    pub(crate) rings: Ghost<Seq<Seq<EdgeId>>>,
    pub(crate) loc: Ghost<Seq<(int, int)>>,
}

impl ConnectivityKernel {
    /// The half-edge records, by zero-based index.
    pub closed spec fn edge_seq(self) -> Seq<HalfEdge> {
        self.edges@
    }

    /// The vertex records, by zero-based index.
    pub closed spec fn vertex_seq(self) -> Seq<Vertex> {
        self.vertices@
    }

    /// The face records, by zero-based index.
    pub closed spec fn face_seq(self) -> Seq<Face> {
        self.faces@
    }

    pub open spec fn has_edge(self, e: EdgeId) -> bool {
        1 <= e.handle <= self.edge_seq().len()
    }

    pub open spec fn has_vertex(self, v: VertexId) -> bool {
        1 <= v.handle <= self.vertex_seq().len()
    }

    pub open spec fn has_face(self, f: FaceId) -> bool {
        1 <= f.handle <= self.face_seq().len()
    }

    pub open spec fn edge_rec(self, e: EdgeId) -> HalfEdge {
        self.edge_seq()[e.idx()]
    }

    pub open spec fn vertex_rec(self, v: VertexId) -> Vertex {
        self.vertex_seq()[v.idx()]
    }

    pub open spec fn face_rec(self, f: FaceId) -> Face {
        self.face_seq()[f.idx()]
    }

    /// The four invariants of one half-edge: its twin pairs back, its ring
    /// neighbours link back, its origin is shared with the edge that follows
    /// its twin, and its ring neighbours lie on its face.
    pub open spec fn edge_invariants(self, e: EdgeId) -> bool {
        let h = self.edge_rec(e);
        &&& self.edge_rec(h.opposite).opposite == e
        &&& self.edge_rec(h.next).prev == e
        &&& self.edge_rec(h.prev).next == e
        &&& h.vertex == self.edge_rec(self.edge_rec(h.opposite).next).vertex
        &&& h.face == self.edge_rec(h.next).face
        &&& h.face == self.edge_rec(h.prev).face
    }

    pub(crate) closed spec fn edge_ok(self, i: int) -> bool {
        let h = self.edges@[i];
        &&& self.has_edge(h.next)
        &&& self.has_edge(h.prev)
        &&& self.has_edge(h.opposite)
        &&& self.has_vertex(h.vertex)
        &&& self.has_face(h.face)
        &&& h.opposite != edge_at(i)
        &&& self.edges@[h.opposite.idx()].opposite == edge_at(i)
        &&& self.edges@[self.edges@[h.opposite.idx()].next.idx()].vertex == h.vertex
    }

    pub(crate) closed spec fn vertex_ok(self, i: int) -> bool {
        let v = self.vertices@[i];
        &&& self.has_edge(v.first_edge)
        &&& self.edges@[v.first_edge.idx()].vertex == vertex_at(i)
    }

    pub(crate) closed spec fn face_edge_ok(self, i: int) -> bool {
        let f = self.faces@[i];
        &&& self.has_edge(f.first_edge)
        &&& self.edges@[f.first_edge.idx()].face == face_at(i)
    }

    pub(crate) closed spec fn face_links_ok(self, i: int) -> bool {
        let f = self.faces@[i];
        &&& (f.first_interior.handle == 0 || self.has_face(f.first_interior))
        &&& (f.next_sibling.handle == 0 || self.has_face(f.next_sibling))
    }

    /// Everything of `wf` but the first edges of the faces of index `a` and
    /// `b`, which a construction is about to set.
    pub(crate) closed spec fn wf_except(self, a: int, b: int) -> bool {
        &&& self.edges@.len() < MAX_HANDLE
        &&& self.vertices@.len() < MAX_HANDLE
        &&& self.faces@.len() < MAX_HANDLE
        &&& rings_linked(self.edges@, self.rings@, self.loc@)
        &&& rings_one_face(self.edges@, self.rings@)
        &&& forall|i: int| 0 <= i < self.edges@.len() ==> #[trigger] self.edge_ok(i)
        &&& forall|i: int| 0 <= i < self.vertices@.len() ==> #[trigger] self.vertex_ok(i)
        &&& forall|i: int| 0 <= i < self.faces@.len() ==> #[trigger] self.face_links_ok(i)
        &&& forall|i: int|
            0 <= i < self.faces@.len() && i != a && i != b ==> #[trigger] self.face_edge_ok(i)
    }

    /// Every record refers only to records that exist, and the half-edge
    /// invariants hold everywhere.
    pub closed spec fn wf(self) -> bool {
        self.wf_except(-1, -1)
    }

    /// The record of vertex `id`.
    pub fn vertex(&self, id: VertexId) -> (r: &Vertex)
        requires
            self.has_vertex(id),
        ensures
            *r == self.vertex_rec(id),
    {
        &self.vertices[id.handle as usize - 1]
    }

    pub(crate) fn vertex_mut(&mut self, id: VertexId) -> (r: &mut Vertex)
        requires
            old(self).has_vertex(id),
        ensures
            *r == old(self).vertices@[id.idx()],
            final(self).vertices@ == old(self).vertices@.update(id.idx(), *final(r)),
            final(self).edges == old(self).edges,
            final(self).faces == old(self).faces,
            final(self).rings == old(self).rings,
            final(self).loc == old(self).loc,
    {
        &mut self.vertices[id.handle as usize - 1]
    }

    /// The record of face `id`.
    pub fn face(&self, id: FaceId) -> (r: &Face)
        requires
            self.has_face(id),
        ensures
            *r == self.face_rec(id),
    {
        &self.faces[id.handle as usize - 1]
    }

    pub(crate) fn face_mut(&mut self, id: FaceId) -> (r: &mut Face)
        requires
            old(self).has_face(id),
        ensures
            *r == old(self).faces@[id.idx()],
            final(self).faces@ == old(self).faces@.update(id.idx(), *final(r)),
            final(self).edges == old(self).edges,
            final(self).vertices == old(self).vertices,
            final(self).rings == old(self).rings,
            final(self).loc == old(self).loc,
    {
        &mut self.faces[id.handle as usize - 1]
    }

    /// The record of half-edge `id`.
    pub fn edge(&self, id: EdgeId) -> (r: &HalfEdge)
        requires
            self.has_edge(id),
        ensures
            *r == self.edge_rec(id),
    {
        &self.edges[id.handle as usize - 1]
    }

    pub(crate) fn edge_mut(&mut self, id: EdgeId) -> (r: &mut HalfEdge)
        requires
            old(self).has_edge(id),
        ensures
            *r == old(self).edges@[id.idx()],
            final(self).edges@ == old(self).edges@.update(id.idx(), *final(r)),
            final(self).vertices == old(self).vertices,
            final(self).faces == old(self).faces,
            final(self).rings == old(self).rings,
            final(self).loc == old(self).loc,
    {
        &mut self.edges[id.handle as usize - 1]
    }

    /// All half-edge records, in handle order.
    pub fn edges(&self) -> (r: &[HalfEdge])
        ensures
            r@ == self.edge_seq(),
    {
        self.edges.as_slice()
    }

    /// All face records, in handle order.
    pub fn faces(&self) -> (r: &[Face])
        ensures
            r@ == self.face_seq(),
    {
        self.faces.as_slice()
    }

    /// All vertex records, in handle order.
    pub fn vertices(&self) -> (r: &[Vertex])
        ensures
            r@ == self.vertex_seq(),
    {
        self.vertices.as_slice()
    }

    /// The handle of the first half-edge record.
    pub fn first_edge(&self) -> (r: EdgeId)
        ensures
            r == edge_at(0),
    {
        edge_id(0)
    }

    /// The handle of the first face record.
    pub fn first_face(&self) -> (r: FaceId)
        ensures
            r == face_at(0),
    {
        face_id(0)
    }

    /// The handle of the first vertex record.
    pub fn first_vertex(&self) -> (r: VertexId)
        ensures
            r == vertex_at(0),
    {
        vertex_id(0)
    }

    /// The handles of all vertices, in ascending order.
    pub fn vertex_ids(&self) -> (r: VertexIdIterator)
        requires
            self.wf(),
        ensures
            r.wf(),
            r@ == Seq::new(self.vertex_seq().len(), |k: int| vertex_at(k)),
    {
        VertexIdIterator::upto(self.vertices.len())
    }

    /// The handles of all half-edges, in ascending order.
    pub fn edge_ids(&self) -> (r: EdgeIdIterator)
        requires
            self.wf(),
        ensures
            r.wf(),
            r@ == Seq::new(self.edge_seq().len(), |k: int| edge_at(k)),
    {
        EdgeIdIterator::upto(self.edges.len())
    }

    /// The handles of all faces, in ascending order.
    pub fn face_ids(&self) -> (r: FaceIdIterator)
        requires
            self.wf(),
        ensures
            r.wf(),
            r@ == Seq::new(self.face_seq().len(), |k: int| face_at(k)),
    {
        FaceIdIterator::upto(self.faces.len())
    }

    /// The boundary ring through `e`: the half-edges met from `e` by following
    /// `next` until it comes back, each once.
    pub closed spec fn ring(self, e: EdgeId) -> Seq<EdgeId> {
        rotate(self.rings@[self.loc@[e.idx()].0], self.loc@[e.idx()].1)
    }

    /// The primary boundary ring of face `f`, from its first edge.
    pub open spec fn face_ring(self, f: FaceId) -> Seq<EdgeId> {
        self.ring(self.face_rec(f).first_edge)
    }

    /// `s` is the ring from `s[0]` in the kernel's half-edge array.
    pub open spec fn is_ring(self, s: Seq<EdgeId>) -> bool {
        is_ring(self.edge_seq(), s)
    }

    /// The ring through an edge of a well-formed kernel starts at that edge
    /// and follows its `next` links around once.
    pub proof fn lemma_ring(self, e: EdgeId)
        requires
            self.wf(),
            self.has_edge(e),
        ensures
            self.is_ring(self.ring(e)),
            self.ring(e)[0] == e,
    {
        let i = e.idx();
        assert(self.wf_except(-1, -1));
        assert(placed(self.rings@, self.loc@, i));
        lemma_edge_at_idx(e);
        lemma_rotated_ring(self.edges@, self.rings@, self.loc@, self.loc@[i].0, self.loc@[i].1);
    }

    /// Whether `y` lies on the ring through `x` is read off `loc`.
    pub(crate) proof fn lemma_ring_contains(self, x: EdgeId, y: EdgeId)
        requires
            self.wf(),
            self.has_edge(x),
            self.has_edge(y),
        ensures
            self.ring(x).contains(y) <==> self.loc@[y.idx()].0 == self.loc@[x.idx()].0,
            self.ring(x).len() == self.rings@[self.loc@[x.idx()].0].len(),
    {
        assert(self.wf_except(-1, -1));
        let rx = self.loc@[x.idx()].0;
        let px = self.loc@[x.idx()].1;
        let s = self.rings@[rx];
        let t = self.ring(x);
        assert(placed(self.rings@, self.loc@, x.idx()));
        assert(placed(self.rings@, self.loc@, y.idx()));
        lemma_edge_at_idx(y);
        assert(t.len() == s.len());
        if t.contains(y) {
            let m = choose|m: int| 0 <= m < t.len() && t[m] == y;
            let q = if px + m < s.len() { px + m } else { px + m - s.len() };
            assert(t[m] == s[q]);
            assert(linked(self.edges@, self.rings@, self.loc@, rx, q));
        }
        if self.loc@[y.idx()].0 == rx {
            let q = self.loc@[y.idx()].1;
            let m = if q >= px { q - px } else { q + s.len() - px };
            assert(t[m] == s[q]);
        }
    }

    /// A face of a well-formed kernel starts at one of its own half-edges,
    /// and its ring fits in the handle range.
    pub proof fn lemma_face_first_edge(self, f: FaceId)
        requires
            self.wf(),
            self.has_face(f),
        ensures
            self.has_edge(self.face_rec(f).first_edge),
            self.edge_rec(self.face_rec(f).first_edge).face == f,
            self.is_ring(self.face_ring(f)),
            self.face_ring(f)[0] == self.face_rec(f).first_edge,
            self.face_ring(f).len() < MAX_HANDLE,
    {
        assert(self.wf_except(-1, -1));
        assert(self.face_edge_ok(f.idx()));
        lemma_face_at_idx(f);
        self.lemma_ring(self.face_rec(f).first_edge);
        lemma_ring_len(self.edges@, self.face_ring(f));
    }

    /// The ring through the half-edge at position `j` of the ring through
    /// `x` is that ring turned to start at position `j`.
    pub proof fn lemma_ring_member(self, x: EdgeId, j: int)
        requires
            self.wf(),
            self.has_edge(x),
            0 <= j < self.ring(x).len(),
        ensures
            self.has_edge(self.ring(x)[j]),
            self.ring(self.ring(x)[j]) == rotate(self.ring(x), j),
    {
        assert(self.wf_except(-1, -1));
        let i = x.idx();
        assert(placed(self.rings@, self.loc@, i));
        let r = self.loc@[i].0;
        let p = self.loc@[i].1;
        let s = self.rings@[r];
        let n = s.len() as int;
        let t = self.ring(x);
        let q = if p + j < n { p + j } else { p + j - n };
        assert(t[j] == s[q]);
        assert(linked(self.edges@, self.rings@, self.loc@, r, q));
        let y = t[j];
        assert(self.loc@[y.idx()] == (r, q));
        assert(rotate(s, q) =~= rotate(t, j));
    }

    /// In a well-formed kernel every half-edge meets the four invariants;
    /// construction and every edit leave the kernel well formed, so this
    /// holds of every half-edge any sequence of them produces.
    pub proof fn lemma_edge_invariants(self, e: EdgeId)
        requires
            self.wf(),
            self.has_edge(e),
        ensures
            self.edge_invariants(e),
            self.has_edge(self.edge_rec(e).next),
            self.has_edge(self.edge_rec(e).prev),
            self.has_edge(self.edge_rec(e).opposite),
            self.has_vertex(self.edge_rec(e).vertex),
            self.has_face(self.edge_rec(e).face),
    {
        let i = e.idx();
        assert(self.wf_except(-1, -1));
        assert(self.edge_ok(i));
        assert(placed(self.rings@, self.loc@, i));
        let (r, p) = self.loc@[i];
        assert(linked(self.edges@, self.rings@, self.loc@, r, p));
        let s = self.rings@[r];
        let pn = if p + 1 < s.len() { p + 1 } else { 0 };
        let pp = if p > 0 { p - 1 } else { s.len() - 1 };
        assert(linked(self.edges@, self.rings@, self.loc@, r, pn));
        assert(linked(self.edges@, self.rings@, self.loc@, r, pp));
        assert(crate::ring::same_face(self.edges@, self.rings@, r, p));
        assert(crate::ring::same_face(self.edges@, self.rings@, r, pn));
        assert(crate::ring::same_face(self.edges@, self.rings@, r, pp));
        lemma_edge_at_idx(e);
    }
}

} // verus!
