//! Walks: around the boundary ring of a face, forwards and backwards, and
//! around a vertex.

use vstd::prelude::*;
use crate::handles::{EdgeId, FaceId, Id, Edge_, MAX_HANDLE, no_edge};
use crate::ring::{succ, pred, reverse_walk, lemma_reverse_walk};
use super::ConnectivityKernel;

verus! {

/// Yields the half-edges of a face's boundary ring, following `next`.
pub struct FaceEdgeIterator<'l> {
    kernel: &'l ConnectivityKernel,
    current_edge: EdgeId,
    last_edge: EdgeId,
    done: bool,
    ring: Ghost<Seq<EdgeId>>,
    pos: Ghost<int>,
}

impl<'l> FaceEdgeIterator<'l> {
    /// The walk is in step with its ring: it stands at position `pos`, and
    /// the ring ends with `last_edge`.
    pub closed spec fn wf(self) -> bool {
        let s = self.ring@;
        &&& self.kernel.wf()
        &&& self.kernel.is_ring(s)
        &&& self.last_edge == s[s.len() - 1]
        &&& 0 <= self.pos@ <= s.len()
        &&& self.done == (self.pos@ == s.len())
        &&& !self.done ==> self.current_edge == s[self.pos@]
    }

    pub fn next(&mut self) -> (r: Option<EdgeId>)
        requires
            old(self).wf(),
        ensures
            final(self).wf(),
            old(self)@.len() == 0 ==> r.is_none() && final(self)@ == old(self)@,
            old(self)@.len() > 0 ==> r == Some(old(self)@[0]) && final(self)@ == old(self)@.drop_first(),
    {
        let res = self.current_edge;
        if self.done {
            return None;
        }
        let ghost s = self.ring@;
        let ghost p = self.pos@;
        proof {
            assert(s[p] == s[p]);
            assert(s[s.len() - 1] == s[s.len() - 1]);
        }
        if self.current_edge == self.last_edge {
            self.done = true;
        }
        self.current_edge = self.kernel.edge(self.current_edge).next;
        self.pos = Ghost(p + 1);
        proof {
            if p + 1 < s.len() {
                assert(s[p + 1] == s[p + 1]);
            }
            assert(self@ =~= old(self)@.drop_first());
        }
        Some(res)
    }
}

impl<'l> View for FaceEdgeIterator<'l> {
    type V = Seq<EdgeId>;

    /// The half-edges still to come.
    closed spec fn view(&self) -> Seq<EdgeId> {
        self.ring@.subrange(self.pos@, self.ring@.len() as int)
    }
}

/// Yields the half-edges of a face's boundary ring, following `prev`.
pub struct ReverseFaceEdgeIterator<'l> {
    kernel: &'l ConnectivityKernel,
    current_edge: EdgeId,
    last_edge: EdgeId,
    done: bool,
    ring: Ghost<Seq<EdgeId>>,
    pos: Ghost<int>,
}

impl<'l> ReverseFaceEdgeIterator<'l> {
    /// The walk is in step with the backward order of its ring.
    pub closed spec fn wf(self) -> bool {
        let s = self.ring@;
        &&& self.kernel.wf()
        &&& s.len() >= 1
        &&& forall|j: int|
            0 <= j < s.len() ==> self.kernel.has_edge(#[trigger] s[j]) && self.kernel.edge_rec(
                s[j],
            ).prev == succ(s, j)
        &&& forall|i: int, j: int| 0 <= i < j < s.len() ==> s[i] != s[j]
        &&& self.last_edge == s[s.len() - 1]
        &&& 0 <= self.pos@ <= s.len()
        &&& self.done == (self.pos@ == s.len())
        &&& !self.done ==> self.current_edge == s[self.pos@]
    }

    pub fn next(&mut self) -> (r: Option<EdgeId>)
        requires
            old(self).wf(),
        ensures
            final(self).wf(),
            old(self)@.len() == 0 ==> r.is_none() && final(self)@ == old(self)@,
            old(self)@.len() > 0 ==> r == Some(old(self)@[0]) && final(self)@ == old(self)@.drop_first(),
    {
        let res = self.current_edge;
        if self.done {
            return None;
        }
        let ghost s = self.ring@;
        let ghost p = self.pos@;
        proof {
            assert(s[p] == s[p]);
            assert(s[s.len() - 1] == s[s.len() - 1]);
        }
        if self.current_edge == self.last_edge {
            self.done = true;
        }
        self.current_edge = self.kernel.edge(self.current_edge).prev;
        self.pos = Ghost(p + 1);
        proof {
            if p + 1 < s.len() {
                assert(s[p + 1] == s[p + 1]);
            }
            assert(self@ =~= old(self)@.drop_first());
        }
        Some(res)
    }
}

impl<'l> View for ReverseFaceEdgeIterator<'l> {
    type V = Seq<EdgeId>;

    /// The half-edges still to come.
    closed spec fn view(&self) -> Seq<EdgeId> {
        self.ring@.subrange(self.pos@, self.ring@.len() as int)
    }
}

impl ConnectivityKernel {
    /// The half-edges of `id`'s boundary ring, from its first edge on,
    /// following `next`.
    pub fn walk_edges_around_face(&self, id: FaceId) -> (r: FaceEdgeIterator<'_>)
        requires
            self.wf(),
            self.has_face(id),
        ensures
            r.wf(),
            r@ == self.face_ring(id),
    {
        proof {
            self.lemma_face_first_edge(id);
            self.lemma_ring(self.face_rec(id).first_edge);
        }
        let edge = self.face(id).first_edge;
        let prev = self.edge(edge).prev;
        let ghost s = self.face_ring(id);
        proof {
            assert(s[0] == s[0]);
            assert(prev == pred(s, 0));
        }
        let r = FaceEdgeIterator {
            kernel: self,
            current_edge: edge,
            last_edge: prev,
            done: false,
            ring: Ghost(s),
            pos: Ghost(0),
        };
        assert(r@ =~= s);
        r
    }

    /// The half-edges of `id`'s boundary ring, from its first edge on,
    /// following `prev`.
    pub fn walk_edges_around_face_reverse(&self, id: FaceId) -> (r: ReverseFaceEdgeIterator<'_>)
        requires
            self.wf(),
            self.has_face(id),
        ensures
            r.wf(),
            r@ == reverse_walk(self.face_ring(id)),
    {
        proof {
            self.lemma_face_first_edge(id);
            self.lemma_ring(self.face_rec(id).first_edge);
        }
        let edge = self.face(id).first_edge;
        let ghost s = self.face_ring(id);
        let ghost t = reverse_walk(s);
        proof {
            lemma_reverse_walk(self.edge_seq(), s);
            assert(s[0] == s[0]);
            assert forall|j: int|
                0 <= j < t.len() implies self.has_edge(#[trigger] t[j]) && self.edge_rec(t[j]).prev
                    == succ(t, j) by {
                assert(1 <= t[j].handle <= self.edge_seq().len());
            }
        }
        let r = ReverseFaceEdgeIterator {
            kernel: self,
            current_edge: edge,
            last_edge: self.edge(edge).next,
            done: false,
            ring: Ghost(t),
            pos: Ghost(0),
        };
        assert(r@ =~= t);
        r
    }

    /// The number of half-edges on the boundary ring of `face`.
    pub fn count_edges_around_face(&self, face: FaceId) -> (r: u32)
        requires
            self.wf(),
            self.has_face(face),
        ensures
            r == self.face_ring(face).len(),
    {
        proof {
            self.lemma_face_first_edge(face);
            self.lemma_ring(self.face_rec(face).first_edge);
        }
        let ghost s = self.face_ring(face);
        let face = self.face(face);
        let stop = self.edge(face.first_edge).prev;
        let mut it = face.first_edge;
        let mut count: u32 = 1;
        proof {
            assert(s[0] == s[0]);
            assert(stop == pred(s, 0));
        }
        loop
            invariant
                self.is_ring(s),
                s.len() < MAX_HANDLE,
                stop == s[s.len() - 1],
                1 <= count <= s.len(),
                it == s[count - 1],
            ensures
                count == s.len(),
            decreases s.len() - count,
        {
            if it == stop {
                break;
            }
            proof {
                assert(s[count - 1] == s[count - 1]);
            }
            count = count + 1;
            it = self.edge(it).next;
        }
        count
    }

    /// The next half-edge leaving the origin of `id`, turning around it.
    pub fn next_edge_around_vertex(&self, id: EdgeId) -> (r: EdgeId)
        requires
            self.wf(),
            self.has_edge(id),
        ensures
            r == self.edge_rec(self.edge_rec(id).opposite).next,
            self.has_edge(r),
            self.edge_rec(r).vertex == self.edge_rec(id).vertex,
    {
        proof {
            self.lemma_edge_invariants(id);
            self.lemma_edge_invariants(self.edge_rec(id).opposite);
        }
        self.edge(self.edge(id).opposite).next
    }
}

/// Yields the half-edges that end at one vertex, turning around it, until
/// it comes back to the first.
pub struct VertexEdgeIterator<'l> {
    kernel: &'l ConnectivityKernel,
    current_edge: EdgeId,
    first_edge: EdgeId,
}

impl<'l> VertexEdgeIterator<'l> {
    /// The kernel walked over.
    pub closed spec fn mesh(self) -> ConnectivityKernel {
        *self.kernel
    }

    /// The half-edge yielded next, or the "none" handle once the walk is over.
    pub closed spec fn current(self) -> EdgeId {
        self.current_edge
    }

    /// The half-edge the walk started from.
    pub closed spec fn first(self) -> EdgeId {
        self.first_edge
    }

    pub open spec fn wf(self) -> bool {
        &&& self.mesh().wf()
        &&& self.mesh().has_edge(self.first())
        &&& (self.current().handle == 0 || self.mesh().has_edge(self.current()))
    }

    /// A walk around the vertex that `first_edge` ends at, from `first_edge`.
    pub fn new(kernel: &'l ConnectivityKernel, first_edge: EdgeId) -> (r: VertexEdgeIterator<'l>)
        requires
            kernel.wf(),
            kernel.has_edge(first_edge),
        ensures
            r.wf(),
            r.mesh() == *kernel,
            r.current() == first_edge,
            r.first() == first_edge,
    {
        VertexEdgeIterator { kernel, current_edge: first_edge, first_edge }
    }

    pub fn next(&mut self) -> (r: Option<EdgeId>)
        requires
            old(self).wf(),
        ensures
            final(self).wf(),
            final(self).mesh() == old(self).mesh(),
            final(self).first() == old(self).first(),
            old(self).current().handle == 0 ==> r.is_none() && final(self).current() == old(
                self,
            ).current(),
            old(self).current().handle != 0 ==> {
                let c = old(self).mesh().edge_rec(
                    old(self).mesh().edge_rec(old(self).current()).next,
                ).opposite;
                &&& r == Some(old(self).current())
                &&& final(self).current() == if c == old(self).first() {
                    Id { handle: 0, kind: Edge_ }
                } else {
                    c
                }
            },
    {
        if !self.current_edge.is_valid() {
            return None;
        }
        let temp = self.current_edge;
        proof {
            self.kernel.lemma_edge_invariants(temp);
            self.kernel.lemma_edge_invariants(self.kernel.edge_rec(temp).next);
        }
        self.current_edge = self.kernel.edge(self.kernel.edge(self.current_edge).next).opposite;
        if self.current_edge == self.first_edge {
            self.current_edge = no_edge();
        }
        Some(temp)
    }
}

impl ConnectivityKernel {
    /// Checks the four half-edge invariants at `id`; a well-formed kernel
    /// always passes.
    pub fn assert_edge_invariants(&self, id: EdgeId) -> (r: bool)
        requires
            self.wf(),
            self.has_edge(id),
        ensures
            r == self.edge_invariants(id),
            r,
    {
        proof {
            self.lemma_edge_invariants(id);
            self.lemma_edge_invariants(self.edge_rec(id).opposite);
        }
        let e = self.edge(id);
        self.edge(e.opposite).opposite == id && self.edge(e.next).prev == id && self.edge(e.prev).next
            == id && e.vertex == self.edge(self.edge(e.opposite).next).vertex && e.face == self.edge(
            e.next,
        ).face && e.face == self.edge(e.prev).face
    }

    /// Checks the half-edge invariants all around the boundary ring of
    /// `face`; a well-formed kernel always passes.
    pub fn assert_face_invariants(&self, face: FaceId) -> (r: bool)
        requires
            self.wf(),
            self.has_face(face),
        ensures
            r == (forall|i: int|
                0 <= i < self.face_ring(face).len() ==> self.edge_invariants(
                    #[trigger] self.face_ring(face)[i],
                )),
            r,
    {
        proof {
            self.lemma_face_first_edge(face);
        }
        let ghost s = self.face_ring(face);
        let first = self.face(face).first_edge;
        let stop = self.edge(first).prev;
        let mut it = first;
        let mut ok = true;
        let ghost mut k: int = 0;
        proof {
            assert(s[0] == s[0]);
            assert(stop == pred(s, 0));
        }
        loop
            invariant
                self.wf(),
                self.is_ring(s),
                stop == s[s.len() - 1],
                0 <= k < s.len(),
                it == s[k],
                ok,
                forall|i: int| 0 <= i < k ==> self.edge_invariants(#[trigger] s[i]),
            ensures
                ok,
                forall|i: int| 0 <= i < s.len() ==> self.edge_invariants(#[trigger] s[i]),
            decreases s.len() - k,
        {
            proof {
                assert(s[k] == s[k]);
            }
            let c = self.assert_edge_invariants(it);
            ok = ok && c;
            if it == stop {
                break;
            }
            it = self.edge(it).next;
            proof {
                k = k + 1;
            }
        }
        ok
    }
}

} // verus!
