//! Edits: cutting a face in two along a diagonal, and inserting a vertex on an edge.

use vstd::prelude::*;
use crate::handles::{
    Id, Face_, EdgeId, FaceId, VertexId, Index, MAX_HANDLE, edge_at, face_at, vertex_at, edge_id,
    face_id, vertex_id, no_face, lemma_edge_at_idx, lemma_face_at_idx,
    lemma_edge_at_injective,
};
use crate::ring::{
    rings_linked, rings_one_face, placed, linked, same_face, succ, pred, rotate, rotate_loc,
    lemma_rotate, split_rings, split_loc, split_links, lemma_split, insert_rings, insert_loc,
    insert_links, lemma_insert, lemma_rings_frame,
};
use super::{ConnectivityKernel, HalfEdge, Face, Vertex};

verus! {

/// Two half-edge arrays that differ at most in the `face` fields have the
/// same rings.
proof fn lemma_linked_frame(
    e1: Seq<HalfEdge>,
    e2: Seq<HalfEdge>,
    rings: Seq<Seq<EdgeId>>,
    loc: Seq<(int, int)>,
)
    requires
        rings_linked(e1, rings, loc),
        e1.len() == e2.len(),
        forall|x: int| 0 <= x < e1.len() ==> #[trigger] e2[x].next == e1[x].next && e2[x].prev == e1[x].prev,
    ensures
        rings_linked(e2, rings, loc),
{
    assert forall|r: int, p: int|
        0 <= r < rings.len() && 0 <= p < rings[r].len() implies #[trigger] linked(e2, rings, loc, r, p) by {
        assert(linked(e1, rings, loc, r, p));
        let x = rings[r][p].idx();
        assert(e2[x].next == e1[x].next);
    }
}

/// The record of an existing half-edge after `split_face` cut the ring `s`
/// before its position `k`, with the new half-edges `ne` and `no` and the
/// new face `nf`.
pub open spec fn after_split_face(
    h: HalfEdge,
    e: EdgeId,
    s: Seq<EdgeId>,
    k: int,
    ne: EdgeId,
    no: EdgeId,
    nf: FaceId,
) -> HalfEdge {
    HalfEdge {
        next: if e == s[s.len() - 1] {
            ne
        } else if e == s[k - 1] {
            no
        } else {
            h.next
        },
        prev: if e == s[0] {
            no
        } else if e == s[k] {
            ne
        } else {
            h.prev
        },
        face: if s.subrange(0, k).contains(e) {
            nf
        } else {
            h.face
        },
        ..h
    }
}

impl ConnectivityKernel {
    /// Facts about the ring of `a` needed to cut it before `b`.
    proof fn lemma_cut_points(self, a: EdgeId, b: EdgeId) -> (k: int)
        requires
            self.wf(),
            self.has_edge(a),
            self.ring(a).contains(b),
            a != b,
            self.edge_rec(a).next != b,
            self.edge_rec(a).prev != b,
        ensures
            k == self.ring(a).index_of(b),
            2 <= k <= self.ring(a).len() - 2,
            self.ring(a)[k] == b,
            self.ring(a)[0] == a,
            self.edge_rec(a).prev == self.ring(a)[self.ring(a).len() - 1],
            self.edge_rec(b).prev == self.ring(a)[k - 1],
            self.has_edge(b),
            self.edge_rec(self.ring(a)[self.ring(a).len() - 1]).face == self.edge_rec(a).face,
            self.edge_rec(self.ring(a)[k - 1]).face == self.edge_rec(a).face,
            self.edge_rec(b).face == self.edge_rec(a).face,
    {
        let s = self.ring(a);
        self.lemma_ring(a);
        let k = s.index_of(b);
        assert(s[k] == b);
        let n = s.len() as int;
        assert(s[0] == a);
        if n > 1 {
            assert(s[1] == succ(s, 0));
        }
        assert(s[n - 1] == pred(s, 0));
        assert(s[k - 1] == pred(s, k));
        k
    }

    /// Cuts the face bounded by `a_next` and `b_next` in two along a new edge
    /// from the origin of `a_next` to the origin of `b_next`. The half-edge
    /// running that way stays with the old face; its twin bounds the new face
    /// together with the half-edges from `a_next` up to the one before
    /// `b_next`. Returns the new face.
    pub fn split_face(&mut self, a_next: EdgeId, b_next: EdgeId) -> (r: FaceId)
        requires
            old(self).wf(),
            old(self).has_edge(a_next),
            old(self).ring(a_next).contains(b_next),
            a_next != b_next,
            old(self).edge_rec(a_next).next != b_next,
            old(self).edge_rec(a_next).prev != b_next,
            old(self).face_seq().len() + 1 < MAX_HANDLE,
            old(self).edge_seq().len() + 2 < MAX_HANDLE,
        ensures
            final(self).wf(),
            ({
                let s = old(self).ring(a_next);
                let k = s.index_of(b_next);
                let n = s.len() as int;
                let oe = old(self).edge_seq().len() as int;
                let ne = edge_at(oe);
                let no = edge_at(oe + 1);
                let f = old(self).edge_rec(a_next).face;
                &&& r == face_at(old(self).face_seq().len() as int)
                &&& final(self).face_seq().len() == old(self).face_seq().len() + 1
                &&& final(self).face_rec(r) == (Face {
                    first_edge: no,
                    first_interior: Id { handle: 0, kind: Face_ },
                    next_sibling: Id { handle: 0, kind: Face_ },
                })
                &&& final(self).face_rec(f) == (Face { first_edge: ne, ..old(self).face_rec(f) })
                &&& forall|j: int|
                    0 <= j < old(self).face_seq().len() && j != f.idx() ==> final(self).face_seq()[j]
                        == old(self).face_seq()[j]
                &&& final(self).vertex_seq() == old(self).vertex_seq()
                &&& final(self).edge_seq().len() == oe + 2
                &&& final(self).edge_rec(ne) == (HalfEdge {
                    next: b_next,
                    prev: s[n - 1],
                    vertex: old(self).edge_rec(a_next).vertex,
                    opposite: no,
                    face: f,
                })
                &&& final(self).edge_rec(no) == (HalfEdge {
                    next: a_next,
                    prev: s[k - 1],
                    vertex: old(self).edge_rec(b_next).vertex,
                    opposite: ne,
                    face: r,
                })
                &&& forall|e: EdgeId|
                    old(self).has_edge(e) ==> final(self).edge_rec(e) == after_split_face(
                        old(self).edge_rec(e),
                        e,
                        s,
                        k,
                        ne,
                        no,
                        r,
                    )
                &&& final(self).ring(ne) == seq![ne] + s.subrange(k, n)
                &&& final(self).ring(no) == seq![no] + s.subrange(0, k)
                &&& forall|e: EdgeId|
                    old(self).has_edge(e) && !s.contains(e) ==> final(self).ring(e) == old(self).ring(e)
            }),
    {
        let ghost pre = *self;
        let ghost ai = a_next.idx();
        let ghost r0 = pre.loc@[ai].0;
        let ghost pa = pre.loc@[ai].1;
        let ghost s = pre.ring(a_next);
        let ghost n = s.len() as int;
        let ghost kb = pre.lemma_cut_points(a_next, b_next);
        proof {
            pre.lemma_edge_invariants(a_next);
            pre.lemma_edge_invariants(b_next);
            assert(pre.wf_except(-1, -1));
            assert(placed(pre.rings@, pre.loc@, ai));
            lemma_rotate(pre.edges@, pre.rings@, pre.loc@, r0, pa);
        }
        let ghost rings1 = pre.rings@.update(r0, rotate(pre.rings@[r0], pa));
        let ghost loc1 = rotate_loc(pre.loc@, r0, pa, pre.rings@[r0].len() as int);

        let a_prev = self.edge(a_next).prev;
        let b_prev = self.edge(b_next).prev;
        let original_face = self.edge(a_prev).face;
        let va = self.edge(a_next).vertex;
        let vb = self.edge(b_next).vertex;
        let new_edge = edge_id(self.edges.len() as Index);
        let new_opposite_edge = edge_id(self.edges.len() as Index + 1);

        self.faces.push(
            Face { first_edge: new_opposite_edge, first_interior: no_face(), next_sibling: no_face() },
        );
        let new_face = face_id(self.faces.len() as Index - 1);
        let ghost faces_a = self.faces@;
        proof {
            assert(original_face == pre.edges@[a_next.idx()].face);
            assert(faces_a == pre.faces@.push(
                Face {
                    first_edge: new_opposite_edge,
                    first_interior: Id { handle: 0, kind: Face_ },
                    next_sibling: Id { handle: 0, kind: Face_ },
                },
            ));
        }

        self.edges.push(
            HalfEdge {
                next: b_next,
                prev: a_prev,
                opposite: new_opposite_edge,
                face: original_face,
                vertex: va,
            },
        );
        self.edges.push(
            HalfEdge {
                next: a_next,
                prev: b_prev,
                opposite: new_edge,
                face: new_face,
                vertex: vb,
            },
        );
        self.edge_mut(a_prev).next = new_edge;
        self.edge_mut(a_next).prev = new_opposite_edge;
        self.edge_mut(b_prev).next = new_opposite_edge;
        self.edge_mut(b_next).prev = new_edge;
        self.face_mut(original_face).first_edge = new_edge;
        assert(self.faces@ == faces_a.update(
            original_face.idx(),
            Face { first_edge: new_edge, ..faces_a[original_face.idx()] },
        ));
        let ghost faces_b = self.faces@;

        let ghost mid = self.edges@;
        let ghost oe = pre.edges@.len() as int;
        let ghost nr = pre.rings@.len() as int;
        let ghost rings2 = split_rings(rings1, r0, kb, oe);
        let ghost loc2 = split_loc(loc1, r0, kb, oe, nr);
        proof {
            assert(rings1[r0] == s);
            lemma_edge_at_idx(a_prev);
            lemma_edge_at_idx(b_prev);
            lemma_edge_at_idx(a_next);
            lemma_edge_at_idx(b_next);
            assert(split_links(pre.edges@, mid, s, kb));
            lemma_split(pre.edges@, mid, rings1, loc1, r0, kb);
        }
        self.rings = Ghost(rings2);
        self.loc = Ghost(loc2);
        let ghost ring2 = rings2[nr];

        let mut it = new_opposite_edge;
        let ghost mut j: int = 0;
        proof {
            assert(ring2 == seq![new_opposite_edge] + s.subrange(0, kb));
            assert(ring2[0] == new_opposite_edge);
            assert forall|x: int| 0 <= x < oe + 2 implies loc2[x].1 >= 0 by {
                assert(placed(rings2, loc2, x));
            }
        }
        loop
            invariant_except_break
                it == ring2[j],
                forall|x: int|
                    0 <= x < oe + 2 ==> #[trigger] self.edges@[x] == (HalfEdge {
                        face: if loc2[x].0 == nr && loc2[x].1 < j {
                            new_face
                        } else {
                            mid[x].face
                        },
                        ..mid[x]
                    }),
            invariant
                self.edges@.len() == oe + 2,
                oe == pre.edges@.len(),
                oe + 2 < MAX_HANDLE,
                nr == pre.rings@.len(),
                rings_linked(mid, rings2, loc2),
                ring2 == rings2[nr],
                nr < rings2.len(),
                ring2[0] == new_opposite_edge,
                0 <= j < ring2.len(),
                mid.len() == oe + 2,
                forall|x: int| 0 <= x < oe + 2 ==> loc2[x].1 >= 0,
                self.vertices == pre.vertices,
                self.faces@ == faces_b,
                self.rings@ == rings2,
                self.loc@ == loc2,
            ensures
                self.edges@.len() == oe + 2,
                forall|x: int|
                    0 <= x < oe + 2 ==> #[trigger] self.edges@[x] == (HalfEdge {
                        face: if loc2[x].0 == nr {
                            new_face
                        } else {
                            mid[x].face
                        },
                        ..mid[x]
                    }),
                self.vertices == pre.vertices,
                self.faces@ == faces_b,
                self.rings@ == rings2,
                self.loc@ == loc2,
            decreases ring2.len() - j,
        {
            proof {
                assert(linked(mid, rings2, loc2, nr, j));
                assert(linked(mid, rings2, loc2, nr, 0));
            }
            let ghost before = self.edges@;
            self.edge_mut(it).face = new_face;
            proof {
                assert forall|x: int|
                    0 <= x < oe + 2 implies #[trigger] self.edges@[x] == (HalfEdge {
                        face: if loc2[x].0 == nr && loc2[x].1 < j + 1 {
                            new_face
                        } else {
                            mid[x].face
                        },
                        ..mid[x]
                    }) by {
                    assert(before[x] == (HalfEdge {
                        face: if loc2[x].0 == nr && loc2[x].1 < j {
                            new_face
                        } else {
                            mid[x].face
                        },
                        ..mid[x]
                    }));
                    assert(placed(rings2, loc2, x));
                    lemma_edge_at_idx(it);
                    if x != it.idx() {
                        lemma_edge_at_injective(x, it.idx());
                    }
                }
            }
            it = self.edge(it).next;
            if it == new_opposite_edge {
                proof {
                    if j + 1 < ring2.len() {
                        assert(linked(mid, rings2, loc2, nr, j + 1));
                    }
                    assert forall|x: int| 0 <= x < oe + 2 && loc2[x].0 == nr implies loc2[x].1 < j + 1 by {
                        assert(placed(rings2, loc2, x));
                    }
                    assert forall|x: int|
                        0 <= x < oe + 2 implies #[trigger] self.edges@[x] == (HalfEdge {
                            face: if loc2[x].0 == nr {
                                new_face
                            } else {
                                mid[x].face
                            },
                            ..mid[x]
                        }) by {
                        assert(self.edges@[x] == self.edges@[x]);
                    }
                }
                break;
            }
            proof {
                j = j + 1;
            }
        }
        proof {
            let f = pre.edges@[a_next.idx()].face;
            assert(rings1[r0] == s);
            assert(0 <= r0 < pre.rings@.len());
            assert(mid[oe] == (HalfEdge {
                next: b_next,
                prev: s[s.len() - 1],
                vertex: pre.edges@[a_next.idx()].vertex,
                opposite: new_opposite_edge,
                face: f,
            }));
            assert(mid[oe + 1] == (HalfEdge {
                next: a_next,
                prev: s[kb - 1],
                vertex: pre.edges@[b_next.idx()].vertex,
                opposite: new_edge,
                face: new_face,
            }));
            assert(forall|x: int|
                0 <= x < oe ==> #[trigger] mid[x] == (HalfEdge {
                    next: mid[x].next,
                    prev: mid[x].prev,
                    ..pre.edges@[x]
                }));
            assert(self.vertices@ == pre.vertices@);
            assert(self.faces@ == pre.faces@.push(
                Face {
                    first_edge: new_opposite_edge,
                    first_interior: Id { handle: 0, kind: Face_ },
                    next_sibling: Id { handle: 0, kind: Face_ },
                },
            ).update(f.idx(), Face { first_edge: new_edge, ..pre.faces@[f.idx()] }));
            self.lemma_split_face_wf(pre, a_next, b_next, kb, mid, new_face);
            self.lemma_split_face_post(pre, a_next, b_next, kb, mid, new_face);
        }
        new_face
    }
}

impl ConnectivityKernel {
    /// The state `split_face` leaves is well formed and is the one its
    /// contract describes.
    proof fn lemma_split_face_post(
        self,
        pre: ConnectivityKernel,
        a: EdgeId,
        b: EdgeId,
        k: int,
        mid: Seq<HalfEdge>,
        nf: FaceId,
    )
        requires
            pre.wf(),
            pre.has_edge(a),
            pre.ring(a).contains(b),
            k == pre.ring(a).index_of(b),
            2 <= k <= pre.ring(a).len() - 2,
            pre.ring(a)[k] == b,
            pre.ring(a)[0] == a,
            pre.edges@.len() + 2 < MAX_HANDLE,
            pre.faces@.len() + 1 < MAX_HANDLE,
            nf == face_at(pre.faces@.len() as int),
            ({
                let s = pre.ring(a);
                let r0 = pre.loc@[a.idx()].0;
                let pa = pre.loc@[a.idx()].1;
                let rings1 = pre.rings@.update(r0, rotate(pre.rings@[r0], pa));
                let loc1 = rotate_loc(pre.loc@, r0, pa, pre.rings@[r0].len() as int);
                let oe = pre.edges@.len() as int;
                let nr = pre.rings@.len() as int;
                let ne = edge_at(oe);
                let no = edge_at(oe + 1);
                let f = pre.edges@[a.idx()].face;
                &&& 0 <= r0 < pre.rings@.len()
                &&& rings1[r0] == s
                &&& rings_linked(pre.edges@, rings1, loc1)
                &&& rings_one_face(pre.edges@, rings1)
                &&& split_links(pre.edges@, mid, s, k)
                &&& rings_linked(mid, split_rings(rings1, r0, k, oe), split_loc(loc1, r0, k, oe, nr))
                &&& mid[oe] == (HalfEdge {
                    next: b,
                    prev: s[s.len() - 1],
                    vertex: pre.edges@[a.idx()].vertex,
                    opposite: no,
                    face: f,
                })
                &&& mid[oe + 1] == (HalfEdge {
                    next: a,
                    prev: s[k - 1],
                    vertex: pre.edges@[b.idx()].vertex,
                    opposite: ne,
                    face: nf,
                })
                &&& forall|x: int|
                    0 <= x < oe ==> #[trigger] mid[x] == (HalfEdge {
                        next: mid[x].next,
                        prev: mid[x].prev,
                        ..pre.edges@[x]
                    })
                &&& self.edges@.len() == oe + 2
                &&& forall|x: int|
                    0 <= x < oe + 2 ==> #[trigger] self.edges@[x] == (HalfEdge {
                        face: if split_loc(loc1, r0, k, oe, nr)[x].0 == nr {
                            nf
                        } else {
                            mid[x].face
                        },
                        ..mid[x]
                    })
                &&& self.rings@ == split_rings(rings1, r0, k, oe)
                &&& self.loc@ == split_loc(loc1, r0, k, oe, nr)
                &&& self.vertices@ == pre.vertices@
                &&& self.faces@ == pre.faces@.push(
                    Face {
                        first_edge: no,
                        first_interior: Id { handle: 0, kind: Face_ },
                        next_sibling: Id { handle: 0, kind: Face_ },
                    },
                ).update(f.idx(), Face { first_edge: ne, ..pre.faces@[f.idx()] })
            }),
        ensures
            ({
                let s = pre.ring(a);
                let n = s.len() as int;
                let oe = pre.edges@.len() as int;
                let ne = edge_at(oe);
                let no = edge_at(oe + 1);
                &&& forall|e: EdgeId|
                    pre.has_edge(e) ==> self.edge_rec(e) == after_split_face(
                        pre.edge_rec(e),
                        e,
                        s,
                        k,
                        ne,
                        no,
                        nf,
                    )
                &&& self.ring(ne) == seq![ne] + s.subrange(k, n)
                &&& self.ring(no) == seq![no] + s.subrange(0, k)
                &&& forall|e: EdgeId| pre.has_edge(e) && !s.contains(e) ==> self.ring(e) == pre.ring(e)
            }),
    {
        let s = pre.ring(a);
        let n = s.len() as int;
        let r0 = pre.loc@[a.idx()].0;
        let pa = pre.loc@[a.idx()].1;
        let rings1 = pre.rings@.update(r0, rotate(pre.rings@[r0], pa));
        let loc1 = rotate_loc(pre.loc@, r0, pa, pre.rings@[r0].len() as int);
        let oe = pre.edges@.len() as int;
        let nr = pre.rings@.len() as int;
        let ne = edge_at(oe);
        let no = edge_at(oe + 1);
        let rings2 = split_rings(rings1, r0, k, oe);
        let loc2 = split_loc(loc1, r0, k, oe, nr);
        lemma_edge_at_injective(oe, oe + 1);
        assert(pre.wf_except(-1, -1));
        assert forall|e: EdgeId|
            pre.has_edge(e) implies self.edge_rec(e) == after_split_face(
                pre.edge_rec(e),
                e,
                s,
                k,
                ne,
                no,
                nf,
            ) by {
            let x = e.idx();
            lemma_edge_at_idx(e);
            assert(placed(rings1, loc1, x));
            assert(mid[x] == mid[x]);
            assert(self.edges@[x] == self.edges@[x]);
            assert(linked(pre.edges@, rings1, loc1, r0, 0));
            assert(linked(pre.edges@, rings1, loc1, r0, n - 1));
            assert(linked(pre.edges@, rings1, loc1, r0, k));
            assert(linked(pre.edges@, rings1, loc1, r0, k - 1));
            lemma_edge_at_idx(s[0]);
            lemma_edge_at_idx(s[n - 1]);
            lemma_edge_at_idx(s[k]);
            lemma_edge_at_idx(s[k - 1]);
            if s.subrange(0, k).contains(e) {
                let m = choose|m: int| 0 <= m < k && s.subrange(0, k)[m] == e;
                assert(s[m] == e);
                assert(linked(pre.edges@, rings1, loc1, r0, m));
            } else if loc1[x].0 == r0 && loc1[x].1 < k {
                assert(s.subrange(0, k)[loc1[x].1] == e);
            }
        }
        assert(loc2[oe] == (r0, 0int));
        assert(loc2[oe + 1] == (nr, 0int));
        assert(rotate(rings2[r0], 0) =~= rings2[r0]);
        assert(rotate(rings2[nr], 0) =~= rings2[nr]);
        assert forall|e: EdgeId| pre.has_edge(e) && !s.contains(e) implies self.ring(e) == pre.ring(e) by {
            let x = e.idx();
            lemma_edge_at_idx(e);
            assert(placed(rings1, loc1, x));
            assert(placed(pre.rings@, pre.loc@, x));
            if loc1[x].0 == r0 {
                assert(s[loc1[x].1] == e);
            }
        }
    }

    proof fn lemma_split_face_wf(
        self,
        pre: ConnectivityKernel,
        a: EdgeId,
        b: EdgeId,
        k: int,
        mid: Seq<HalfEdge>,
        nf: FaceId,
    )
        requires
            pre.wf(),
            pre.has_edge(a),
            pre.ring(a).contains(b),
            k == pre.ring(a).index_of(b),
            2 <= k <= pre.ring(a).len() - 2,
            pre.ring(a)[k] == b,
            pre.ring(a)[0] == a,
            pre.edges@.len() + 2 < MAX_HANDLE,
            pre.faces@.len() + 1 < MAX_HANDLE,
            nf == face_at(pre.faces@.len() as int),
            ({
                let s = pre.ring(a);
                let r0 = pre.loc@[a.idx()].0;
                let pa = pre.loc@[a.idx()].1;
                let rings1 = pre.rings@.update(r0, rotate(pre.rings@[r0], pa));
                let loc1 = rotate_loc(pre.loc@, r0, pa, pre.rings@[r0].len() as int);
                let oe = pre.edges@.len() as int;
                let nr = pre.rings@.len() as int;
                let ne = edge_at(oe);
                let no = edge_at(oe + 1);
                let f = pre.edges@[a.idx()].face;
                &&& 0 <= r0 < pre.rings@.len()
                &&& rings1[r0] == s
                &&& rings_linked(pre.edges@, rings1, loc1)
                &&& rings_one_face(pre.edges@, rings1)
                &&& split_links(pre.edges@, mid, s, k)
                &&& rings_linked(mid, split_rings(rings1, r0, k, oe), split_loc(loc1, r0, k, oe, nr))
                &&& mid[oe] == (HalfEdge {
                    next: b,
                    prev: s[s.len() - 1],
                    vertex: pre.edges@[a.idx()].vertex,
                    opposite: no,
                    face: f,
                })
                &&& mid[oe + 1] == (HalfEdge {
                    next: a,
                    prev: s[k - 1],
                    vertex: pre.edges@[b.idx()].vertex,
                    opposite: ne,
                    face: nf,
                })
                &&& forall|x: int|
                    0 <= x < oe ==> #[trigger] mid[x] == (HalfEdge {
                        next: mid[x].next,
                        prev: mid[x].prev,
                        ..pre.edges@[x]
                    })
                &&& self.edges@.len() == oe + 2
                &&& forall|x: int|
                    0 <= x < oe + 2 ==> #[trigger] self.edges@[x] == (HalfEdge {
                        face: if split_loc(loc1, r0, k, oe, nr)[x].0 == nr {
                            nf
                        } else {
                            mid[x].face
                        },
                        ..mid[x]
                    })
                &&& self.rings@ == split_rings(rings1, r0, k, oe)
                &&& self.loc@ == split_loc(loc1, r0, k, oe, nr)
                &&& self.vertices@ == pre.vertices@
                &&& self.faces@ == pre.faces@.push(
                    Face {
                        first_edge: no,
                        first_interior: Id { handle: 0, kind: Face_ },
                        next_sibling: Id { handle: 0, kind: Face_ },
                    },
                ).update(f.idx(), Face { first_edge: ne, ..pre.faces@[f.idx()] })
            }),
        ensures
            self.wf(),
    {
        let s = pre.ring(a);
        let n = s.len() as int;
        let r0 = pre.loc@[a.idx()].0;
        let pa = pre.loc@[a.idx()].1;
        let rings1 = pre.rings@.update(r0, rotate(pre.rings@[r0], pa));
        let loc1 = rotate_loc(pre.loc@, r0, pa, pre.rings@[r0].len() as int);
        let oe = pre.edges@.len() as int;
        let nr = pre.rings@.len() as int;
        let ne = edge_at(oe);
        let no = edge_at(oe + 1);
        let f = pre.edges@[a.idx()].face;
        let rings2 = split_rings(rings1, r0, k, oe);
        let loc2 = split_loc(loc1, r0, k, oe, nr);
        let edges = self.edges@;
        assert(pre.wf_except(-1, -1));
        lemma_edge_at_injective(oe, oe + 1);
        pre.lemma_edge_invariants(a);
        lemma_face_at_idx(f);
        assert(pre.edge_ok(a.idx()));
        lemma_edge_at_idx(a);
        // links
        lemma_linked_frame(mid, edges, rings2, loc2);
        // faces of the rings
        assert forall|q: int, p: int|
            0 <= q < rings2.len() && 0 <= p < rings2[q].len() implies #[trigger] same_face(
                edges,
                rings2,
                q,
                p,
            ) by {
            assert(linked(mid, rings2, loc2, q, p));
            assert(linked(mid, rings2, loc2, q, 0));
            if q != r0 && q != nr {
                assert(same_face(pre.edges@, rings1, q, p));
                assert(linked(pre.edges@, rings1, loc1, q, p));
                assert(linked(pre.edges@, rings1, loc1, q, 0));
                assert(rings2[q] == rings1[q]);
            } else if q == r0 {
                assert(linked(pre.edges@, rings1, loc1, r0, 0));
                if p > 0 {
                    assert(rings2[r0][p] == s[k + p - 1]);
                    assert(same_face(pre.edges@, rings1, r0, k + p - 1));
                    assert(linked(pre.edges@, rings1, loc1, r0, k + p - 1));
                }
            }
        }
        assert forall|i: int| 0 <= i < edges.len() implies #[trigger] self.edge_ok(i) by {
            self.lemma_split_face_edge_ok(pre, a, b, k, mid, nf, i);
        }
        assert forall|i: int| 0 <= i < self.vertices@.len() implies #[trigger] self.vertex_ok(i) by {
            assert(pre.vertex_ok(i));
        }
        assert forall|j: int| 0 <= j < self.faces@.len() implies #[trigger] self.face_links_ok(j) by {
            if j < pre.faces@.len() {
                assert(pre.face_links_ok(j));
            }
        }
        assert forall|j: int|
            0 <= j < self.faces@.len() && j != -1 && j != -1 implies #[trigger] self.face_edge_ok(j) by {
            if j == pre.faces@.len() {
                assert(loc2[oe + 1] == (nr, 0int));
            } else if j == f.idx() {
                assert(loc2[oe] == (r0, 0int));
            } else {
                assert(pre.face_edge_ok(j));
                let g = pre.faces@[j].first_edge.idx();
                assert(placed(pre.rings@, pre.loc@, g));
                assert(placed(rings1, loc1, g));
                let q = loc1[g].1;
                if loc1[g].0 == r0 {
                    assert(linked(pre.edges@, rings1, loc1, r0, q));
                    assert(same_face(pre.edges@, rings1, r0, q));
                    assert(linked(pre.edges@, rings1, loc1, r0, 0));
                    lemma_face_at_idx(pre.edges@[g].face);
                }
            }
        }
        assert(self.wf_except(-1, -1));
    }

    proof fn lemma_split_face_edge_ok(
        self,
        pre: ConnectivityKernel,
        a: EdgeId,
        b: EdgeId,
        k: int,
        mid: Seq<HalfEdge>,
        nf: FaceId,
        i: int,
    )
        requires
            pre.wf(),
            pre.has_edge(a),
            2 <= k <= pre.ring(a).len() - 2,
            pre.ring(a)[k] == b,
            pre.ring(a)[0] == a,
            pre.edges@.len() + 2 < MAX_HANDLE,
            pre.faces@.len() + 1 < MAX_HANDLE,
            nf == face_at(pre.faces@.len() as int),
            0 <= i < pre.edges@.len() + 2,
            ({
                let s = pre.ring(a);
                let oe = pre.edges@.len() as int;
                let ne = edge_at(oe);
                let no = edge_at(oe + 1);
                let f = pre.edges@[a.idx()].face;
                &&& split_links(pre.edges@, mid, s, k)
                &&& mid[oe] == (HalfEdge {
                    next: b,
                    prev: s[s.len() - 1],
                    vertex: pre.edges@[a.idx()].vertex,
                    opposite: no,
                    face: f,
                })
                &&& mid[oe + 1] == (HalfEdge {
                    next: a,
                    prev: s[k - 1],
                    vertex: pre.edges@[b.idx()].vertex,
                    opposite: ne,
                    face: nf,
                })
                &&& forall|x: int|
                    0 <= x < oe ==> #[trigger] mid[x] == (HalfEdge {
                        next: mid[x].next,
                        prev: mid[x].prev,
                        ..pre.edges@[x]
                    })
                &&& self.edges@.len() == oe + 2
                &&& forall|x: int|
                    0 <= x < oe + 2 ==> (#[trigger] self.edges@[x]).next == mid[x].next
                        && self.edges@[x].prev == mid[x].prev && self.edges@[x].vertex
                        == mid[x].vertex && self.edges@[x].opposite == mid[x].opposite
                        && (self.edges@[x].face == mid[x].face || self.edges@[x].face == nf)
                &&& self.vertices@ == pre.vertices@
                &&& self.faces@.len() == pre.faces@.len() + 1
            }),
        ensures
            self.edge_ok(i),
    {
        let s = pre.ring(a);
        let n = s.len() as int;
        let oe = pre.edges@.len() as int;
        let ne = edge_at(oe);
        let no = edge_at(oe + 1);
        let edges = self.edges@;
        pre.lemma_ring(a);
        lemma_edge_at_injective(oe, oe + 1);
        lemma_edge_at_idx(a);
        lemma_edge_at_idx(b);
        assert(pre.wf_except(-1, -1));
        assert(s[n - 1] == pred(s, 0));
        assert(s[k - 1] == pred(s, k));
        assert(s[1] == succ(s, 0));
        assert(s[k] == succ(s, k - 1));
        assert(s[0] == succ(s, n - 1));
        let ap = s[n - 1].idx();
        let bp = s[k - 1].idx();
        assert(pre.edge_ok(a.idx()));
        assert(pre.edge_ok(b.idx()));
        assert(nf.handle == pre.faces@.len() + 1);
        assert(self.has_face(nf));
        if i < oe {
            assert(pre.edge_ok(i));
            let h = pre.edges@[i];
            let o = h.opposite.idx();
            assert(pre.edge_ok(o));
            assert(edges[i] == edges[i]);
            assert(edges[o] == edges[o]);
            assert(mid[i] == mid[i]);
            assert(mid[o] == mid[o]);
            let nx = edges[o].next.idx();
            assert(edges[nx] == edges[nx]);
            if o == ap {
                assert(edges[o].next == ne);
                assert(mid[oe] == mid[oe]);
                // the half-edge after the twin is the new one, which starts at a's origin
                assert(pre.edges@[o].next == a);
            } else if o == bp {
                assert(edges[o].next == no);
                assert(mid[oe + 1] == mid[oe + 1]);
                assert(pre.edges@[o].next == b);
            } else {
                let pn = pre.edges@[o].next.idx();
                assert(pn < oe);
                assert(mid[pn] == mid[pn]);
            }
        } else if i == oe {
            assert(edges[oe] == edges[oe]);
            assert(edges[oe + 1] == edges[oe + 1]);
            assert(mid[oe + 1] == mid[oe + 1]);
            assert(edges[a.idx()] == edges[a.idx()]);
            assert(mid[a.idx()] == mid[a.idx()]);
        } else {
            assert(edges[oe] == edges[oe]);
            assert(edges[oe + 1] == edges[oe + 1]);
            assert(mid[oe] == mid[oe]);
            assert(edges[b.idx()] == edges[b.idx()]);
            assert(mid[b.idx()] == mid[b.idx()]);
        }
        let h = edges[i];
        assert(self.has_edge(h.next));
        assert(self.has_edge(h.prev));
        assert(self.has_edge(h.opposite));
        assert(self.has_vertex(h.vertex));
        assert(self.has_face(h.face));
        assert(h.opposite != edge_at(i));
        assert(edges[h.opposite.idx()].opposite == edge_at(i));
        assert(edges[edges[h.opposite.idx()].next.idx()].vertex == h.vertex);
    }
}

/// The record of an existing half-edge after `split_edge` put a vertex on the
/// edge `e` / `o` (whose successors were `en` / `on`), continuing them with
/// the new half-edges `ne` / `no`.
pub open spec fn after_split_edge(
    h: HalfEdge,
    x: EdgeId,
    e: EdgeId,
    o: EdgeId,
    en: EdgeId,
    on: EdgeId,
    ne: EdgeId,
    no: EdgeId,
) -> HalfEdge {
    HalfEdge {
        next: if x == e {
            ne
        } else if x == o {
            no
        } else {
            h.next
        },
        prev: if x == en {
            ne
        } else if x == on {
            no
        } else {
            h.prev
        },
        opposite: if x == e {
            no
        } else if x == o {
            ne
        } else {
            h.opposite
        },
        ..h
    }
}

/// 1 where `b` holds, else 0.
pub open spec fn one_if(b: bool) -> int {
    if b {
        1
    } else {
        0
    }
}

impl ConnectivityKernel {
    /// Inserts a new vertex on the edge `id` and its twin. `id` now ends at
    /// the new vertex and a new half-edge carries on from there to the old
    /// end; the same holds of the twin. Returns the new vertex.
    pub fn split_edge(&mut self, id: EdgeId) -> (r: VertexId)
        requires
            old(self).wf(),
            old(self).has_edge(id),
            old(self).vertex_seq().len() + 1 < MAX_HANDLE,
            old(self).edge_seq().len() + 2 < MAX_HANDLE,
        ensures
            final(self).wf(),
            ({
                let e = id;
                let o = old(self).edge_rec(id).opposite;
                let en = old(self).edge_rec(id).next;
                let on = old(self).edge_rec(o).next;
                let oe = old(self).edge_seq().len() as int;
                let ne = edge_at(oe);
                let no = edge_at(oe + 1);
                &&& r == vertex_at(old(self).vertex_seq().len() as int)
                &&& final(self).vertex_seq() == old(self).vertex_seq().push(Vertex { first_edge: ne })
                &&& final(self).face_seq() == old(self).face_seq()
                &&& final(self).edge_seq().len() == oe + 2
                &&& final(self).edge_rec(ne) == (HalfEdge {
                    next: en,
                    prev: e,
                    vertex: r,
                    opposite: o,
                    face: old(self).edge_rec(e).face,
                })
                &&& final(self).edge_rec(no) == (HalfEdge {
                    next: on,
                    prev: o,
                    vertex: r,
                    opposite: e,
                    face: old(self).edge_rec(o).face,
                })
                &&& forall|x: EdgeId|
                    old(self).has_edge(x) ==> final(self).edge_rec(x) == after_split_edge(
                        old(self).edge_rec(x),
                        x,
                        e,
                        o,
                        en,
                        on,
                        ne,
                        no,
                    )
                &&& final(self).edge_rec(final(self).vertex_rec(r).first_edge).vertex == r
                &&& forall|x: EdgeId|
                    old(self).has_edge(x) ==> final(self).ring(x).len() == old(self).ring(x).len()
                        + one_if(old(self).ring(x).contains(e)) + one_if(
                        old(self).ring(x).contains(o),
                    )
                &&& forall|g: FaceId|
                    old(self).has_face(g) ==> final(self).face_ring(g).len() == old(self).face_ring(
                        g,
                    ).len() + one_if(old(self).face_ring(g).contains(e)) + one_if(
                        old(self).face_ring(g).contains(o),
                    )
            }),
    {
        let ghost pre = *self;
        proof {
            pre.lemma_edge_invariants(id);
            pre.lemma_edge_invariants(pre.edge_rec(id).opposite);
        }
        let new_vertex = vertex_id(self.vertices.len() as Index);
        let new_edge = edge_id(self.edges.len() as Index);
        let new_opposite = edge_id(self.edges.len() as Index + 1);
        self.vertices.push(Vertex { first_edge: new_edge });

        let edge = *self.edge(id);
        let opp_id = edge.opposite;
        let opposite = *self.edge(opp_id);

        // the continuation of `id`, from the new vertex on
        self.edges.push(
            HalfEdge {
                next: edge.next,
                prev: id,
                vertex: new_vertex,
                opposite: opp_id,
                face: edge.face,
            },
        );
        self.edge_mut(id).next = new_edge;
        self.edge_mut(edge.next).prev = new_edge;
        let ghost e1 = self.edges@;
        let ghost rings1 = insert_rings(pre.rings@, pre.loc@[id.idx()].0, pre.loc@[id.idx()].1, new_edge);
        let ghost loc1 = insert_loc(
            pre.loc@,
            pre.loc@[id.idx()].0,
            pre.loc@[id.idx()].1,
            pre.edges@.len() as int,
        );
        proof {
            assert(pre.wf_except(-1, -1));
            lemma_edge_at_idx(id);
            lemma_edge_at_idx(opp_id);
            lemma_edge_at_idx(edge.next);
            assert(insert_links(pre.edges@, e1, id.idx()));
            lemma_insert(pre.edges@, e1, pre.rings@, pre.loc@, id.idx());
        }

        // the continuation of the twin, from the new vertex on
        self.edges.push(
            HalfEdge {
                next: opposite.next,
                prev: opp_id,
                vertex: new_vertex,
                opposite: id,
                face: opposite.face,
            },
        );
        self.edge_mut(opp_id).next = new_opposite;
        self.edge_mut(opposite.next).prev = new_opposite;
        let ghost e2 = self.edges@;
        let ghost rings2 = insert_rings(rings1, loc1[opp_id.idx()].0, loc1[opp_id.idx()].1, new_opposite);
        let ghost loc2 = insert_loc(loc1, loc1[opp_id.idx()].0, loc1[opp_id.idx()].1, e1.len() as int);
        proof {
            lemma_edge_at_idx(opposite.next);
            assert(pre.edge_ok(id.idx()));
            assert(opp_id.idx() != id.idx());
            assert(e1[opp_id.idx()].next == opposite.next);
            assert(e1[opp_id.idx()].face == opposite.face);
            assert(insert_links(e1, e2, opp_id.idx()));
            lemma_insert(e1, e2, rings1, loc1, opp_id.idx());
        }

        self.edge_mut(id).opposite = new_opposite;
        self.edge_mut(opp_id).opposite = new_edge;
        self.rings = Ghost(rings2);
        self.loc = Ghost(loc2);
        proof {
            lemma_rings_frame(e2, self.edges@, rings2, loc2);
            let oe = pre.edges@.len() as int;
            let re = pre.loc@[id.idx()].0;
            let ro = pre.loc@[opp_id.idx()].0;
            assert(placed(pre.rings@, pre.loc@, id.idx()));
            assert(placed(pre.rings@, pre.loc@, opp_id.idx()));
            assert(self.vertices@ == pre.vertices@.push(Vertex { first_edge: new_edge }));
            assert(self.faces@ == pre.faces@);
            assert(self.edges@[oe] == (HalfEdge {
                next: edge.next,
                prev: id,
                vertex: new_vertex,
                opposite: opp_id,
                face: edge.face,
            }));
            assert(self.edges@[oe + 1] == (HalfEdge {
                next: opposite.next,
                prev: opp_id,
                vertex: new_vertex,
                opposite: id,
                face: opposite.face,
            }));
            assert forall|x: int|
                0 <= x < oe implies #[trigger] self.edges@[x] == after_split_edge(
                    pre.edges@[x],
                    edge_at(x),
                    id,
                    opp_id,
                    edge.next,
                    opposite.next,
                    new_edge,
                    new_opposite,
                ) by {
                lemma_edge_at_idx(edge_at(x));
                assert(edge_at(x).idx() == x);
                if x != id.idx() {
                    lemma_edge_at_injective(x, id.idx());
                }
                if x != opp_id.idx() {
                    lemma_edge_at_injective(x, opp_id.idx());
                }
                if x != edge.next.idx() {
                    lemma_edge_at_injective(x, edge.next.idx());
                }
                if x != opposite.next.idx() {
                    lemma_edge_at_injective(x, opposite.next.idx());
                }
            }
            assert(self.rings@.len() == pre.rings@.len());
            assert forall|x: int| 0 <= x < oe implies #[trigger] self.loc@[x].0 == pre.loc@[x].0 by {}
            assert forall|q: int|
                0 <= q < pre.rings@.len() implies #[trigger] self.rings@[q].len() == pre.rings@[q].len()
                    + one_if(q == re) + one_if(q == ro) by {}
            self.lemma_split_edge_wf(pre, id);
        }
        new_vertex
    }
}

impl ConnectivityKernel {
    /// The state `split_edge` leaves is well formed and is the one its
    /// contract describes.
    proof fn lemma_split_edge_wf(self, pre: ConnectivityKernel, id: EdgeId)
        requires
            pre.wf(),
            pre.has_edge(id),
            pre.vertices@.len() + 1 < MAX_HANDLE,
            pre.edges@.len() + 2 < MAX_HANDLE,
            ({
                let e = id;
                let o = pre.edge_rec(id).opposite;
                let en = pre.edge_rec(id).next;
                let on = pre.edge_rec(o).next;
                let oe = pre.edges@.len() as int;
                let ne = edge_at(oe);
                let no = edge_at(oe + 1);
                let nv = vertex_at(pre.vertices@.len() as int);
                let re = pre.loc@[e.idx()].0;
                let ro = pre.loc@[o.idx()].0;
                &&& self.vertices@ == pre.vertices@.push(Vertex { first_edge: ne })
                &&& self.faces@ == pre.faces@
                &&& self.edges@.len() == oe + 2
                &&& self.edges@[oe] == (HalfEdge {
                    next: en,
                    prev: e,
                    vertex: nv,
                    opposite: o,
                    face: pre.edge_rec(e).face,
                })
                &&& self.edges@[oe + 1] == (HalfEdge {
                    next: on,
                    prev: o,
                    vertex: nv,
                    opposite: e,
                    face: pre.edge_rec(o).face,
                })
                &&& forall|x: int|
                    0 <= x < oe ==> #[trigger] self.edges@[x] == after_split_edge(
                        pre.edges@[x],
                        edge_at(x),
                        e,
                        o,
                        en,
                        on,
                        ne,
                        no,
                    )
                &&& rings_linked(self.edges@, self.rings@, self.loc@)
                &&& rings_one_face(self.edges@, self.rings@)
                &&& self.rings@.len() == pre.rings@.len()
                &&& forall|x: int| 0 <= x < oe ==> #[trigger] self.loc@[x].0 == pre.loc@[x].0
                &&& forall|q: int|
                    0 <= q < pre.rings@.len() ==> #[trigger] self.rings@[q].len() == pre.rings@[q].len()
                        + one_if(q == re) + one_if(q == ro)
            }),
        ensures
            self.wf(),
            ({
                let e = id;
                let o = pre.edge_rec(id).opposite;
                let en = pre.edge_rec(id).next;
                let on = pre.edge_rec(o).next;
                let oe = pre.edges@.len() as int;
                let ne = edge_at(oe);
                let no = edge_at(oe + 1);
                let r = vertex_at(pre.vertices@.len() as int);
                &&& forall|x: EdgeId|
                    pre.has_edge(x) ==> self.edge_rec(x) == after_split_edge(
                        pre.edge_rec(x),
                        x,
                        e,
                        o,
                        en,
                        on,
                        ne,
                        no,
                    )
                &&& self.edge_rec(self.vertex_rec(r).first_edge).vertex == r
                &&& forall|x: EdgeId|
                    pre.has_edge(x) ==> self.ring(x).len() == pre.ring(x).len() + one_if(
                        pre.ring(x).contains(e),
                    ) + one_if(pre.ring(x).contains(o))
                &&& forall|g: FaceId|
                    pre.has_face(g) ==> self.face_ring(g).len() == pre.face_ring(g).len() + one_if(
                        pre.face_ring(g).contains(e),
                    ) + one_if(pre.face_ring(g).contains(o))
            }),
    {
        let e = id;
        let o = pre.edge_rec(id).opposite;
        let en = pre.edge_rec(id).next;
        let on = pre.edge_rec(o).next;
        let oe = pre.edges@.len() as int;
        let ov = pre.vertices@.len() as int;
        let ne = edge_at(oe);
        let no = edge_at(oe + 1);
        let nv = vertex_at(ov);
        let edges = self.edges@;
        assert(pre.wf_except(-1, -1));
        pre.lemma_edge_invariants(e);
        pre.lemma_edge_invariants(o);
        lemma_edge_at_idx(e);
        lemma_edge_at_idx(o);
        lemma_edge_at_idx(en);
        lemma_edge_at_idx(on);
        lemma_edge_at_injective(oe, oe + 1);
        assert(edge_at(oe).idx() == oe);
        assert(vertex_at(ov).idx() == ov);
        assert(pre.edge_ok(e.idx()));
        assert(pre.edge_ok(o.idx()));
        assert(e != o);
        assert forall|i: int| 0 <= i < edges.len() implies #[trigger] self.edge_ok(i) by {
            if i < oe {
                assert(pre.edge_ok(i));
                let h = pre.edges@[i];
                let y = h.opposite.idx();
                assert(pre.edge_ok(y));
                assert(edges[i] == edges[i]);
                assert(edges[y] == edges[y]);
                lemma_edge_at_idx(h.opposite);
                if i == e.idx() {
                    assert(edges[oe + 1] == edges[oe + 1]);
                    assert(edges[on.idx()] == edges[on.idx()]);
                } else if i == o.idx() {
                    assert(edges[oe] == edges[oe]);
                    assert(edges[en.idx()] == edges[en.idx()]);
                } else {
                    if y != e.idx() {
                        lemma_edge_at_injective(y, e.idx());
                    }
                    if y != o.idx() {
                        lemma_edge_at_injective(y, o.idx());
                    }
                    if i != e.idx() {
                        lemma_edge_at_injective(i, e.idx());
                    }
                    if i != o.idx() {
                        lemma_edge_at_injective(i, o.idx());
                    }
                    let z = pre.edges@[y].next.idx();
                    assert(edges[z] == edges[z]);
                }
            } else {
                assert(edges[e.idx()] == edges[e.idx()]);
                assert(edges[o.idx()] == edges[o.idx()]);
                assert(edges[oe] == edges[oe]);
                assert(edges[oe + 1] == edges[oe + 1]);
            }
            let h = edges[i];
            assert(self.has_edge(h.next));
            assert(self.has_edge(h.prev));
            assert(self.has_edge(h.opposite));
            assert(self.has_vertex(h.vertex));
            assert(self.has_face(h.face));
            assert(h.opposite != edge_at(i));
            assert(edges[h.opposite.idx()].opposite == edge_at(i));
            assert(edges[edges[h.opposite.idx()].next.idx()].vertex == h.vertex);
        }
        assert forall|i: int| 0 <= i < self.vertices@.len() implies #[trigger] self.vertex_ok(i) by {
            if i < ov {
                assert(pre.vertex_ok(i));
                let f = pre.vertices@[i].first_edge.idx();
                assert(edges[f] == edges[f]);
            } else {
                assert(edges[oe] == edges[oe]);
            }
        }
        assert forall|j: int| 0 <= j < self.faces@.len() implies #[trigger] self.face_links_ok(j) by {
            assert(pre.face_links_ok(j));
        }
        assert forall|j: int|
            0 <= j < self.faces@.len() && j != -1 && j != -1 implies #[trigger] self.face_edge_ok(j) by {
            assert(pre.face_edge_ok(j));
            let f = pre.faces@[j].first_edge.idx();
            assert(edges[f] == edges[f]);
        }
        assert(self.wf_except(-1, -1));
        assert forall|x: EdgeId|
            pre.has_edge(x) implies self.edge_rec(x) == after_split_edge(
                pre.edge_rec(x),
                x,
                e,
                o,
                en,
                on,
                ne,
                no,
            ) by {
            lemma_edge_at_idx(x);
            assert(edges[x.idx()] == edges[x.idx()]);
        }
        assert(self.vertices@[ov] == Vertex { first_edge: ne });
        assert(edges[oe] == edges[oe]);
        assert forall|x: EdgeId|
            pre.has_edge(x) implies self.ring(x).len() == pre.ring(x).len() + one_if(
                pre.ring(x).contains(e),
            ) + one_if(pre.ring(x).contains(o)) by {
            pre.lemma_ring_contains(x, e);
            pre.lemma_ring_contains(x, o);
            assert(placed(pre.rings@, pre.loc@, x.idx()));
            assert(placed(self.rings@, self.loc@, x.idx()));
            let q = pre.loc@[x.idx()].0;
            assert(self.loc@[x.idx()].0 == q);
            assert(self.ring(x).len() == self.rings@[q].len());
        }
        assert forall|g: FaceId|
            pre.has_face(g) implies self.face_ring(g).len() == pre.face_ring(g).len() + one_if(
                pre.face_ring(g).contains(e),
            ) + one_if(pre.face_ring(g).contains(o)) by {
            lemma_face_at_idx(g);
            assert(pre.face_edge_ok(g.idx()));
            let x = pre.face_rec(g).first_edge;
            pre.lemma_ring_contains(x, e);
            pre.lemma_ring_contains(x, o);
            assert(placed(pre.rings@, pre.loc@, x.idx()));
            assert(placed(self.rings@, self.loc@, x.idx()));
            let q = pre.loc@[x.idx()].0;
            assert(self.loc@[x.idx()].0 == q);
            assert(self.ring(x).len() == self.rings@[q].len());
        }
    }
}

} // verus!
