//! Construction: a two-faced loop from nothing, and holes inside a face.

use vstd::prelude::*;
use crate::handles::{
    Id, Face_, Index, EdgeId, FaceId, IdRange, VertexIdRange, EdgeIdRange, MAX_HANDLE, edge_at,
    face_at, vertex_at, edge_id, face_id, vertex_id, no_edge, no_face, lemma_face_at_idx,
};
use crate::ring::{rings_linked, rings_one_face, placed, linked, same_face, rotate};
use vstd::arithmetic::div_mod::{lemma_small_mod, lemma_mod_self_0, lemma_mod_add_multiples_vanish};
use super::{ConnectivityKernel, HalfEdge, Face, Vertex};

verus! {

/// The position after `i` on a cycle of length `n`.
pub open spec fn wrap_next(n: int, i: int) -> int {
    if i + 1 < n {
        i + 1
    } else {
        0
    }
}

/// The position before `i` on a cycle of length `n`.
pub open spec fn wrap_prev(n: int, i: int) -> int {
    if i > 0 {
        i - 1
    } else {
        n - 1
    }
}

/// Half-edge `k` (of `2 * n`) of a loop of `n` vertices appended at edge
/// index `oe` and vertex index `ov`: the first `n` run from vertex `k` to
/// vertex `k + 1` around `f1`, the last `n` run the other way around `f2`,
/// and half-edge `k` is the twin of half-edge `2 * n - 1 - k`.
pub open spec fn loop_edge(oe: int, ov: int, n: int, f1: FaceId, f2: FaceId, k: int) -> HalfEdge {
    if k < n {
        HalfEdge {
            next: edge_at(oe + wrap_next(n, k)),
            prev: edge_at(oe + wrap_prev(n, k)),
            vertex: vertex_at(ov + k),
            opposite: edge_at(oe + 2 * n - k - 1),
            face: f1,
        }
    } else {
        HalfEdge {
            next: edge_at(oe + n + wrap_next(n, k - n)),
            prev: edge_at(oe + n + wrap_prev(n, k - n)),
            vertex: vertex_at(ov + (if k > n { 2 * n - k } else { 0 })),
            opposite: edge_at(oe + 2 * n - k - 1),
            face: f2,
        }
    }
}

/// The `n` consecutive half-edge handles from index `start`.
pub open spec fn edge_run(start: int, n: int) -> Seq<EdgeId> {
    Seq::new(n as nat, |k: int| edge_at(start + k))
}

/// `v` reduced into `[0, m)`, also for negative `v`.
fn modulo(v: i32, m: i32) -> (r: i32)
    requires
        m > 0,
    ensures
        r == v as int % m as int,
{
    match v.checked_rem_euclid(m) {
        Some(r) => r,
        None => 0,
    }
}

/// The wrap-around positions as `%` computes them.
proof fn lemma_wrap(n: int, i: int)
    requires
        0 <= i < n,
    ensures
        (i + 1) % n == wrap_next(n, i),
        (i - 1) % n == wrap_prev(n, i),
        (n - i) % n == (if i > 0 { n - i } else { 0 }),
{
    if i + 1 < n {
        lemma_small_mod((i + 1) as nat, n as nat);
    } else {
        lemma_mod_self_0(n);
    }
    if i > 0 {
        lemma_small_mod((i - 1) as nat, n as nat);
        lemma_small_mod((n - i) as nat, n as nat);
    } else {
        lemma_small_mod((n - 1) as nat, n as nat);
        lemma_mod_add_multiples_vanish(-1, n);
        lemma_mod_self_0(n);
    }
}

/// The placement of the `2 * n` half-edges of a new loop: the first `n` on
/// ring `r`, the last `n` on ring `r + 1`.
pub open spec fn loop_loc(r: int, n: int) -> Seq<(int, int)> {
    Seq::new((2 * n) as nat, |k: int| if k < n { (r, k) } else { (r + 1, k - n) })
}

/// The twin of each half-edge of a new loop pairs back with it, and the
/// half-edge after the twin starts where the half-edge starts.
proof fn lemma_loop_twins(oe: int, ov: int, n: int, f1: FaceId, f2: FaceId, k: int)
    requires
        0 <= oe,
        0 <= ov,
        oe + 2 * n < MAX_HANDLE,
        ov + n < MAX_HANDLE,
        n >= 1,
        0 <= k < 2 * n,
    ensures
        ({
            let h = loop_edge(oe, ov, n, f1, f2, k);
            let t = loop_edge(oe, ov, n, f1, f2, 2 * n - k - 1);
            &&& h.opposite.idx() == oe + 2 * n - k - 1
            &&& 1 <= h.opposite.handle
            &&& t.opposite == edge_at(oe + k)
            &&& h.opposite != edge_at(oe + k)
            &&& oe <= t.next.idx() < oe + 2 * n
            &&& loop_edge(oe, ov, n, f1, f2, t.next.idx() - oe).vertex == h.vertex
            &&& ov <= h.vertex.idx() < ov + n
            &&& 1 <= h.vertex.handle
        }),
{
    let k2 = 2 * n - k - 1;
    crate::handles::lemma_edge_at_injective(oe + k, oe + k2);
    if k < n {
        let j = n + wrap_next(n, k2 - n);
        assert(edge_at(oe + j).idx() == oe + j);
    } else {
        let j = wrap_next(n, k2);
        assert(edge_at(oe + j).idx() == oe + j);
    }
}

impl ConnectivityKernel {
    /// `self` is `old` with a loop of `n` vertices appended between faces `f1`
    /// and `f2`; `f1` now starts at the loop's first half-edge, and so does
    /// `f2` at its twin ring unless the loop is a hole of `f2`.
    pub(crate) closed spec fn added_loop(
        self,
        old: ConnectivityKernel,
        n: int,
        f1: FaceId,
        f2: FaceId,
        is_hole: bool,
    ) -> bool {
        let oe = old.edges@.len() as int;
        let ov = old.vertices@.len() as int;
        &&& self.edges@.len() == oe + 2 * n
        &&& self.vertices@.len() == ov + n
        &&& self.faces@.len() == old.faces@.len()
        &&& forall|i: int| 0 <= i < oe ==> self.edges@[i] == old.edges@[i]
        &&& forall|i: int| oe <= i < oe + 2 * n ==> self.edges@[i] == loop_edge(oe, ov, n, f1, f2, i - oe)
        &&& forall|i: int| 0 <= i < ov ==> self.vertices@[i] == old.vertices@[i]
        &&& forall|i: int|
            ov <= i < ov + n ==> self.vertices@[i] == (Vertex { first_edge: edge_at(oe + (i - ov)) })
        &&& forall|j: int|
            0 <= j < self.faces@.len() ==> self.faces@[j] == if j == f1.idx() {
                Face { first_edge: edge_at(oe), ..old.faces@[j] }
            } else if j == f2.idx() && !is_hole {
                Face { first_edge: edge_at(oe + n), ..old.faces@[j] }
            } else {
                old.faces@[j]
            }
        &&& self.rings@ == old.rings@.push(edge_run(oe, n)).push(edge_run(oe + n, n))
        &&& self.loc@ == old.loc@ + loop_loc(old.rings@.len() as int, n)
    }

    proof fn lemma_added_loop_rings(
        self,
        old: ConnectivityKernel,
        n: int,
        f1: FaceId,
        f2: FaceId,
        is_hole: bool,
    )
        requires
            old.wf_except(f1.idx(), if is_hole { -1 } else { f2.idx() }),
            old.has_face(f1),
            old.has_face(f2),
            f1 != f2,
            n >= 1,
            old.edges@.len() + 2 * n < MAX_HANDLE,
            old.vertices@.len() + n < MAX_HANDLE,
            self.added_loop(old, n, f1, f2, is_hole),
        ensures
            rings_linked(self.edges@, self.rings@, self.loc@),
            rings_one_face(self.edges@, self.rings@),
    {
        let oe = old.edges@.len() as int;
        let ov = old.vertices@.len() as int;
        let r0 = old.rings@.len() as int;
        let edges = self.edges@;
        let rings = self.rings@;
        let loc = self.loc@;
        let ra = edge_run(oe, n);
        let rb = edge_run(oe + n, n);
        assert(rings[r0] == ra);
        assert(rings[r0 + 1] == rb);
        assert forall|k: int| 0 <= k < 2 * n implies #[trigger] edge_at(oe + k).idx() == oe + k by {}
        // the placement of every half-edge
        assert forall|i: int| 0 <= i < edges.len() implies #[trigger] placed(rings, loc, i) by {
            if i < oe {
                assert(placed(old.rings@, old.loc@, i));
            } else {
                assert(loc[i] == loop_loc(r0, n)[i - oe]);
            }
        }
        // the links of every slot
        assert forall|r: int, p: int|
            0 <= r < rings.len() && 0 <= p < rings[r].len() implies #[trigger] linked(
                edges,
                rings,
                loc,
                r,
                p,
            ) by {
            if r < r0 {
                assert(linked(old.edges@, old.rings@, old.loc@, r, p));
                assert(rings[r] == old.rings@[r]);
            } else if r == r0 {
                assert(edge_at(oe + p).idx() == oe + p);
                assert(loc[oe + p] == loop_loc(r0, n)[p]);
                assert(edges[oe + p] == loop_edge(oe, ov, n, f1, f2, p));
            } else {
                assert(edge_at(oe + n + p).idx() == oe + n + p);
                assert(loc[oe + n + p] == loop_loc(r0, n)[n + p]);
                assert(edges[oe + n + p] == loop_edge(oe, ov, n, f1, f2, n + p));
            }
        }
        assert(rings_linked(edges, rings, loc));
        assert forall|r: int, p: int|
            0 <= r < rings.len() && 0 <= p < rings[r].len() implies #[trigger] same_face(
                edges,
                rings,
                r,
                p,
            ) by {
            if r < r0 {
                assert(same_face(old.edges@, old.rings@, r, p));
                assert(linked(old.edges@, old.rings@, old.loc@, r, p));
                assert(linked(old.edges@, old.rings@, old.loc@, r, 0));
            } else if r == r0 {
                assert(edges[oe + p] == loop_edge(oe, ov, n, f1, f2, p));
                assert(edges[oe] == loop_edge(oe, ov, n, f1, f2, 0));
            } else {
                assert(edges[oe + n + p] == loop_edge(oe, ov, n, f1, f2, n + p));
                assert(edges[oe + n] == loop_edge(oe, ov, n, f1, f2, n));
            }
        }
    }

    proof fn lemma_added_loop_edges(
        self,
        old: ConnectivityKernel,
        n: int,
        f1: FaceId,
        f2: FaceId,
        is_hole: bool,
    )
        requires
            old.wf_except(f1.idx(), if is_hole { -1 } else { f2.idx() }),
            old.has_face(f1),
            old.has_face(f2),
            f1 != f2,
            n >= 1,
            old.edges@.len() + 2 * n < MAX_HANDLE,
            old.vertices@.len() + n < MAX_HANDLE,
            self.added_loop(old, n, f1, f2, is_hole),
        ensures
            forall|i: int| 0 <= i < self.edges@.len() ==> #[trigger] self.edge_ok(i),
    {
        let oe = old.edges@.len() as int;
        let ov = old.vertices@.len() as int;
        let r0 = old.rings@.len() as int;
        let edges = self.edges@;
        let rings = self.rings@;
        let loc = self.loc@;
        assert forall|i: int| 0 <= i < edges.len() implies #[trigger] self.edge_ok(i) by {
            if i < oe {
                assert(old.edge_ok(i));
                let o = old.edges@[i].opposite.idx();
                assert(old.edge_ok(o));
                let h = edges[i];
                assert(self.has_edge(h.opposite));
                assert(self.has_vertex(h.vertex));
                assert(self.has_face(h.face));
                assert(self.edges@[h.opposite.idx()].opposite == edge_at(i));
                assert(self.edges@[self.edges@[h.opposite.idx()].next.idx()].vertex == h.vertex);
            } else {
                let k = i - oe;
                lemma_loop_twins(oe, ov, n, f1, f2, k);
                let o = oe + 2 * n - k - 1;
                assert(edges[o] == loop_edge(oe, ov, n, f1, f2, 2 * n - k - 1));
                let nx = edges[o].next.idx();
                assert(edges[nx] == loop_edge(oe, ov, n, f1, f2, nx - oe));
                assert(edge_at(i) == edge_at(oe + k));
                let h = edges[i];
                assert(self.has_edge(h.opposite));
                assert(self.has_vertex(h.vertex));
                assert(self.has_face(h.face));
                assert(h.opposite != edge_at(i));
                assert(self.edges@[h.opposite.idx()].opposite == edge_at(i));
                assert(self.edges@[self.edges@[h.opposite.idx()].next.idx()].vertex == h.vertex);
            }
        }
    }

    proof fn lemma_added_loop_wf(
        self,
        old: ConnectivityKernel,
        n: int,
        f1: FaceId,
        f2: FaceId,
        is_hole: bool,
    )
        requires
            old.wf_except(f1.idx(), if is_hole { -1 } else { f2.idx() }),
            old.has_face(f1),
            old.has_face(f2),
            f1 != f2,
            n >= 1,
            old.edges@.len() + 2 * n < MAX_HANDLE,
            old.vertices@.len() + n < MAX_HANDLE,
            self.added_loop(old, n, f1, f2, is_hole),
        ensures
            self.wf(),
            forall|e: EdgeId| old.has_edge(e) ==> self.ring(e) == old.ring(e),
            self.ring(edge_at(old.edges@.len() as int)) == edge_run(old.edges@.len() as int, n),
            self.ring(edge_at(old.edges@.len() + n)) == edge_run(old.edges@.len() + n, n),
    {
        let oe = old.edges@.len() as int;
        let ov = old.vertices@.len() as int;
        let r0 = old.rings@.len() as int;
        let ra = edge_run(oe, n);
        let rb = edge_run(oe + n, n);
        let edges = self.edges@;
        let rings = self.rings@;
        let loc = self.loc@;
        assert(rings[r0] == ra);
        assert(rings[r0 + 1] == rb);
        assert forall|k: int| 0 <= k < 2 * n implies #[trigger] edge_at(oe + k).idx() == oe + k by {}
        self.lemma_added_loop_rings(old, n, f1, f2, is_hole);
        self.lemma_added_loop_edges(old, n, f1, f2, is_hole);
        assert forall|i: int| 0 <= i < self.vertices@.len() implies #[trigger] self.vertex_ok(i) by {
            if i < ov {
                assert(old.vertex_ok(i));
            } else {
                assert(self.vertices@[i] == (Vertex { first_edge: edge_at(oe + (i - ov)) }));
                assert(edges[i - ov + oe] == loop_edge(oe, ov, n, f1, f2, i - ov));
            }
        }
        lemma_face_at_idx(f1);
        lemma_face_at_idx(f2);
        assert forall|j: int| 0 <= j < self.faces@.len() implies #[trigger] self.face_links_ok(j) by {
            assert(old.face_links_ok(j));
        }
        assert forall|j: int|
            0 <= j < self.faces@.len() && j != -1 && j != -1 implies #[trigger] self.face_edge_ok(j) by {
            if j == f1.idx() {
                assert(edges[oe] == loop_edge(oe, ov, n, f1, f2, 0));
            } else if j == f2.idx() && !is_hole {
                assert(edges[oe + n] == loop_edge(oe, ov, n, f1, f2, n));
            } else {
                assert(old.face_edge_ok(j));
            }
        }
        assert(self.wf_except(-1, -1));
        assert forall|e: EdgeId| old.has_edge(e) implies self.ring(e) == old.ring(e) by {
            assert(placed(old.rings@, old.loc@, e.idx()));
        }
        assert(loc[oe] == loop_loc(r0, n)[0]);
        assert(loc[oe + n] == loop_loc(r0, n)[n]);
        assert(rotate(ra, 0) =~= ra);
        assert(rotate(rb, 0) =~= rb);
    }
}

impl ConnectivityKernel {
    /// Appends `n_vertices` vertices and `2 * n_vertices` half-edges forming a
    /// loop between `face1` and `face2`, and returns the new handles.
    fn add_loop(&mut self, n_vertices: Index, face1: FaceId, face2: FaceId, is_hole: bool) -> (r: (
        VertexIdRange,
        EdgeIdRange,
    ))
        requires
            old(self).wf_except(face1.idx(), if is_hole { -1 } else { face2.idx() }),
            old(self).has_face(face1),
            old(self).has_face(face2),
            face1 != face2,
            n_vertices >= 1,
            old(self).edges@.len() + 2 * n_vertices < MAX_HANDLE,
            old(self).vertices@.len() + n_vertices < MAX_HANDLE,
        ensures
            final(self).wf(),
            final(self).added_loop(*old(self), n_vertices as int, face1, face2, is_hole),
            forall|e: EdgeId| old(self).has_edge(e) ==> final(self).ring(e) == old(self).ring(e),
            final(self).ring(edge_at(old(self).edges@.len() as int)) == edge_run(
                old(self).edges@.len() as int,
                n_vertices as int,
            ),
            final(self).ring(edge_at(old(self).edges@.len() + n_vertices)) == edge_run(
                old(self).edges@.len() + n_vertices,
                n_vertices as int,
            ),
            r.0.first == vertex_at(old(self).vertices@.len() as int),
            r.0.count == n_vertices,
            r.1.first == edge_at(old(self).edges@.len() as int),
            r.1.count == 2 * n_vertices,
    {
        let ghost pre = *self;
        let n = n_vertices;
        let edge_offset = self.edges.len() as Index;
        let vertex_offset = self.vertices.len() as Index;
        let ghost oe = edge_offset as int;
        let ghost ov = vertex_offset as int;
        let mut i: Index = 0;
        while i < n
            invariant
                0 <= i <= n,
                n == n_vertices,
                edge_offset == oe,
                vertex_offset == ov,
                oe == pre.edges@.len(),
                ov == pre.vertices@.len(),
                oe + 2 * n < MAX_HANDLE,
                ov + n < MAX_HANDLE,
                self.edges@.len() == oe + i,
                self.vertices@.len() == ov + i,
                forall|j: int| 0 <= j < oe ==> self.edges@[j] == pre.edges@[j],
                forall|j: int|
                    oe <= j < oe + i ==> self.edges@[j] == loop_edge(oe, ov, n as int, face1, face2, j - oe),
                forall|j: int| 0 <= j < ov ==> self.vertices@[j] == pre.vertices@[j],
                forall|j: int|
                    ov <= j < ov + i ==> self.vertices@[j] == (Vertex { first_edge: edge_at(oe + (j - ov)) }),
                self.faces == pre.faces,
                self.rings == pre.rings,
                self.loc == pre.loc,
            decreases n - i,
        {
            proof {
                lemma_wrap(n as int, i as int);
            }
            self.vertices.push(Vertex { first_edge: edge_id(edge_offset + i) });
            self.edges.push(
                HalfEdge {
                    vertex: vertex_id(vertex_offset + i),
                    opposite: edge_id(edge_offset + n * 2 - i - 1),
                    face: face1,
                    next: edge_id(edge_offset + modulo(i as i32 + 1, n as i32) as Index),
                    prev: edge_id(edge_offset + modulo(i as i32 - 1, n as i32) as Index),
                },
            );
            i = i + 1;
        }
        let mut i: Index = 0;
        while i < n
            invariant
                0 <= i <= n,
                n == n_vertices,
                edge_offset == oe,
                vertex_offset == ov,
                oe == pre.edges@.len(),
                ov == pre.vertices@.len(),
                oe + 2 * n < MAX_HANDLE,
                ov + n < MAX_HANDLE,
                self.edges@.len() == oe + n + i,
                self.vertices@.len() == ov + n,
                forall|j: int| 0 <= j < oe ==> self.edges@[j] == pre.edges@[j],
                forall|j: int|
                    oe <= j < oe + n + i ==> self.edges@[j] == loop_edge(
                        oe,
                        ov,
                        n as int,
                        face1,
                        face2,
                        j - oe,
                    ),
                forall|j: int| 0 <= j < ov ==> self.vertices@[j] == pre.vertices@[j],
                forall|j: int|
                    ov <= j < ov + n ==> self.vertices@[j] == (Vertex { first_edge: edge_at(oe + (j - ov)) }),
                self.faces == pre.faces,
                self.rings == pre.rings,
                self.loc == pre.loc,
            decreases n - i,
        {
            proof {
                lemma_wrap(n as int, i as int);
            }
            let inv_i = n - i - 1;
            self.edges.push(
                HalfEdge {
                    vertex: vertex_id(vertex_offset + (inv_i + 1) % n),
                    opposite: edge_id(edge_offset + inv_i),
                    face: face2,
                    next: edge_id(edge_offset + n + modulo(i as i32 + 1, n as i32) as Index),
                    prev: edge_id(edge_offset + n + modulo(i as i32 - 1, n as i32) as Index),
                },
            );
            i = i + 1;
        }
        self.face_mut(face1).first_edge = edge_id(edge_offset);
        assert(self.faces@ == pre.faces@.update(
            face1.idx(),
            Face { first_edge: edge_at(oe), ..pre.faces@[face1.idx()] },
        ));
        if !is_hole {
            self.face_mut(face2).first_edge = edge_id(edge_offset + n);
        }
        self.rings = Ghost(pre.rings@.push(edge_run(oe, n as int)).push(edge_run(oe + n, n as int)));
        self.loc = Ghost(pre.loc@ + loop_loc(pre.rings@.len() as int, n as int));
        proof {
            lemma_face_at_idx(face1);
            lemma_face_at_idx(face2);
            assert(self.faces@.len() == pre.faces@.len());
            assert forall|j: int| 0 <= j < self.faces@.len() implies self.faces@[j] == if j == face1.idx() {
                Face { first_edge: edge_at(oe), ..pre.faces@[j] }
            } else if j == face2.idx() && !is_hole {
                Face { first_edge: edge_at(oe + n), ..pre.faces@[j] }
            } else {
                pre.faces@[j]
            } by {}
            assert(self.added_loop(pre, n as int, face1, face2, is_hole));
            self.lemma_added_loop_wf(pre, n as int, face1, face2, is_hole);
        }
        (
            IdRange { first: vertex_id(vertex_offset), count: n },
            IdRange { first: edge_id(edge_offset), count: 2 * n },
        )
    }
}

impl ConnectivityKernel {
    /// A mesh of one loop of `n_vertices` vertices: face 0 inside it and
    /// face 1 behind it, each bounded by `n_vertices` half-edges.
    pub fn from_loop(n_vertices: Index) -> (r: ConnectivityKernel)
        requires
            n_vertices >= 3,
            2 * n_vertices < MAX_HANDLE,
        ensures
            r.wf(),
            r.face_seq().len() == 2,
            r.vertex_seq().len() == n_vertices,
            r.edge_seq().len() == 2 * n_vertices,
            forall|i: int|
                0 <= i < 2 * n_vertices ==> r.edge_seq()[i] == loop_edge(
                    0,
                    0,
                    n_vertices as int,
                    face_at(0),
                    face_at(1),
                    i,
                ),
            forall|i: int|
                0 <= i < n_vertices ==> r.vertex_seq()[i] == (Vertex { first_edge: edge_at(i) }),
            r.face_seq()[0].first_edge == edge_at(0),
            r.face_seq()[1].first_edge == edge_at(n_vertices as int),
            r.face_seq()[0].first_interior.handle == 0,
            r.face_seq()[0].next_sibling.handle == 0,
            r.face_seq()[1].first_interior.handle == 0,
            r.face_seq()[1].next_sibling.handle == 0,
            r.face_ring(face_at(0)) == edge_run(0, n_vertices as int),
            r.face_ring(face_at(1)) == edge_run(n_vertices as int, n_vertices as int),
            r.face_ring(face_at(0)).len() == n_vertices,
            r.face_ring(face_at(1)).len() == n_vertices,
            face_at(0) != face_at(1),
            forall|e: EdgeId| r.has_edge(e) ==> r.edge_invariants(e),
    {
        let main_face = face_id(0);
        let back_face = face_id(1);
        let mut kernel = ConnectivityKernel {
            faces: vec![
                Face { first_edge: no_edge(), first_interior: no_face(), next_sibling: no_face() },
                Face { first_edge: no_edge(), first_interior: no_face(), next_sibling: no_face() },
            ],
            vertices: Vec::new(),
            edges: Vec::new(),
            rings: Ghost(Seq::empty()),
            loc: Ghost(Seq::empty()),
        };
        proof {
            assert(kernel.faces@.len() == 2);
            assert(kernel.face_links_ok(0));
            assert(kernel.face_links_ok(1));
            assert(kernel.wf_except(0, 1));
        }
        let _ = kernel.add_loop(n_vertices, main_face, back_face, false);
        proof {
            assert(kernel.faces@[0] == kernel.faces@[main_face.idx()]);
            assert forall|e: EdgeId| kernel.has_edge(e) implies kernel.edge_invariants(e) by {
                kernel.lemma_edge_invariants(e);
            }
        }
        kernel
    }

    /// Adds a new face inside `face`, bounded by a loop of `n_vertices` new
    /// vertices, at the head of `face`'s list of holes. Returns the hole and
    /// the new vertex and half-edge handles.
    pub fn add_hole(&mut self, face: FaceId, n_vertices: Index) -> (r: (
        FaceId,
        VertexIdRange,
        EdgeIdRange,
    ))
        requires
            old(self).wf(),
            old(self).has_face(face),
            n_vertices >= 1,
            old(self).face_seq().len() + 1 < MAX_HANDLE,
            old(self).edge_seq().len() + 2 * n_vertices < MAX_HANDLE,
            old(self).vertex_seq().len() + n_vertices < MAX_HANDLE,
        ensures
            final(self).wf(),
            r.0 == face_at(old(self).face_seq().len() as int),
            final(self).face_seq().len() == old(self).face_seq().len() + 1,
            final(self).face_rec(r.0) == (Face {
                first_edge: edge_at(old(self).edge_seq().len() as int),
                first_interior: Id { handle: 0, kind: Face_ },
                next_sibling: old(self).face_rec(face).first_interior,
            }),
            final(self).face_rec(face) == (Face { first_interior: r.0, ..old(self).face_rec(face) }),
            forall|j: int|
                0 <= j < old(self).face_seq().len() && j != face.idx() ==> final(self).face_seq()[j]
                    == old(self).face_seq()[j],
            final(self).edge_seq().len() == old(self).edge_seq().len() + 2 * n_vertices,
            final(self).vertex_seq().len() == old(self).vertex_seq().len() + n_vertices,
            forall|i: int|
                0 <= i < old(self).edge_seq().len() ==> final(self).edge_seq()[i] == old(self).edge_seq()[i],
            forall|i: int|
                old(self).edge_seq().len() <= i < final(self).edge_seq().len() ==> final(self).edge_seq()[i] == loop_edge(
                    old(self).edge_seq().len() as int,
                    old(self).vertex_seq().len() as int,
                    n_vertices as int,
                    r.0,
                    face,
                    i - old(self).edge_seq().len(),
                ),
            forall|i: int|
                0 <= i < old(self).vertex_seq().len() ==> final(self).vertex_seq()[i] == old(self).vertex_seq()[i],
            forall|i: int|
                old(self).vertex_seq().len() <= i < final(self).vertex_seq().len() ==> final(self).vertex_seq()[i] == (Vertex {
                    first_edge: edge_at(old(self).edge_seq().len() + (i - old(self).vertex_seq().len())),
                }),
            final(self).face_ring(r.0) == edge_run(old(self).edge_seq().len() as int, n_vertices as int),
            forall|e: EdgeId| old(self).has_edge(e) ==> final(self).ring(e) == old(self).ring(e),
            forall|g: FaceId| old(self).has_face(g) ==> final(self).face_ring(g) == old(self).face_ring(g),
            r.1.first == vertex_at(old(self).vertex_seq().len() as int),
            r.1.count == n_vertices,
            r.2.first == edge_at(old(self).edge_seq().len() as int),
            r.2.count == 2 * n_vertices,
    {
        let ghost pre = *self;
        let new_face = face_id(self.faces.len() as Index);
        let sibling = self.face(face).first_interior;
        self.face_mut(face).first_interior = new_face;
        self.faces.push(Face { first_edge: no_edge(), first_interior: no_face(), next_sibling: sibling });
        proof {
            lemma_face_at_idx(face);
            assert(pre.wf_except(-1, -1));
            assert forall|j: int| 0 <= j < self.faces@.len() implies #[trigger] self.face_links_ok(j) by {
                assert(pre.face_links_ok(face.idx()));
                if j < pre.faces@.len() {
                    assert(pre.face_links_ok(j));
                }
            }
            assert forall|j: int|
                0 <= j < self.faces@.len() && j != new_face.idx() && j != -1 implies #[trigger] self.face_edge_ok(j) by {
                assert(pre.face_edge_ok(j));
            }
            assert forall|i: int| 0 <= i < self.edges@.len() implies #[trigger] self.edge_ok(i) by {
                assert(pre.edge_ok(i));
            }
            assert forall|i: int| 0 <= i < self.vertices@.len() implies #[trigger] self.vertex_ok(i) by {
                assert(pre.vertex_ok(i));
            }
            assert(self.wf_except(new_face.idx(), -1));
        }
        let ghost mid = *self;
        let (vs, es) = self.add_loop(n_vertices, new_face, face, true);
        proof {
            assert forall|g: FaceId| pre.has_face(g) implies self.face_ring(g) == pre.face_ring(g) by {
                lemma_face_at_idx(g);
                assert(pre.face_edge_ok(g.idx()));
                assert(self.faces@[g.idx()].first_edge == pre.faces@[g.idx()].first_edge);
            }
            assert(self.faces@[new_face.idx()].first_edge == edge_at(pre.edges@.len() as int));
        }
        (new_face, vs, es)
    }
}

} // verus!
