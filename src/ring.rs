//! The ring structure behind the half-edge array: every half-edge sits at one
//! position of one cyclic sequence, and its `next` / `prev` links are the
//! neighbours in that sequence.

use vstd::prelude::*;
use crate::handles::{EdgeId, MAX_HANDLE, edge_at, lemma_edge_at_injective, lemma_edge_at_idx};
use vstd::set_lib::{set_int_range, lemma_int_range, lemma_len_subset};
use crate::kernel::HalfEdge;

verus! {

/// The element after position `p` of the cyclic sequence `s`.
pub open spec fn succ(s: Seq<EdgeId>, p: int) -> EdgeId {
    if p + 1 < s.len() {
        s[p + 1]
    } else {
        s[0]
    }
}

/// The element before position `p` of the cyclic sequence `s`.
pub open spec fn pred(s: Seq<EdgeId>, p: int) -> EdgeId {
    if p > 0 {
        s[p - 1]
    } else {
        s[s.len() - 1]
    }
}

/// `s` turned so that its position `p` comes first.
pub open spec fn rotate(s: Seq<EdgeId>, p: int) -> Seq<EdgeId> {
    s.subrange(p, s.len() as int) + s.subrange(0, p)
}

/// `s` lists the edges met from `s[0]` by following `next` until it comes
/// back, each once; `prev` walks the same cycle backwards and every edge of
/// it lies on the same face.
pub open spec fn is_ring(edges: Seq<HalfEdge>, s: Seq<EdgeId>) -> bool {
    &&& s.len() >= 1
    &&& forall|j: int|
        0 <= j < s.len() ==> {
            &&& 1 <= (#[trigger] s[j]).handle <= edges.len()
            &&& edges[s[j].idx()].next == succ(s, j)
            &&& edges[s[j].idx()].prev == pred(s, j)
            &&& edges[s[j].idx()].face == edges[s[0].idx()].face
        }
    &&& forall|i: int, j: int| 0 <= i < j < s.len() ==> s[i] != s[j]
}

/// Edge `i` is recorded by `loc` at a slot of `rings` that holds it.
pub open spec fn placed(rings: Seq<Seq<EdgeId>>, loc: Seq<(int, int)>, i: int) -> bool {
    &&& 0 <= loc[i].0 < rings.len()
    &&& 0 <= loc[i].1 < rings[loc[i].0].len()
    &&& rings[loc[i].0][loc[i].1] == edge_at(i)
}

/// Slot `(r, p)` holds an edge recorded there whose links are its ring neighbours.
pub open spec fn linked(
    edges: Seq<HalfEdge>,
    rings: Seq<Seq<EdgeId>>,
    loc: Seq<(int, int)>,
    r: int,
    p: int,
) -> bool {
    let e = rings[r][p];
    &&& 1 <= e.handle <= edges.len()
    &&& loc[e.idx()] == (r, p)
    &&& edges[e.idx()].next == succ(rings[r], p)
    &&& edges[e.idx()].prev == pred(rings[r], p)
}

/// The slot `(r, p)` lies on the same face as the start of its ring.
pub open spec fn same_face(edges: Seq<HalfEdge>, rings: Seq<Seq<EdgeId>>, r: int, p: int) -> bool {
    edges[rings[r][p].idx()].face == edges[rings[r][0].idx()].face
}

/// `rings` and `loc` describe the `next` / `prev` links of `edges` exactly.
pub open spec fn rings_linked(
    edges: Seq<HalfEdge>,
    rings: Seq<Seq<EdgeId>>,
    loc: Seq<(int, int)>,
) -> bool {
    &&& loc.len() == edges.len()
    &&& forall|i: int| 0 <= i < edges.len() ==> #[trigger] placed(rings, loc, i)
    &&& forall|r: int, p: int|
        0 <= r < rings.len() && 0 <= p < rings[r].len() ==> #[trigger] linked(
            edges,
            rings,
            loc,
            r,
            p,
        )
}

/// Every ring lies on a single face.
pub open spec fn rings_one_face(edges: Seq<HalfEdge>, rings: Seq<Seq<EdgeId>>) -> bool {
    forall|r: int, p: int|
        0 <= r < rings.len() && 0 <= p < rings[r].len() ==> #[trigger] same_face(edges, rings, r, p)
}

/// The ring through the slot `(r, p)`, read from that slot onwards, is a ring.
pub proof fn lemma_rotated_ring(
    edges: Seq<HalfEdge>,
    rings: Seq<Seq<EdgeId>>,
    loc: Seq<(int, int)>,
    r: int,
    p: int,
)
    requires
        rings_linked(edges, rings, loc),
        rings_one_face(edges, rings),
        0 <= r < rings.len(),
        0 <= p < rings[r].len(),
    ensures
        is_ring(edges, rotate(rings[r], p)),
        rotate(rings[r], p)[0] == rings[r][p],
        rotate(rings[r], p).len() == rings[r].len(),
{
    let s = rings[r];
    let t = rotate(s, p);
    let n = s.len() as int;
    assert(t.len() == n);
    assert forall|j: int| 0 <= j < n implies t[j] == s[if p + j < n { p + j } else { p + j - n }] by {}
    assert forall|j: int|
        0 <= j < t.len() implies {
            &&& 1 <= (#[trigger] t[j]).handle <= edges.len()
            &&& edges[t[j].idx()].next == succ(t, j)
            &&& edges[t[j].idx()].prev == pred(t, j)
            &&& edges[t[j].idx()].face == edges[t[0].idx()].face
        } by {
        let q = if p + j < n { p + j } else { p + j - n };
        assert(linked(edges, rings, loc, r, q));
        assert(same_face(edges, rings, r, q));
        assert(same_face(edges, rings, r, p));
        if j + 1 < n {
            let q1 = if p + j + 1 < n { p + j + 1 } else { p + j + 1 - n };
            assert(t[j + 1] == s[q1]);
        }
        if j > 0 {
            let q0 = if p + j - 1 < n { p + j - 1 } else { p + j - 1 - n };
            assert(t[j - 1] == s[q0]);
        }
        assert(t[n - 1] == s[if p + n - 1 < n { p + n - 1 } else { p - 1 }]);
    }
    assert forall|i: int, j: int| 0 <= i < j < t.len() implies t[i] != t[j] by {
        let qi = if p + i < n { p + i } else { p + i - n };
        let qj = if p + j < n { p + j } else { p + j - n };
        assert(linked(edges, rings, loc, r, qi));
        assert(linked(edges, rings, loc, r, qj));
    }
}

/// `loc` after turning ring `r` (of length `n`) so that its position `p` comes first.
pub open spec fn rotate_loc(loc: Seq<(int, int)>, r: int, p: int, n: int) -> Seq<(int, int)> {
    Seq::new(
        loc.len(),
        |x: int|
            if loc[x].0 == r {
                (r, if loc[x].1 >= p { loc[x].1 - p } else { loc[x].1 + n - p })
            } else {
                loc[x]
            },
    )
}

/// Turning one ring keeps the description exact.
pub proof fn lemma_rotate(
    edges: Seq<HalfEdge>,
    rings: Seq<Seq<EdgeId>>,
    loc: Seq<(int, int)>,
    r: int,
    p: int,
)
    requires
        rings_linked(edges, rings, loc),
        rings_one_face(edges, rings),
        0 <= r < rings.len(),
        0 <= p < rings[r].len(),
    ensures
        rings_linked(
            edges,
            rings.update(r, rotate(rings[r], p)),
            rotate_loc(loc, r, p, rings[r].len() as int),
        ),
        rings_one_face(edges, rings.update(r, rotate(rings[r], p))),
{
    lemma_rotate_placed(edges, rings, loc, r, p);
    lemma_rotate_linked(edges, rings, loc, r, p);
    lemma_rotate_faces(edges, rings, loc, r, p);
}

proof fn lemma_rotate_placed(
    edges: Seq<HalfEdge>,
    rings: Seq<Seq<EdgeId>>,
    loc: Seq<(int, int)>,
    r: int,
    p: int,
)
    requires
        rings_linked(edges, rings, loc),
        rings_one_face(edges, rings),
        0 <= r < rings.len(),
        0 <= p < rings[r].len(),
    ensures
        forall|i: int|
            0 <= i < edges.len() ==> #[trigger] placed(
                rings.update(r, rotate(rings[r], p)),
                rotate_loc(loc, r, p, rings[r].len() as int),
                i,
            ),
{
    let s = rings[r];
    let n = s.len() as int;
    let t = rotate(s, p);
    let rings1 = rings.update(r, t);
    let loc1 = rotate_loc(loc, r, p, n);
    assert(t.len() == n);
    assert forall|j: int| 0 <= j < n implies t[j] == s[if p + j < n { p + j } else { p + j - n }] by {}
    assert forall|i: int| 0 <= i < edges.len() implies #[trigger] placed(rings1, loc1, i) by {
        assert(placed(rings, loc, i));
        if loc[i].0 == r {
            let q = loc[i].1;
            let j = if q >= p { q - p } else { q + n - p };
            assert(t[j] == s[q]);
        }
    }
}

proof fn lemma_rotate_linked(
    edges: Seq<HalfEdge>,
    rings: Seq<Seq<EdgeId>>,
    loc: Seq<(int, int)>,
    r: int,
    p: int,
)
    requires
        rings_linked(edges, rings, loc),
        rings_one_face(edges, rings),
        0 <= r < rings.len(),
        0 <= p < rings[r].len(),
    ensures
        forall|q: int, j: int|
            0 <= q < rings.len() && 0 <= j < rings.update(r, rotate(rings[r], p))[q].len()
                ==> #[trigger] linked(
                edges,
                rings.update(r, rotate(rings[r], p)),
                rotate_loc(loc, r, p, rings[r].len() as int),
                q,
                j,
            ),
{
    let s = rings[r];
    let n = s.len() as int;
    let t = rotate(s, p);
    let rings1 = rings.update(r, t);
    let loc1 = rotate_loc(loc, r, p, n);
    assert(t.len() == n);
    assert forall|j: int| 0 <= j < n implies t[j] == s[if p + j < n { p + j } else { p + j - n }] by {}
    lemma_rotated_ring(edges, rings, loc, r, p);
    assert forall|q: int, j: int|
        0 <= q < rings1.len() && 0 <= j < rings1[q].len() implies #[trigger] linked(
            edges,
            rings1,
            loc1,
            q,
            j,
        ) by {
        if q == r {
            let k = if p + j < n { p + j } else { p + j - n };
            assert(linked(edges, rings, loc, r, k));
            assert(t[j] == s[k]);
        } else {
            assert(linked(edges, rings, loc, q, j));
            let x = rings[q][j].idx();
            assert(placed(rings, loc, x));
        }
    }
}

proof fn lemma_rotate_faces(
    edges: Seq<HalfEdge>,
    rings: Seq<Seq<EdgeId>>,
    loc: Seq<(int, int)>,
    r: int,
    p: int,
)
    requires
        rings_linked(edges, rings, loc),
        rings_one_face(edges, rings),
        0 <= r < rings.len(),
        0 <= p < rings[r].len(),
    ensures
        rings_one_face(edges, rings.update(r, rotate(rings[r], p))),
{
    let s = rings[r];
    let n = s.len() as int;
    let t = rotate(s, p);
    let rings1 = rings.update(r, t);
    let loc1 = rotate_loc(loc, r, p, n);
    assert(t.len() == n);
    assert forall|j: int| 0 <= j < n implies t[j] == s[if p + j < n { p + j } else { p + j - n }] by {}
    lemma_rotated_ring(edges, rings, loc, r, p);
    assert forall|q: int, j: int|
        0 <= q < rings1.len() && 0 <= j < rings1[q].len() implies #[trigger] same_face(
            edges,
            rings1,
            q,
            j,
        ) by {
        if q != r {
            assert(same_face(edges, rings, q, j));
        } else {
            assert(t[j] == t[j]);
        }
    }
}

/// The rings after cutting ring `r` (read from its first position) before
/// position `k`: ring `r` becomes a new half-edge (index `len`) followed by
/// positions `k..`, and a new last ring holds another new half-edge (index
/// `len + 1`) followed by positions `..k`.
pub open spec fn split_rings(rings: Seq<Seq<EdgeId>>, r: int, k: int, len: int) -> Seq<Seq<EdgeId>> {
    let s = rings[r];
    rings.update(r, seq![edge_at(len)] + s.subrange(k, s.len() as int)).push(
        seq![edge_at(len + 1)] + s.subrange(0, k),
    )
}

/// `loc` after the cut of `split_rings`.
pub open spec fn split_loc(loc: Seq<(int, int)>, r: int, k: int, len: int, nr: int) -> Seq<(int, int)> {
    Seq::new(
        (len + 2) as nat,
        |x: int|
            if x == len {
                (r, 0)
            } else if x == len + 1 {
                (nr, 0)
            } else if loc[x].0 == r {
                if loc[x].1 < k {
                    (nr, loc[x].1 + 1)
                } else {
                    (r, loc[x].1 - k + 1)
                }
            } else {
                loc[x]
            },
    )
}

/// `edges2` is `edges` with the cut of `split_rings` linked in: two new
/// half-edges appended, and the four links around the cut redirected to them.
pub open spec fn split_links(
    edges: Seq<HalfEdge>,
    edges2: Seq<HalfEdge>,
    s: Seq<EdgeId>,
    k: int,
) -> bool {
    let len = edges.len() as int;
    let n = s.len() as int;
    let ne = edge_at(len);
    let no = edge_at(len + 1);
    &&& edges2.len() == len + 2
    &&& edges2[len].next == s[k]
    &&& edges2[len].prev == s[n - 1]
    &&& edges2[len + 1].next == s[0]
    &&& edges2[len + 1].prev == s[k - 1]
    &&& forall|x: int|
        0 <= x < len ==> (#[trigger] edges2[x]).next == (if x == s[n - 1].idx() {
            ne
        } else if x == s[k - 1].idx() {
            no
        } else {
            edges[x].next
        })
    &&& forall|x: int|
        0 <= x < len ==> (#[trigger] edges2[x]).prev == (if x == s[0].idx() {
            no
        } else if x == s[k].idx() {
            ne
        } else {
            edges[x].prev
        })
}

pub proof fn lemma_slots_distinct(
    edges: Seq<HalfEdge>,
    rings: Seq<Seq<EdgeId>>,
    loc: Seq<(int, int)>,
    r: int,
    i: int,
    j: int,
)
    requires
        rings_linked(edges, rings, loc),
        0 <= r < rings.len(),
        0 <= i < rings[r].len(),
        0 <= j < rings[r].len(),
        i != j,
    ensures
        rings[r][i].idx() != rings[r][j].idx(),
{
    assert(linked(edges, rings, loc, r, i));
    assert(linked(edges, rings, loc, r, j));
}

/// Cutting a ring in two keeps the description exact.
pub proof fn lemma_split(
    edges: Seq<HalfEdge>,
    edges2: Seq<HalfEdge>,
    rings: Seq<Seq<EdgeId>>,
    loc: Seq<(int, int)>,
    r: int,
    k: int,
)
    requires
        rings_linked(edges, rings, loc),
        0 <= r < rings.len(),
        2 <= k <= rings[r].len() - 2,
        edges.len() + 2 < MAX_HANDLE,
        split_links(edges, edges2, rings[r], k),
    ensures
        rings_linked(
            edges2,
            split_rings(rings, r, k, edges.len() as int),
            split_loc(loc, r, k, edges.len() as int, rings.len() as int),
        ),
{
    let len = edges.len() as int;
    let s = rings[r];
    let n = s.len() as int;
    let nr = rings.len() as int;
    let rings2 = split_rings(rings, r, k, len);
    let loc2 = split_loc(loc, r, k, len, nr);
    let r1 = rings2[r];
    let r2 = rings2[nr];
    assert(r1 == seq![edge_at(len)] + s.subrange(k, n));
    assert(r2 == seq![edge_at(len + 1)] + s.subrange(0, k));
    lemma_edge_at_injective(len, len + 1);
    assert(edge_at(len).idx() == len);
    assert(edge_at(len + 1).idx() == len + 1);
    assert forall|i: int| 0 <= i < len + 2 implies #[trigger] placed(rings2, loc2, i) by {
        if i < len {
            assert(placed(rings, loc, i));
            if loc[i].0 == r {
                let q = loc[i].1;
                if q < k {
                    assert(r2[q + 1] == s[q]);
                } else {
                    assert(r1[q - k + 1] == s[q]);
                }
            }
        }
    }
    assert forall|q: int, j: int|
        0 <= q < rings2.len() && 0 <= j < rings2[q].len() implies #[trigger] linked(
            edges2,
            rings2,
            loc2,
            q,
            j,
        ) by {
        if q == r {
            lemma_split_first(edges, edges2, rings, loc, r, k, j);
        } else if q == nr {
            lemma_split_second(edges, edges2, rings, loc, r, k, j);
        } else {
            assert(linked(edges, rings, loc, q, j));
            let x = rings[q][j].idx();
            assert(placed(rings, loc, x));
            if x == s[n - 1].idx() || x == s[k - 1].idx() || x == s[0].idx() || x == s[k].idx() {
                assert(linked(edges, rings, loc, r, n - 1));
                assert(linked(edges, rings, loc, r, k - 1));
                assert(linked(edges, rings, loc, r, 0));
                assert(linked(edges, rings, loc, r, k));
            }
            assert(rings2[q] == rings[q]);
        }
    }
}

proof fn lemma_split_first(
    edges: Seq<HalfEdge>,
    edges2: Seq<HalfEdge>,
    rings: Seq<Seq<EdgeId>>,
    loc: Seq<(int, int)>,
    r: int,
    k: int,
    j: int,
)
    requires
        rings_linked(edges, rings, loc),
        0 <= r < rings.len(),
        2 <= k <= rings[r].len() - 2,
        edges.len() + 2 < MAX_HANDLE,
        split_links(edges, edges2, rings[r], k),
        0 <= j <= rings[r].len() - k,
    ensures
        linked(
            edges2,
            split_rings(rings, r, k, edges.len() as int),
            split_loc(loc, r, k, edges.len() as int, rings.len() as int),
            r,
            j,
        ),
{
    let len = edges.len() as int;
    let s = rings[r];
    let n = s.len() as int;
    let nr = rings.len() as int;
    let rings2 = split_rings(rings, r, k, len);
    let loc2 = split_loc(loc, r, k, len, nr);
    let r1 = rings2[r];
    assert(r1 == seq![edge_at(len)] + s.subrange(k, n));
    assert(r1.len() == n - k + 1);
    assert(edge_at(len).idx() == len);
    lemma_edge_at_injective(len, len + 1);
    if j == 0 {
        assert(r1[1] == s[k]);
        assert(r1[n - k] == s[n - 1]);
    } else {
        let q = k + j - 1;
        assert(r1[j] == s[q]);
        assert(linked(edges, rings, loc, r, q));
        let x = s[q].idx();
        assert(x < len);
        if q != n - 1 {
            lemma_slots_distinct(edges, rings, loc, r, q, n - 1);
            assert(r1[j + 1] == s[q + 1]);
        }
        lemma_slots_distinct(edges, rings, loc, r, q, k - 1);
        lemma_slots_distinct(edges, rings, loc, r, q, 0);
        if q != k {
            lemma_slots_distinct(edges, rings, loc, r, q, k);
            assert(r1[j - 1] == s[q - 1]);
        }
    }
}

proof fn lemma_split_second(
    edges: Seq<HalfEdge>,
    edges2: Seq<HalfEdge>,
    rings: Seq<Seq<EdgeId>>,
    loc: Seq<(int, int)>,
    r: int,
    k: int,
    j: int,
)
    requires
        rings_linked(edges, rings, loc),
        0 <= r < rings.len(),
        2 <= k <= rings[r].len() - 2,
        edges.len() + 2 < MAX_HANDLE,
        split_links(edges, edges2, rings[r], k),
        0 <= j <= k,
    ensures
        linked(
            edges2,
            split_rings(rings, r, k, edges.len() as int),
            split_loc(loc, r, k, edges.len() as int, rings.len() as int),
            rings.len() as int,
            j,
        ),
{
    let len = edges.len() as int;
    let s = rings[r];
    let n = s.len() as int;
    let nr = rings.len() as int;
    let rings2 = split_rings(rings, r, k, len);
    let loc2 = split_loc(loc, r, k, len, nr);
    let r2 = rings2[nr];
    assert(r2 == seq![edge_at(len + 1)] + s.subrange(0, k));
    assert(r2.len() == k + 1);
    assert(edge_at(len + 1).idx() == len + 1);
    lemma_edge_at_injective(len, len + 1);
    if j == 0 {
        assert(r2[1] == s[0]);
        assert(r2[k] == s[k - 1]);
    } else {
        let q = j - 1;
        assert(r2[j] == s[q]);
        assert(linked(edges, rings, loc, r, q));
        let x = s[q].idx();
        assert(x < len);
        lemma_slots_distinct(edges, rings, loc, r, q, n - 1);
        if q != k - 1 {
            lemma_slots_distinct(edges, rings, loc, r, q, k - 1);
            assert(r2[j + 1] == s[q + 1]);
        }
        lemma_slots_distinct(edges, rings, loc, r, q, k);
        if q != 0 {
            lemma_slots_distinct(edges, rings, loc, r, q, 0);
            assert(r2[j - 1] == s[q - 1]);
        }
    }
}

/// The rings after inserting the half-edge `x` right after position `p` of ring `r`.
pub open spec fn insert_rings(rings: Seq<Seq<EdgeId>>, r: int, p: int, x: EdgeId) -> Seq<Seq<EdgeId>> {
    rings.update(r, rings[r].insert(p + 1, x))
}

/// `loc` after the insertion of `insert_rings`, the new half-edge having index `len`.
pub open spec fn insert_loc(loc: Seq<(int, int)>, r: int, p: int, len: int) -> Seq<(int, int)> {
    Seq::new(
        (len + 1) as nat,
        |y: int|
            if y == len {
                (r, p + 1)
            } else if loc[y].0 == r && loc[y].1 > p {
                (r, loc[y].1 + 1)
            } else {
                loc[y]
            },
    )
}

/// `edges2` is `edges` with a new half-edge (index `len`) linked in after
/// half-edge `i`, on the same face.
pub open spec fn insert_links(edges: Seq<HalfEdge>, edges2: Seq<HalfEdge>, i: int) -> bool {
    let len = edges.len() as int;
    let nx = edge_at(len);
    let en = edges[i].next;
    &&& edges2.len() == len + 1
    &&& edges2[len].next == en
    &&& edges2[len].prev == edge_at(i)
    &&& edges2[len].face == edges[i].face
    &&& forall|x: int|
        0 <= x < len ==> {
            &&& (#[trigger] edges2[x]).next == (if x == i { nx } else { edges[x].next })
            &&& edges2[x].prev == (if x == en.idx() { nx } else { edges[x].prev })
            &&& edges2[x].face == edges[x].face
        }
}

/// Inserting a half-edge after another keeps the description exact.
pub proof fn lemma_insert(
    edges: Seq<HalfEdge>,
    edges2: Seq<HalfEdge>,
    rings: Seq<Seq<EdgeId>>,
    loc: Seq<(int, int)>,
    i: int,
)
    requires
        rings_linked(edges, rings, loc),
        rings_one_face(edges, rings),
        0 <= i < edges.len(),
        edges.len() + 1 < MAX_HANDLE,
        insert_links(edges, edges2, i),
    ensures
        rings_linked(
            edges2,
            insert_rings(rings, loc[i].0, loc[i].1, edge_at(edges.len() as int)),
            insert_loc(loc, loc[i].0, loc[i].1, edges.len() as int),
        ),
        rings_one_face(edges2, insert_rings(rings, loc[i].0, loc[i].1, edge_at(edges.len() as int))),
{
    let len = edges.len() as int;
    let nx = edge_at(len);
    let r = loc[i].0;
    let p = loc[i].1;
    let s = rings[r];
    let n = s.len() as int;
    let t = s.insert(p + 1, nx);
    let rings2 = insert_rings(rings, r, p, nx);
    let loc2 = insert_loc(loc, r, p, len);
    assert(placed(rings, loc, i));
    assert(linked(edges, rings, loc, r, p));
    assert(edge_at(len).idx() == len);
    assert forall|q: int| 0 <= q < n + 1 implies t[q] == (if q <= p {
        s[q]
    } else if q == p + 1 {
        nx
    } else {
        s[q - 1]
    }) by {}
    assert forall|y: int| 0 <= y < len + 1 implies #[trigger] placed(rings2, loc2, y) by {
        if y < len {
            assert(placed(rings, loc, y));
        }
    }
    assert forall|q: int, j: int|
        0 <= q < rings2.len() && 0 <= j < rings2[q].len() implies #[trigger] linked(
            edges2,
            rings2,
            loc2,
            q,
            j,
        ) by {
        if q == r {
            lemma_insert_slot(edges, edges2, rings, loc, i, j);
        } else {
            assert(linked(edges, rings, loc, q, j));
            let y = rings[q][j].idx();
            assert(placed(rings, loc, y));
            let en = edges[i].next;
            let pn = if p + 1 < n { p + 1 } else { 0 };
            assert(linked(edges, rings, loc, r, pn));
            assert(y != i);
            assert(y != en.idx());
        }
    }
    assert forall|q: int, j: int|
        0 <= q < rings2.len() && 0 <= j < rings2[q].len() implies #[trigger] same_face(
            edges2,
            rings2,
            q,
            j,
        ) by {
        if q == r {
            assert(same_face(edges, rings, r, p));
            assert(linked(edges, rings, loc, r, 0));
            if j <= p {
                assert(same_face(edges, rings, r, j));
                assert(linked(edges, rings, loc, r, j));
            } else if j > p + 1 {
                assert(same_face(edges, rings, r, j - 1));
                assert(linked(edges, rings, loc, r, j - 1));
            }
        } else {
            assert(same_face(edges, rings, q, j));
            assert(linked(edges, rings, loc, q, j));
            assert(linked(edges, rings, loc, q, 0));
        }
    }
}

proof fn lemma_insert_slot(
    edges: Seq<HalfEdge>,
    edges2: Seq<HalfEdge>,
    rings: Seq<Seq<EdgeId>>,
    loc: Seq<(int, int)>,
    i: int,
    j: int,
)
    requires
        rings_linked(edges, rings, loc),
        0 <= i < edges.len(),
        edges.len() + 1 < MAX_HANDLE,
        insert_links(edges, edges2, i),
        0 <= j <= rings[loc[i].0].len(),
    ensures
        linked(
            edges2,
            insert_rings(rings, loc[i].0, loc[i].1, edge_at(edges.len() as int)),
            insert_loc(loc, loc[i].0, loc[i].1, edges.len() as int),
            loc[i].0,
            j,
        ),
{
    let len = edges.len() as int;
    let nx = edge_at(len);
    let r = loc[i].0;
    let p = loc[i].1;
    let s = rings[r];
    let n = s.len() as int;
    let t = s.insert(p + 1, nx);
    let en = edges[i].next;
    assert(placed(rings, loc, i));
    assert(linked(edges, rings, loc, r, p));
    assert(edge_at(len).idx() == len);
    let pn = if p + 1 < n { p + 1 } else { 0 };
    assert(linked(edges, rings, loc, r, pn));
    assert(en == s[pn]);
    assert(t.len() == n + 1);
    assert(t[p + 1] == nx);
    assert(t[p] == s[p]);
    if j <= p {
        assert(t[j] == s[j]);
        assert(linked(edges, rings, loc, r, j));
        if j < p {
            assert(t[j + 1] == s[j + 1]);
            lemma_slots_distinct(edges, rings, loc, r, j, p);
        }
        if j > 0 {
            assert(t[j - 1] == s[j - 1]);
        } else {
            assert(t[n] == if n == p + 1 { nx } else { s[n - 1] });
        }
        if j != pn {
            lemma_slots_distinct(edges, rings, loc, r, j, pn);
        }
    } else if j == p + 1 {
        if p + 2 < n + 1 {
            assert(t[p + 2] == s[p + 1]);
        }
    } else {
        assert(t[j] == s[j - 1]);
        assert(linked(edges, rings, loc, r, j - 1));
        lemma_slots_distinct(edges, rings, loc, r, j - 1, p);
        if j + 1 < n + 1 {
            assert(t[j + 1] == s[j]);
        }
        assert(t[j - 1] == if j - 1 == p + 1 { nx } else { s[j - 2] });
        if j - 1 != pn {
            lemma_slots_distinct(edges, rings, loc, r, j - 1, pn);
        }
    }
}

/// Two half-edge arrays that differ at most outside `next`, `prev` and
/// `face` share their rings.
pub proof fn lemma_rings_frame(
    e1: Seq<HalfEdge>,
    e2: Seq<HalfEdge>,
    rings: Seq<Seq<EdgeId>>,
    loc: Seq<(int, int)>,
)
    requires
        rings_linked(e1, rings, loc),
        rings_one_face(e1, rings),
        e1.len() == e2.len(),
        forall|x: int|
            0 <= x < e1.len() ==> #[trigger] e2[x].next == e1[x].next && e2[x].prev == e1[x].prev
                && e2[x].face == e1[x].face,
    ensures
        rings_linked(e2, rings, loc),
        rings_one_face(e2, rings),
{
    assert forall|r: int, p: int|
        0 <= r < rings.len() && 0 <= p < rings[r].len() implies #[trigger] linked(e2, rings, loc, r, p) by {
        assert(linked(e1, rings, loc, r, p));
        let x = rings[r][p].idx();
        assert(e2[x].next == e1[x].next);
    }
    assert forall|r: int, p: int|
        0 <= r < rings.len() && 0 <= p < rings[r].len() implies #[trigger] same_face(e2, rings, r, p) by {
        assert(same_face(e1, rings, r, p));
        assert(linked(e1, rings, loc, r, p));
        assert(linked(e1, rings, loc, r, 0));
        let x = rings[r][p].idx();
        let x0 = rings[r][0].idx();
        assert(e2[x].next == e1[x].next);
        assert(e2[x0].next == e1[x0].next);
    }
}

/// The order in which `prev` meets the ring `s` from `s[0]`: `s[0]` first,
/// then the rest of `s` backwards.
pub open spec fn reverse_walk(s: Seq<EdgeId>) -> Seq<EdgeId> {
    seq![s[0]] + s.subrange(1, s.len() as int).reverse()
}

/// Position `j` of the backward walk is position `(n - j) % n` of the ring.
pub proof fn lemma_reverse_walk_index(s: Seq<EdgeId>, j: int)
    requires
        s.len() >= 1,
        0 <= j < s.len(),
    ensures
        reverse_walk(s).len() == s.len(),
        reverse_walk(s)[j] == s[if j == 0 { 0 } else { s.len() - j }],
{
    let n = s.len() as int;
    assert(reverse_walk(s).len() == n);
    if j > 0 {
        assert(reverse_walk(s)[j] == s.subrange(1, n).reverse()[j - 1]);
    }
}

/// Walking a ring backwards from its start meets each of its edges once,
/// each step following `prev`.
pub proof fn lemma_reverse_walk(edges: Seq<HalfEdge>, s: Seq<EdgeId>)
    requires
        is_ring(edges, s),
    ensures
        reverse_walk(s).len() == s.len(),
        reverse_walk(s)[0] == s[0],
        reverse_walk(s)[s.len() - 1] == succ(s, 0),
        forall|j: int|
            0 <= j < s.len() ==> 1 <= (#[trigger] reverse_walk(s)[j]).handle <= edges.len()
                && edges[reverse_walk(s)[j].idx()].prev == succ(reverse_walk(s), j),
        forall|i: int, j: int| 0 <= i < j < s.len() ==> reverse_walk(s)[i] != reverse_walk(s)[j],
{
    let n = s.len() as int;
    let t = reverse_walk(s);
    assert forall|j: int| 0 <= j < n implies t[j] == s[if j == 0 { 0 } else { n - j }] by {
        lemma_reverse_walk_index(s, j);
    }
    assert(t[n - 1] == succ(s, 0));
    assert forall|j: int|
        0 <= j < n implies 1 <= (#[trigger] t[j]).handle <= edges.len() && edges[t[j].idx()].prev
            == succ(t, j) by {
        let q = if j == 0 { 0 } else { n - j };
        assert(s[q] == s[q]);
        if j + 1 < n {
            assert(t[j + 1] == s[n - j - 1]);
        }
    }
    assert forall|i: int, j: int| 0 <= i < j < n implies t[i] != t[j] by {
        let qi = if i == 0 { 0 } else { n - i };
        let qj = if j == 0 { 0 } else { n - j };
        if qi < qj {
            assert(s[qi] != s[qj]);
        } else {
            assert(s[qj] != s[qi]);
        }
    }
}

/// A ring holds no more half-edges than the array does.
pub proof fn lemma_ring_len(edges: Seq<HalfEdge>, s: Seq<EdgeId>)
    requires
        is_ring(edges, s),
    ensures
        s.len() <= edges.len(),
{
    let h = Seq::new(s.len(), |j: int| s[j].idx());
    assert forall|i: int, j: int| 0 <= i < h.len() && 0 <= j < h.len() && i != j implies h[i] != h[j] by {
        assert(s[i] == s[i]);
        assert(s[j] == s[j]);
        lemma_edge_at_idx(s[i]);
        lemma_edge_at_idx(s[j]);
        if i < j {
            assert(s[i] != s[j]);
        } else {
            assert(s[j] != s[i]);
        }
    }
    assert(h.no_duplicates());
    h.unique_seq_to_set();
    assert forall|x: int| h.to_set().contains(x) implies set_int_range(0, edges.len() as int).contains(x) by {
        let j = choose|j: int| 0 <= j < h.len() && h[j] == x;
        assert(s[j] == s[j]);
    }
    lemma_int_range(0, edges.len() as int);
    lemma_len_subset(h.to_set(), set_int_range(0, edges.len() as int));
}

} // verus!
