//! Laws that relate several operations of the kernel.

use vstd::prelude::*;
use crate::handles::{EdgeId, FaceId};
use crate::kernel::ConnectivityKernel;
use crate::ring::{reverse_walk, rotate, succ, lemma_reverse_walk, lemma_reverse_walk_index};

verus! {

/// Walking a face backwards meets the same half-edges as walking it
/// forwards, in the reverse cyclic order: both walks start at the face's
/// first edge, and the forward walk read backwards is the backward walk
/// turned by one step.
pub proof fn lemma_walks_reverse(k: ConnectivityKernel, f: FaceId)
    requires
        k.wf(),
        k.has_face(f),
    ensures
        ({
            let fwd = k.face_ring(f);
            let back = reverse_walk(fwd);
            let n = fwd.len() as int;
            &&& back.len() == n
            &&& back[0] == fwd[0]
            &&& forall|i: int| 1 <= i < n ==> #[trigger] back[i] == fwd[n - i]
            &&& fwd.reverse() == rotate(back, 1)
            &&& fwd.to_set() == back.to_set()
        }),
{
    k.lemma_face_first_edge(f);
    let fwd = k.face_ring(f);
    let back = reverse_walk(fwd);
    let n = fwd.len() as int;
    assert forall|i: int| 0 <= i < n implies #[trigger] back[i] == fwd[if i == 0 { 0 } else { n - i }] by {
        lemma_reverse_walk_index(fwd, i);
    }
    lemma_reverse_walk_index(fwd, 0);
    assert(fwd.reverse() =~= rotate(back, 1));
    assert forall|x| fwd.to_set().contains(x) implies back.to_set().contains(x) by {
        let i = choose|i: int| 0 <= i < n && fwd[i] == x;
        let j = if i == 0 { 0 } else { n - i };
        assert(back[j] == x);
    }
    assert forall|x| back.to_set().contains(x) implies fwd.to_set().contains(x) by {
        let j = choose|j: int| 0 <= j < n && back[j] == x;
        let i = if j == 0 { 0 } else { n - j };
        assert(fwd[i] == x);
    }
    assert(fwd.to_set() =~= back.to_set());
}

/// Every half-edge met walking a face, forwards or backwards, bounds that face.
pub proof fn lemma_face_walks_stay_on_face(k: ConnectivityKernel, f: FaceId)
    requires
        k.wf(),
        k.has_face(f),
    ensures
        forall|i: int|
            0 <= i < k.face_ring(f).len() ==> #[trigger] k.edge_rec(k.face_ring(f)[i]).face == f,
        forall|i: int|
            0 <= i < k.face_ring(f).len() ==> #[trigger] k.edge_rec(reverse_walk(k.face_ring(f))[i]).face
                == f,
{
    k.lemma_face_first_edge(f);
    let s = k.face_ring(f);
    let n = s.len() as int;
    assert forall|i: int| 0 <= i < n implies #[trigger] k.edge_rec(s[i]).face == f by {
        assert(s[i] == s[i]);
        assert(s[0] == s[0]);
    }
    assert forall|i: int| 0 <= i < n implies #[trigger] k.edge_rec(reverse_walk(s)[i]).face == f by {
        lemma_reverse_walk_index(s, i);
        let q = if i == 0 { 0 } else { n - i };
        assert(k.edge_rec(s[q]).face == f);
    }
}

/// The half-edge reached from `e` after `j` steps along `next`.
pub open spec fn follow_next(k: ConnectivityKernel, e: EdgeId, j: nat) -> EdgeId
    decreases j,
{
    if j == 0 {
        e
    } else {
        k.edge_rec(follow_next(k, e, (j - 1) as nat)).next
    }
}

/// The half-edge reached from `e` after `j` steps along `prev`.
pub open spec fn follow_prev(k: ConnectivityKernel, e: EdgeId, j: nat) -> EdgeId
    decreases j,
{
    if j == 0 {
        e
    } else {
        k.edge_rec(follow_prev(k, e, (j - 1) as nat)).prev
    }
}

/// Stepping from `e` along `next`, or along `prev`, meets the ring through
/// `e` in order and is back at `e` after exactly as many steps as the ring
/// has half-edges, and not before.
pub proof fn lemma_circulation_returns(k: ConnectivityKernel, e: EdgeId)
    requires
        k.wf(),
        k.has_edge(e),
    ensures
        forall|j: nat| j < k.ring(e).len() ==> #[trigger] follow_next(k, e, j) == k.ring(e)[j as int],
        forall|j: nat|
            j < k.ring(e).len() ==> #[trigger] follow_prev(k, e, j) == reverse_walk(k.ring(e))[j as int],
        follow_next(k, e, k.ring(e).len()) == e,
        follow_prev(k, e, k.ring(e).len()) == e,
        forall|j: nat| 0 < j < k.ring(e).len() ==> #[trigger] follow_next(k, e, j) != e,
        forall|j: nat| 0 < j < k.ring(e).len() ==> #[trigger] follow_prev(k, e, j) != e,
{
    k.lemma_ring(e);
    let s = k.ring(e);
    let t = reverse_walk(s);
    let n = s.len();
    lemma_reverse_walk(k.edge_seq(), s);
    assert forall|j: nat| j < n implies #[trigger] follow_next(k, e, j) == s[j as int] by {
        lemma_follow_next(k, e, j);
    }
    assert forall|j: nat| j < n implies #[trigger] follow_prev(k, e, j) == t[j as int] by {
        lemma_follow_prev(k, e, j);
    }
    lemma_follow_next(k, e, (n - 1) as nat);
    lemma_follow_prev(k, e, (n - 1) as nat);
    assert(s[n - 1] == s[n - 1]);
    assert(t[n - 1] == t[n - 1]);
    assert(follow_next(k, e, n) == k.edge_rec(follow_next(k, e, (n - 1) as nat)).next);
    assert(follow_prev(k, e, n) == k.edge_rec(follow_prev(k, e, (n - 1) as nat)).prev);
    assert forall|j: nat| 0 < j < n implies #[trigger] follow_next(k, e, j) != e by {
        lemma_follow_next(k, e, j);
        assert(s[0] != s[j as int]);
    }
    assert forall|j: nat| 0 < j < n implies #[trigger] follow_prev(k, e, j) != e by {
        lemma_follow_prev(k, e, j);
        assert(t[0] != t[j as int]);
    }
}

proof fn lemma_follow_next(k: ConnectivityKernel, e: EdgeId, j: nat)
    requires
        k.wf(),
        k.has_edge(e),
        k.is_ring(k.ring(e)),
        k.ring(e)[0] == e,
        j < k.ring(e).len(),
    ensures
        follow_next(k, e, j) == k.ring(e)[j as int],
    decreases j,
{
    if j > 0 {
        let s = k.ring(e);
        lemma_follow_next(k, e, (j - 1) as nat);
        assert(s[j - 1] == s[j - 1]);
        assert(succ(s, j - 1) == s[j as int]);
    }
}

proof fn lemma_follow_prev(k: ConnectivityKernel, e: EdgeId, j: nat)
    requires
        k.wf(),
        k.has_edge(e),
        k.is_ring(k.ring(e)),
        k.ring(e)[0] == e,
        j < k.ring(e).len(),
    ensures
        follow_prev(k, e, j) == reverse_walk(k.ring(e))[j as int],
    decreases j,
{
    let s = k.ring(e);
    let t = reverse_walk(s);
    lemma_reverse_walk(k.edge_seq(), s);
    if j > 0 {
        lemma_follow_prev(k, e, (j - 1) as nat);
        assert(t[j - 1] == t[j - 1]);
        assert(succ(t, j - 1) == t[j as int]);
    }
}

} // verus!
