//! Typed handles: a handle stores `index + 1`, and the raw value 0 means "none".

use vstd::prelude::*;

verus! {

/// The raw integer type behind every handle.
pub type Index = u16;

/// The largest raw handle value; arrays never hold more records than this.
pub const MAX_HANDLE: u16 = 65535;

/// A handle to an entity of kind `T`; `handle` is the zero-based index plus one,
/// and `kind` is the zero-sized tag that keeps the kinds apart.
#[derive(Copy, Clone, Debug, PartialEq, Eq, Structural)]
pub struct Id<T> {
    pub handle: Index,
    pub kind: T,
}

/// Tag for vertex handles.
#[derive(Copy, Clone, Debug, PartialEq, Eq, Structural)]
pub struct Vertex_;

/// Tag for half-edge handles.
#[derive(Copy, Clone, Debug, PartialEq, Eq, Structural)]
pub struct Edge_;

/// Tag for face handles.
#[derive(Copy, Clone, Debug, PartialEq, Eq, Structural)]
pub struct Face_;

pub type VertexId = Id<Vertex_>;

pub type EdgeId = Id<Edge_>;

pub type FaceId = Id<Face_>;

impl<T> Id<T> {
    /// The zero-based array offset this handle designates.
    pub open spec fn idx(self) -> int {
        self.handle as int - 1
    }

    /// The handle is not the "none" sentinel.
    pub open spec fn valid(self) -> bool {
        self.handle != 0
    }
}

/// The half-edge handle of zero-based index `i`.
pub open spec fn edge_at(i: int) -> EdgeId {
    Id { handle: (i + 1) as u16, kind: Edge_ }
}

/// The face handle of zero-based index `i`.
pub open spec fn face_at(i: int) -> FaceId {
    Id { handle: (i + 1) as u16, kind: Face_ }
}

/// The vertex handle of zero-based index `i`.
pub open spec fn vertex_at(i: int) -> VertexId {
    Id { handle: (i + 1) as u16, kind: Vertex_ }
}

/// A valid half-edge handle is the handle of its own index.
pub proof fn lemma_edge_at_idx(e: EdgeId)
    requires
        e.handle >= 1,
    ensures
        edge_at(e.idx()) == e,
{
    assert(((e.idx() + 1) as u16) == e.handle);
    assert(e.kind == Edge_);
}

/// A valid face handle is the handle of its own index.
pub proof fn lemma_face_at_idx(f: FaceId)
    requires
        f.handle >= 1,
    ensures
        face_at(f.idx()) == f,
{
    assert(((f.idx() + 1) as u16) == f.handle);
    assert(f.kind == Face_);
}

/// Distinct indices give distinct half-edge handles.
pub proof fn lemma_edge_at_injective(i: int, j: int)
    requires
        0 <= i < MAX_HANDLE,
        0 <= j < MAX_HANDLE,
        i != j,
    ensures
        edge_at(i) != edge_at(j),
        edge_at(i).idx() == i,
{
}

impl EdgeId {
    /// The handle is not the "none" sentinel.
    pub fn is_valid(self) -> (r: bool)
        ensures
            r == self.valid(),
    {
        self.handle != 0
    }

    /// The zero-based array offset of a valid handle.
    pub fn as_index(self) -> (r: usize)
        requires
            self.valid(),
        ensures
            r == self.idx(),
    {
        self.handle as usize - 1
    }
}

impl FaceId {
    /// The handle is not the "none" sentinel.
    pub fn is_valid(self) -> (r: bool)
        ensures
            r == self.valid(),
    {
        self.handle != 0
    }

    /// The zero-based array offset of a valid handle.
    pub fn as_index(self) -> (r: usize)
        requires
            self.valid(),
        ensures
            r == self.idx(),
    {
        self.handle as usize - 1
    }
}

impl VertexId {
    /// The handle is not the "none" sentinel.
    pub fn is_valid(self) -> (r: bool)
        ensures
            r == self.valid(),
    {
        self.handle != 0
    }

    /// The zero-based array offset of a valid handle.
    pub fn as_index(self) -> (r: usize)
        requires
            self.valid(),
        ensures
            r == self.idx(),
    {
        self.handle as usize - 1
    }
}

/// The "none" half-edge handle.
pub fn no_edge() -> (r: EdgeId)
    ensures
        r == (Id { handle: 0, kind: Edge_ }),
{
    Id { handle: 0, kind: Edge_ }
}

/// The "none" face handle.
pub fn no_face() -> (r: FaceId)
    ensures
        r == (Id { handle: 0, kind: Face_ }),
{
    Id { handle: 0, kind: Face_ }
}

/// The "none" vertex handle.
pub fn no_vertex() -> (r: VertexId)
    ensures
        r == (Id { handle: 0, kind: Vertex_ }),
{
    Id { handle: 0, kind: Vertex_ }
}

/// The handle of the half-edge at zero-based `index`.
pub fn edge_id(index: Index) -> (r: EdgeId)
    requires
        index < MAX_HANDLE,
    ensures
        r.handle == index + 1,
        r == edge_at(index as int),
{
    Id { handle: index + 1, kind: Edge_ }
}

/// The handle of the face at zero-based `index`.
pub fn face_id(index: Index) -> (r: FaceId)
    requires
        index < MAX_HANDLE,
    ensures
        r.handle == index + 1,
        r == face_at(index as int),
{
    Id { handle: index + 1, kind: Face_ }
}

/// The handle of the vertex at zero-based `index`.
pub fn vertex_id(index: Index) -> (r: VertexId)
    requires
        index < MAX_HANDLE,
    ensures
        r.handle == index + 1,
        r == vertex_at(index as int),
{
    Id { handle: index + 1, kind: Vertex_ }
}

/// `count` consecutive handles starting at `first`.
#[derive(Copy, Clone, Debug, PartialEq, Eq, Structural)]
pub struct IdRange<T> {
    pub first: Id<T>,
    pub count: Index,
}

pub type VertexIdRange = IdRange<Vertex_>;

pub type EdgeIdRange = IdRange<Edge_>;

pub type FaceIdRange = IdRange<Face_>;

impl<T: Copy> IdRange<T> {
    /// Steps through the range from its first handle.
    pub fn iter(&self) -> (r: IdRangeIterator<T>)
        ensures
            r.rest() == *self,
    {
        IdRangeIterator { range: *self }
    }
}

/// Steps through a range, yielding at each step the part of the range that
/// is left, from the current handle on.
#[derive(Clone)]
pub struct IdRangeIterator<T> {
    range: IdRange<T>,
}

impl<T: Copy> IdRangeIterator<T> {
    /// The part of the range not yet passed.
    pub closed spec fn rest(self) -> IdRange<T> {
        self.range
    }

    /// Yields the rest of the range and moves past its first handle.
    pub fn next(&mut self) -> (r: Option<IdRange<T>>)
        requires
            old(self).rest().count == 0 || old(self).rest().first.handle < MAX_HANDLE,
        ensures
            old(self).rest().count == 0 ==> r.is_none() && final(self).rest() == old(self).rest(),
            old(self).rest().count > 0 ==> {
                &&& r == Some(old(self).rest())
                &&& final(self).rest().count == old(self).rest().count - 1
                &&& final(self).rest().first.handle == old(self).rest().first.handle + 1
                &&& final(self).rest().first.kind == old(self).rest().first.kind
            },
    {
        if self.range.count == 0 {
            return None;
        }
        let res = self.range;
        self.range.count = self.range.count - 1;
        self.range.first.handle = self.range.first.handle + 1;
        Some(res)
    }
}

/// Yields the handles of all vertex records, in ascending order, up to a bound
/// fixed when it was made.
pub struct VertexIdIterator {
    current: Index,
    stop: Index,
}

impl VertexIdIterator {
    pub(crate) fn upto(len: usize) -> (r: VertexIdIterator)
        requires
            len < MAX_HANDLE,
        ensures
            r.wf(),
            r@ == Seq::new(len as nat, |k: int| vertex_at(k)),
    {
        let r = VertexIdIterator { current: 1, stop: len as Index + 1 };
        assert(r@ =~= Seq::new(len as nat, |k: int| vertex_at(k)));
        r
    }

    pub closed spec fn wf(self) -> bool {
        1 <= self.current <= self.stop
    }

    pub fn next(&mut self) -> (r: Option<VertexId>)
        requires
            old(self).wf(),
        ensures
            final(self).wf(),
            old(self)@.len() == 0 ==> r.is_none() && final(self)@ == old(self)@,
            old(self)@.len() > 0 ==> r == Some(old(self)@[0]) && final(self)@ == old(self)@.drop_first(),
    {
        if self.current == self.stop {
            return None;
        }
        self.current = self.current + 1;
        let r = Id { handle: self.current - 1, kind: Vertex_ };
        assert(self@ =~= old(self)@.drop_first());
        Some(r)
    }
}

impl View for VertexIdIterator {
    type V = Seq<VertexId>;

    /// The handles still to come.
    closed spec fn view(&self) -> Seq<VertexId> {
        Seq::new((self.stop - self.current) as nat, |k: int| vertex_at(self.current - 1 + k))
    }
}

/// Yields the handles of all half-edge records, in ascending order, up to a bound
/// fixed when it was made.
pub struct EdgeIdIterator {
    current: Index,
    stop: Index,
}

impl EdgeIdIterator {
    pub(crate) fn upto(len: usize) -> (r: EdgeIdIterator)
        requires
            len < MAX_HANDLE,
        ensures
            r.wf(),
            r@ == Seq::new(len as nat, |k: int| edge_at(k)),
    {
        let r = EdgeIdIterator { current: 1, stop: len as Index + 1 };
        assert(r@ =~= Seq::new(len as nat, |k: int| edge_at(k)));
        r
    }

    pub closed spec fn wf(self) -> bool {
        1 <= self.current <= self.stop
    }

    pub fn next(&mut self) -> (r: Option<EdgeId>)
        requires
            old(self).wf(),
        ensures
            final(self).wf(),
            old(self)@.len() == 0 ==> r.is_none() && final(self)@ == old(self)@,
            old(self)@.len() > 0 ==> r == Some(old(self)@[0]) && final(self)@ == old(self)@.drop_first(),
    {
        if self.current == self.stop {
            return None;
        }
        self.current = self.current + 1;
        let r = Id { handle: self.current - 1, kind: Edge_ };
        assert(self@ =~= old(self)@.drop_first());
        Some(r)
    }
}

impl View for EdgeIdIterator {
    type V = Seq<EdgeId>;

    /// The handles still to come.
    closed spec fn view(&self) -> Seq<EdgeId> {
        Seq::new((self.stop - self.current) as nat, |k: int| edge_at(self.current - 1 + k))
    }
}

/// Yields the handles of all face records, in ascending order, up to a bound
/// fixed when it was made.
pub struct FaceIdIterator {
    current: Index,
    stop: Index,
}

impl FaceIdIterator {
    pub(crate) fn upto(len: usize) -> (r: FaceIdIterator)
        requires
            len < MAX_HANDLE,
        ensures
            r.wf(),
            r@ == Seq::new(len as nat, |k: int| face_at(k)),
    {
        let r = FaceIdIterator { current: 1, stop: len as Index + 1 };
        assert(r@ =~= Seq::new(len as nat, |k: int| face_at(k)));
        r
    }

    pub closed spec fn wf(self) -> bool {
        1 <= self.current <= self.stop
    }

    pub fn next(&mut self) -> (r: Option<FaceId>)
        requires
            old(self).wf(),
        ensures
            final(self).wf(),
            old(self)@.len() == 0 ==> r.is_none() && final(self)@ == old(self)@,
            old(self)@.len() > 0 ==> r == Some(old(self)@[0]) && final(self)@ == old(self)@.drop_first(),
    {
        if self.current == self.stop {
            return None;
        }
        self.current = self.current + 1;
        let r = Id { handle: self.current - 1, kind: Face_ };
        assert(self@ =~= old(self)@.drop_first());
        Some(r)
    }
}

impl View for FaceIdIterator {
    type V = Seq<FaceId>;

    /// The handles still to come.
    closed spec fn view(&self) -> Seq<FaceId> {
        Seq::new((self.stop - self.current) as nat, |k: int| face_at(self.current - 1 + k))
    }
}

} // verus!
