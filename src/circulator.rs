//! Circulators: copyable cursors on one half-edge that step around its ring.

use vstd::prelude::*;
use crate::handles::{EdgeId, FaceId, VertexId};
use crate::kernel::{ConnectivityKernel, HalfEdge};

verus! {

/// A direction of travel around a ring: along `next` or along `prev`.
#[derive(Copy, Clone, Debug, PartialEq, Eq, Structural)]
pub enum Direction {
    Forward,
    Backward,
}

impl Direction {
    pub fn reverse(self) -> (r: Direction)
        ensures
            r != self,
    {
        match self {
            Direction::Forward => Direction::Backward,
            Direction::Backward => Direction::Forward,
        }
    }
}

/// A cursor on one half-edge of a kernel; stepping returns a new cursor.
#[derive(Copy, Clone)]
pub struct EdgeCirculator<'l> {
    kernel: &'l ConnectivityKernel,
    edge: EdgeId,
}

impl<'l> EdgeCirculator<'l> {
    /// The kernel the cursor walks.
    pub closed spec fn mesh(self) -> ConnectivityKernel {
        *self.kernel
    }

    /// The half-edge the cursor stands on.
    pub closed spec fn current(self) -> EdgeId {
        self.edge
    }

    /// The cursor stands on a half-edge of a well-formed kernel.
    pub open spec fn inv(self) -> bool {
        self.mesh().wf() && self.mesh().has_edge(self.current())
    }

    pub fn new(kernel: &'l ConnectivityKernel, edge: EdgeId) -> (r: EdgeCirculator<'l>)
        ensures
            r.mesh() == *kernel,
            r.current() == edge,
    {
        EdgeCirculator { kernel, edge }
    }

    pub fn edge(&self) -> (r: &'l HalfEdge)
        requires
            self.mesh().has_edge(self.current()),
        ensures
            *r == self.mesh().edge_rec(self.current()),
    {
        self.kernel.edge(self.edge)
    }

    pub fn next(self) -> (r: EdgeCirculator<'l>)
        requires
            self.inv(),
        ensures
            r.inv(),
            r.mesh() == self.mesh(),
            r.current() == self.mesh().edge_rec(self.current()).next,
    {
        proof {
            self.kernel.lemma_edge_invariants(self.edge);
        }
        EdgeCirculator { kernel: self.kernel, edge: self.edge().next }
    }

    pub fn prev(self) -> (r: EdgeCirculator<'l>)
        requires
            self.inv(),
        ensures
            r.inv(),
            r.mesh() == self.mesh(),
            r.current() == self.mesh().edge_rec(self.current()).prev,
    {
        proof {
            self.kernel.lemma_edge_invariants(self.edge);
        }
        EdgeCirculator { kernel: self.kernel, edge: self.edge().prev }
    }

    /// One step along `next` going forward, along `prev` going backward.
    pub fn advance(self, direction: Direction) -> (r: EdgeCirculator<'l>)
        requires
            self.inv(),
        ensures
            r.inv(),
            r.mesh() == self.mesh(),
            r.current() == match direction {
                Direction::Forward => self.mesh().edge_rec(self.current()).next,
                Direction::Backward => self.mesh().edge_rec(self.current()).prev,
            },
    {
        match direction {
            Direction::Forward => self.next(),
            Direction::Backward => self.prev(),
        }
    }

    pub fn edge_id(&self) -> (r: EdgeId)
        ensures
            r == self.current(),
    {
        self.edge
    }

    pub fn vertex_id(&self) -> (r: VertexId)
        requires
            self.mesh().has_edge(self.current()),
        ensures
            r == self.mesh().edge_rec(self.current()).vertex,
    {
        self.edge().vertex
    }

    pub fn face_id(&self) -> (r: FaceId)
        requires
            self.mesh().has_edge(self.current()),
        ensures
            r == self.mesh().edge_rec(self.current()).face,
    {
        self.edge().face
    }
}

/// Two cursors are equal when they stand on the same half-edge.
impl<'l> PartialEq for EdgeCirculator<'l> {
    fn eq(&self, other: &EdgeCirculator<'l>) -> (r: bool) {
        self.edge == other.edge
    }
}

impl<'l> vstd::std_specs::cmp::PartialEqSpecImpl for EdgeCirculator<'l> {
    open spec fn obeys_eq_spec() -> bool {
        true
    }

    open spec fn eq_spec(&self, other: &EdgeCirculator<'l>) -> bool {
        self.current() == other.current()
    }
}

/// A cursor with a direction of travel: `next` steps that way and `prev`
/// the other way.
#[derive(Copy, Clone)]
pub struct DirectedEdgeCirculator<'l> {
    circulator: EdgeCirculator<'l>,
    direction: Direction,
}

impl<'l> DirectedEdgeCirculator<'l> {
    /// The undirected cursor inside.
    pub closed spec fn cursor(self) -> EdgeCirculator<'l> {
        self.circulator
    }

    /// The direction of travel.
    pub closed spec fn dir(self) -> Direction {
        self.direction
    }

    pub open spec fn inv(self) -> bool {
        self.cursor().inv()
    }

    pub fn new(kernel: &'l ConnectivityKernel, edge: EdgeId, direction: Direction) -> (r:
        DirectedEdgeCirculator<'l>)
        ensures
            r.cursor().mesh() == *kernel,
            r.cursor().current() == edge,
            r.dir() == direction,
    {
        DirectedEdgeCirculator { circulator: EdgeCirculator::new(kernel, edge), direction }
    }

    pub fn edge(&self) -> (r: &'l HalfEdge)
        requires
            self.cursor().mesh().has_edge(self.cursor().current()),
        ensures
            *r == self.cursor().mesh().edge_rec(self.cursor().current()),
    {
        self.circulator.edge()
    }

    /// One step in the direction of travel.
    pub fn next(self) -> (r: DirectedEdgeCirculator<'l>)
        requires
            self.inv(),
        ensures
            r.inv(),
            r.dir() == self.dir(),
            r.cursor().mesh() == self.cursor().mesh(),
            r.cursor().current() == match self.dir() {
                Direction::Forward => self.cursor().mesh().edge_rec(self.cursor().current()).next,
                Direction::Backward => self.cursor().mesh().edge_rec(self.cursor().current()).prev,
            },
    {
        DirectedEdgeCirculator {
            circulator: self.circulator.advance(self.direction),
            direction: self.direction,
        }
    }

    /// One step against the direction of travel.
    pub fn prev(self) -> (r: DirectedEdgeCirculator<'l>)
        requires
            self.inv(),
        ensures
            r.inv(),
            r.dir() == self.dir(),
            r.cursor().mesh() == self.cursor().mesh(),
            r.cursor().current() == match self.dir() {
                Direction::Forward => self.cursor().mesh().edge_rec(self.cursor().current()).prev,
                Direction::Backward => self.cursor().mesh().edge_rec(self.cursor().current()).next,
            },
    {
        DirectedEdgeCirculator {
            circulator: self.circulator.advance(self.direction.reverse()),
            direction: self.direction,
        }
    }

    /// One step in `direction`, whatever the direction of travel.
    pub fn advance(self, direction: Direction) -> (r: DirectedEdgeCirculator<'l>)
        requires
            self.inv(),
        ensures
            r.inv(),
            r.dir() == self.dir(),
            r.cursor().mesh() == self.cursor().mesh(),
            r.cursor().current() == match direction {
                Direction::Forward => self.cursor().mesh().edge_rec(self.cursor().current()).next,
                Direction::Backward => self.cursor().mesh().edge_rec(self.cursor().current()).prev,
            },
    {
        match self.direction == direction {
            true => self.next(),
            false => self.prev(),
        }
    }

    pub fn edge_id(&self) -> (r: EdgeId)
        ensures
            r == self.cursor().current(),
    {
        self.circulator.edge
    }

    pub fn vertex_id(&self) -> (r: VertexId)
        requires
            self.cursor().mesh().has_edge(self.cursor().current()),
        ensures
            r == self.cursor().mesh().edge_rec(self.cursor().current()).vertex,
    {
        self.circulator.vertex_id()
    }

    pub fn face_id(&self) -> (r: FaceId)
        requires
            self.cursor().mesh().has_edge(self.cursor().current()),
        ensures
            r == self.cursor().mesh().edge_rec(self.cursor().current()).face,
    {
        self.circulator.face_id()
    }

    pub fn direction(&self) -> (r: Direction)
        ensures
            r == self.dir(),
    {
        self.direction
    }

    pub fn set_direction(&mut self, direction: Direction)
        ensures
            final(self).dir() == direction,
            final(self).cursor() == old(self).cursor(),
    {
        self.direction = direction;
    }
}

/// Two directed cursors are equal when they stand on the same half-edge.
impl<'l> PartialEq for DirectedEdgeCirculator<'l> {
    fn eq(&self, other: &DirectedEdgeCirculator<'l>) -> (r: bool) {
        self.circulator.edge == other.circulator.edge
    }
}

impl<'l> vstd::std_specs::cmp::PartialEqSpecImpl for DirectedEdgeCirculator<'l> {
    open spec fn obeys_eq_spec() -> bool {
        true
    }

    open spec fn eq_spec(&self, other: &DirectedEdgeCirculator<'l>) -> bool {
        self.cursor().current() == other.cursor().current()
    }
}

} // verus!
