use halfedge::{
    edge_id, face_id, no_edge, no_face, vertex_id, ConnectivityKernel, DirectedEdgeCirculator,
    Direction, EdgeCirculator, EdgeId, FaceId, IdRange, VertexEdgeIterator,
};

fn forward(kernel: &ConnectivityKernel, face: FaceId) -> Vec<EdgeId> {
    let mut out = Vec::new();
    let mut walk = kernel.walk_edges_around_face(face);
    while let Some(e) = walk.next() {
        out.push(e);
    }
    out
}

fn backward(kernel: &ConnectivityKernel, face: FaceId) -> Vec<EdgeId> {
    let mut out = Vec::new();
    let mut walk = kernel.walk_edges_around_face_reverse(face);
    while let Some(e) = walk.next() {
        out.push(e);
    }
    out
}

fn all_invariants_hold(kernel: &ConnectivityKernel) -> bool {
    let mut ids = kernel.edge_ids();
    while let Some(e) = ids.next() {
        if !kernel.assert_edge_invariants(e) {
            return false;
        }
    }
    let mut faces = kernel.face_ids();
    while let Some(f) = faces.next() {
        if !kernel.assert_face_invariants(f) {
            return false;
        }
    }
    true
}

fn steps_to_return(kernel: &ConnectivityKernel, face: FaceId, dir: Direction) -> u32 {
    let start = DirectedEdgeCirculator::new(kernel, kernel.face(face).first_edge, dir);
    let mut it = start.next();
    let mut steps = 1;
    while it != start {
        assert_eq!(it.face_id(), face);
        it = it.next();
        steps += 1;
    }
    steps
}

#[test]
fn from_loop_gives_two_faces_of_n_edges() {
    for n in 3..10u16 {
        let kernel = ConnectivityKernel::from_loop(n);
        assert_eq!(kernel.faces().len(), 2);
        assert_eq!(kernel.vertices().len(), n as usize);
        assert_eq!(kernel.edges().len(), 2 * n as usize);
        assert_eq!(kernel.count_edges_around_face(face_id(0)), n as u32);
        assert_eq!(kernel.count_edges_around_face(face_id(1)), n as u32);
        assert!(all_invariants_hold(&kernel));
    }
}

#[test]
fn from_loop_records_are_the_twinned_loop() {
    let kernel = ConnectivityKernel::from_loop(4);
    let e = kernel.edge(edge_id(0));
    assert_eq!(e.next, edge_id(1));
    assert_eq!(e.prev, edge_id(3));
    assert_eq!(e.opposite, edge_id(7));
    assert_eq!(e.vertex, vertex_id(0));
    assert_eq!(e.face, face_id(0));
    let b = kernel.edge(edge_id(4));
    assert_eq!(b.next, edge_id(5));
    assert_eq!(b.prev, edge_id(7));
    assert_eq!(b.opposite, edge_id(3));
    assert_eq!(b.vertex, vertex_id(0));
    assert_eq!(b.face, face_id(1));
    let b2 = kernel.edge(edge_id(5));
    assert_eq!(b2.vertex, vertex_id(3));
    assert_eq!(kernel.face(face_id(0)).first_edge, edge_id(0));
    assert_eq!(kernel.face(face_id(1)).first_edge, edge_id(4));
    assert_eq!(kernel.vertex(vertex_id(2)).first_edge, edge_id(2));
}

#[test]
fn split_face_square_into_two_triangles() {
    let mut kernel = ConnectivityKernel::from_loop(4);
    let f1 = kernel.first_face();
    let e1 = kernel.face(f1).first_edge;
    let e3 = kernel.edge(kernel.edge(e1).next).next;
    let f2 = kernel.split_face(e3, e1);
    assert_eq!(f2, face_id(2));
    let c1 = kernel.count_edges_around_face(f1);
    let c2 = kernel.count_edges_around_face(f2);
    assert_eq!((c1, c2), (3, 3));
    assert_eq!(c1 + c2, 4 + 2);
    for e in forward(&kernel, f1) {
        assert_eq!(kernel.edge(e).face, f1);
    }
    for e in forward(&kernel, f2) {
        assert_eq!(kernel.edge(e).face, f2);
    }
    for dir in [Direction::Forward, Direction::Backward] {
        assert_eq!(steps_to_return(&kernel, f1, dir), c1);
        assert_eq!(steps_to_return(&kernel, f2, dir), c2);
    }
    assert!(all_invariants_hold(&kernel));
}

#[test]
fn split_face_ten_gon_two_edges_apart() {
    let mut kernel = ConnectivityKernel::from_loop(10);
    let f1 = kernel.first_face();
    let e1 = kernel.face(f1).first_edge;
    let e2 = kernel.edge(e1).next;
    let e3 = kernel.edge(e2).next;
    let e4 = kernel.edge(e3).next;
    let f2 = kernel.split_face(e4, e2);
    let c1 = kernel.count_edges_around_face(f1);
    let c2 = kernel.count_edges_around_face(f2);
    assert_eq!(c1 + c2, 12);
    assert_eq!(c1, 3);
    assert_eq!(c2, 9);
    for face in [f1, f2] {
        for e in forward(&kernel, face) {
            assert_eq!(kernel.edge(e).face, face);
        }
        for e in backward(&kernel, face) {
            assert_eq!(kernel.edge(e).face, face);
        }
    }
    assert!(all_invariants_hold(&kernel));
}

#[test]
fn split_face_new_edges_records() {
    let mut kernel = ConnectivityKernel::from_loop(5);
    let a = edge_id(2);
    let b = edge_id(0);
    let va = kernel.edge(a).vertex;
    let vb = kernel.edge(b).vertex;
    let f = kernel.split_face(a, b);
    let ne = kernel.edge(edge_id(10));
    let no = kernel.edge(edge_id(11));
    assert_eq!((ne.vertex, ne.next, ne.prev, ne.opposite), (va, b, edge_id(1), edge_id(11)));
    assert_eq!(ne.face, face_id(0));
    assert_eq!((no.vertex, no.next, no.prev, no.opposite), (vb, a, edge_id(4), edge_id(10)));
    assert_eq!(no.face, f);
    assert_eq!(kernel.face(face_id(0)).first_edge, edge_id(10));
    assert_eq!(kernel.face(f).first_edge, edge_id(11));
    assert!(!kernel.face(f).first_interior.is_valid());
}

#[test]
fn split_edge_grows_both_faces_by_one() {
    let mut kernel = ConnectivityKernel::from_loop(4);
    let e = kernel.face(face_id(0)).first_edge;
    let o = kernel.edge(e).opposite;
    let start = kernel.edge(e).vertex;
    let end = kernel.edge(o).vertex;
    let v = kernel.split_edge(e);
    assert_eq!(v, vertex_id(4));
    assert_eq!(kernel.count_edges_around_face(face_id(0)), 5);
    assert_eq!(kernel.count_edges_around_face(face_id(1)), 5);
    let first = kernel.vertex(v).first_edge;
    assert_eq!(kernel.edge(first).vertex, v);
    // e keeps its origin and now ends at v; its continuation runs from v on
    assert_eq!(kernel.edge(e).vertex, start);
    let cont = kernel.edge(e).next;
    assert_eq!(cont, edge_id(8));
    assert_eq!(kernel.edge(cont).vertex, v);
    assert_eq!(kernel.edge(kernel.edge(cont).next).vertex, end);
    assert_eq!(kernel.edge(o).vertex, end);
    assert_eq!(kernel.edge(kernel.edge(o).next).vertex, v);
    assert_eq!(kernel.edge(e).opposite, edge_id(9));
    assert!(all_invariants_hold(&kernel));
}

#[test]
fn split_edge_then_split_face() {
    let mut kernel = ConnectivityKernel::from_loop(3);
    let e = kernel.face(face_id(0)).first_edge;
    kernel.split_edge(e);
    assert_eq!(kernel.count_edges_around_face(face_id(0)), 4);
    let a = kernel.face(face_id(0)).first_edge;
    let b = kernel.edge(kernel.edge(a).next).next;
    let f = kernel.split_face(a, b);
    assert_eq!(kernel.count_edges_around_face(face_id(0)), 3);
    assert_eq!(kernel.count_edges_around_face(f), 3);
    assert_eq!(kernel.count_edges_around_face(face_id(1)), 4);
    assert!(all_invariants_hold(&kernel));
}

#[test]
fn walks_are_reverse_of_each_other() {
    let mut kernel = ConnectivityKernel::from_loop(6);
    kernel.split_edge(edge_id(2));
    for f in [face_id(0), face_id(1)] {
        let fwd = forward(&kernel, f);
        let back = backward(&kernel, f);
        assert_eq!(fwd.len(), back.len());
        assert_eq!(fwd[0], back[0]);
        let mut reversed = fwd.clone();
        reversed.reverse();
        let mut turned = back[1..].to_vec();
        turned.push(back[0]);
        assert_eq!(reversed, turned);
    }
}

#[test]
fn add_hole_of_three_vertices() {
    let mut kernel = ConnectivityKernel::from_loop(4);
    let outer = face_id(0);
    let (h1, vs, es) = kernel.add_hole(outer, 3);
    assert_eq!(h1, face_id(2));
    assert_eq!(vs, IdRange { first: vertex_id(4), count: 3 });
    assert_eq!(es, IdRange { first: edge_id(8), count: 6 });
    assert_eq!(kernel.count_edges_around_face(h1), 3);
    assert_eq!(kernel.count_edges_around_face(outer), 4);
    assert_eq!(kernel.face(outer).first_interior, h1);
    assert_eq!(kernel.face(h1).next_sibling, no_face());
    assert_eq!(kernel.face(h1).first_edge, edge_id(8));
    // the twin ring of the hole lies on the enclosing face
    assert_eq!(kernel.edge(edge_id(11)).face, outer);
    let (h2, _, _) = kernel.add_hole(outer, 3);
    assert_eq!(kernel.face(outer).first_interior, h2);
    assert_eq!(kernel.face(h2).next_sibling, h1);
    assert!(all_invariants_hold(&kernel));
}

#[test]
fn id_walks_cover_all_records() {
    let kernel = ConnectivityKernel::from_loop(4);
    let mut vs = Vec::new();
    let mut it = kernel.vertex_ids();
    while let Some(v) = it.next() {
        vs.push(v.handle);
    }
    assert_eq!(vs, vec![1, 2, 3, 4]);
    let mut fs = Vec::new();
    let mut it = kernel.face_ids();
    while let Some(f) = it.next() {
        fs.push(f.handle);
    }
    assert_eq!(fs, vec![1, 2]);
    let mut n = 0;
    let mut it = kernel.edge_ids();
    while let Some(_) = it.next() {
        n += 1;
    }
    assert_eq!(n, 8);
    assert!(it.next().is_none());
    assert_eq!(kernel.first_edge(), edge_id(0));
    assert_eq!(kernel.first_face().handle, 1);
    assert_eq!(kernel.first_vertex().handle, 1);
}

#[test]
fn id_range_steps_through_its_rest() {
    let range = IdRange { first: edge_id(2), count: 3 };
    let mut it = range.iter();
    assert_eq!(it.next(), Some(IdRange { first: edge_id(2), count: 3 }));
    assert_eq!(it.next(), Some(IdRange { first: edge_id(3), count: 2 }));
    assert_eq!(it.next(), Some(IdRange { first: edge_id(4), count: 1 }));
    assert_eq!(it.next(), None);
    assert_eq!(it.next(), None);
}

#[test]
fn handles_and_sentinels() {
    assert_eq!(edge_id(0).handle, 1);
    assert_eq!(edge_id(6).as_index(), 6);
    assert_eq!(face_id(1).as_index(), 1);
    assert_eq!(vertex_id(3).as_index(), 3);
    assert!(edge_id(0).is_valid());
    assert!(!no_edge().is_valid());
    assert!(!no_face().is_valid());
    assert!(!halfedge::no_vertex().is_valid());
    assert_eq!(no_edge().handle, 0);
}

#[test]
fn vertex_walks() {
    let kernel = ConnectivityKernel::from_loop(3);
    let e = edge_id(0);
    let mut it = VertexEdgeIterator::new(&kernel, e);
    let mut seen = Vec::new();
    while let Some(x) = it.next() {
        seen.push(x);
    }
    // the two half-edges that end at the vertex where edge 0 ends
    assert_eq!(seen, vec![edge_id(0), edge_id(4)]);
    let end = kernel.edge(kernel.edge(e).next).vertex;
    for x in seen {
        assert_eq!(kernel.edge(kernel.edge(x).next).vertex, end);
    }
    let around = kernel.next_edge_around_vertex(e);
    assert_eq!(around, edge_id(3));
    assert_eq!(kernel.edge(around).vertex, kernel.edge(e).vertex);
}

#[test]
fn circulators_step_and_compare() {
    let kernel = ConnectivityKernel::from_loop(5);
    let c = EdgeCirculator::new(&kernel, edge_id(0));
    assert_eq!(c.next().edge_id(), edge_id(1));
    assert_eq!(c.prev().edge_id(), edge_id(4));
    assert_eq!(c.advance(Direction::Forward).edge_id(), edge_id(1));
    assert_eq!(c.advance(Direction::Backward).edge_id(), edge_id(4));
    assert!(c.next().prev() == c);
    assert!(c.next() != c);
    assert_eq!(c.vertex_id(), vertex_id(0));
    assert_eq!(c.face_id(), face_id(0));
    assert_eq!(c.edge().next, edge_id(1));

    let mut d = DirectedEdgeCirculator::new(&kernel, edge_id(0), Direction::Backward);
    assert_eq!(d.direction(), Direction::Backward);
    assert_eq!(d.next().edge_id(), edge_id(4));
    assert_eq!(d.prev().edge_id(), edge_id(1));
    assert_eq!(d.advance(Direction::Forward).edge_id(), edge_id(1));
    assert_eq!(d.advance(Direction::Backward).edge_id(), edge_id(4));
    d.set_direction(Direction::Forward);
    assert_eq!(d.direction(), Direction::Forward);
    assert_eq!(d.next().edge_id(), edge_id(1));
    assert_eq!(d.edge().prev, edge_id(4));
    assert_eq!(d.vertex_id(), vertex_id(0));
    assert_eq!(d.face_id(), face_id(0));
    assert_eq!(Direction::Forward.reverse(), Direction::Backward);
    assert_eq!(Direction::Backward.reverse(), Direction::Forward);
}
