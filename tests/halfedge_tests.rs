use halfedge::{ConnectivityKernel, Direction, DirectedEdgeCirculator, Index};

#[test]
fn test_from_loop() {
    for n in 3..10 {
        let n: Index = n;
        let kernel = ConnectivityKernel::from_loop(n);
        let face = kernel.first_face();

        assert_eq!(kernel.count_edges_around_face(face) as Index, n);

        let mut i = 0;
        let mut walk = kernel.walk_edges_around_face(face);
        while let Some(e) = walk.next() {
            assert!((e.handle as usize - 1) < kernel.edges().len());
            assert_eq!(
                kernel.edge(e).vertex,
                kernel.edge(kernel.edge(kernel.edge(e).opposite).next).vertex
            );
            i += 1;
        }
        assert_eq!(i, n);

        let mut ids = kernel.edge_ids();
        while let Some(e) = ids.next() {
            assert_eq!(kernel.edge(kernel.edge(e).opposite).opposite, e);
            assert_eq!(kernel.edge(kernel.edge(e).next).prev, e);
            assert_eq!(kernel.edge(kernel.edge(e).prev).next, e);
        }

        let mut walk = kernel.walk_edges_around_face_reverse(face);
        while let Some(e) = walk.next() {
            assert!((e.handle as usize - 1) < kernel.edges().len());
            assert_eq!(kernel.edge(e).face, face);
        }

        let face2 = kernel.edge(kernel.edge(kernel.face(face).first_edge).opposite).face;
        let mut i = 0;
        let mut walk = kernel.walk_edges_around_face_reverse(face2);
        while let Some(e) = walk.next() {
            assert!((e.handle as usize - 1) < kernel.edges().len());
            assert_eq!(kernel.edge(e).face, face2);
            i += 1;
        }

        assert!(face2 != face);
        assert_eq!(i, n);
    }
}

#[test]
fn test_split_face_1() {
    let mut kernel = ConnectivityKernel::from_loop(4);
    let f1 = kernel.first_face();
    let e1 = kernel.face(f1).first_edge;
    let e2 = kernel.edge(e1).next;
    let e3 = kernel.edge(e2).next;
    let e4 = kernel.edge(e3).next;
    assert_eq!(kernel.edge(e4).next, e1);
    assert_eq!(kernel.count_edges_around_face(f1), 4);

    // x---e1---->x
    // ^          |
    // |          |
    // |          e2
    // e4   f1    |
    // |          |
    // |          v
    // x<-----e3--x

    let f2 = kernel.split_face(e3, e1);

    // x---e1---->x
    // ^ \ ^   f1 |
    // | e5 \     |
    // |   \ \    e2
    // e4   \ \   |
    // |     \ e6 |
    // | f2   v \ v
    // x<-----e3--x

    assert!(f1 != f2);
    assert!(kernel.face(f1).first_edge != kernel.face(f2).first_edge);

    assert_eq!(kernel.edge(kernel.face(f1).first_edge).face, f1);
    assert_eq!(kernel.edge(kernel.face(f2).first_edge).face, f2);

    let e5 = kernel.edge(e4).next;
    let e6 = kernel.edge(e2).next;

    assert_eq!(kernel.edge(e6).next, e1);
    assert_eq!(kernel.edge(e1).prev, e6);
    assert_eq!(kernel.edge(e5).next, e3);
    assert_eq!(kernel.edge(e3).prev, e5);
    assert_eq!(kernel.edge(e6).prev, e2);
    assert_eq!(kernel.edge(e2).next, e6);
    assert_eq!(kernel.edge(e5).prev, e4);
    assert_eq!(kernel.edge(e4).next, e5);

    assert_eq!(kernel.edge(e1).face, f1);
    assert_eq!(kernel.edge(e2).face, f1);
    assert_eq!(kernel.edge(e6).face, f1);
    assert_eq!(kernel.edge(e3).face, f2);
    assert_eq!(kernel.edge(e4).face, f2);
    assert_eq!(kernel.edge(e5).face, f2);

    assert_eq!(kernel.count_edges_around_face(f1), 3);
    assert_eq!(kernel.count_edges_around_face(f2), 3);
}

#[test]
fn test_split_face_2() {
    let mut kernel = ConnectivityKernel::from_loop(10);
    let f1 = kernel.first_face();

    let e1 = kernel.face(f1).first_edge;
    let e2 = kernel.edge(e1).next;
    let e3 = kernel.edge(e2).next;
    let e4 = kernel.edge(e3).next;
    let _e5 = kernel.edge(e4).next;

    let f2 = kernel.split_face(e4, e2);

    let mut walk = kernel.walk_edges_around_face(f2);
    while let Some(e) = walk.next() {
        assert_eq!(kernel.edge(e).face, f2);
    }

    let mut walk = kernel.walk_edges_around_face(f1);
    while let Some(e) = walk.next() {
        assert_eq!(kernel.edge(e).face, f1);
    }

    for dir in [Direction::Forward, Direction::Backward].iter() {
        for face in [f1, f2].iter() {
            let mut it = DirectedEdgeCirculator::new(&kernel, kernel.face(*face).first_edge, *dir);
            let stop = it.prev();
            loop {
                assert_eq!(it.face_id(), *face);
                if it == stop {
                    break;
                }
                it = it.next();
            }
        }
    }
}
