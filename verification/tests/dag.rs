use dscale::dag::IsSameVertex;
use dscale::dag::RoundBasedDAG;
use dscale::dag::Vertex;
use dscale::dag::VertexId;

fn id(round: usize, source: usize) -> VertexId {
    VertexId { round, source }
}

fn vertex(round: usize, source: usize, edges: &[(usize, usize)]) -> Vertex {
    Vertex { round, source, strong_edges: edges.iter().map(|e| id(e.0, e.1)).collect() }
}

#[test]
fn new_graph_has_one_round_of_unconnected_vertices() {
    let mut dag = RoundBasedDAG::New(4);
    assert_eq!(dag.round_count(), 1);
    assert_eq!(dag.round(0).len(), 4);
    for source in 0..4 {
        let genesis = dag.round(0)[source].as_ref().expect("a genesis vertex");
        assert_eq!((genesis.round, genesis.source), (0, source));
        assert!(genesis.strong_edges.is_empty());
    }
    assert!(dag.PathExists(id(0, 1), id(0, 1)));
    assert!(!dag.PathExists(id(0, 1), id(0, 2)));
    assert!(IsSameVertex(&id(3, 4), &id(3, 4)));
    assert!(!IsSameVertex(&id(3, 4), &id(4, 3)));
}

#[test]
fn paths_follow_edges_through_rounds() {
    let mut dag = RoundBasedDAG::New(3);
    dag.AddVertex(vertex(1, 0, &[(0, 0), (0, 1)]));
    dag.AddVertex(vertex(1, 2, &[(0, 2)]));
    dag.AddVertex(vertex(2, 1, &[(1, 0)]));
    dag.AddVertex(vertex(3, 1, &[(2, 1), (1, 2)]));
    assert_eq!(dag.round_count(), 4);
    assert!(dag.PathExists(id(2, 1), id(0, 0)));
    assert!(dag.PathExists(id(2, 1), id(0, 1)));
    assert!(!dag.PathExists(id(2, 1), id(0, 2)));
    assert!(dag.PathExists(id(3, 1), id(0, 2)));
    assert!(dag.PathExists(id(3, 1), id(1, 0)));
    assert!(!dag.PathExists(id(1, 0), id(2, 1)));
    assert!(!dag.PathExists(id(1, 1), id(0, 0)));
    assert!(dag.PathExists(id(1, 1), id(1, 1)));
    assert!(dag.PathExists(id(3, 1), id(0, 0)));
}

#[test]
fn search_ends_on_cycles_and_repeated_edges() {
    let mut dag = RoundBasedDAG::New(2);
    dag.AddVertex(vertex(1, 0, &[(1, 1), (1, 1), (0, 0)]));
    dag.AddVertex(vertex(1, 1, &[(1, 0), (1, 1)]));
    assert!(dag.PathExists(id(1, 0), id(0, 0)));
    assert!(dag.PathExists(id(1, 1), id(0, 0)));
    assert!(!dag.PathExists(id(1, 1), id(0, 1)));
    assert!(dag.PathExists(id(1, 0), id(1, 1)));
}

#[test]
fn add_vertex_replaces_and_grows_by_one_round() {
    let mut dag = RoundBasedDAG::New(2);
    assert!(dag.can_take(&vertex(1, 1, &[(0, 0)])));
    assert!(dag.can_take(&vertex(1, 1, &[(1, 0)])));
    assert!(!dag.can_take(&vertex(2, 1, &[])));
    assert!(!dag.can_take(&vertex(1, 2, &[])));
    assert!(!dag.can_take(&vertex(1, 1, &[(2, 0)])));
    assert!(!dag.can_take(&vertex(1, 1, &[(0, 2)])));
    dag.AddVertex(vertex(1, 1, &[(0, 0)]));
    assert_eq!(dag.round_count(), 2);
    assert!(dag.round(1)[0].is_none());
    assert!(dag.PathExists(id(1, 1), id(0, 0)));
    dag.AddVertex(vertex(1, 1, &[(0, 1)]));
    assert_eq!(dag.round_count(), 2);
    assert!(!dag.PathExists(id(1, 1), id(0, 0)));
    assert!(dag.PathExists(id(1, 1), id(0, 1)));
    dag.AddVertex(vertex(0, 0, &[(1, 1)]));
    assert!(dag.PathExists(id(0, 0), id(0, 1)));
}
