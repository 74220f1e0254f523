use ferres_db_core::error::FerresError;
use ferres_db_core::graph::{traverse_bfs, RelationGraph};
use std::collections::HashSet;

fn graph_of(nodes: &[(&str, &[&str])]) -> RelationGraph {
    let mut g = RelationGraph::new();
    for (id, rels) in nodes {
        g.insert_node(id, rels.iter().map(|s| s.to_string()).collect());
    }
    g
}

#[test]
fn bfs_depth_0_returns_only_start() {
    let g = graph_of(&[("a", &[])]);
    let points = traverse_bfs(&g, "a", 0).unwrap();
    assert_eq!(points.len(), 1);
    assert_eq!(points[0], "a");
}

#[test]
fn bfs_depth_1_returns_start_and_neighbors() {
    let g = graph_of(&[("a", &["b", "c"]), ("b", &[]), ("c", &[])]);
    let points = traverse_bfs(&g, "a", 1).unwrap();
    assert_eq!(points.len(), 3);
    let ids: HashSet<&str> = points.iter().map(|p| p.as_str()).collect();
    assert!(ids.contains("a"));
    assert!(ids.contains("b"));
    assert!(ids.contains("c"));
}

#[test]
fn bfs_depth_2_returns_two_hops() {
    let g = graph_of(&[("a", &["b"]), ("b", &["c"]), ("c", &[])]);
    let points = traverse_bfs(&g, "a", 2).unwrap();
    assert_eq!(points.len(), 3);
    let ids: HashSet<&str> = points.iter().map(|p| p.as_str()).collect();
    assert!(ids.contains("a"));
    assert!(ids.contains("b"));
    assert!(ids.contains("c"));
}

#[test]
fn bfs_empty_start_id_errors() {
    let g = RelationGraph::new();
    let err = traverse_bfs(&g, "", 1).unwrap_err();
    assert!(matches!(err, FerresError::InvalidPointId(_)));
}

#[test]
fn bfs_start_not_found_errors() {
    let g = RelationGraph::new();
    let err = traverse_bfs(&g, "missing", 1).unwrap_err();
    assert!(matches!(err, FerresError::PointNotFound(_)));
}

#[test]
fn bfs_stops_at_depth_and_skips_dangling_ids() {
    let g = graph_of(&[("a", &["b", "ghost", ""]), ("b", &["c", "a"]), ("c", &["d"]), ("d", &[])]);
    let one = traverse_bfs(&g, "a", 1).unwrap();
    assert_eq!(one, vec!["a".to_string(), "b".to_string()]);
    let two = traverse_bfs(&g, "a", 2).unwrap();
    assert_eq!(two, vec!["a".to_string(), "b".to_string(), "c".to_string()]);
    let all = traverse_bfs(&g, "a", 10).unwrap();
    assert_eq!(all.len(), 4);
}

#[test]
fn add_relation_updates_both_points() {
    let mut g = graph_of(&[("a", &[]), ("b", &[])]);
    g.add_relation("a", "b").unwrap();
    assert_eq!(g.relations_of("a"), Some(vec!["b".to_string()]));
    assert_eq!(g.relations_of("b"), Some(vec!["a".to_string()]));
    // relating them again does not duplicate the relation
    g.add_relation("b", "a").unwrap();
    assert_eq!(g.relations_of("a"), Some(vec!["b".to_string()]));
    assert_eq!(g.relations_of("b"), Some(vec!["a".to_string()]));
}

#[test]
fn add_relation_same_id_returns_error() {
    let mut g = graph_of(&[("a", &[])]);
    let result = g.add_relation("a", "a");
    assert!(result.is_err());
    match result {
        Err(FerresError::InvalidPointId(m)) => assert_eq!(m, "from and to must be different points"),
        _ => panic!("expected InvalidPointId"),
    }
}

#[test]
fn add_relation_nonexistent_returns_error() {
    let mut g = graph_of(&[("a", &[])]);
    let result = g.add_relation("a", "ghost");
    assert!(result.is_err());
    match result {
        Err(FerresError::PointNotFound(m)) => assert_eq!(m, "ghost"),
        _ => panic!("expected PointNotFound"),
    }
    match g.add_relation("nobody", "a") {
        Err(FerresError::PointNotFound(m)) => assert_eq!(m, "nobody"),
        _ => panic!("expected PointNotFound"),
    }
}

#[test]
fn related_points_reach_each_other_in_one_hop() {
    let mut g = graph_of(&[("a", &[]), ("b", &[]), ("c", &[])]);
    g.add_relation("a", "b").unwrap();
    assert_eq!(traverse_bfs(&g, "a", 1).unwrap(), vec!["a".to_string(), "b".to_string()]);
    assert_eq!(traverse_bfs(&g, "b", 1).unwrap(), vec!["b".to_string(), "a".to_string()]);
    assert_eq!(traverse_bfs(&g, "c", 1).unwrap(), vec!["c".to_string()]);
    assert_eq!(g.len(), 3);
    assert!(g.contains("c"));
    assert!(!g.contains("d"));
}

#[test]
fn traversal_lists_ids_by_hop_distance() {
    // s -> a -> c, s -> b, b -> d -> e, c -> s
    let g = graph_of(&[
        ("s", &["a", "b"]),
        ("a", &["c"]),
        ("b", &["d"]),
        ("c", &["s"]),
        ("d", &["e"]),
        ("e", &[]),
    ]);
    let ids = traverse_bfs(&g, "s", 3).unwrap();
    assert_eq!(ids, vec!["s", "a", "b", "c", "d", "e"]);
    let two = traverse_bfs(&g, "s", 2).unwrap();
    assert_eq!(two, vec!["s", "a", "b", "c", "d"]);
}
