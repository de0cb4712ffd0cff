use common::collections::graph::{Graph, GraphBuilder, GraphData, GraphErr};

#[test]
fn test_graph() {
    let builder = GraphBuilder::new();

    let a = "a".to_owned();
    let b = "b".to_owned();

    let mut g: GraphData<String> = builder.build();
    g.add_node(&a);
    g.add_node(&b);

    g.add_edge(&a, &b).unwrap();

    for x in g.nodes() {
        println!("{}", x);
    }

    let mut it = g.edges();
    while let Some(e) = it.next() {
        println!("{} - {}", e.head, e.tail);
    }
}

#[test]
fn undirected_edges_go_both_ways() {
    let mut g: GraphData<String> = GraphBuilder::new().build();
    let a = "a".to_string();
    let b = "b".to_string();
    assert!(g.add_node(&a));
    assert!(g.add_node(&b));
    assert!(!g.add_node(&a));

    assert_eq!(g.add_edge(&a, &b), Ok(true));
    assert_eq!(g.add_edge(&a, &b), Ok(false));
    assert_eq!(g.add_edge(&b, &a), Ok(false));

    assert_eq!(g.degree(&a), Ok(1));
    assert_eq!(g.degree(&b), Ok(1));
    assert_eq!(g.degree(&"c".to_string()), Err(GraphErr::NodeNotFound));

    let mut it = g.edges();
    let e1 = it.next().unwrap();
    assert_eq!((e1.head.as_str(), e1.tail.as_str()), ("b", "a"));
    let e2 = it.next().unwrap();
    assert_eq!((e2.head.as_str(), e2.tail.as_str()), ("a", "b"));
    assert!(it.next().is_none());
}

#[test]
fn directed_edges_are_one_way() {
    let mut g: GraphData<u64> = GraphBuilder::new().set_directed(true).build();
    assert!(g.is_directed());
    assert!(g.add_node(&1));
    assert!(g.add_node(&2));

    assert_eq!(g.add_edge(&2, &1), Ok(true));
    assert_eq!(g.add_edge(&2, &1), Ok(false));
    assert_eq!(g.add_edge(&1, &7), Err(GraphErr::NodeNotFound));

    assert!(g.contains_node(&1));
    assert!(!g.contains_node(&7));
    assert_eq!(g.nodes(), vec![1, 2]);

    let mut it = g.edges();
    let e = it.next().unwrap();
    assert_eq!((e.head, e.tail), (2, 1));
    assert!(it.next().is_none());
}
