use mixingcut::graph::{parse_graph, symmetric_triplets, Edge, GraphError, GraphInput, Triplet};

fn parse(text: &str, correction: usize) -> GraphInput {
    parse_graph(&text.as_bytes().to_vec(), correction).unwrap()
}

fn ends(g: &GraphInput) -> Vec<(usize, usize)> {
    g.edges.iter().map(|e: &Edge| (e.u, e.v)).collect()
}

fn weights(g: &GraphInput) -> Vec<Option<String>> {
    g.edges
        .iter()
        .map(|e: &Edge| e.weight.as_ref().map(|w| String::from_utf8(w.clone()).unwrap()))
        .collect()
}

fn entries_at(ts: &[Triplet], i: usize, j: usize) -> Vec<(usize, bool)> {
    ts.iter().filter(|t| t.row == i && t.col == j).map(|t| (t.edge, t.half)).collect()
}

#[test]
fn triangle_file() {
    let g = parse("3\n1 2 1\n1 3 1\n2 3 1\n", 1);
    assert_eq!(g.n, 3);
    assert_eq!(ends(&g), vec![(0, 1), (0, 2), (1, 2)]);
    assert_eq!(weights(&g), vec![Some("1".to_string()), Some("1".to_string()), Some("1".to_string())]);
}

#[test]
fn complete_graph_on_four_vertices() {
    let g = parse("4\n1 2 1\n1 3 1\n1 4 1\n2 3 1\n2 4 1\n3 4 1\n", 1);
    assert_eq!(g.n, 4);
    assert_eq!(ends(&g), vec![(0, 1), (0, 2), (0, 3), (1, 2), (1, 3), (2, 3)]);
    assert_eq!(symmetric_triplets(&g).len(), 12);
}

#[test]
fn bipartite_two_by_three() {
    let g = parse("5\n1 3\n1 4\n1 5\n2 3\n2 4\n2 5\n", 1);
    assert_eq!(g.n, 5);
    assert_eq!(ends(&g), vec![(0, 2), (0, 3), (0, 4), (1, 2), (1, 3), (1, 4)]);
    assert_eq!(weights(&g), vec![None; 6]);
}

#[test]
fn single_weighted_edge() {
    let g = parse("2\n1 2 2.5\n", 1);
    assert_eq!(g.n, 2);
    assert_eq!(ends(&g), vec![(0, 1)]);
    assert_eq!(weights(&g), vec![Some("2.5".to_string())]);
    let ts = symmetric_triplets(&g);
    assert_eq!(
        ts,
        vec![
            Triplet { row: 0, col: 1, edge: 0, half: true },
            Triplet { row: 1, col: 0, edge: 0, half: true },
        ]
    );
}

#[test]
fn graph_without_edges() {
    let g = parse("2\n", 1);
    assert_eq!(g.n, 2);
    assert!(g.edges.is_empty());
    assert!(symmetric_triplets(&g).is_empty());
    let g = parse("2", 1);
    assert_eq!(g.n, 2);
    assert!(g.edges.is_empty());
}

#[test]
fn bad_vertex_count_is_rejected() {
    for text in ["", "\n3\n", "x\n1 2\n", "3 4\n1 2\n", "-3\n", "3.0\n", "99999999999999999999999\n"] {
        assert_eq!(
            parse_graph(&text.as_bytes().to_vec(), 1).unwrap_err(),
            GraphError::BadVertexCount,
            "{:?}",
            text
        );
    }
}

#[test]
fn vertex_count_allows_surrounding_space_and_plus() {
    assert_eq!(parse("  7 \r\n", 1).n, 7);
    assert_eq!(parse("+7\n", 1).n, 7);
}

#[test]
fn malformed_lines_are_skipped() {
    let text = "3\n1 2 x\n1 a\n1\n1 2 3 4\n0 1\n1 4\n\n   \n1 2 .\n1 2 e5\n1 2 1e\n1 2 1.2.3\n1 2 inf\n2 3 7\n";
    let g = parse(text, 1);
    assert_eq!(ends(&g), vec![(1, 2)]);
    assert_eq!(weights(&g), vec![Some("7".to_string())]);
}

#[test]
fn weight_forms_that_are_read() {
    let text = "3\n1 2 .5\n1 2 3.\n1 2 1e-3\n1 2 -2\n1 2 +4E+2\n\t1\t2\t0.25\r\n";
    let g = parse(text, 1);
    assert_eq!(
        weights(&g),
        vec![
            Some(".5".to_string()),
            Some("3.".to_string()),
            Some("1e-3".to_string()),
            Some("-2".to_string()),
            Some("+4E+2".to_string()),
            Some("0.25".to_string()),
        ]
    );
    assert_eq!(ends(&g), vec![(0, 1); 6]);
}

#[test]
fn index_correction_is_subtracted() {
    let g = parse("3\n0 1\n1 2 4\n2 3\n", 0);
    assert_eq!(ends(&g), vec![(0, 1), (1, 2)]);
    let g = parse("3\n3 4\n2 2\n", 2);
    assert_eq!(ends(&g), vec![(1, 2), (0, 0)]);
}

#[test]
fn self_loop_goes_whole_on_the_diagonal() {
    let g = parse("2\n1 1 3\n", 1);
    let ts = symmetric_triplets(&g);
    assert_eq!(ts, vec![Triplet { row: 0, col: 0, edge: 0, half: false }]);
}

#[test]
fn loaded_matrix_is_symmetric() {
    let g = parse("4\n1 2 1\n2 1 3\n1 3 2\n4 4 5\n3 2\n1 2 -1\n", 1);
    let ts = symmetric_triplets(&g);
    assert_eq!(ts.len(), 11);
    for i in 0..4 {
        for j in 0..4 {
            assert_eq!(entries_at(&ts, i, j), entries_at(&ts, j, i));
        }
    }
    assert_eq!(entries_at(&ts, 0, 1), vec![(0, true), (1, true), (5, true)]);
}
