use chariot_engine_core::graph_matching::{
    edge_row, is_legal_exchange, GraphError, Trade, TradeGraph,
};

fn offer(user: &str, item: &str, have: u64, min: u64, top: u64) -> Trade {
    Trade {
        user_id: user.to_string(),
        have_watch: item.to_string(),
        have_value: have,
        min_acceptable_value: min,
        max_cash_top_up: top,
    }
}

fn sample_offers() -> Vec<Trade> {
    vec![
        offer("u0", "W0", 1000, 900, 200),
        offer("u1", "W1", 1200, 1000, 300),
        offer("u2", "W0", 1100, 0, 1000),
        offer("u3", "W3", 500, 400, 0),
        offer("u4", "W4", 5000, 4000, 10),
        offer("u5", "W5", 450, 0, 5000),
    ]
}

#[test]
fn legal_when_all_three_parts_hold() {
    let a = offer("a", "W1", 1000, 900, 200);
    let b = offer("b", "W2", 1200, 1000, 300);
    assert!(is_legal_exchange(&a, &b));
    assert!(is_legal_exchange(&b, &a));
}

#[test]
fn illegal_when_items_are_the_same() {
    let a = offer("a", "W1", 1000, 0, 1000);
    let b = offer("b", "W1", 1000, 0, 1000);
    assert!(!is_legal_exchange(&a, &b));
    assert!(!is_legal_exchange(&a, &a));
}

#[test]
fn illegal_when_value_is_below_the_minimum() {
    let a = offer("a", "W1", 999, 0, 1000);
    let b = offer("b", "W2", 1200, 1000, 1000);
    assert!(!is_legal_exchange(&a, &b));
    let exact = offer("a", "W1", 1000, 0, 1000);
    assert!(is_legal_exchange(&exact, &b));
}

#[test]
fn illegal_when_the_excess_is_above_the_top_up() {
    let a = offer("a", "W1", 1201, 0, 0);
    let b = offer("b", "W2", 1000, 0, 200);
    assert!(!is_legal_exchange(&a, &b));
    let exact = offer("a", "W1", 1200, 0, 0);
    assert!(is_legal_exchange(&exact, &b));
}

#[test]
fn a_less_valuable_item_needs_no_top_up() {
    let a = offer("a", "W1", 10, 0, 0);
    let b = offer("b", "W2", u64::MAX, 0, 0);
    assert!(is_legal_exchange(&a, &b));
    assert!(!is_legal_exchange(&b, &a));
}

#[test]
fn two_offer_scenario_has_both_edges() {
    let graph = TradeGraph::build(vec![
        offer("A", "W1", 1000, 900, 200),
        offer("B", "W2", 1200, 1000, 300),
    ]);
    assert_eq!(graph.len(), 2);
    assert_eq!(graph.edges(), &vec![vec![1usize], vec![0usize]]);
    assert!(graph.contains_edge(0, 1));
    assert!(graph.contains_edge(1, 0));
    assert!(graph.is_valid_trade(0, 1));
    assert!(graph.is_valid_trade(1, 0));
}

#[test]
fn edges_are_exactly_the_legal_pairs() {
    let offers = sample_offers();
    let graph = TradeGraph::build(offers.clone());
    let n = offers.len();
    for i in 0..n {
        for j in 0..n {
            let legal = is_legal_exchange(&offers[i], &offers[j]);
            assert_eq!(graph.contains_edge(i, j), legal);
            assert_eq!(graph.is_valid_trade(i, j), legal);
            assert_eq!(graph.edges()[i].contains(&j), legal);
        }
    }
}

#[test]
fn no_offer_points_to_itself() {
    let graph = TradeGraph::build(sample_offers());
    for i in 0..graph.len() {
        assert!(!graph.contains_edge(i, i));
        assert!(!graph.edges()[i].contains(&i));
    }
}

#[test]
fn rows_rise_and_hold_no_index_twice() {
    let graph = TradeGraph::build(sample_offers());
    for row in graph.edges() {
        for w in row.windows(2) {
            assert!(w[0] < w[1]);
        }
    }
}

#[test]
fn expected_rows_of_the_sample() {
    let graph = TradeGraph::build(sample_offers());
    let expected: Vec<Vec<usize>> = vec![
        vec![1, 5],
        vec![0, 2, 5],
        vec![1, 5],
        vec![2, 5],
        vec![5],
        vec![2, 3],
    ];
    assert_eq!(graph.edges(), &expected);
}

#[test]
fn parallel_and_sequential_builds_agree() {
    let offers = sample_offers();
    let parallel = TradeGraph::build(offers.clone());
    let sequential = TradeGraph::build_sequential(offers.clone());
    assert_eq!(parallel.edges(), sequential.edges());
    assert_eq!(parallel.trades(), sequential.trades());
    for i in 0..offers.len() {
        assert_eq!(parallel.edges()[i], edge_row(&offers, i));
    }
}

#[test]
fn repeated_builds_agree_on_a_large_input() {
    let offers: Vec<Trade> = (0..300u64)
        .map(|i| offer(&format!("u{}", i), &format!("W{}", i % 7), 100 + (i * 37) % 900, (i * 13) % 500, (i * 29) % 400))
        .collect();
    let first = TradeGraph::build(offers.clone());
    let second = TradeGraph::build(offers.clone());
    let third = TradeGraph::build_sequential(offers);
    assert_eq!(first.edges(), second.edges());
    assert_eq!(first.edges(), third.edges());
}

#[test]
fn empty_input_gives_the_empty_graph() {
    let graph = TradeGraph::build(Vec::new());
    assert_eq!(graph.len(), 0);
    assert!(graph.edges().is_empty());
    assert!(graph.trades().is_empty());
    let fresh = TradeGraph::new();
    assert_eq!(fresh.len(), 0);
    assert!(fresh.edges().is_empty());
}

#[test]
fn build_non_empty_rejects_an_empty_list() {
    assert!(matches!(TradeGraph::build_non_empty(Vec::new()), Err(GraphError::EmptyInput)));
}

#[test]
fn build_non_empty_accepts_offers() {
    let built = TradeGraph::build_non_empty(sample_offers());
    match built {
        Ok(graph) => assert_eq!(graph.edges(), TradeGraph::build(sample_offers()).edges()),
        Err(_) => panic!("a list of offers was rejected"),
    }
}

#[test]
fn build_from_trades_replaces_the_graph() {
    let mut graph = TradeGraph::new();
    graph.build_from_trades(sample_offers());
    assert_eq!(graph.len(), 6);
    assert_eq!(graph.edges(), TradeGraph::build(sample_offers()).edges());
    graph.build_from_trades(vec![offer("x", "W", 1, 0, 0)]);
    assert_eq!(graph.len(), 1);
    assert_eq!(graph.edges(), &vec![Vec::<usize>::new()]);
}

#[test]
fn an_index_out_of_range_has_no_edges() {
    let graph = TradeGraph::build(sample_offers());
    assert!(!graph.contains_edge(6, 0));
    assert!(!graph.contains_edge(0, 6));
    assert!(!graph.contains_edge(usize::MAX, usize::MAX));
}
