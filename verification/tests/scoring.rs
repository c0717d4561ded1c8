use chariot_engine_core::graph_matching::{LoopType, Ratio, Trade, TradeGraph};

fn offer(user: &str, item: &str, have: u64, min: u64, top: u64) -> Trade {
    Trade {
        user_id: user.to_string(),
        have_watch: item.to_string(),
        have_value: have,
        min_acceptable_value: min,
        max_cash_top_up: top,
    }
}

fn as_fraction(r: Ratio) -> f64 {
    r.numerator as f64 / r.denominator as f64
}

#[test]
fn record_of_the_two_offer_scenario() {
    let graph = TradeGraph::build(vec![
        offer("A", "W1", 1000, 900, 200),
        offer("B", "W2", 1200, 1000, 300),
    ]);
    let record = graph.create_loop_data(vec![0, 1], LoopType::TwoWay);
    assert_eq!(record.loop_type, LoopType::TwoWay);
    assert_eq!(record.indexes, vec![0, 1]);
    assert_eq!(record.users, vec!["A".to_string(), "B".to_string()]);
    assert_eq!(record.watches, vec!["W1".to_string(), "W2".to_string()]);
    assert_eq!(record.values, vec![1000, 1200]);
    assert_eq!(record.cash_flows, vec![-200, 200]);
    assert_eq!(record.total_watch_value, 2200);
    assert_eq!(record.total_cash_flow, 400);
    assert_eq!(record.value_efficiency, Ratio { numerator: 2200, denominator: 2600 });
    assert!((as_fraction(record.value_efficiency) - 0.8462).abs() < 0.0001);
}

#[test]
fn record_follows_the_order_of_the_indices() {
    let graph = TradeGraph::build(vec![
        offer("A", "W1", 1000, 900, 200),
        offer("B", "W2", 1200, 1000, 300),
    ]);
    let record = graph.create_loop_data(vec![1, 0], LoopType::TwoWay);
    assert_eq!(record.indexes, vec![1, 0]);
    assert_eq!(record.users, vec!["B".to_string(), "A".to_string()]);
    assert_eq!(record.values, vec![1200, 1000]);
    assert_eq!(record.cash_flows, vec![200, -200]);
    assert_eq!(record.total_watch_value, 2200);
    assert_eq!(record.total_cash_flow, 400);
}

#[test]
fn record_of_three_offers() {
    let graph = TradeGraph::build(vec![
        offer("a", "Wa", 100, 250, 200),
        offer("b", "Wb", 200, 50, 0),
        offer("c", "Wc", 300, 150, 50),
    ]);
    let record = graph.create_loop_data(vec![0, 1, 2], LoopType::ThreeWay);
    assert_eq!(record.loop_type, LoopType::ThreeWay);
    assert_eq!(record.indexes, vec![0, 1, 2]);
    assert_eq!(record.users, vec!["a".to_string(), "b".to_string(), "c".to_string()]);
    assert_eq!(record.watches, vec!["Wa".to_string(), "Wb".to_string(), "Wc".to_string()]);
    assert_eq!(record.values, vec![100, 200, 300]);
    assert_eq!(record.cash_flows, vec![-100, -100, 200]);
    assert_eq!(record.total_watch_value, 600);
    assert_eq!(record.total_cash_flow, 400);
    assert_eq!(record.value_efficiency, Ratio { numerator: 600, denominator: 1000 });
}

#[test]
fn equal_values_move_no_cash() {
    let graph = TradeGraph::build(vec![
        offer("a", "Wa", 700, 0, 0),
        offer("b", "Wb", 700, 0, 0),
        offer("c", "Wc", 700, 0, 0),
    ]);
    let record = graph.create_loop_data(vec![2, 0, 1], LoopType::ThreeWay);
    assert_eq!(record.cash_flows, vec![0, 0, 0]);
    assert_eq!(record.total_cash_flow, 0);
    assert_eq!(record.total_watch_value, 2100);
    assert_eq!(record.value_efficiency, Ratio { numerator: 2100, denominator: 2100 });
    assert_eq!(as_fraction(record.value_efficiency), 1.0);
}

#[test]
fn worthless_items_give_the_defined_zero() {
    let graph = TradeGraph::build(vec![offer("a", "Wa", 0, 0, 0), offer("b", "Wb", 0, 0, 0)]);
    let record = graph.create_loop_data(vec![0, 1], LoopType::TwoWay);
    assert_eq!(record.total_watch_value, 0);
    assert_eq!(record.total_cash_flow, 0);
    assert_eq!(record.value_efficiency, Ratio { numerator: 0, denominator: 1 });
    assert_eq!(as_fraction(record.value_efficiency), 0.0);
}

#[test]
fn efficiency_lies_above_zero_and_at_most_one() {
    let values: [u64; 6] = [1, 7, 1000, 1200, 999_999, u64::MAX];
    let offers: Vec<Trade> = values
        .iter()
        .enumerate()
        .map(|(i, v)| offer(&format!("u{}", i), &format!("W{}", i), *v, 0, 0))
        .collect();
    let graph = TradeGraph::build(offers);
    for i in 0..values.len() {
        for j in 0..values.len() {
            for k in 0..values.len() {
                let record = graph.create_loop_data(vec![i, j, k], LoopType::ThreeWay);
                assert!(record.total_watch_value > 0);
                assert!(record.value_efficiency.numerator > 0);
                assert!(record.value_efficiency.numerator <= record.value_efficiency.denominator);
                assert_eq!(record.value_efficiency.numerator, record.total_watch_value);
                assert_eq!(
                    record.value_efficiency.denominator,
                    record.total_watch_value + record.total_cash_flow
                );
            }
        }
    }
}

#[test]
fn largest_amounts_do_not_overflow() {
    let graph = TradeGraph::build(vec![
        offer("a", "Wa", u64::MAX, 0, 0),
        offer("b", "Wb", 0, 0, 0),
        offer("c", "Wc", u64::MAX, 0, 0),
    ]);
    let record = graph.create_loop_data(vec![0, 1, 2], LoopType::ThreeWay);
    let top = u64::MAX as i128;
    assert_eq!(record.cash_flows, vec![top, -top, 0]);
    assert_eq!(record.total_watch_value, 2 * (u64::MAX as u128));
    assert_eq!(record.total_cash_flow, 2 * (u64::MAX as u128));
    assert_eq!(
        record.value_efficiency,
        Ratio { numerator: 2 * (u64::MAX as u128), denominator: 4 * (u64::MAX as u128) }
    );
}

#[test]
fn a_single_offer_and_no_offer_can_be_scored() {
    let graph = TradeGraph::build(vec![offer("a", "Wa", 40, 0, 0)]);
    let one = graph.create_loop_data(vec![0], LoopType::TwoWay);
    assert_eq!(one.values, vec![40]);
    assert_eq!(one.cash_flows, vec![0]);
    assert_eq!(one.value_efficiency, Ratio { numerator: 40, denominator: 40 });
    let none = graph.create_loop_data(Vec::new(), LoopType::TwoWay);
    assert!(none.indexes.is_empty());
    assert!(none.cash_flows.is_empty());
    assert_eq!(none.total_watch_value, 0);
    assert_eq!(none.value_efficiency, Ratio { numerator: 0, denominator: 1 });
}

#[test]
fn labels_of_the_loop_types() {
    assert_eq!(LoopType::TwoWay.label(), "2-way");
    assert_eq!(LoopType::ThreeWay.label(), "3-way");
}
