use exchange_rate_path::handler::GraphHandler;
use exchange_rate_path::parse::ExchangeRequest;
use exchange_rate_path::quote::PriceUpdate;
use exchange_rate_path::solver::{Exchanger, PathError, RateTable, ZERO_FACTOR};


fn bits(x: f64) -> u64 {
    x.to_bits()
}

fn product(a: u64, b: u64) -> u64 {
    (f64::from_bits(a) * f64::from_bits(b)).to_bits()
}

fn greater(a: u64, b: u64) -> bool {
    f64::from_bits(a) > f64::from_bits(b)
}

fn read_factor(text: &str) -> Option<u64> {
    text.parse::<f64>().ok().map(f64::to_bits)
}

fn quote(exchange: &str, source: &str, destination: &str, forward: &str, backward: &str) -> PriceUpdate {
    PriceUpdate::from_input(
        &["2017-11-01T09:42:23+00:00", exchange, source, destination, forward, backward],
        read_factor,
    )
    .unwrap()
}

fn handler_of(quotes: Vec<PriceUpdate>) -> GraphHandler {
    let mut graph_handler = GraphHandler::default();
    for q in quotes {
        graph_handler.handle_update(q);
    }
    graph_handler
}

fn solve(graph_handler: &GraphHandler) -> RateTable {
    Exchanger::best_rates(graph_handler, product, greater)
}

#[test]
fn test_single_update_from_one_exchange() {
    let price_update = PriceUpdate::from_input(
        &["2017-11-01T09:42:23+00:00", "KRAKEN", "USD", "LIT", "2", "0.5"],
        read_factor,
    )
    .unwrap();

    let mut graph_handler: GraphHandler = GraphHandler::default();

    graph_handler.handle_update(price_update);

    let best_rates = solve(&graph_handler);

    let path = Exchanger::path(0, 1, &best_rates);
    assert_eq!(Ok(Some(vec![0_usize, 1_usize])), path);
}

#[test]
fn test_two_update_from_same_exchange() {
    let price_updates = vec![
        quote("KRAKEN", "USD", "LIT", "2", "0.5"),
        quote("KRAKEN", "LIT", "EUR", "1.5", "0.666666667"),
    ];

    let graph_handler: GraphHandler = handler_of(price_updates);

    let _best_rates = solve(&graph_handler);
}

#[test]
fn test_two_update_from_different_exchanges() {
    let price_updates = vec![
        quote("KRAKEN", "USD", "LIT", "0.001", "1000"),
        quote("EXCI", "LIT", "EUR", "1000", "0.001"),
    ];

    let graph_handler: GraphHandler = handler_of(price_updates);

    let best_rates = solve(&graph_handler);

    let path = Exchanger::path(0, 3, &best_rates);
    assert_eq!(Ok(Some(vec![0_usize, 1_usize, 2_usize, 3_usize])), path);
}

#[test]
fn test_multiple_update_from_different_exchanges_to_different_currencies() {
    let price_updates = vec![
        quote("KRAKEN", "USD", "LIT", "0.001", "1000"),
        quote("GDAX", "LIT", "EUR", "500", "0.002"),
        quote("EXCI", "USD", "BTC", "0.005", "5000"),
    ];

    let graph_handler: GraphHandler = handler_of(price_updates);

    let _best_rates = solve(&graph_handler);
}

#[test]
fn registry_ids_follow_first_seen_order_across_venues() {
    let graph_handler = handler_of(vec![
        quote("KRAKEN", "USD", "LIT", "0.001", "1000"),
        quote("EXCI", "LIT", "EUR", "1000", "0.001"),
    ]);
    let keys: Vec<(String, String)> = graph_handler.exchange_graph.index_map.iter().cloned().collect();
    assert_eq!(
        vec![
            ("KRAKEN".to_string(), "USD".to_string()),
            ("KRAKEN".to_string(), "LIT".to_string()),
            ("EXCI".to_string(), "LIT".to_string()),
            ("EXCI".to_string(), "EUR".to_string()),
        ],
        keys
    );
}

#[test]
fn path_ends_match_and_product_of_weights_is_the_rate() {
    let graph_handler = handler_of(vec![
        quote("KRAKEN", "USD", "LIT", "0.25", "3.2"),
        quote("KRAKEN", "USD", "EUR", "0.9", "1.11"),
        quote("GDAX", "LIT", "EUR", "3.5", "0.28"),
        quote("EXCI", "EUR", "BTC", "0.0002", "5000"),
    ]);
    let table = solve(&graph_handler);
    let n = graph_handler.exchange_graph.index_map.len();
    for i in 0..n {
        for j in 0..n {
            if let Ok(Some(p)) = Exchanger::path(i, j, &table) {
                assert_eq!(i, p[0]);
                assert_eq!(j, *p.last().unwrap());
                let mut rate = 1.0f64;
                for w in p.windows(2) {
                    let weight = graph_handler.exchange_graph.edge_weight(w[0], w[1]).unwrap();
                    rate *= f64::from_bits(weight);
                }
                if p.len() > 1 {
                    let expected = f64::from_bits(table.rate[i][j]);
                    assert!((rate - expected).abs() <= 1e-9 * expected.abs().max(1.0));
                }
            }
        }
    }
}

#[test]
fn best_rate_prefers_the_longer_but_better_path() {
    let graph_handler = handler_of(vec![
        quote("V", "A", "B", "2", "0.5"),
        quote("V", "B", "C", "3", "0.25"),
        quote("V", "A", "C", "5", "0.1"),
    ]);
    // ids: 0 = V/A, 1 = V/B, 2 = V/C
    let table = solve(&graph_handler);
    assert_eq!(bits(6.0), table.rate[0][2]);
    assert_eq!(Ok(Some(vec![0, 1, 2])), Exchanger::path(0, 2, &table));
    assert_eq!(bits(2.0), table.rate[0][1]);
}

#[test]
fn unknown_node_is_an_error_and_disconnected_pair_has_no_path() {
    let graph_handler = handler_of(vec![quote("V", "A", "B", "2", "0.5"), quote("W", "C", "D", "2", "0.5")]);
    let table = solve(&graph_handler);
    assert_eq!(Err(PathError::UnknownNode), Exchanger::path(0, 4, &table));
    assert_eq!(Err(PathError::UnknownNode), Exchanger::path(9, 0, &table));
    assert_eq!(Ok(None), Exchanger::path(0, 2, &table));
    assert_eq!(ZERO_FACTOR, table.rate[0][2]);
}

#[test]
fn pair_with_itself_has_no_path_without_a_gainful_cycle() {
    let graph_handler = handler_of(vec![quote("V", "A", "B", "2", "0.25")]);
    let table = solve(&graph_handler);
    // A -> B -> A gives 0.5, which beats the starting zero rate
    assert_eq!(bits(0.5), table.rate[0][0]);
    assert_eq!(Ok(Some(vec![0])), Exchanger::path(0, 0, &table));
    let empty = solve(&GraphHandler::new());
    assert_eq!(0, empty.next.len());
    assert_eq!(Err(PathError::UnknownNode), Exchanger::path(0, 0, &empty));
}

#[test]
fn isolated_self_pair_has_no_path() {
    let table = RateTable { rate: vec![vec![0, 0], vec![0, 0]], next: vec![vec![None, Some(1)], vec![None, None]] };
    assert_eq!(Ok(None), Exchanger::path(0, 0, &table));
    assert_eq!(Ok(Some(vec![0, 1])), Exchanger::path(0, 1, &table));
}

#[test]
fn cyclic_first_hops_are_reported_as_unterminated() {
    let table = RateTable {
        rate: vec![vec![0, 0, 0], vec![0, 0, 0], vec![0, 0, 0]],
        next: vec![vec![None, None, Some(1)], vec![None, None, Some(0)], vec![None, None, None]],
    };
    assert_eq!(Err(PathError::Unterminated), Exchanger::path(0, 2, &table));
    let broken = RateTable {
        rate: vec![vec![0, 0, 0], vec![0, 0, 0], vec![0, 0, 0]],
        next: vec![vec![None, None, Some(1)], vec![None, None, None], vec![None, None, None]],
    };
    assert_eq!(Err(PathError::Unterminated), Exchanger::path(0, 2, &broken));
}

fn request(source_exchange: &str, source_currency: &str, destination_exchange: &str, destination_currency: &str) -> ExchangeRequest {
    ExchangeRequest::from_input(&[
        ExchangeRequest::COMMAND_PREFIX,
        source_exchange,
        source_currency,
        destination_exchange,
        destination_currency,
    ])
    .unwrap()
}

#[test]
fn best_rate_names_the_nodes_of_the_path() {
    let graph_handler = handler_of(vec![
        quote("KRAKEN", "USD", "LIT", "0.001", "1000"),
        quote("EXCI", "LIT", "EUR", "1000", "0.001"),
    ]);
    let best = Exchanger::best_rate(&graph_handler, &request("KRAKEN", "USD", "EXCI", "EUR"), product, greater)
        .unwrap()
        .unwrap();
    assert_eq!(bits(1.0), best.rate);
    assert_eq!(
        vec![
            ("KRAKEN".to_string(), "USD".to_string()),
            ("KRAKEN".to_string(), "LIT".to_string()),
            ("EXCI".to_string(), "LIT".to_string()),
            ("EXCI".to_string(), "EUR".to_string()),
        ],
        best.path
    );
}

#[test]
fn best_rate_for_unknown_or_unreachable_nodes() {
    let graph_handler = handler_of(vec![quote("V", "A", "B", "2", "0.5"), quote("W", "C", "D", "2", "0.5")]);
    assert_eq!(
        PathError::UnknownNode,
        Exchanger::best_rate(&graph_handler, &request("V", "A", "X", "B"), product, greater).unwrap_err()
    );
    assert_eq!(
        PathError::UnknownNode,
        Exchanger::best_rate(&graph_handler, &request("Z", "A", "V", "B"), product, greater).unwrap_err()
    );
    assert!(Exchanger::best_rate(&graph_handler, &request("V", "A", "W", "D"), product, greater).unwrap().is_none());
}
