use mev_shield::gnn::{build_transaction_graph, BlockState};
use mev_shield::types::{Address, Transaction};

fn tx(from: u8, to: u8) -> Transaction {
    Transaction {
        from: Address([from; 20]),
        to: Address([to; 20]),
        value: 1,
        gas: 21_000,
        gas_price: 1,
        gas_used: 21_000,
        nonce: 0,
        data: Vec::new(),
        chain_id: 1,
        submission_time: 0,
    }
}

#[test]
fn graph_nodes_edges_and_adjacency() {
    let txs = vec![tx(1, 2), tx(2, 3), tx(1, 2), tx(3, 1)];
    let g = build_transaction_graph(&txs, BlockState { number: 7, timestamp: 0 });
    assert_eq!(g.nodes, vec![Address([1; 20]), Address([2; 20]), Address([3; 20])]);
    assert_eq!(g.edges, vec![(0, 1), (1, 2), (0, 1), (2, 0)]);
    assert_eq!(
        g.adjacency,
        vec![vec![false, true, false], vec![false, false, true], vec![true, false, false]]
    );
    assert_eq!(g.block_number, 7);
    let empty = build_transaction_graph(&[], BlockState { number: 1, timestamp: 0 });
    assert!(empty.nodes.is_empty() && empty.adjacency.is_empty());
}
