//! Data of the DeFi graph analysis: the transaction graph of a block (its accounts,
//! edges and adjacency), the nodes and their kinds, protocol risks and arbitrage paths,
//! and the analyzers' handles. The scoring itself works on floating-point
//! embeddings and stays with the caller.
use vstd::prelude::*;
use crate::types::{Address, Transaction};

verus! {

/// How a graph layer combines the messages of a node's neighbours.
#[derive(Debug, Clone, Copy, PartialEq, Eq, Structural)]
pub enum AggregationType {
    Mean,
    Max,
    Sum,
    Attention,
}

/// An account of the graph.
#[derive(Debug, Clone)]
pub struct AddressNode {
    pub address: String,
    pub balance: u128,
    pub nonce: u64,
    pub is_contract: bool,
}

/// The kind of a DeFi protocol.
#[derive(Debug, Clone)]
pub enum ProtocolType {
    Uniswap,
    Curve,
    Aave,
    Compound,
    MakerDAO,
    Balancer,
    Other(String),
}

/// A protocol of the graph; amounts in wei.
#[derive(Debug, Clone)]
pub struct ProtocolNode {
    pub address: String,
    pub protocol_type: ProtocolType,
    pub tvl: u128,
    pub volume_24h: u128,
}

/// The kind of call an edge stands for.
#[derive(Debug, Clone, Copy, PartialEq, Eq, Structural)]
pub enum FunctionType {
    Transfer,
    Swap,
    AddLiquidity,
    RemoveLiquidity,
    Borrow,
    Repay,
    Liquidate,
    Unknown,
}

/// The block the graph was built at.
#[derive(Debug, Clone, Copy, PartialEq, Eq, Structural)]
pub struct BlockState {
    pub number: u64,
    pub timestamp: u64,
}

/// How risky a protocol is.
#[derive(Debug, Clone, Copy, PartialEq, Eq, Structural)]
pub enum RiskLevel {
    Low,
    Medium,
    High,
    Critical,
}

/// The risk found in one protocol.
#[derive(Debug, Clone)]
pub struct ProtocolRisk {
    pub protocol: ProtocolType,
    pub address: String,
    pub risk_level: RiskLevel,
    pub vulnerabilities: Vec<String>,
    pub recommended_actions: Vec<String>,
}

/// An arbitrage path through protocols; amounts in wei, time in milliseconds.
#[derive(Debug, Clone)]
pub struct ArbitrageOpportunity {
    pub path: Vec<String>,
    pub protocols: Vec<ProtocolType>,
    pub estimated_profit: u128,
    pub required_capital: u128,
    pub execution_time: u64,
}

/// The impermanent-loss estimator of pools.
#[derive(Debug, Clone, Copy)]
pub struct ImpermanentLossCalculator;

impl ImpermanentLossCalculator {
    pub fn new() -> Self {
        ImpermanentLossCalculator
    }
}

/// The analyzer of liquidity pools.
#[derive(Debug, Clone, Copy)]
pub struct LiquidityPoolAnalyzer {
    pub impermanent_loss_calculator: ImpermanentLossCalculator,
}

impl LiquidityPoolAnalyzer {
    pub fn new() -> Self {
        LiquidityPoolAnalyzer { impermanent_loss_calculator: ImpermanentLossCalculator::new() }
    }
}

/// The finder of MEV paths in the graph.
#[derive(Debug, Clone, Copy)]
pub struct MEVPathFinder;

impl MEVPathFinder {
    pub fn new() -> Self {
        MEVPathFinder
    }
}

/// The assessor of protocol risks.
#[derive(Debug, Clone, Copy)]
pub struct ProtocolRiskAssessor;

impl ProtocolRiskAssessor {
    pub fn new() -> Self {
        ProtocolRiskAssessor
    }
}

/// The transaction graph of a block: the accounts in order of first appearance, one
/// edge per transaction from its sender to its receiver (as node positions), and the 0/1
/// adjacency of the edges.
#[derive(Debug, Clone)]
pub struct TxGraph {
    pub nodes: Vec<Address>,
    pub edges: Vec<(usize, usize)>,
    pub adjacency: Vec<Vec<bool>>,
    pub block_number: u64,
}

/// `ns` with `a` added at the end where it is not there yet.
pub open spec fn add_node(ns: Seq<Seq<u8>>, a: Seq<u8>) -> Seq<Seq<u8>> {
    if ns.contains(a) {
        ns
    } else {
        ns.push(a)
    }
}

/// The accounts of `txs` in order of first appearance, each sender before its receiver.
pub open spec fn graph_nodes(txs: Seq<Transaction>) -> Seq<Seq<u8>>
    decreases txs.len(),
{
    if txs.len() == 0 {
        Seq::empty()
    } else {
        add_node(add_node(graph_nodes(txs.drop_last()), txs.last().from.0@), txs.last().to.0@)
    }
}

/// The addresses of a list of nodes.
pub open spec fn node_views(ns: Seq<Address>) -> Seq<Seq<u8>> {
    Seq::new(ns.len(), |i: int| ns[i].0@)
}

/// No address occurs twice.
pub open spec fn distinct_nodes(ns: Seq<Seq<u8>>) -> bool {
    forall|i: int, j: int| 0 <= i < j < ns.len() ==> #[trigger] ns[i] != #[trigger] ns[j]
}

/// Some edge goes from node `i` to node `j`.
pub open spec fn has_edge(edges: Seq<(usize, usize)>, i: int, j: int) -> bool {
    exists|k: int| 0 <= k < edges.len() && edges[k].0 == i && edges[k].1 == j
}

/// The position of `a` among the nodes, adding it where it is new.
fn node_index(nodes: &mut Vec<Address>, a: Address) -> (r: usize)
    requires
        distinct_nodes(node_views(old(nodes)@)),
    ensures
        node_views(final(nodes)@) == add_node(node_views(old(nodes)@), a.0@),
        distinct_nodes(node_views(final(nodes)@)),
        r < final(nodes)@.len(),
        final(nodes)@[r as int].0@ == a.0@,
{
    let ghost before = node_views(nodes@);
    let mut i: usize = 0;
    while i < nodes.len()
        invariant
            i <= nodes@.len(),
            before == node_views(nodes@),
            distinct_nodes(before),
            forall|k: int| 0 <= k < i ==> nodes@[k].0@ != a.0@,
        decreases nodes@.len() - i,
    {
        if nodes[i] == a {
            assert(before[i as int] == a.0@);
            assert(before.contains(a.0@));
            return i;
        }
        i = i + 1;
    }
    assert(!before.contains(a.0@)) by {
        if before.contains(a.0@) {
            let k = choose|k: int| 0 <= k < before.len() && before[k] == a.0@;
            assert(nodes@[k].0@ == a.0@);
        }
    }
    nodes.push(a);
    assert(node_views(nodes@) =~= before.push(a.0@));
    i
}

/// The transaction graph of `transactions` at the given block.
pub fn build_transaction_graph(transactions: &[Transaction], block_state: BlockState) -> (g: TxGraph)
    ensures
        node_views(g.nodes@) == graph_nodes(transactions@),
        distinct_nodes(node_views(g.nodes@)),
        g.edges@.len() == transactions@.len(),
        forall|k: int|
            0 <= k < transactions@.len() ==> {
                &&& (#[trigger] g.edges@[k]).0 < g.nodes@.len()
                &&& g.edges@[k].1 < g.nodes@.len()
                &&& g.nodes@[g.edges@[k].0 as int].0@ == transactions@[k].from.0@
                &&& g.nodes@[g.edges@[k].1 as int].0@ == transactions@[k].to.0@
            },
        g.adjacency@.len() == g.nodes@.len(),
        forall|i: int| 0 <= i < g.nodes@.len() ==> (#[trigger] g.adjacency@[i])@.len() == g.nodes@.len(),
        forall|i: int, j: int|
            0 <= i < g.nodes@.len() && 0 <= j < g.nodes@.len() ==> (#[trigger] g.adjacency@[i]@[j] <==> has_edge(
                g.edges@,
                i,
                j,
            )),
        g.block_number == block_state.number,
{
    let mut nodes: Vec<Address> = Vec::new();
    let mut edges: Vec<(usize, usize)> = Vec::new();
    let mut t: usize = 0;
    assert(node_views(nodes@) =~= graph_nodes(transactions@.subrange(0, 0)));
    while t < transactions.len()
        invariant
            t <= transactions@.len(),
            node_views(nodes@) == graph_nodes(transactions@.subrange(0, t as int)),
            distinct_nodes(node_views(nodes@)),
            edges@.len() == t,
            forall|k: int|
                0 <= k < t ==> {
                    &&& (#[trigger] edges@[k]).0 < nodes@.len()
                    &&& edges@[k].1 < nodes@.len()
                    &&& nodes@[edges@[k].0 as int].0@ == transactions@[k].from.0@
                    &&& nodes@[edges@[k].1 as int].0@ == transactions@[k].to.0@
                },
        decreases transactions@.len() - t,
    {
        let ghost prev = nodes@;
        let from = node_index(&mut nodes, transactions[t].from);
        let ghost mid = nodes@;
        let to = node_index(&mut nodes, transactions[t].to);
        proof {
            assert(transactions@.subrange(0, t + 1).drop_last() =~= transactions@.subrange(0, t as int));
            assert(node_views(mid).len() >= node_views(prev).len());
            assert(node_views(nodes@).len() >= node_views(mid).len());
            assert(node_views(mid)[from as int] == mid[from as int].0@);
            assert(node_views(nodes@)[from as int] == node_views(mid)[from as int]);
            assert forall|k: int| 0 <= k < t implies {
                &&& (#[trigger] edges@[k]).0 < nodes@.len()
                &&& edges@[k].1 < nodes@.len()
                &&& nodes@[edges@[k].0 as int].0@ == transactions@[k].from.0@
                &&& nodes@[edges@[k].1 as int].0@ == transactions@[k].to.0@
            } by {
                let a = edges@[k].0 as int;
                let b = edges@[k].1 as int;
                assert(node_views(prev)[a] == prev[a].0@);
                assert(node_views(mid)[a] == node_views(prev)[a]);
                assert(node_views(nodes@)[a] == node_views(mid)[a]);
                assert(node_views(nodes@)[a] == nodes@[a].0@);
                assert(node_views(prev)[b] == prev[b].0@);
                assert(node_views(mid)[b] == node_views(prev)[b]);
                assert(node_views(nodes@)[b] == node_views(mid)[b]);
                assert(node_views(nodes@)[b] == nodes@[b].0@);
            }
            assert(node_views(nodes@)[from as int] == nodes@[from as int].0@);
        }
        edges.push((from, to));
        t = t + 1;
    }
    assert(transactions@.subrange(0, transactions@.len() as int) =~= transactions@);
    let n = nodes.len();
    let mut adjacency: Vec<Vec<bool>> = Vec::new();
    let mut i: usize = 0;
    while i < n
        invariant
            n == nodes@.len(),
            i <= n,
            adjacency@.len() == i,
            forall|a: int| 0 <= a < i ==> (#[trigger] adjacency@[a])@.len() == n,
            forall|a: int, b: int|
                0 <= a < i && 0 <= b < n ==> (#[trigger] adjacency@[a]@[b] <==> has_edge(edges@, a, b)),
        decreases n - i,
    {
        let mut row: Vec<bool> = Vec::new();
        let mut j: usize = 0;
        while j < n
            invariant
                j <= n,
                row@.len() == j,
                forall|b: int| 0 <= b < j ==> !#[trigger] row@[b],
            decreases n - j,
        {
            row.push(false);
            j = j + 1;
        }
        let mut k: usize = 0;
        while k < edges.len()
            invariant
                k <= edges@.len(),
                row@.len() == n,
                forall|b: int|
                    0 <= b < n ==> (#[trigger] row@[b] <==> exists|e: int|
                        0 <= e < k && edges@[e].0 == i && edges@[e].1 == b),
            decreases edges@.len() - k,
        {
            let (a, b) = edges[k];
            if a == i && b < n {
                row.set(b, true);
            }
            proof {
                assert forall|c: int| 0 <= c < n implies (#[trigger] row@[c] <==> exists|e: int|
                    0 <= e < k + 1 && edges@[e].0 == i && edges@[e].1 == c) by {
                    if exists|e: int| 0 <= e < k + 1 && edges@[e].0 == i && edges@[e].1 == c {
                        let e = choose|e: int| 0 <= e < k + 1 && edges@[e].0 == i && edges@[e].1 == c;
                        if e < k {
                            assert(exists|e2: int| 0 <= e2 < k && edges@[e2].0 == i && edges@[e2].1 == c);
                        }
                    }
                }
            }
            k = k + 1;
        }
        adjacency.push(row);
        i = i + 1;
    }
    TxGraph { nodes, edges, adjacency, block_number: block_state.number }
}

} // verus!
