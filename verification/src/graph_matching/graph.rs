//! The trade graph: a set of offers and, for each of them, the offers it may
//! legally give to.

use vstd::prelude::*;

use crate::graph_matching::parallel::parallel_edge_rows;
use crate::graph_matching::trade::{is_legal_exchange, legal_exchange, trade_views, Trade, TradeView};
use crate::graph_matching::trade_loop::index_seq;

verus! {

/// Whether a list of indices rises strictly from each entry to the next.
pub open spec fn ascending(row: Seq<int>) -> bool {
    forall|a: int, b: int| 0 <= a < b < row.len() ==> row[a] < row[b]
}

/// Whether `row` lists, in rising order and each once, exactly the offers
/// that offer `from` may legally give to.
pub open spec fn is_edge_row(offers: Seq<TradeView>, from: int, row: Seq<int>) -> bool {
    &&& ascending(row)
    &&& forall|to: int| #[trigger]
        row.contains(to) <==> (0 <= to < offers.len() && legal_exchange(offers[from], offers[to]))
}

/// Whether `adjacency` holds one edge row for each of `offers`.
pub open spec fn is_adjacency_of(offers: Seq<TradeView>, adjacency: Seq<Seq<int>>) -> bool {
    &&& adjacency.len() == offers.len()
    &&& forall|from: int|
        0 <= from < offers.len() ==> is_edge_row(offers, from, #[trigger] adjacency[from])
}

/// Why a graph could not be built.
#[derive(Debug, Clone, Copy, PartialEq, Eq)]
pub enum GraphError {
    /// No offer was given where at least one is required.
    EmptyInput,
}

/// A set of offers together with its directed exchange edges.
///
/// A graph is either empty or was built from a list of offers; its edges are
/// never changed one by one. Every graph is well formed: see [`TradeGraph::wf`].
pub struct TradeGraph {
    trades: Vec<Trade>,
    edges: Vec<Vec<usize>>,
}

impl TradeGraph {
    /// The offers of the graph, in the order in which they were given.
    pub closed spec fn offers(&self) -> Seq<TradeView> {
        trade_views(self.trades@)
    }

    /// For each offer, the offers it may give to.
    pub closed spec fn adjacency(&self) -> Seq<Seq<int>> {
        self.edges@.map_values(|row: Vec<usize>| index_seq(row@))
    }

    /// Whether offer `from` may give to offer `to`.
    pub open spec fn has_edge(&self, from: int, to: int) -> bool {
        0 <= from < self.adjacency().len() && self.adjacency()[from].contains(to)
    }

    /// The invariant of every graph: there is one edge row per offer, and the
    /// row of an offer lists exactly its legal partners, in rising order.
    #[verifier::type_invariant]
    pub open spec fn wf(&self) -> bool {
        is_adjacency_of(self.offers(), self.adjacency())
    }

    /// A graph without offers.
    pub fn new() -> (graph: Self)
        ensures
            graph.wf(),
            graph.offers() =~= Seq::<TradeView>::empty(),
            graph.adjacency() =~= Seq::<Seq<int>>::empty(),
    {
        TradeGraph { trades: Vec::new(), edges: Vec::new() }
    }

    /// Builds the graph of `trades`, computing the edge rows in parallel.
    /// An empty list gives the empty graph.
    pub fn build(trades: Vec<Trade>) -> (graph: Self)
        ensures
            graph.wf(),
            graph.offers() == trade_views(trades@),
    {
        let edges = parallel_edge_rows(&trades);
        proof {
            let offers = trade_views(trades@);
            let adjacency = edges@.map_values(|row: Vec<usize>| index_seq(row@));
            assert forall|from: int| 0 <= from < offers.len() implies is_edge_row(
                offers,
                from,
                #[trigger] adjacency[from],
            ) by {
                assert(adjacency[from] == index_seq(edges@[from]@));
            }
        }
        TradeGraph { trades, edges }
    }

    /// Builds the graph of `trades` on the calling thread, one edge row after
    /// the other. The graph is the one that [`TradeGraph::build`] gives.
    pub fn build_sequential(trades: Vec<Trade>) -> (graph: Self)
        ensures
            graph.wf(),
            graph.offers() == trade_views(trades@),
    {
        let ghost offers = trade_views(trades@);
        let n = trades.len();
        let mut edges: Vec<Vec<usize>> = Vec::new();
        let mut from: usize = 0;
        while from < n
            invariant
                from <= n,
                n == trades@.len(),
                offers == trade_views(trades@),
                edges@.len() == from,
                forall|i: int|
                    0 <= i < from ==> is_edge_row(offers, i, index_seq(#[trigger] edges@[i]@)),
            decreases n - from,
        {
            let row = edge_row(&trades, from);
            edges.push(row);
            from += 1;
        }
        proof {
            let adjacency = edges@.map_values(|row: Vec<usize>| index_seq(row@));
            assert forall|i: int| 0 <= i < offers.len() implies is_edge_row(
                offers,
                i,
                #[trigger] adjacency[i],
            ) by {
                assert(adjacency[i] == index_seq(edges@[i]@));
            }
        }
        TradeGraph { trades, edges }
    }

    /// Builds the graph of `trades` for a caller that takes no empty list:
    /// fails with [`GraphError::EmptyInput`] exactly when `trades` is empty.
    pub fn build_non_empty(trades: Vec<Trade>) -> (built: Result<Self, GraphError>)
        ensures
            trades@.len() == 0 <==> built == Err::<Self, GraphError>(GraphError::EmptyInput),
            trades@.len() > 0 <==> built is Ok,
            built matches Ok(graph) ==> graph.wf() && graph.offers() == trade_views(trades@),
    {
        if trades.len() == 0 {
            Err(GraphError::EmptyInput)
        } else {
            Ok(TradeGraph::build(trades))
        }
    }

    /// Replaces the graph by the graph of `trades`.
    pub fn build_from_trades(&mut self, trades: Vec<Trade>)
        ensures
            final(self).wf(),
            final(self).offers() == trade_views(trades@),
    {
        *self = TradeGraph::build(trades);
    }

    /// The number of offers.
    pub fn len(&self) -> (n: usize)
        ensures
            n == self.offers().len(),
            n == self.adjacency().len(),
    {
        proof {
            use_type_invariant(self);
        }
        self.trades.len()
    }

    /// The offers, in the order in which they were given.
    pub fn trades(&self) -> (trades: &Vec<Trade>)
        ensures
            trade_views(trades@) == self.offers(),
    {
        &self.trades
    }

    /// The edge rows: row `i` lists the offers that offer `i` may give to.
    pub fn edges(&self) -> (edges: &Vec<Vec<usize>>)
        ensures
            edges@.len() == self.adjacency().len(),
            forall|from: int|
                0 <= from < edges@.len() ==> index_seq(#[trigger] edges@[from]@)
                    == self.adjacency()[from],
    {
        &self.edges
    }

    /// Whether offer `from` may give to offer `to`. An index that names no
    /// offer has no edges.
    pub fn contains_edge(&self, from: usize, to: usize) -> (found: bool)
        ensures
            found == self.has_edge(from as int, to as int),
    {
        if from >= self.edges.len() {
            return false;
        }
        let row = &self.edges[from];
        let ghost targets = index_seq(row@);
        assert(targets == self.adjacency()[from as int]);
        let mut k: usize = 0;
        while k < row.len()
            invariant
                k <= row.len(),
                from < self.adjacency().len(),
                targets == index_seq(row@),
                targets == self.adjacency()[from as int],
                forall|q: int| 0 <= q < k ==> targets[q] != to,
            decreases row.len() - k,
        {
            if row[k] == to {
                assert(targets[k as int] == to);
                return true;
            }
            k += 1;
        }
        false
    }

    /// Decides whether offer `from` may hand its item to offer `to`.
    pub fn is_valid_trade(&self, from: usize, to: usize) -> (legal: bool)
        requires
            from < self.offers().len(),
            to < self.offers().len(),
        ensures
            legal == legal_exchange(self.offers()[from as int], self.offers()[to as int]),
    {
        is_legal_exchange(&self.trades[from], &self.trades[to])
    }
}

/// Lists, in rising order, the offers that offer `from` may legally give to.
pub fn edge_row(trades: &Vec<Trade>, from: usize) -> (row: Vec<usize>)
    requires
        from < trades.len(),
    ensures
        is_edge_row(trade_views(trades@), from as int, index_seq(row@)),
{
    let ghost offers = trade_views(trades@);
    let n = trades.len();
    let mut row: Vec<usize> = Vec::new();
    let mut to: usize = 0;
    while to < n
        invariant
            to <= n,
            n == trades.len(),
            from < n,
            offers == trade_views(trades@),
            ascending(index_seq(row@)),
            forall|k: int| 0 <= k < row@.len() ==> row@[k] < to,
            forall|j: int| #[trigger]
                index_seq(row@).contains(j) <==> (0 <= j < to && legal_exchange(
                    offers[from as int],
                    offers[j],
                )),
        decreases n - to,
    {
        let ghost before = index_seq(row@);
        if from != to && is_legal_exchange(&trades[from], &trades[to]) {
            row.push(to);
            proof {
                let after = index_seq(row@);
                assert(after =~= before.push(to as int));
                assert(after[before.len() as int] == to);
                assert forall|j: int| #[trigger]
                    after.contains(j) <==> (0 <= j < to + 1 && legal_exchange(
                        offers[from as int],
                        offers[j],
                    )) by {
                    if before.contains(j) {
                        let k = choose|k: int| 0 <= k < before.len() && before[k] == j;
                        assert(after[k] == j);
                    }
                    if after.contains(j) {
                        let k = choose|k: int| 0 <= k < after.len() && after[k] == j;
                        if k < before.len() {
                            assert(before[k] == j);
                        }
                    }
                }
            }
        } else {
            proof {
                crate::graph_matching::trade::lemma_no_exchange_with_self(offers[from as int]);
            }
        }
        to += 1;
    }
    row
}

/// No offer gives to itself.
pub proof fn lemma_no_self_edge(graph: TradeGraph, i: int)
    requires
        graph.wf(),
    ensures
        !graph.has_edge(i, i),
{
    if 0 <= i < graph.adjacency().len() {
        assert(is_edge_row(graph.offers(), i, graph.adjacency()[i]));
        crate::graph_matching::trade::lemma_no_exchange_with_self(graph.offers()[i]);
    }
}

/// An edge runs from one offer to another exactly when both exist and the
/// first may legally give to the second.
pub proof fn lemma_edge_iff_legal(graph: TradeGraph, from: int, to: int)
    requires
        graph.wf(),
    ensures
        graph.has_edge(from, to) <==> (0 <= from < graph.offers().len() && 0 <= to
            < graph.offers().len() && legal_exchange(graph.offers()[from], graph.offers()[to])),
{
    if 0 <= from < graph.adjacency().len() {
        assert(is_edge_row(graph.offers(), from, graph.adjacency()[from]));
    }
}

/// Two rising lists with the same entries are the same list.
pub proof fn lemma_ascending_rows_equal(a: Seq<int>, b: Seq<int>)
    requires
        ascending(a),
        ascending(b),
        forall|x: int| a.contains(x) <==> b.contains(x),
    ensures
        a == b,
    decreases a.len(),
{
    if a.len() == 0 {
        if b.len() > 0 {
            assert(b.contains(b[0]));
            assert(a.contains(b[0]));
        }
        assert(a =~= b);
    } else {
        let top = a.last();
        assert(a.contains(top));
        assert(b.contains(top));
        let kb = choose|k: int| 0 <= k < b.len() && b[k] == top;
        assert(b.contains(b.last()));
        assert(a.contains(b.last()));
        let ka = choose|k: int| 0 <= k < a.len() && a[k] == b.last();
        assert(b.last() == top);
        let a0 = a.drop_last();
        let b0 = b.drop_last();
        assert forall|x: int| a0.contains(x) <==> b0.contains(x) by {
            if a0.contains(x) {
                let k = choose|k: int| 0 <= k < a0.len() && a0[k] == x;
                assert(a[k] == x);
                assert(a.contains(x));
                let m = choose|m: int| 0 <= m < b.len() && b[m] == x;
                assert(x < top);
                assert(b0[m] == x);
            }
            if b0.contains(x) {
                let k = choose|k: int| 0 <= k < b0.len() && b0[k] == x;
                assert(b[k] == x);
                assert(b.contains(x));
                let m = choose|m: int| 0 <= m < a.len() && a[m] == x;
                assert(x < top);
                assert(a0[m] == x);
            }
        }
        lemma_ascending_rows_equal(a0, b0);
        assert(a =~= a0.push(top));
        assert(b =~= b0.push(top));
    }
}

/// The edges of a graph depend on its offers alone: two graphs over the same
/// offers have the same edge rows, whatever the order in which the rows were
/// computed and put together.
pub proof fn lemma_adjacency_determined(a: TradeGraph, b: TradeGraph)
    requires
        a.wf(),
        b.wf(),
        a.offers() == b.offers(),
    ensures
        a.adjacency() == b.adjacency(),
        forall|from: int, to: int| a.has_edge(from, to) == b.has_edge(from, to),
{
    let offers = a.offers();
    assert forall|from: int| 0 <= from < offers.len() implies a.adjacency()[from]
        == b.adjacency()[from] by {
        let ra = a.adjacency()[from];
        let rb = b.adjacency()[from];
        assert(is_edge_row(offers, from, ra));
        assert(is_edge_row(offers, from, rb));
        assert forall|x: int| ra.contains(x) <==> rb.contains(x) by {
        }
        lemma_ascending_rows_equal(ra, rb);
    }
    assert(a.adjacency() =~= b.adjacency());
}

} // verus!
