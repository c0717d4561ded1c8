//! Turning a cycle of offers into its scored record.

use vstd::prelude::*;

use crate::graph_matching::graph::TradeGraph;
use crate::graph_matching::trade::{trade_views, Trade};
use crate::graph_matching::trade_loop::{
    amount_seq, flow_seq, index_seq, lemma_total_magnitude_nonnegative, magnitude, scored_loop,
    total, total_magnitude, LoopType, Ratio, TradeLoop,
};

verus! {

/// Adding one amount to a list adds it to the list's total.
pub proof fn lemma_total_push(amounts: Seq<int>, x: int)
    ensures
        total(amounts.push(x)) == total(amounts) + x,
{
    assert(amounts.push(x).drop_last() =~= amounts);
}

/// Adding one amount to a list adds its absolute value to the list's total
/// of absolute values.
pub proof fn lemma_total_magnitude_push(amounts: Seq<int>, x: int)
    ensures
        total_magnitude(amounts.push(x)) == total_magnitude(amounts) + magnitude(x),
{
    assert(amounts.push(x).drop_last() =~= amounts);
}

impl TradeGraph {
    /// Builds the record of the loop that runs through the offers `indexes`,
    /// in that order.
    ///
    /// Every index must name an offer of the graph. The bound on the number
    /// of indices is one that every vector meets: no vector holds more than
    /// `isize::MAX` bytes.
    pub fn create_loop_data(&self, indexes: Vec<usize>, loop_type: LoopType) -> (record: TradeLoop)
        requires
            indexes@.len() <= isize::MAX,
            forall|p: int| 0 <= p < indexes@.len() ==> indexes@[p] < self.offers().len(),
        ensures
            record@ == scored_loop(self.offers(), index_seq(indexes@), loop_type),
            record.value_efficiency.denominator > 0,
            record.total_watch_value > 0 ==> 0 < record.value_efficiency.numerator
                <= record.value_efficiency.denominator,
            record.total_watch_value == 0 ==> record.value_efficiency == (Ratio {
                numerator: 0,
                denominator: 1,
            }),
    {
        let trades: &Vec<Trade> = self.trades();
        let n = indexes.len();
        let ghost offers = self.offers();
        let ghost cycle = index_seq(indexes@);
        assert(isize::MAX <= 0x7fff_ffff_ffff_ffff);

        let mut users: Vec<String> = Vec::new();
        let mut watches: Vec<String> = Vec::new();
        let mut values: Vec<u64> = Vec::new();
        let mut total_watch_value: u128 = 0;
        let mut p: usize = 0;
        while p < n
            invariant
                p <= n,
                n == indexes@.len(),
                n <= 0x7fff_ffff_ffff_ffff,
                offers == trade_views(trades@),
                cycle == index_seq(indexes@),
                forall|q: int| 0 <= q < indexes@.len() ==> indexes@[q] < offers.len(),
                users@.len() == p,
                watches@.len() == p,
                values@.len() == p,
                forall|q: int| 0 <= q < p ==> (#[trigger] users@[q])@ == offers[cycle[q]].user_id,
                forall|q: int|
                    0 <= q < p ==> (#[trigger] watches@[q])@ == offers[cycle[q]].have_watch,
                forall|q: int| 0 <= q < p ==> #[trigger] values@[q] == offers[cycle[q]].have_value,
                total_watch_value == total(amount_seq(values@)),
                total_watch_value <= p * 0xffff_ffff_ffff_ffff,
            decreases n - p,
        {
            let trade = &trades[indexes[p]];
            let ghost before = amount_seq(values@);
            users.push(trade.user_id.clone());
            watches.push(trade.have_watch.clone());
            values.push(trade.have_value);
            proof {
                assert(amount_seq(values@) =~= before.push(trade.have_value as int));
                lemma_total_push(before, trade.have_value as int);
            }
            total_watch_value = total_watch_value + trade.have_value as u128;
            p += 1;
        }

        let mut cash_flows: Vec<i128> = Vec::new();
        let mut total_cash_flow: u128 = 0;
        let mut p: usize = 0;
        while p < n
            invariant
                p <= n,
                n == values@.len(),
                n <= 0x7fff_ffff_ffff_ffff,
                cash_flows@.len() == p,
                forall|q: int|
                    0 <= q < p ==> #[trigger] cash_flows@[q] == values@[q] - values@[(q + 1) % (
                    n as int)],
                total_cash_flow == total_magnitude(flow_seq(cash_flows@)),
                total_cash_flow <= p * 0xffff_ffff_ffff_ffff,
            decreases n - p,
        {
            let next = (p + 1) % n;
            let flow: i128 = values[p] as i128 - values[next] as i128;
            let size: u128 = if flow < 0 {
                (-flow) as u128
            } else {
                flow as u128
            };
            let ghost before = flow_seq(cash_flows@);
            cash_flows.push(flow);
            proof {
                assert(flow_seq(cash_flows@) =~= before.push(flow as int));
                lemma_total_magnitude_push(before, flow as int);
            }
            total_cash_flow = total_cash_flow + size;
            p += 1;
        }

        let value_efficiency = if total_watch_value == 0 {
            Ratio { numerator: 0, denominator: 1 }
        } else {
            Ratio { numerator: total_watch_value, denominator: total_watch_value + total_cash_flow }
        };
        let record = TradeLoop {
            loop_type,
            indexes,
            users,
            watches,
            values,
            cash_flows,
            total_watch_value,
            total_cash_flow,
            value_efficiency,
        };
        proof {
            let goal = scored_loop(offers, cycle, loop_type);
            assert(record@.users =~= goal.users);
            assert(record@.watches =~= goal.watches);
            assert(record@.values =~= goal.values);
            assert(record@.cash_flows =~= goal.cash_flows);
            lemma_total_magnitude_nonnegative(goal.cash_flows);
            assert(record@ == goal);
        }
        record
    }
}

} // verus!
