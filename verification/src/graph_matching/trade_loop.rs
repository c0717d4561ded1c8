//! The record that describes one trade loop, and what its figures mean.

use vstd::prelude::*;

use crate::graph_matching::trade::TradeView;

verus! {

/// How many parties a loop joins.
#[derive(Debug, Clone, Copy, PartialEq, Eq)]
pub enum LoopType {
    /// Two offers that may each give to the other.
    TwoWay,
    /// Three offers, each giving to the next and the last to the first.
    ThreeWay,
}

impl LoopType {
    /// The short name under which a loop of this kind is shown.
    pub fn label(&self) -> (name: &'static str)
        ensures
            name@ == (match *self {
                LoopType::TwoWay => "2-way"@,
                LoopType::ThreeWay => "3-way"@,
            }),
    {
        match self {
            LoopType::TwoWay => "2-way",
            LoopType::ThreeWay => "3-way",
        }
    }
}

/// An exact fraction. The denominator of a ratio that the engine produces is
/// never zero.
#[derive(Debug, Clone, Copy, PartialEq, Eq)]
pub struct Ratio {
    pub numerator: u128,
    pub denominator: u128,
}

/// The mathematical content of a [`Ratio`].
pub struct RatioView {
    pub numerator: int,
    pub denominator: int,
}

impl View for Ratio {
    type V = RatioView;

    open spec fn view(&self) -> RatioView {
        RatioView { numerator: self.numerator as int, denominator: self.denominator as int }
    }
}

/// One trade loop: who takes part, in cycle order, and what the exchange
/// amounts to. Position `p` of every list speaks of the same participant.
#[derive(Debug, Clone, PartialEq, Eq)]
pub struct TradeLoop {
    pub loop_type: LoopType,
    /// The participating offers, by their index, in cycle order.
    pub indexes: Vec<usize>,
    pub users: Vec<String>,
    pub watches: Vec<String>,
    pub values: Vec<u64>,
    /// What each participant's item is worth above (positive) or below
    /// (negative) the item of the next participant in cycle order.
    pub cash_flows: Vec<i128>,
    pub total_watch_value: u128,
    pub total_cash_flow: u128,
    /// The share of all exchanged value that items carry rather than cash.
    pub value_efficiency: Ratio,
}

/// The mathematical content of a [`TradeLoop`].
pub struct TradeLoopView {
    pub loop_type: LoopType,
    pub indexes: Seq<int>,
    pub users: Seq<Seq<char>>,
    pub watches: Seq<Seq<char>>,
    pub values: Seq<int>,
    pub cash_flows: Seq<int>,
    pub total_watch_value: int,
    pub total_cash_flow: int,
    pub value_efficiency: RatioView,
}

/// A list of indices as mathematical integers.
pub open spec fn index_seq(indexes: Seq<usize>) -> Seq<int> {
    indexes.map_values(|i: usize| i as int)
}

/// A list of names as sequences of characters.
pub open spec fn name_seq(names: Seq<String>) -> Seq<Seq<char>> {
    names.map_values(|s: String| s@)
}

/// A list of amounts as mathematical integers.
pub open spec fn amount_seq(amounts: Seq<u64>) -> Seq<int> {
    amounts.map_values(|v: u64| v as int)
}

/// A list of signed amounts as mathematical integers.
pub open spec fn flow_seq(flows: Seq<i128>) -> Seq<int> {
    flows.map_values(|c: i128| c as int)
}

impl View for TradeLoop {
    type V = TradeLoopView;

    open spec fn view(&self) -> TradeLoopView {
        TradeLoopView {
            loop_type: self.loop_type,
            indexes: index_seq(self.indexes@),
            users: name_seq(self.users@),
            watches: name_seq(self.watches@),
            values: amount_seq(self.values@),
            cash_flows: flow_seq(self.cash_flows@),
            total_watch_value: self.total_watch_value as int,
            total_cash_flow: self.total_cash_flow as int,
            value_efficiency: self.value_efficiency@,
        }
    }
}

/// The sum of a list of integers.
pub open spec fn total(amounts: Seq<int>) -> int
    decreases amounts.len(),
{
    if amounts.len() == 0 {
        0
    } else {
        total(amounts.drop_last()) + amounts.last()
    }
}

/// The absolute value of an integer.
pub open spec fn magnitude(x: int) -> int {
    if x < 0 {
        -x
    } else {
        x
    }
}

/// The sum of the absolute values of a list of integers.
pub open spec fn total_magnitude(amounts: Seq<int>) -> int
    decreases amounts.len(),
{
    if amounts.len() == 0 {
        0
    } else {
        total_magnitude(amounts.drop_last()) + magnitude(amounts.last())
    }
}

/// What the items of the offers on a cycle are worth, in cycle order.
pub open spec fn cycle_values(offers: Seq<TradeView>, cycle: Seq<int>) -> Seq<int> {
    Seq::new(cycle.len(), |p: int| offers[cycle[p]].have_value as int)
}

/// For each position of a cycle, the value at that position less the value at
/// the next position, the last position being followed by the first.
pub open spec fn cycle_cash_flows(values: Seq<int>) -> Seq<int> {
    Seq::new(values.len(), |p: int| values[p] - values[(p + 1) % (values.len() as int)])
}

/// The share of exchanged value that items carry: the items' total over the
/// sum of that total and the cash that moves. Where the items are worth
/// nothing the share is defined to be zero, written `0 / 1`.
pub open spec fn efficiency(watch_total: int, cash_total: int) -> RatioView {
    if watch_total == 0 {
        RatioView { numerator: 0, denominator: 1 }
    } else {
        RatioView { numerator: watch_total, denominator: watch_total + cash_total }
    }
}

/// The record of the loop that runs through the offers `cycle`, in that order.
pub open spec fn scored_loop(
    offers: Seq<TradeView>,
    cycle: Seq<int>,
    loop_type: LoopType,
) -> TradeLoopView {
    let values = cycle_values(offers, cycle);
    let cash_flows = cycle_cash_flows(values);
    TradeLoopView {
        loop_type,
        indexes: cycle,
        users: Seq::new(cycle.len(), |p: int| offers[cycle[p]].user_id),
        watches: Seq::new(cycle.len(), |p: int| offers[cycle[p]].have_watch),
        values,
        cash_flows,
        total_watch_value: total(values),
        total_cash_flow: total_magnitude(cash_flows),
        value_efficiency: efficiency(total(values), total_magnitude(cash_flows)),
    }
}

/// A total of absolute values is never negative.
pub proof fn lemma_total_magnitude_nonnegative(amounts: Seq<int>)
    ensures
        total_magnitude(amounts) >= 0,
    decreases amounts.len(),
{
    if amounts.len() > 0 {
        lemma_total_magnitude_nonnegative(amounts.drop_last());
    }
}

/// The efficiency of a scored loop is a fraction in the interval from zero
/// (exclusive) to one (inclusive) whenever the items are worth anything, and
/// is `0 / 1` when they are worth nothing. Its denominator is never zero.
pub proof fn lemma_efficiency_in_unit_interval(
    offers: Seq<TradeView>,
    cycle: Seq<int>,
    loop_type: LoopType,
)
    ensures
        ({
            let record = scored_loop(offers, cycle, loop_type);
            &&& record.total_watch_value >= 0
            &&& record.value_efficiency.denominator > 0
            &&& record.total_watch_value > 0 ==> 0 < record.value_efficiency.numerator
                <= record.value_efficiency.denominator
            &&& record.total_watch_value == 0 ==> record.value_efficiency == (RatioView {
                numerator: 0,
                denominator: 1,
            })
        }),
{
    let values = cycle_values(offers, cycle);
    lemma_total_nonnegative(values);
    lemma_total_magnitude_nonnegative(cycle_cash_flows(values));
}

/// A total of amounts none of which is negative is not negative.
pub proof fn lemma_total_nonnegative(amounts: Seq<int>)
    requires
        forall|p: int| 0 <= p < amounts.len() ==> amounts[p] >= 0,
    ensures
        total(amounts) >= 0,
    decreases amounts.len(),
{
    if amounts.len() > 0 {
        lemma_total_nonnegative(amounts.drop_last());
    }
}

} // verus!
