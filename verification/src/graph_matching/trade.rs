//! Offers and the rule that decides whether one offer may give to another.

use vstd::prelude::*;

verus! {

/// One party's offer: the item it holds and the terms on which it accepts
/// another item in exchange.
///
/// Amounts are whole numbers of the smallest currency unit, so an amount is
/// never negative and never fractional.
#[derive(Debug, Clone, PartialEq, Eq)]
pub struct Trade {
    /// Who makes the offer.
    pub user_id: String,
    /// The item the party holds.
    pub have_watch: String,
    /// What the held item is worth.
    pub have_value: u64,
    /// The least value the party accepts in the item it receives.
    pub min_acceptable_value: u64,
    /// The largest value gap the party covers when it receives an item worth
    /// more than its own.
    pub max_cash_top_up: u64,
}

/// The mathematical content of a [`Trade`].
pub struct TradeView {
    pub user_id: Seq<char>,
    pub have_watch: Seq<char>,
    pub have_value: nat,
    pub min_acceptable_value: nat,
    pub max_cash_top_up: nat,
}

impl View for Trade {
    type V = TradeView;

    open spec fn view(&self) -> TradeView {
        TradeView {
            user_id: self.user_id@,
            have_watch: self.have_watch@,
            have_value: self.have_value as nat,
            min_acceptable_value: self.min_acceptable_value as nat,
            max_cash_top_up: self.max_cash_top_up as nat,
        }
    }
}

/// The views of a sequence of offers, position by position.
pub open spec fn trade_views(trades: Seq<Trade>) -> Seq<TradeView> {
    trades.map_values(|t: Trade| t@)
}

/// Whether `giver` may hand its item to `receiver`:
/// the two items differ, the giver's item meets the receiver's minimum, and
/// whatever the giver's item is worth above the receiver's own does not
/// exceed the receiver's top-up limit.
pub open spec fn legal_exchange(giver: TradeView, receiver: TradeView) -> bool {
    &&& giver.have_watch != receiver.have_watch
    &&& giver.have_value >= receiver.min_acceptable_value
    &&& giver.have_value - receiver.have_value <= receiver.max_cash_top_up
}

/// Decides whether `giver` may hand its item to `receiver`.
pub fn is_legal_exchange(giver: &Trade, receiver: &Trade) -> (legal: bool)
    ensures
        legal == legal_exchange(giver@, receiver@),
{
    let same_item = giver.have_watch == receiver.have_watch;
    !same_item && giver.have_value >= receiver.min_acceptable_value && (giver.have_value
        <= receiver.have_value || giver.have_value - receiver.have_value
        <= receiver.max_cash_top_up)
}

/// An offer never qualifies as a partner of itself: its item does not differ
/// from its own.
pub proof fn lemma_no_exchange_with_self(offer: TradeView)
    ensures
        !legal_exchange(offer, offer),
{
}

} // verus!
