//! Computing the edge rows of all offers on rayon's thread pool.

use rayon::iter::{IntoParallelIterator, ParallelIterator};
use vstd::prelude::*;

use crate::graph_matching::graph::{edge_row, is_edge_row};
use crate::graph_matching::trade::{trade_views, Trade};
use crate::graph_matching::trade_loop::index_seq;

verus! {

/// Computes the edge row of every offer, the rows in parallel.
///
/// Trusted: the body hands the offer indices `0..trades.len()` to rayon's
/// `into_par_iter`, maps each index with one call of [`edge_row`], and gathers
/// the rows with rayon's `collect` into a vector. The contract claims of rayon
/// that the vector holds one item for each index and, at position `i`, what
/// the mapped function returned for index `i`, however the work was split
/// among threads; what each row holds is then what `edge_row` ensures.
#[verifier::external_body]
pub(crate) fn parallel_edge_rows(trades: &Vec<Trade>) -> (rows: Vec<Vec<usize>>)
    ensures
        rows@.len() == trades@.len(),
        forall|from: int|
            0 <= from < trades@.len() ==> is_edge_row(
                trade_views(trades@),
                from,
                index_seq(#[trigger] rows@[from]@),
            ),
{
    (0..trades.len()).into_par_iter().map(|from| edge_row(trades, from)).collect()
}

} // verus!
