//! Enumerating the loops of a trade graph.
//!
//! Loops of two are searched first, in rising order of their index pairs;
//! loops of three follow, exhaustively on a small graph and by random
//! sampling on a large one.

use rand::rngs::StdRng;
use vstd::prelude::*;

use crate::graph_matching::graph::{ascending, is_edge_row, TradeGraph};
use crate::graph_matching::sampling::shuffle_indices;
use crate::graph_matching::trade_loop::{index_seq, scored_loop, LoopType, TradeLoop, TradeLoopView};

verus! {

/// Whether the pair `(a0, a1)` comes before the pair `(b0, b1)` in
/// dictionary order.
pub open spec fn pair_before(a0: int, a1: int, b0: int, b1: int) -> bool {
    a0 < b0 || (a0 == b0 && a1 < b1)
}

/// Whether the triple `(a0, a1, a2)` comes before the triple `(b0, b1, b2)`
/// in dictionary order.
pub open spec fn triple_before(a0: int, a1: int, a2: int, b0: int, b1: int, b2: int) -> bool {
    a0 < b0 || (a0 == b0 && pair_before(a1, a2, b1, b2))
}

/// Whether one of the records `loops[from..to]` starts with the indices
/// `i`, `j`.
pub open spec fn lists_pair(loops: Seq<TradeLoop>, from: int, to: int, i: int, j: int) -> bool {
    exists|t: int|
        from <= t < to && (#[trigger] loops[t])@.indexes[0] == i && loops[t]@.indexes[1] == j
}

/// Whether every record of `loops[from..to]` starts with a pair of indices
/// that comes before `(f0, f1)`.
pub open spec fn pairs_before(loops: Seq<TradeLoop>, from: int, to: int, f0: int, f1: int) -> bool {
    forall|t: int|
        from <= t < to ==> pair_before(
            (#[trigger] loops[t])@.indexes[0],
            loops[t]@.indexes[1],
            f0,
            f1,
        )
}

/// Whether one of the records `loops[from..to]` starts with the indices
/// `i`, `j`, `k`.
pub open spec fn lists_triple(
    loops: Seq<TradeLoop>,
    from: int,
    to: int,
    i: int,
    j: int,
    k: int,
) -> bool {
    exists|t: int|
        from <= t < to && (#[trigger] loops[t])@.indexes[0] == i && loops[t]@.indexes[1] == j
            && loops[t]@.indexes[2] == k
}

/// Whether every record of `loops[from..to]` starts with a triple of indices
/// that comes before `(f0, f1, f2)`.
pub open spec fn triples_before(
    loops: Seq<TradeLoop>,
    from: int,
    to: int,
    f0: int,
    f1: int,
    f2: int,
) -> bool {
    forall|t: int|
        from <= t < to ==> triple_before(
            (#[trigger] loops[t])@.indexes[0],
            loops[t]@.indexes[1],
            loops[t]@.indexes[2],
            f0,
            f1,
            f2,
        )
}

/// A graph of at most this many offers is searched for loops of three
/// exhaustively, a larger one by sampling.
pub const SMALL_GRAPH_LIMIT: usize = 100;

/// The sampling search tries this many samples for each loop asked for.
pub const ATTEMPTS_PER_LOOP: u128 = 10;

/// The entry of a rising row at position `t`, or `n` past its end.
spec fn bound_at(row: Seq<int>, t: int, n: int) -> int {
    if 0 <= t < row.len() {
        row[t]
    } else {
        n
    }
}

/// In a rising row, an entry above the one at position `t` stands at a later
/// position, so it is no less than the entry at position `t + 1`.
proof fn lemma_row_next(row: Seq<int>, t: int, y: int)
    requires
        ascending(row),
        0 <= t < row.len(),
        row.contains(y),
        y > row[t],
    ensures
        t + 1 < row.len(),
        y >= row[t + 1],
{
    let m = choose|m: int| 0 <= m < row.len() && row[m] == y;
    if m < t {
        assert(row[m] < row[t]);
    }
    if m > t + 1 {
        assert(row[t + 1] < row[m]);
    }
}

/// In a rising row, no entry is below the first.
proof fn lemma_row_first(row: Seq<int>, y: int)
    requires
        ascending(row),
        row.contains(y),
    ensures
        row.len() > 0,
        y >= row[0],
{
    let m = choose|m: int| 0 <= m < row.len() && row[m] == y;
    if m > 0 {
        assert(row[0] < row[m]);
    }
}

impl TradeGraph {
    /// Whether `i` and `j`, the lower index first, may each give to the other.
    pub open spec fn is_two_way(&self, i: int, j: int) -> bool {
        i < j && self.has_edge(i, j) && self.has_edge(j, i)
    }

    /// Whether `record` is the record of a loop of two of this graph.
    pub open spec fn two_way_record(&self, record: TradeLoopView) -> bool {
        &&& record.indexes.len() == 2
        &&& self.is_two_way(record.indexes[0], record.indexes[1])
        &&& record == scored_loop(self.offers(), record.indexes, LoopType::TwoWay)
    }

    /// Whether `loops[from..to]` is what the search for loops of two finds:
    /// each record is a loop of two; the records come in rising order of
    /// their index pairs; and a loop of two that is not among them comes
    /// after all of them, and is left out only where the search was cut off
    /// (`full`).
    pub open spec fn two_way_run(
        &self,
        loops: Seq<TradeLoop>,
        from: int,
        to: int,
        full: bool,
    ) -> bool {
        &&& self.two_way_sorted(loops, from, to)
        &&& forall|i: int, j: int| #[trigger]
            self.is_two_way(i, j) && !lists_pair(loops, from, to, i, j) ==> full && pairs_before(
                loops,
                from,
                to,
                i,
                j,
            )
    }

    /// Whether every loop of two that `loops[from..to]` leaves out stands at
    /// `(f0, f1)` or after it.
    spec fn unlisted_pairs_from(
        &self,
        loops: Seq<TradeLoop>,
        from: int,
        to: int,
        f0: int,
        f1: int,
    ) -> bool {
        forall|i: int, j: int| #[trigger]
            self.is_two_way(i, j) && !lists_pair(loops, from, to, i, j) ==> !pair_before(
                i,
                j,
                f0,
                f1,
            )
    }

    /// Whether every loop of two that `loops[from..to]` leaves out comes
    /// after all the records there.
    spec fn unlisted_pairs_follow(&self, loops: Seq<TradeLoop>, from: int, to: int) -> bool {
        forall|i: int, j: int| #[trigger]
            self.is_two_way(i, j) && !lists_pair(loops, from, to, i, j) ==> pairs_before(
                loops,
                from,
                to,
                i,
                j,
            )
    }

    /// Whether `loops[from..to]` holds records of loops of two in rising
    /// order of their index pairs.
    pub open spec fn two_way_sorted(&self, loops: Seq<TradeLoop>, from: int, to: int) -> bool {
        &&& forall|t: int| from <= t < to ==> self.two_way_record((#[trigger] loops[t])@)
        &&& forall|s: int, t: int|
            from <= s < t < to ==> pair_before(
                (#[trigger] loops[s])@.indexes[0],
                loops[s]@.indexes[1],
                (#[trigger] loops[t])@.indexes[0],
                loops[t]@.indexes[1],
            )
    }

    /// Appends to `loops` the loops of two, in rising order of their index
    /// pairs (the lower index of a pair first), and stops as soon as `loops`
    /// holds `max_loops` records. What `loops` held before stays in front.
    pub fn find_two_way_loops(&self, loops: &mut Vec<TradeLoop>, max_loops: usize)
        ensures
            final(loops)@.len() >= old(loops)@.len(),
            final(loops)@.subrange(0, old(loops)@.len() as int) == old(loops)@,
            final(loops)@.len() <= old(loops)@.len() || final(loops)@.len() <= max_loops,
            self.two_way_run(
                final(loops)@,
                old(loops)@.len() as int,
                final(loops)@.len() as int,
                final(loops)@.len() >= max_loops,
            ),
    {
        proof {
            use_type_invariant(self);
        }
        let n = self.len();
        let edges = self.edges();
        let ghost start = loops@.len() as int;
        let ghost initial = loops@;
        assert(loops@.subrange(0, start) =~= initial);
        let mut i: usize = 0;
        while i < n && loops.len() < max_loops
            invariant
                i <= n,
                n == self.offers().len(),
                n == self.adjacency().len(),
                self.wf(),
                edges@.len() == n,
                forall|from: int|
                    0 <= from < n ==> index_seq(#[trigger] edges@[from]@) == self.adjacency()[from],
                start == initial.len(),
                loops@.len() >= start,
                loops@.subrange(0, start) == initial,
                loops@.len() <= start || loops@.len() <= max_loops,
                self.two_way_sorted(loops@, start, loops@.len() as int),
                pairs_before(loops@, start, loops@.len() as int, i as int, 0),
                loops@.len() < max_loops ==> self.unlisted_pairs_from(
                    loops@,
                    start,
                    loops@.len() as int,
                    i as int,
                    0,
                ),
                self.unlisted_pairs_follow(loops@, start, loops@.len() as int),
            decreases n - i,
        {
            let row = &edges[i];
            let ghost targets = index_seq(row@);
            assert(targets == self.adjacency()[i as int]);
            assert(is_edge_row(self.offers(), i as int, targets));
            let mut t: usize = 0;
            proof {
                assert forall|x: int, y: int| #[trigger]
                    self.is_two_way(x, y) && !lists_pair(
                        loops@,
                        start,
                        loops@.len() as int,
                        x,
                        y,
                    ) implies !pair_before(x, y, i as int, bound_at(targets, 0, n as int)) by {
                    assert(!pair_before(x, y, i as int, 0));
                    if x == i {
                        lemma_row_first(targets, y);
                    }
                }
            }
            while t < row.len() && loops.len() < max_loops
                invariant
                    t <= row.len(),
                    i < n,
                    n == self.offers().len(),
                    n == self.adjacency().len(),
                    self.wf(),
                    targets == index_seq(row@),
                    targets == self.adjacency()[i as int],
                    is_edge_row(self.offers(), i as int, targets),
                    start == initial.len(),
                    loops@.len() >= start,
                    loops@.subrange(0, start) == initial,
                    loops@.len() <= start || loops@.len() <= max_loops,
                    self.two_way_sorted(loops@, start, loops@.len() as int),
                    pairs_before(
                        loops@,
                        start,
                        loops@.len() as int,
                        i as int,
                        bound_at(targets, t as int, n as int),
                    ),
                    loops@.len() < max_loops ==> self.unlisted_pairs_from(
                        loops@,
                        start,
                        loops@.len() as int,
                        i as int,
                        bound_at(targets, t as int, n as int),
                    ),
                    self.unlisted_pairs_follow(loops@, start, loops@.len() as int),
                decreases row.len() - t,
            {
                let j = row[t];
                let ghost before = loops@;
                let ghost next_bound = bound_at(targets, t + 1, n as int);
                assert(targets[t as int] == j);
                assert(targets.contains(j as int));
                assert(j < n);
                assert(j < next_bound) by {
                    if t + 1 < targets.len() {
                        assert(targets[t as int] < targets[t + 1]);
                    }
                }
                let mutual = i < j && self.contains_edge(j, i);
                if mutual {
                    let record = self.create_loop_data(vec![i, j], LoopType::TwoWay);
                    proof {
                        assert(index_seq(seq![i, j]) =~= seq![i as int, j as int]);
                        assert(record@.indexes =~= seq![i as int, j as int]);
                        assert(self.is_two_way(i as int, j as int));
                        assert(self.two_way_record(record@));
                    }
                    loops.push(record);
                    proof {
                        let after = loops@;
                        let to = after.len() as int;
                        assert(after == before.push(record));
                        assert(after.subrange(0, start) =~= before.subrange(0, start));
                        assert forall|x: int, y: int|
                            lists_pair(before, start, to - 1, x, y) implies lists_pair(
                            after,
                            start,
                            to,
                            x,
                            y,
                        ) by {
                            let w = choose|w: int|
                                start <= w < to - 1 && (#[trigger] before[w])@.indexes[0] == x
                                    && before[w]@.indexes[1] == y;
                            assert(after[w] == before[w]);
                        }
                        assert(after[to - 1] == record);
                        assert(lists_pair(after, start, to, i as int, j as int));
                        assert forall|x: int, y: int| #[trigger]
                            self.is_two_way(x, y) && !lists_pair(
                                after,
                                start,
                                to,
                                x,
                                y,
                            ) implies !pair_before(x, y, i as int, next_bound) && pairs_before(
                            after,
                            start,
                            to,
                            x,
                            y,
                        ) by {
                            assert(!lists_pair(before, start, to - 1, x, y));
                            assert(!pair_before(x, y, i as int, j as int));
                            assert(pairs_before(before, start, to - 1, x, y));
                            if x == i {
                                assert(y != j);
                                lemma_row_next(targets, t as int, y);
                            }
                            assert forall|s: int| start <= s < to implies pair_before(
                                (#[trigger] after[s])@.indexes[0],
                                after[s]@.indexes[1],
                                x,
                                y,
                            ) by {
                                if s < to - 1 {
                                    assert(after[s] == before[s]);
                                }
                            }
                        }
                        assert forall|s: int| start <= s < to implies pair_before(
                            (#[trigger] after[s])@.indexes[0],
                            after[s]@.indexes[1],
                            i as int,
                            next_bound,
                        ) by {
                            if s < to - 1 {
                                assert(after[s] == before[s]);
                            }
                        }
                        assert forall|s: int| start <= s < to implies self.two_way_record(
                            (#[trigger] after[s])@,
                        ) by {
                            if s < to - 1 {
                                assert(after[s] == before[s]);
                            }
                        }
                        assert forall|r: int, s: int| start <= r < s < to implies pair_before(
                            (#[trigger] after[r])@.indexes[0],
                            after[r]@.indexes[1],
                            (#[trigger] after[s])@.indexes[0],
                            after[s]@.indexes[1],
                        ) by {
                            assert(after[r] == before[r]);
                            if s < to - 1 {
                                assert(after[s] == before[s]);
                            }
                        }
                    }
                } else {
                    proof {
                        let to = before.len() as int;
                        assert forall|x: int, y: int| #[trigger]
                            self.is_two_way(x, y) && !lists_pair(
                                before,
                                start,
                                to,
                                x,
                                y,
                            ) implies !pair_before(x, y, i as int, next_bound) by {
                            assert(!pair_before(x, y, i as int, j as int));
                            if x == i {
                                assert(y != j);
                                lemma_row_next(targets, t as int, y);
                            }
                        }
                    }
                }
                t += 1;
            }
            proof {
                let to = loops@.len() as int;
                if loops@.len() < max_loops {
                    assert forall|x: int, y: int| #[trigger]
                        self.is_two_way(x, y) && !lists_pair(
                            loops@,
                            start,
                            to,
                            x,
                            y,
                        ) implies !pair_before(x, y, i + 1, 0) by {
                        assert(!pair_before(x, y, i as int, n as int));
                    }
                }
            }
            i += 1;
        }
        proof {
            let to = loops@.len() as int;
            if loops@.len() < max_loops {
                assert forall|x: int, y: int| #[trigger]
                    self.is_two_way(x, y) implies lists_pair(loops@, start, to, x, y) by {
                    if !lists_pair(loops@, start, to, x, y) {
                        assert(!pair_before(x, y, n as int, 0));
                    }
                }
            }
        }
    }

    /// Whether `a` may give to `b`, `b` to `c` and `c` to `a`.
    pub open spec fn is_three_cycle(&self, a: int, b: int, c: int) -> bool {
        self.has_edge(a, b) && self.has_edge(b, c) && self.has_edge(c, a)
    }

    /// Whether `i`, `j`, `k` form a cycle and are named from its lowest index
    /// upwards. Of the rotations of a cycle at most one is named so.
    pub open spec fn is_three_way(&self, i: int, j: int, k: int) -> bool {
        i < j < k && self.is_three_cycle(i, j, k)
    }

    /// Whether `record` is the record of a cycle of three of this graph,
    /// named from any of its offers.
    pub open spec fn three_cycle_record(&self, record: TradeLoopView) -> bool {
        &&& record.indexes.len() == 3
        &&& self.is_three_cycle(record.indexes[0], record.indexes[1], record.indexes[2])
        &&& record == scored_loop(self.offers(), record.indexes, LoopType::ThreeWay)
    }

    /// Whether `record` is the record of a cycle of three of this graph,
    /// named in rising order of its indices.
    pub open spec fn three_way_record(&self, record: TradeLoopView) -> bool {
        &&& self.three_cycle_record(record)
        &&& record.indexes[0] < record.indexes[1] < record.indexes[2]
    }

    /// Whether `loops[from..to]` holds records of loops of three in rising
    /// order of their index triples.
    pub open spec fn three_way_sorted(&self, loops: Seq<TradeLoop>, from: int, to: int) -> bool {
        &&& forall|t: int| from <= t < to ==> self.three_way_record((#[trigger] loops[t])@)
        &&& forall|s: int, t: int|
            from <= s < t < to ==> triple_before(
                (#[trigger] loops[s])@.indexes[0],
                loops[s]@.indexes[1],
                loops[s]@.indexes[2],
                (#[trigger] loops[t])@.indexes[0],
                loops[t]@.indexes[1],
                loops[t]@.indexes[2],
            )
    }

    /// Whether every loop of three that `loops[from..to]` leaves out stands
    /// at `(f0, f1, f2)` or after it.
    spec fn unlisted_triples_from(
        &self,
        loops: Seq<TradeLoop>,
        from: int,
        to: int,
        f0: int,
        f1: int,
        f2: int,
    ) -> bool {
        forall|i: int, j: int, k: int| #[trigger]
            self.is_three_way(i, j, k) && !lists_triple(loops, from, to, i, j, k)
                ==> !triple_before(i, j, k, f0, f1, f2)
    }

    /// Whether every loop of three that `loops[from..to]` leaves out comes
    /// after all the records there.
    spec fn unlisted_triples_follow(
        &self,
        loops: Seq<TradeLoop>,
        from: int,
        to: int,
    ) -> bool {
        forall|i: int, j: int, k: int| #[trigger]
            self.is_three_way(i, j, k) && !lists_triple(loops, from, to, i, j, k)
                ==> triples_before(loops, from, to, i, j, k)
    }

    /// Whether `loops[from..to]` is what the exhaustive search for loops of
    /// three finds: each record is a loop of three named in rising order of
    /// its indices; the records come in rising order of their index triples;
    /// and a loop of three that is not among them comes after all of them,
    /// and is left out only where the search was cut off (`full`).
    pub open spec fn three_way_run(
        &self,
        loops: Seq<TradeLoop>,
        from: int,
        to: int,
        full: bool,
    ) -> bool {
        &&& self.three_way_sorted(loops, from, to)
        &&& forall|i: int, j: int, k: int| #[trigger]
            self.is_three_way(i, j, k) && !lists_triple(loops, from, to, i, j, k) ==> full
                && triples_before(loops, from, to, i, j, k)
    }

    /// Whether each record of `loops[from..to]` is a cycle of three of this
    /// graph. Nothing says in which order the records come, from which of its
    /// offers a cycle is named, or that a cycle occurs once only.
    pub open spec fn sampled_run(&self, loops: Seq<TradeLoop>, from: int, to: int) -> bool {
        forall|t: int| from <= t < to ==> self.three_cycle_record((#[trigger] loops[t])@)
    }

    /// What becomes of a rising run of loops of three when the loop at the
    /// point that the search has reached, `(i, j, k)`, is appended to it.
    proof fn lemma_three_way_push(
        &self,
        before: Seq<TradeLoop>,
        record: TradeLoop,
        start: int,
        i: int,
        j: int,
        k: int,
    )
        requires
            0 <= start <= before.len(),
            self.three_way_sorted(before, start, before.len() as int),
            triples_before(before, start, before.len() as int, i, j, k),
            self.unlisted_triples_from(before, start, before.len() as int, i, j, k),
            self.unlisted_triples_follow(before, start, before.len() as int),
            self.three_way_record(record@),
            record@.indexes[0] == i,
            record@.indexes[1] == j,
            record@.indexes[2] == k,
        ensures
            self.three_way_sorted(before.push(record), start, before.len() as int + 1),
            self.unlisted_triples_follow(before.push(record), start, before.len() as int + 1),
            forall|x: int, y: int, z: int| #[trigger]
                self.is_three_way(x, y, z) && !lists_triple(
                    before.push(record),
                    start,
                    before.len() as int + 1,
                    x,
                    y,
                    z,
                ) ==> triple_before(i, j, k, x, y, z),
            forall|t: int|
                start <= t < before.len() + 1 ==> !triple_before(
                    i,
                    j,
                    k,
                    (#[trigger] before.push(record)[t])@.indexes[0],
                    before.push(record)[t]@.indexes[1],
                    before.push(record)[t]@.indexes[2],
                ),
    {
        let after = before.push(record);
        let to = after.len() as int;
        assert(after[to - 1] == record);
        assert forall|x: int, y: int, z: int|
            lists_triple(before, start, to - 1, x, y, z) implies lists_triple(
            after,
            start,
            to,
            x,
            y,
            z,
        ) by {
            let w = choose|w: int|
                start <= w < to - 1 && (#[trigger] before[w])@.indexes[0] == x
                    && before[w]@.indexes[1] == y && before[w]@.indexes[2] == z;
            assert(after[w] == before[w]);
        }
        assert(lists_triple(after, start, to, i, j, k));
        assert forall|x: int, y: int, z: int| #[trigger]
            self.is_three_way(x, y, z) && !lists_triple(
                after,
                start,
                to,
                x,
                y,
                z,
            ) implies triple_before(i, j, k, x, y, z) && triples_before(
            after,
            start,
            to,
            x,
            y,
            z,
        ) by {
            assert(!lists_triple(before, start, to - 1, x, y, z));
            assert(!triple_before(x, y, z, i, j, k));
            assert(triples_before(before, start, to - 1, x, y, z));
            assert forall|s: int| start <= s < to implies triple_before(
                (#[trigger] after[s])@.indexes[0],
                after[s]@.indexes[1],
                after[s]@.indexes[2],
                x,
                y,
                z,
            ) by {
                if s < to - 1 {
                    assert(after[s] == before[s]);
                }
            }
        }
        assert forall|s: int| start <= s < to implies self.three_way_record(
            (#[trigger] after[s])@,
        ) by {
            if s < to - 1 {
                assert(after[s] == before[s]);
            }
        }
        assert forall|r: int, s: int| start <= r < s < to implies triple_before(
            (#[trigger] after[r])@.indexes[0],
            after[r]@.indexes[1],
            after[r]@.indexes[2],
            (#[trigger] after[s])@.indexes[0],
            after[s]@.indexes[1],
            after[s]@.indexes[2],
        ) by {
            assert(after[r] == before[r]);
            if s < to - 1 {
                assert(after[s] == before[s]);
            }
        }
        assert forall|t: int| start <= t < to implies !triple_before(
            i,
            j,
            k,
            (#[trigger] after[t])@.indexes[0],
            after[t]@.indexes[1],
            after[t]@.indexes[2],
        ) by {
            if t < to - 1 {
                assert(after[t] == before[t]);
            }
        }
    }

    /// Tests one sample: the record of the cycle through its first three
    /// indices, in that order, if they form a cycle of three.
    pub fn sampled_loop(&self, sample: &Vec<usize>) -> (found: Option<TradeLoop>)
        requires
            sample@.len() >= 3,
        ensures
            found is Some <==> self.is_three_cycle(
                sample@[0] as int,
                sample@[1] as int,
                sample@[2] as int,
            ),
            found matches Some(record) ==> record@ == scored_loop(
                self.offers(),
                seq![sample@[0] as int, sample@[1] as int, sample@[2] as int],
                LoopType::ThreeWay,
            ),
    {
        proof {
            use_type_invariant(self);
        }
        let n = self.len();
        let a = sample[0];
        let b = sample[1];
        let c = sample[2];
        if self.contains_edge(a, b) && self.contains_edge(b, c) && self.contains_edge(c, a) {
            let record = self.create_loop_data(vec![a, b, c], LoopType::ThreeWay);
            proof {
                assert(index_seq(seq![a, b, c]) =~= seq![a as int, b as int, c as int]);
            }
            Some(record)
        } else {
            None
        }
    }

    /// Appends loops of three to `loops` and stops as soon as `loops` holds
    /// `max_loops` records. What `loops` held before stays in front.
    ///
    /// A graph of at most [`SMALL_GRAPH_LIMIT`] offers is searched
    /// exhaustively: the loops come in rising order of their index triples,
    /// each named from its lowest index upwards. A larger graph is sampled:
    /// up to `max_loops` times [`ATTEMPTS_PER_LOOP`] times the offers are
    /// shuffled with `rng` and the first three tested; how many loops this
    /// finds, and which, depends on `rng`.
    pub fn find_three_way_loops(
        &self,
        loops: &mut Vec<TradeLoop>,
        max_loops: usize,
        rng: &mut StdRng,
    )
        ensures
            final(loops)@.len() >= old(loops)@.len(),
            final(loops)@.subrange(0, old(loops)@.len() as int) == old(loops)@,
            final(loops)@.len() <= old(loops)@.len() || final(loops)@.len() <= max_loops,
            self.offers().len() <= SMALL_GRAPH_LIMIT ==> self.three_way_run(
                final(loops)@,
                old(loops)@.len() as int,
                final(loops)@.len() as int,
                final(loops)@.len() >= max_loops,
            ),
            self.offers().len() > SMALL_GRAPH_LIMIT ==> self.sampled_run(
                final(loops)@,
                old(loops)@.len() as int,
                final(loops)@.len() as int,
            ),
    {
        proof {
            use_type_invariant(self);
        }
        let n = self.len();
        let ghost start = loops@.len() as int;
        let ghost initial = loops@;
        assert(loops@.subrange(0, start) =~= initial);
        if n > SMALL_GRAPH_LIMIT {
            let mut nodes: Vec<usize> = Vec::new();
            let mut v: usize = 0;
            while v < n
                invariant
                    v <= n,
                    nodes@.len() == v,
                decreases n - v,
            {
                nodes.push(v);
                v += 1;
            }
            let max_attempts: u128 = (max_loops as u128) * ATTEMPTS_PER_LOOP;
            let mut attempts: u128 = 0;
            while loops.len() < max_loops && attempts < max_attempts
                invariant
                    attempts <= max_attempts,
                    nodes@.len() == n,
                    n > SMALL_GRAPH_LIMIT,
                    start == initial.len(),
                    loops@.len() >= start,
                    loops@.subrange(0, start) == initial,
                    loops@.len() <= start || loops@.len() <= max_loops,
                    self.sampled_run(loops@, start, loops@.len() as int),
                decreases max_attempts - attempts,
            {
                let ghost unshuffled = nodes@;
                shuffle_indices(&mut nodes, rng);
                proof {
                    unshuffled.to_multiset_ensures();
                    nodes@.to_multiset_ensures();
                }
                let found = self.sampled_loop(&nodes);
                match found {
                    Some(record) => {
                        let ghost before = loops@;
                        proof {
                            assert(record@.indexes =~= seq![
                                nodes@[0] as int,
                                nodes@[1] as int,
                                nodes@[2] as int,
                            ]);
                            assert(self.three_cycle_record(record@));
                        }
                        loops.push(record);
                        proof {
                            let after = loops@;
                            assert(after.subrange(0, start) =~= before.subrange(0, start));
                            assert forall|t: int|
                                start <= t < after.len() implies self.three_cycle_record(
                                (#[trigger] after[t])@,
                            ) by {
                                if t < before.len() {
                                    assert(after[t] == before[t]);
                                }
                            }
                        }
                    },
                    None => {},
                }
                attempts += 1;
            }
            return ;
        }
        let edges = self.edges();
        let mut i: usize = 0;
        while i < n && loops.len() < max_loops
            invariant
                i <= n,
                n == self.offers().len(),
                n == self.adjacency().len(),
                self.wf(),
                edges@.len() == n,
                forall|from: int|
                    0 <= from < n ==> index_seq(#[trigger] edges@[from]@) == self.adjacency()[from],
                start == initial.len(),
                loops@.len() >= start,
                loops@.subrange(0, start) == initial,
                loops@.len() <= start || loops@.len() <= max_loops,
                self.three_way_sorted(loops@, start, loops@.len() as int),
                triples_before(loops@, start, loops@.len() as int, i as int, 0, 0),
                loops@.len() < max_loops ==> self.unlisted_triples_from(
                    loops@,
                    start,
                    loops@.len() as int,
                    i as int,
                    0,
                    0,
                ),
                self.unlisted_triples_follow(loops@, start, loops@.len() as int),
            decreases n - i,
        {
            let row_i = &edges[i];
            let ghost firsts = index_seq(row_i@);
            assert(firsts == self.adjacency()[i as int]);
            assert(is_edge_row(self.offers(), i as int, firsts));
            let mut a: usize = 0;
            proof {
                assert forall|x: int, y: int, z: int| #[trigger]
                    self.is_three_way(x, y, z) && !lists_triple(
                        loops@,
                        start,
                        loops@.len() as int,
                        x,
                        y,
                        z,
                    ) implies !triple_before(x, y, z, i as int, bound_at(firsts, 0, n as int), 0) by {
                    assert(!triple_before(x, y, z, i as int, 0, 0));
                    if x == i {
                        lemma_row_first(firsts, y);
                    }
                }
            }
            while a < row_i.len() && loops.len() < max_loops
                invariant
                    a <= row_i.len(),
                    i < n,
                    n == self.offers().len(),
                    n == self.adjacency().len(),
                    self.wf(),
                    edges@.len() == n,
                    forall|from: int|
                        0 <= from < n ==> index_seq(#[trigger] edges@[from]@)
                            == self.adjacency()[from],
                    firsts == index_seq(row_i@),
                    firsts == self.adjacency()[i as int],
                    is_edge_row(self.offers(), i as int, firsts),
                    start == initial.len(),
                    loops@.len() >= start,
                    loops@.subrange(0, start) == initial,
                    loops@.len() <= start || loops@.len() <= max_loops,
                    self.three_way_sorted(loops@, start, loops@.len() as int),
                    triples_before(
                        loops@,
                        start,
                        loops@.len() as int,
                        i as int,
                        bound_at(firsts, a as int, n as int),
                        0,
                    ),
                    loops@.len() < max_loops ==> self.unlisted_triples_from(
                        loops@,
                        start,
                        loops@.len() as int,
                        i as int,
                        bound_at(firsts, a as int, n as int),
                        0,
                    ),
                    self.unlisted_triples_follow(loops@, start, loops@.len() as int),
                decreases row_i.len() - a,
            {
                let j = row_i[a];
                let ghost next_first = bound_at(firsts, a + 1, n as int);
                assert(firsts[a as int] == j);
                assert(firsts.contains(j as int));
                assert(j < n);
                assert(j < next_first) by {
                    if a + 1 < firsts.len() {
                        assert(firsts[a as int] < firsts[a + 1]);
                    }
                }
                if j > i {
                    let row_j = &edges[j];
                    let ghost seconds = index_seq(row_j@);
                    assert(seconds == self.adjacency()[j as int]);
                    assert(is_edge_row(self.offers(), j as int, seconds));
                    let mut b: usize = 0;
                    proof {
                        assert forall|x: int, y: int, z: int| #[trigger]
                            self.is_three_way(x, y, z) && !lists_triple(
                                loops@,
                                start,
                                loops@.len() as int,
                                x,
                                y,
                                z,
                            ) implies !triple_before(
                            x,
                            y,
                            z,
                            i as int,
                            j as int,
                            bound_at(seconds, 0, n as int),
                        ) by {
                            assert(!triple_before(x, y, z, i as int, j as int, 0));
                            if x == i && y == j {
                                lemma_row_first(seconds, z);
                            }
                        }
                    }
                    while b < row_j.len() && loops.len() < max_loops
                        invariant
                            b <= row_j.len(),
                            i < j < n,
                            n == self.offers().len(),
                            n == self.adjacency().len(),
                            self.wf(),
                            self.has_edge(i as int, j as int),
                            seconds == index_seq(row_j@),
                            seconds == self.adjacency()[j as int],
                            is_edge_row(self.offers(), j as int, seconds),
                            start == initial.len(),
                            loops@.len() >= start,
                            loops@.subrange(0, start) == initial,
                            loops@.len() <= start || loops@.len() <= max_loops,
                            self.three_way_sorted(loops@, start, loops@.len() as int),
                            triples_before(
                                loops@,
                                start,
                                loops@.len() as int,
                                i as int,
                                j as int,
                                bound_at(seconds, b as int, n as int),
                            ),
                            loops@.len() < max_loops ==> self.unlisted_triples_from(
                                loops@,
                                start,
                                loops@.len() as int,
                                i as int,
                                j as int,
                                bound_at(seconds, b as int, n as int),
                            ),
                            self.unlisted_triples_follow(loops@, start, loops@.len() as int),
                        decreases row_j.len() - b,
                    {
                        let k = row_j[b];
                        let ghost before = loops@;
                        let ghost next_second = bound_at(seconds, b + 1, n as int);
                        assert(seconds[b as int] == k);
                        assert(seconds.contains(k as int));
                        assert(k < n);
                        assert(k < next_second) by {
                            if b + 1 < seconds.len() {
                                assert(seconds[b as int] < seconds[b + 1]);
                            }
                        }
                        let closes = k > j && self.contains_edge(k, i);
                        if closes {
                            let record = self.create_loop_data(vec![i, j, k], LoopType::ThreeWay);
                            proof {
                                assert(index_seq(seq![i, j, k]) =~= seq![
                                    i as int,
                                    j as int,
                                    k as int,
                                ]);
                                assert(record@.indexes =~= seq![i as int, j as int, k as int]);
                                assert(self.is_three_way(i as int, j as int, k as int));
                                assert(self.three_way_record(record@));
                                self.lemma_three_way_push(
                                    before,
                                    record,
                                    start,
                                    i as int,
                                    j as int,
                                    k as int,
                                );
                            }
                            loops.push(record);
                            proof {
                                let after = loops@;
                                let to = after.len() as int;
                                assert(after == before.push(record));
                                assert(after.subrange(0, start) =~= before.subrange(0, start));
                                assert forall|x: int, y: int, z: int| #[trigger]
                                    self.is_three_way(x, y, z) && !lists_triple(
                                        after,
                                        start,
                                        to,
                                        x,
                                        y,
                                        z,
                                    ) implies !triple_before(
                                    x,
                                    y,
                                    z,
                                    i as int,
                                    j as int,
                                    next_second,
                                ) by {
                                    assert(triple_before(i as int, j as int, k as int, x, y, z));
                                    if x == i && y == j {
                                        lemma_row_next(seconds, b as int, z);
                                    }
                                }
                            }
                        } else {
                            proof {
                                let to = before.len() as int;
                                assert forall|x: int, y: int, z: int| #[trigger]
                                    self.is_three_way(x, y, z) && !lists_triple(
                                        before,
                                        start,
                                        to,
                                        x,
                                        y,
                                        z,
                                    ) implies !triple_before(
                                    x,
                                    y,
                                    z,
                                    i as int,
                                    j as int,
                                    next_second,
                                ) by {
                                    assert(!triple_before(x, y, z, i as int, j as int, k as int));
                                    if x == i && y == j {
                                        assert(z != k);
                                        lemma_row_next(seconds, b as int, z);
                                    }
                                }
                            }
                        }
                        b += 1;
                    }
                    proof {
                        let to = loops@.len() as int;
                        if loops@.len() < max_loops {
                            assert forall|x: int, y: int, z: int| #[trigger]
                                self.is_three_way(x, y, z) && !lists_triple(
                                    loops@,
                                    start,
                                    to,
                                    x,
                                    y,
                                    z,
                                ) implies !triple_before(x, y, z, i as int, next_first, 0) by {
                                assert(!triple_before(x, y, z, i as int, j as int, n as int));
                                if x == i {
                                    assert(y != j);
                                    lemma_row_next(firsts, a as int, y);
                                }
                            }
                        }
                    }
                } else {
                    proof {
                        let to = loops@.len() as int;
                        assert forall|x: int, y: int, z: int| #[trigger]
                            self.is_three_way(x, y, z) && !lists_triple(
                                loops@,
                                start,
                                to,
                                x,
                                y,
                                z,
                            ) implies !triple_before(x, y, z, i as int, next_first, 0) by {
                            assert(!triple_before(x, y, z, i as int, j as int, 0));
                            if x == i {
                                assert(y != j);
                                lemma_row_next(firsts, a as int, y);
                            }
                        }
                    }
                }
                a += 1;
            }
            proof {
                let to = loops@.len() as int;
                if loops@.len() < max_loops {
                    assert forall|x: int, y: int, z: int| #[trigger]
                        self.is_three_way(x, y, z) && !lists_triple(
                            loops@,
                            start,
                            to,
                            x,
                            y,
                            z,
                        ) implies !triple_before(x, y, z, i + 1, 0, 0) by {
                        assert(!triple_before(x, y, z, i as int, n as int, 0));
                    }
                }
            }
            i += 1;
        }
        proof {
            let to = loops@.len() as int;
            if loops@.len() < max_loops {
                assert forall|x: int, y: int, z: int| #[trigger]
                    self.is_three_way(x, y, z) implies lists_triple(loops@, start, to, x, y, z) by {
                    if !lists_triple(loops@, start, to, x, y, z) {
                        assert(!triple_before(x, y, z, n as int, 0, 0));
                    }
                }
            }
        }
    }

    /// Whether `loops` is what a search for at most `max_loops` loops gives,
    /// with its first `k` records the loops of two: those are the run of
    /// loops of two, cut off at half of `max_loops` (rounded down), and the
    /// records after them are loops of three, found exhaustively on a small
    /// graph and by sampling on a large one.
    pub open spec fn loops_found(&self, loops: Seq<TradeLoop>, max_loops: int, k: int) -> bool {
        &&& 0 <= k <= loops.len()
        &&& k <= max_loops / 2
        &&& self.two_way_run(loops, 0, k, k >= max_loops / 2)
        &&& self.offers().len() <= SMALL_GRAPH_LIMIT ==> self.three_way_run(
            loops,
            k,
            loops.len() as int,
            loops.len() >= max_loops,
        )
        &&& self.offers().len() > SMALL_GRAPH_LIMIT ==> self.sampled_run(
            loops,
            k,
            loops.len() as int,
        )
    }

    /// A run of loops of two stays one when the list that holds it changes
    /// elsewhere.
    proof fn lemma_two_way_run_kept(
        &self,
        a: Seq<TradeLoop>,
        b: Seq<TradeLoop>,
        from: int,
        to: int,
        full: bool,
    )
        requires
            0 <= from <= to <= a.len(),
            to <= b.len(),
            forall|t: int| from <= t < to ==> #[trigger] a[t] == b[t],
            self.two_way_run(a, from, to, full),
        ensures
            self.two_way_run(b, from, to, full),
    {
        assert forall|i: int, j: int| #[trigger]
            self.is_two_way(i, j) && !lists_pair(b, from, to, i, j) implies full && pairs_before(
            b,
            from,
            to,
            i,
            j,
        ) by {
            if lists_pair(a, from, to, i, j) {
                let w = choose|w: int|
                    from <= w < to && (#[trigger] a[w])@.indexes[0] == i && a[w]@.indexes[1] == j;
                assert(b[w] == a[w]);
            }
            assert(pairs_before(a, from, to, i, j));
            assert forall|t: int| from <= t < to implies pair_before(
                (#[trigger] b[t])@.indexes[0],
                b[t]@.indexes[1],
                i,
                j,
            ) by {
                assert(a[t] == b[t]);
            }
        }
        assert forall|t: int| from <= t < to implies self.two_way_record((#[trigger] b[t])@) by {
            assert(a[t] == b[t]);
        }
        assert forall|s: int, t: int| from <= s < t < to implies pair_before(
            (#[trigger] b[s])@.indexes[0],
            b[s]@.indexes[1],
            (#[trigger] b[t])@.indexes[0],
            b[t]@.indexes[1],
        ) by {
            assert(a[s] == b[s]);
            assert(a[t] == b[t]);
        }
    }

    /// Finds at most `max_loops` loops: first loops of two, up to half of
    /// `max_loops` (rounded down), then loops of three until `max_loops`
    /// records are found. With `max_loops` zero nothing is searched.
    ///
    /// On a graph of more than [`SMALL_GRAPH_LIMIT`] offers the loops of
    /// three are sampled with `rng`; a generator made from a fixed seed gives
    /// the same loops on every run.
    pub fn find_loops(&self, max_loops: usize, rng: &mut StdRng) -> (loops: Vec<TradeLoop>)
        ensures
            loops@.len() <= max_loops,
            exists|k: int| #[trigger] self.loops_found(loops@, max_loops as int, k),
            forall|t: int|
                0 <= t < loops@.len() && (#[trigger] loops@[t])@.loop_type == LoopType::TwoWay
                    ==> self.two_way_record(loops@[t]@),
            forall|t: int|
                0 <= t < loops@.len() && (#[trigger] loops@[t])@.loop_type == LoopType::ThreeWay
                    ==> self.three_cycle_record(loops@[t]@) && (self.offers().len()
                    <= SMALL_GRAPH_LIMIT ==> self.three_way_record(loops@[t]@)),
    {
        let mut loops: Vec<TradeLoop> = Vec::new();
        self.find_two_way_loops(&mut loops, max_loops / 2);
        let ghost pairs = loops@;
        let ghost k = loops@.len() as int;
        if loops.len() < max_loops {
            self.find_three_way_loops(&mut loops, max_loops, rng);
        }
        proof {
            assert forall|t: int| 0 <= t < k implies #[trigger] pairs[t] == loops@[t] by {
                assert(loops@.subrange(0, k)[t] == loops@[t]);
            }
            self.lemma_two_way_run_kept(pairs, loops@, 0, k, k >= max_loops / 2);
            assert(self.loops_found(loops@, max_loops as int, k));
            assert forall|t: int|
                0 <= t < loops@.len() && (#[trigger] loops@[t])@.loop_type
                    == LoopType::TwoWay implies self.two_way_record(loops@[t]@) by {
                if t >= k {
                    if self.offers().len() <= SMALL_GRAPH_LIMIT {
                        assert(self.three_way_record(loops@[t]@));
                    } else {
                        assert(self.three_cycle_record(loops@[t]@));
                    }
                }
            }
            assert forall|t: int|
                0 <= t < loops@.len() && (#[trigger] loops@[t])@.loop_type
                    == LoopType::ThreeWay implies self.three_cycle_record(loops@[t]@) && (
                self.offers().len() <= SMALL_GRAPH_LIMIT ==> self.three_way_record(loops@[t]@)) by {
                if t < k {
                    assert(self.two_way_record(loops@[t]@));
                } else {
                    if self.offers().len() <= SMALL_GRAPH_LIMIT {
                        assert(self.three_way_record(loops@[t]@));
                    } else {
                        assert(self.three_cycle_record(loops@[t]@));
                    }
                }
            }
        }
        loops
    }

    /// Two runs of loops of two of one graph agree at every position that
    /// both have.
    proof fn lemma_two_way_runs_agree(
        &self,
        a: Seq<TradeLoop>,
        b: Seq<TradeLoop>,
        full_a: bool,
        full_b: bool,
        t: int,
    )
        requires
            self.two_way_run(a, 0, a.len() as int, full_a),
            self.two_way_run(b, 0, b.len() as int, full_b),
            0 <= t < a.len(),
            t < b.len(),
        ensures
            a[t]@.indexes[0] == b[t]@.indexes[0],
            a[t]@.indexes[1] == b[t]@.indexes[1],
        decreases t,
    {
        assert forall|s: int| 0 <= s < t implies (#[trigger] a[s])@.indexes[0] == b[s]@.indexes[0]
            && a[s]@.indexes[1] == b[s]@.indexes[1] by {
            self.lemma_two_way_runs_agree(a, b, full_a, full_b, s);
        }
        let p0 = a[t]@.indexes[0];
        let p1 = a[t]@.indexes[1];
        let q0 = b[t]@.indexes[0];
        let q1 = b[t]@.indexes[1];
        assert(self.two_way_record(a[t]@));
        assert(self.two_way_record(b[t]@));
        if pair_before(p0, p1, q0, q1) {
            if lists_pair(b, 0, b.len() as int, p0, p1) {
                let w = choose|w: int|
                    0 <= w < b.len() && (#[trigger] b[w])@.indexes[0] == p0 && b[w]@.indexes[1]
                        == p1;
                if w < t {
                    assert(a[w]@.indexes[0] == b[w]@.indexes[0]);
                }
            } else {
                assert(self.is_two_way(p0, p1));
                assert(pairs_before(b, 0, b.len() as int, p0, p1));
            }
        }
        if pair_before(q0, q1, p0, p1) {
            if lists_pair(a, 0, a.len() as int, q0, q1) {
                let w = choose|w: int|
                    0 <= w < a.len() && (#[trigger] a[w])@.indexes[0] == q0 && a[w]@.indexes[1]
                        == q1;
                if w < t {
                    assert(a[w]@.indexes[0] == b[w]@.indexes[0]);
                }
            } else {
                assert(self.is_two_way(q0, q1));
                assert(pairs_before(a, 0, a.len() as int, q0, q1));
            }
        }
    }

    /// The search for loops of two has one result only: two lists that both
    /// are a run of loops of two of this graph, cut off at `limit` records,
    /// hold the same records in the same order.
    pub proof fn lemma_two_way_run_unique(&self, a: Seq<TradeLoop>, b: Seq<TradeLoop>, limit: int)
        requires
            a.len() <= limit,
            b.len() <= limit,
            self.two_way_run(a, 0, a.len() as int, a.len() >= limit),
            self.two_way_run(b, 0, b.len() as int, b.len() >= limit),
        ensures
            a.len() == b.len(),
            forall|t: int| 0 <= t < a.len() ==> (#[trigger] a[t])@ == b[t]@,
    {
        let full_a = a.len() >= limit;
        let full_b = b.len() >= limit;
        if a.len() < b.len() {
            let extra = b[a.len() as int]@;
            assert(self.two_way_record(extra));
            assert(lists_pair(a, 0, a.len() as int, extra.indexes[0], extra.indexes[1]));
            let w = choose|w: int|
                0 <= w < a.len() && (#[trigger] a[w])@.indexes[0] == extra.indexes[0]
                    && a[w]@.indexes[1] == extra.indexes[1];
            self.lemma_two_way_runs_agree(a, b, full_a, full_b, w);
            assert(pair_before(
                b[w]@.indexes[0],
                b[w]@.indexes[1],
                b[a.len() as int]@.indexes[0],
                b[a.len() as int]@.indexes[1],
            ));
        }
        if b.len() < a.len() {
            let extra = a[b.len() as int]@;
            assert(self.two_way_record(extra));
            assert(lists_pair(b, 0, b.len() as int, extra.indexes[0], extra.indexes[1]));
            let w = choose|w: int|
                0 <= w < b.len() && (#[trigger] b[w])@.indexes[0] == extra.indexes[0]
                    && b[w]@.indexes[1] == extra.indexes[1];
            self.lemma_two_way_runs_agree(a, b, full_a, full_b, w);
            assert(pair_before(
                a[w]@.indexes[0],
                a[w]@.indexes[1],
                a[b.len() as int]@.indexes[0],
                a[b.len() as int]@.indexes[1],
            ));
        }
        assert forall|t: int| 0 <= t < a.len() implies (#[trigger] a[t])@ == b[t]@ by {
            self.lemma_two_way_runs_agree(a, b, full_a, full_b, t);
            assert(self.two_way_record(a[t]@));
            assert(self.two_way_record(b[t]@));
            assert(a[t]@.indexes =~= b[t]@.indexes);
        }
    }

    /// Two runs of loops of three of one graph agree at every position that
    /// both have.
    proof fn lemma_three_way_runs_agree(
        &self,
        a: Seq<TradeLoop>,
        b: Seq<TradeLoop>,
        full_a: bool,
        full_b: bool,
        t: int,
    )
        requires
            self.three_way_run(a, 0, a.len() as int, full_a),
            self.three_way_run(b, 0, b.len() as int, full_b),
            0 <= t < a.len(),
            t < b.len(),
        ensures
            a[t]@.indexes[0] == b[t]@.indexes[0],
            a[t]@.indexes[1] == b[t]@.indexes[1],
            a[t]@.indexes[2] == b[t]@.indexes[2],
        decreases t,
    {
        assert forall|s: int| 0 <= s < t implies (#[trigger] a[s])@.indexes[0] == b[s]@.indexes[0]
            && a[s]@.indexes[1] == b[s]@.indexes[1] && a[s]@.indexes[2] == b[s]@.indexes[2] by {
            self.lemma_three_way_runs_agree(a, b, full_a, full_b, s);
        }
        let p0 = a[t]@.indexes[0];
        let p1 = a[t]@.indexes[1];
        let p2 = a[t]@.indexes[2];
        let q0 = b[t]@.indexes[0];
        let q1 = b[t]@.indexes[1];
        let q2 = b[t]@.indexes[2];
        assert(self.three_way_record(a[t]@));
        assert(self.three_way_record(b[t]@));
        if triple_before(p0, p1, p2, q0, q1, q2) {
            if lists_triple(b, 0, b.len() as int, p0, p1, p2) {
                let w = choose|w: int|
                    0 <= w < b.len() && (#[trigger] b[w])@.indexes[0] == p0 && b[w]@.indexes[1]
                        == p1 && b[w]@.indexes[2] == p2;
                if w < t {
                    assert(a[w]@.indexes[0] == b[w]@.indexes[0]);
                }
            } else {
                assert(self.is_three_way(p0, p1, p2));
                assert(triples_before(b, 0, b.len() as int, p0, p1, p2));
            }
        }
        if triple_before(q0, q1, q2, p0, p1, p2) {
            if lists_triple(a, 0, a.len() as int, q0, q1, q2) {
                let w = choose|w: int|
                    0 <= w < a.len() && (#[trigger] a[w])@.indexes[0] == q0 && a[w]@.indexes[1]
                        == q1 && a[w]@.indexes[2] == q2;
                if w < t {
                    assert(a[w]@.indexes[0] == b[w]@.indexes[0]);
                }
            } else {
                assert(self.is_three_way(q0, q1, q2));
                assert(triples_before(a, 0, a.len() as int, q0, q1, q2));
            }
        }
    }

    /// The exhaustive search for loops of three has one result only: two
    /// lists that both are a run of loops of three of this graph, cut off at
    /// `limit` records, hold the same records in the same order.
    pub proof fn lemma_three_way_run_unique(
        &self,
        a: Seq<TradeLoop>,
        b: Seq<TradeLoop>,
        limit: int,
    )
        requires
            a.len() <= limit,
            b.len() <= limit,
            self.three_way_run(a, 0, a.len() as int, a.len() >= limit),
            self.three_way_run(b, 0, b.len() as int, b.len() >= limit),
        ensures
            a.len() == b.len(),
            forall|t: int| 0 <= t < a.len() ==> (#[trigger] a[t])@ == b[t]@,
    {
        let full_a = a.len() >= limit;
        let full_b = b.len() >= limit;
        if a.len() < b.len() {
            let extra = b[a.len() as int]@;
            assert(self.three_way_record(extra));
            assert(self.is_three_way(extra.indexes[0], extra.indexes[1], extra.indexes[2]));
            assert(lists_triple(
                a,
                0,
                a.len() as int,
                extra.indexes[0],
                extra.indexes[1],
                extra.indexes[2],
            ));
            let w = choose|w: int|
                0 <= w < a.len() && (#[trigger] a[w])@.indexes[0] == extra.indexes[0]
                    && a[w]@.indexes[1] == extra.indexes[1] && a[w]@.indexes[2]
                    == extra.indexes[2];
            self.lemma_three_way_runs_agree(a, b, full_a, full_b, w);
            assert(triple_before(
                b[w]@.indexes[0],
                b[w]@.indexes[1],
                b[w]@.indexes[2],
                b[a.len() as int]@.indexes[0],
                b[a.len() as int]@.indexes[1],
                b[a.len() as int]@.indexes[2],
            ));
        }
        if b.len() < a.len() {
            let extra = a[b.len() as int]@;
            assert(self.three_way_record(extra));
            assert(self.is_three_way(extra.indexes[0], extra.indexes[1], extra.indexes[2]));
            assert(lists_triple(
                b,
                0,
                b.len() as int,
                extra.indexes[0],
                extra.indexes[1],
                extra.indexes[2],
            ));
            let w = choose|w: int|
                0 <= w < b.len() && (#[trigger] b[w])@.indexes[0] == extra.indexes[0]
                    && b[w]@.indexes[1] == extra.indexes[1] && b[w]@.indexes[2]
                    == extra.indexes[2];
            self.lemma_three_way_runs_agree(a, b, full_a, full_b, w);
            assert(triple_before(
                a[w]@.indexes[0],
                a[w]@.indexes[1],
                a[w]@.indexes[2],
                a[b.len() as int]@.indexes[0],
                a[b.len() as int]@.indexes[1],
                a[b.len() as int]@.indexes[2],
            ));
        }
        assert forall|t: int| 0 <= t < a.len() implies (#[trigger] a[t])@ == b[t]@ by {
            self.lemma_three_way_runs_agree(a, b, full_a, full_b, t);
            assert(self.three_way_record(a[t]@));
            assert(self.three_way_record(b[t]@));
            assert(a[t]@.indexes =~= b[t]@.indexes);
        }
    }
}

} // verus!
