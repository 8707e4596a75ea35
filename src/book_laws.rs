use vstd::prelude::*;
use crate::decimal::Decimal;
use crate::order_book::{
    apply_delta_spec, apply_level, apply_levels, is_crossed, BookView, OrderBookDelta,
};

verus! {

broadcast use vstd::seq_lib::to_multiset_contains;

/// The prices that a list of `(price, quantity)` updates writes.
pub open spec fn level_prices(u: Seq<(Decimal, i64)>) -> Set<int> {
    Set::new(|p: int| exists|i: int| 0 <= i < u.len() && (#[trigger] u[i]).0.units == p)
}

/// Two maps that hold the same entries at every key outside `s`.
pub open spec fn agree_outside(m1: Map<int, int>, m2: Map<int, int>, s: Set<int>) -> bool {
    forall|k: int|
        #![trigger m1.contains_key(k)]
        #![trigger m2.contains_key(k)]
        !s.contains(k) ==> (m1.contains_key(k) == m2.contains_key(k) && (m1.contains_key(k) ==> m1[k] == m2[k]))
}

/// Applies a sequence of deltas, first to last.
pub open spec fn apply_all(b: BookView, ds: Seq<OrderBookDelta>) -> BookView
    decreases ds.len(),
{
    if ds.len() == 0 {
        b
    } else {
        apply_delta_spec(apply_all(b, ds.drop_last()), ds.last())
    }
}

/// No two deltas carry the same timestamp.
pub open spec fn distinct_timestamps(ds: Seq<OrderBookDelta>) -> bool {
    forall|i: int, j: int|
        0 <= i < ds.len() && 0 <= j < ds.len() && i != j ==> (#[trigger] ds[i]).timestamp != (#[trigger] ds[j]).timestamp
}

/// Every delta writes the same set of bid prices and the same set of ask prices.
pub open spec fn same_prices_written(ds: Seq<OrderBookDelta>) -> bool {
    forall|i: int, j: int|
        0 <= i < ds.len() && 0 <= j < ds.len() ==> level_prices((#[trigger] ds[i]).bids@) == level_prices(
            (#[trigger] ds[j]).bids@,
        ) && level_prices(ds[i].asks@) == level_prices(ds[j].asks@)
}

/// The index of the delta with the greatest timestamp (the earliest such one).
pub open spec fn latest(ds: Seq<OrderBookDelta>) -> int
    decreases ds.len(),
{
    if ds.len() <= 1 {
        0
    } else {
        let j = latest(ds.drop_last());
        if ds.last().timestamp > ds[j].timestamp {
            ds.len() - 1
        } else {
            j
        }
    }
}

proof fn lemma_prices_last(u: Seq<(Decimal, i64)>)
    requires
        u.len() > 0,
    ensures
        level_prices(u) == level_prices(u.drop_last()).insert(u.last().0.units as int),
{
    let d = u.drop_last();
    assert forall|p: int| level_prices(u).contains(p) <==> #[trigger] level_prices(d).insert(u.last().0.units as int).contains(p) by {
        if level_prices(u).contains(p) {
            let i = choose|i: int| 0 <= i < u.len() && (#[trigger] u[i]).0.units == p;
            if i < u.len() - 1 {
                assert(d[i] == u[i]);
            }
        }
        if level_prices(d).contains(p) {
            let i = choose|i: int| 0 <= i < d.len() && (#[trigger] d[i]).0.units == p;
            assert(u[i] == d[i]);
        }
        if p == u.last().0.units {
            assert(u[u.len() - 1].0.units == p);
        }
    }
    assert(level_prices(u) =~= level_prices(d).insert(u.last().0.units as int));
}

proof fn lemma_levels_agree(m1: Map<int, int>, m2: Map<int, int>, s: Set<int>, u: Seq<(Decimal, i64)>)
    requires
        agree_outside(m1, m2, s),
    ensures
        agree_outside(apply_levels(m1, u), apply_levels(m2, u), s.difference(level_prices(u))),
    decreases u.len(),
{
    if u.len() > 0 {
        lemma_levels_agree(m1, m2, s, u.drop_last());
        lemma_prices_last(u);
    }
}

proof fn lemma_levels_touch_only(m: Map<int, int>, u: Seq<(Decimal, i64)>)
    ensures
        agree_outside(m, apply_levels(m, u), level_prices(u)),
    decreases u.len(),
{
    if u.len() > 0 {
        lemma_levels_touch_only(m, u.drop_last());
        lemma_prices_last(u);
    }
}

proof fn lemma_agree_everywhere(m1: Map<int, int>, m2: Map<int, int>, s: Set<int>)
    requires
        agree_outside(m1, m2, s.difference(s)),
    ensures
        m1 == m2,
{
    assert forall|k: int| #[trigger] m1.contains_key(k) == m2.contains_key(k) by {
        assert(!s.difference(s).contains(k));
    }
    assert forall|k: int| #[trigger] m1.contains_key(k) implies m1[k] == m2[k] by {
        assert(!s.difference(s).contains(k));
    }
    assert(m1 =~= m2);
}

/// Writing the same list of absolute-quantity updates twice gives what writing
/// it once gives.
pub proof fn lemma_levels_idempotent(m: Map<int, int>, u: Seq<(Decimal, i64)>)
    ensures
        apply_levels(apply_levels(m, u), u) == apply_levels(m, u),
{
    let a = apply_levels(m, u);
    lemma_levels_touch_only(m, u);
    lemma_levels_agree(a, m, level_prices(u), u);
    lemma_agree_everywhere(apply_levels(a, u), apply_levels(m, u), level_prices(u));
}

/// A list of updates that writes every price a ladder holds leaves nothing of
/// that ladder behind.
pub proof fn lemma_levels_cover(m: Map<int, int>, u: Seq<(Decimal, i64)>)
    requires
        m.dom().subset_of(level_prices(u)),
    ensures
        apply_levels(m, u) == apply_levels(Map::empty(), u),
{
    lemma_levels_agree(m, Map::empty(), level_prices(u), u);
    lemma_agree_everywhere(apply_levels(m, u), apply_levels(Map::empty(), u), level_prices(u));
}

/// Applying the same delta a second time leaves the book as the first
/// application left it.
pub proof fn lemma_delta_twice(b: BookView, d: OrderBookDelta)
    ensures
        apply_delta_spec(apply_delta_spec(b, d), d) == apply_delta_spec(b, d),
{
    if d.symbol@ == b.symbol && d.timestamp >= b.timestamp {
        lemma_levels_idempotent(b.bids, d.bids@);
        lemma_levels_idempotent(b.asks, d.asks@);
    }
}

/// A book with an empty side is never crossed.
pub proof fn lemma_empty_side_not_crossed(b: BookView)
    requires
        b.bids.dom() == Set::<int>::empty() || b.asks.dom() == Set::<int>::empty(),
    ensures
        !is_crossed(b),
{
    if is_crossed(b) {
        let (p, a) = choose|p: int, a: int| b.bids.contains_key(p) && b.asks.contains_key(a) && p >= a;
        assert(b.bids.dom().contains(p));
        assert(b.asks.dom().contains(a));
    }
}

proof fn lemma_latest_is_max(ds: Seq<OrderBookDelta>)
    requires
        ds.len() > 0,
    ensures
        0 <= latest(ds) < ds.len(),
        forall|k: int| 0 <= k < ds.len() ==> (#[trigger] ds[k]).timestamp <= ds[latest(ds)].timestamp,
    decreases ds.len(),
{
    if ds.len() > 1 {
        let pre = ds.drop_last();
        lemma_latest_is_max(pre);
        assert forall|k: int| 0 <= k < ds.len() implies (#[trigger] ds[k]).timestamp <= ds[latest(ds)].timestamp by {
            if k < ds.len() - 1 {
                assert(ds[k] == pre[k]);
            }
        }
    }
}

proof fn lemma_apply_all_is_latest(b0: BookView, ds: Seq<OrderBookDelta>)
    requires
        ds.len() > 0,
        b0.bids == Map::<int, int>::empty(),
        b0.asks == Map::<int, int>::empty(),
        distinct_timestamps(ds),
        same_prices_written(ds),
        forall|i: int| 0 <= i < ds.len() ==> (#[trigger] ds[i]).symbol@ == b0.symbol,
    ensures
        apply_all(b0, ds) == apply_delta_spec(b0, ds[latest(ds)]),
    decreases ds.len(),
{
    lemma_latest_is_max(ds);
    if ds.len() > 1 {
        let pre = ds.drop_last();
        let d = ds.last();
        assert forall|i: int, j: int|
            0 <= i < pre.len() && 0 <= j < pre.len() && i != j implies (#[trigger] pre[i]).timestamp != (#[trigger] pre[j]).timestamp by {
            assert(pre[i] == ds[i] && pre[j] == ds[j]);
        }
        assert forall|i: int, j: int| 0 <= i < pre.len() && 0 <= j < pre.len() implies level_prices((#[trigger] pre[i]).bids@)
            == level_prices((#[trigger] pre[j]).bids@) && level_prices(pre[i].asks@) == level_prices(pre[j].asks@) by {
            assert(pre[i] == ds[i] && pre[j] == ds[j]);
        }
        assert forall|i: int| 0 <= i < pre.len() implies (#[trigger] pre[i]).symbol@ == b0.symbol by {
            assert(pre[i] == ds[i]);
        }
        lemma_apply_all_is_latest(b0, pre);
        lemma_latest_is_max(pre);
        let jp = latest(pre);
        let mp = pre[jp];
        assert(mp == ds[jp]);
        assert(d == ds[ds.len() - 1]);
        assert(d.timestamp != mp.timestamp);
        assert(apply_all(b0, ds) == apply_delta_spec(apply_delta_spec(b0, mp), d));
        if d.timestamp < mp.timestamp {
            assert(latest(ds) == jp);
        } else {
            assert(latest(ds) == ds.len() - 1);
        }
        if d.timestamp > mp.timestamp && mp.timestamp >= b0.timestamp {
            let s = apply_delta_spec(b0, mp);
            assert(level_prices(mp.bids@) == level_prices(d.bids@));
            assert(level_prices(mp.asks@) == level_prices(d.asks@));
            lemma_levels_touch_only(Map::empty(), mp.bids@);
            lemma_levels_touch_only(Map::empty(), mp.asks@);
            assert(s.bids.dom().subset_of(level_prices(d.bids@)));
            assert(s.asks.dom().subset_of(level_prices(d.asks@)));
            lemma_levels_cover(s.bids, d.bids@);
            lemma_levels_cover(s.asks, d.asks@);
            assert(apply_delta_spec(s, d) == apply_delta_spec(b0, d));
        }
    } else {
        assert(ds.drop_last().len() == 0);
        assert(apply_all(b0, ds.drop_last()) == b0);
    }
}

/// A reordering of a list of deltas with distinct timestamps keeps them
/// distinct, keeps every delta one of the original ones, and keeps the same
/// latest delta.
proof fn lemma_reordered_latest(ds1: Seq<OrderBookDelta>, ds2: Seq<OrderBookDelta>)
    requires
        ds1.to_multiset() == ds2.to_multiset(),
        distinct_timestamps(ds1),
        ds1.len() > 0,
    ensures
        ds2.len() == ds1.len(),
        distinct_timestamps(ds2),
        forall|i: int| 0 <= i < ds2.len() ==> exists|j: int| 0 <= j < ds1.len() && ds1[j] == #[trigger] ds2[i],
        ds1[latest(ds1)] == ds2[latest(ds2)],
{
    ds1.to_multiset_ensures();
    ds2.to_multiset_ensures();
    assert(ds2.len() == ds1.len());
    assert forall|i: int| 0 <= i < ds2.len() implies exists|j: int| 0 <= j < ds1.len() && ds1[j] == #[trigger] ds2[i] by {
        assert(ds2.contains(ds2[i]));
        assert(ds2.to_multiset().count(ds2[i]) > 0);
        assert(ds1.contains(ds2[i]));
    }
        assert forall|i: int, j: int|
            0 <= i < ds2.len() && 0 <= j < ds2.len() && i != j implies (#[trigger] ds2[i]).timestamp != (#[trigger] ds2[j]).timestamp by {
            if ds2[i].timestamp == ds2[j].timestamp {
                let a = choose|a: int| 0 <= a < ds1.len() && ds1[a] == ds2[i];
                let c = choose|c: int| 0 <= c < ds1.len() && ds1[c] == ds2[j];
                if a == c {
                    // two equal entries in ds2 need two copies in ds1
                    let m = ds2.to_multiset();
                    assert(ds2 =~= ds2.remove(j).insert(j, ds2[j]));
                    vstd::seq_lib::to_multiset_remove(ds2, j);
                    let r = ds2.remove(j);
                    let ii = if i < j { i } else { i - 1 };
                    assert(r[ii] == ds2[i]);
                    assert(r.contains(ds2[i]));
                    r.to_multiset_ensures();
                    assert(r.to_multiset().count(ds2[i]) > 0);
                    assert(m.count(ds2[j]) >= 2);
                    assert(ds1.to_multiset().count(ds1[a]) >= 2);
                    let r1 = ds1.remove(a);
                    vstd::seq_lib::to_multiset_remove(ds1, a);
                    r1.to_multiset_ensures();
                    assert(r1.to_multiset().count(ds1[a]) >= 1);
                    assert(r1.contains(ds1[a]));
                    let e = choose|e: int| 0 <= e < r1.len() && r1[e] == ds1[a];
                    let e1 = if e < a { e } else { e + 1 };
                    assert(ds1[e1] == r1[e]);
                }
            }
        }
    lemma_latest_is_max(ds1);
    lemma_latest_is_max(ds2);
    let l1 = latest(ds1);
    let l2 = latest(ds2);
    let a = choose|a: int| 0 <= a < ds1.len() && ds1[a] == ds2[l2];
    assert(ds1.contains(ds1[l1]));
    assert(ds2.to_multiset().count(ds1[l1]) > 0);
    assert(ds2.contains(ds1[l1]));
    let c = choose|c: int| 0 <= c < ds2.len() && ds2[c] == ds1[l1];
    assert(ds1[a].timestamp <= ds1[l1].timestamp);
    assert(ds2[c].timestamp <= ds2[l2].timestamp);
    assert(c == l2);
}

/// For deltas of one symbol with distinct timestamps that each write the same
/// set of price levels, applying them to an empty book in any order gives the
/// same book.
pub proof fn lemma_delta_order_irrelevant(b0: BookView, ds1: Seq<OrderBookDelta>, ds2: Seq<OrderBookDelta>)
    requires
        b0.bids == Map::<int, int>::empty(),
        b0.asks == Map::<int, int>::empty(),
        ds1.to_multiset() == ds2.to_multiset(),
        distinct_timestamps(ds1),
        same_prices_written(ds1),
        forall|i: int| 0 <= i < ds1.len() ==> (#[trigger] ds1[i]).symbol@ == b0.symbol,
    ensures
        apply_all(b0, ds1) == apply_all(b0, ds2),
{
    ds1.to_multiset_ensures();
    ds2.to_multiset_ensures();
    if ds1.len() > 0 {
        lemma_reordered_latest(ds1, ds2);
        assert forall|i: int, j: int| 0 <= i < ds2.len() && 0 <= j < ds2.len() implies level_prices((#[trigger] ds2[i]).bids@)
            == level_prices((#[trigger] ds2[j]).bids@) && level_prices(ds2[i].asks@) == level_prices(ds2[j].asks@) by {
            let a = choose|a: int| 0 <= a < ds1.len() && ds1[a] == ds2[i];
            let c = choose|c: int| 0 <= c < ds1.len() && ds1[c] == ds2[j];
        }
        assert forall|i: int| 0 <= i < ds2.len() implies (#[trigger] ds2[i]).symbol@ == b0.symbol by {
            let a = choose|a: int| 0 <= a < ds1.len() && ds1[a] == ds2[i];
        }
        lemma_apply_all_is_latest(b0, ds1);
        lemma_apply_all_is_latest(b0, ds2);
    } else {
        assert(ds2.len() == 0);
    }
}

proof fn lemma_latest_stamp(b0: BookView, ds: Seq<OrderBookDelta>)
    requires
        ds.len() > 0,
        distinct_timestamps(ds),
        forall|i: int| 0 <= i < ds.len() ==> (#[trigger] ds[i]).symbol@ == b0.symbol && ds[i].timestamp >= b0.timestamp,
    ensures
        apply_all(b0, ds).symbol == b0.symbol,
        apply_all(b0, ds).timestamp == ds[latest(ds)].timestamp,
        apply_all(b0, ds).last_update_id == ds[latest(ds)].update_id,
    decreases ds.len(),
{
    lemma_latest_is_max(ds);
    if ds.len() > 1 {
        let pre = ds.drop_last();
        assert forall|i: int, j: int|
            0 <= i < pre.len() && 0 <= j < pre.len() && i != j implies (#[trigger] pre[i]).timestamp != (#[trigger] pre[j]).timestamp by {
            assert(pre[i] == ds[i] && pre[j] == ds[j]);
        }
        assert forall|i: int| 0 <= i < pre.len() implies (#[trigger] pre[i]).symbol@ == b0.symbol && pre[i].timestamp >= b0.timestamp by {
            assert(pre[i] == ds[i]);
        }
        lemma_latest_stamp(b0, pre);
        lemma_latest_is_max(pre);
        let jp = latest(pre);
        assert(pre[jp] == ds[jp]);
        assert(ds.last() == ds[ds.len() - 1]);
        assert(ds.last().timestamp != ds[jp].timestamp);
        if ds.last().timestamp < ds[jp].timestamp {
            assert(latest(ds) == jp);
        } else {
            assert(latest(ds) == ds.len() - 1);
        }
    } else {
        assert(ds.drop_last().len() == 0);
        assert(apply_all(b0, ds.drop_last()) == b0);
    }
}

/// Whatever levels they write, deltas of the book's symbol with distinct
/// timestamps, none older than the book, leave it with the timestamp and
/// update id of the latest delta, in whatever order they arrive.
pub proof fn lemma_delta_order_keeps_latest_stamp(b0: BookView, ds1: Seq<OrderBookDelta>, ds2: Seq<OrderBookDelta>)
    requires
        ds1.len() > 0,
        ds1.to_multiset() == ds2.to_multiset(),
        distinct_timestamps(ds1),
        forall|i: int| 0 <= i < ds1.len() ==> (#[trigger] ds1[i]).symbol@ == b0.symbol && ds1[i].timestamp >= b0.timestamp,
    ensures
        apply_all(b0, ds1).timestamp == apply_all(b0, ds2).timestamp,
        apply_all(b0, ds1).timestamp == ds1[latest(ds1)].timestamp,
        apply_all(b0, ds1).last_update_id == apply_all(b0, ds2).last_update_id,
        apply_all(b0, ds1).last_update_id == ds1[latest(ds1)].update_id,
{
    lemma_reordered_latest(ds1, ds2);
    assert forall|i: int| 0 <= i < ds2.len() implies (#[trigger] ds2[i]).symbol@ == b0.symbol && ds2[i].timestamp >= b0.timestamp by {
        let a = choose|a: int| 0 <= a < ds1.len() && ds1[a] == ds2[i];
    }
    lemma_latest_stamp(b0, ds1);
    lemma_latest_stamp(b0, ds2);
}

} // verus!
