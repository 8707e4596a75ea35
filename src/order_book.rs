use vstd::prelude::*;
use crate::decimal::Decimal;
use vstd::std_specs::cmp::PartialEqSpec;

verus! {

/// One aggregated level of a ladder: the total quantity resting at a price.
#[derive(Clone, Copy, Debug, PartialEq, Eq, Structural)]
pub struct PriceLevel {
    pub price: Decimal,
    pub quantity: i64,
}

/// An incremental update. Each `(price, quantity)` pair replaces the quantity
/// resting at that price; a quantity of zero or less deletes the level.
#[derive(Clone, Debug)]
pub struct OrderBookDelta {
    pub symbol: String,
    pub bids: Vec<(Decimal, i64)>,
    pub asks: Vec<(Decimal, i64)>,
    pub update_id: i64,
    /// Epoch milliseconds.
    pub timestamp: i64,
}

/// A full picture of both sides of a book, as fetched from a venue.
#[derive(Clone, Debug)]
pub struct OrderBookSnapshot {
    pub symbol: String,
    pub bids: Vec<(Decimal, i64)>,
    pub asks: Vec<(Decimal, i64)>,
    pub update_id: i64,
    /// Epoch milliseconds.
    pub timestamp: i64,
}

/// Per-symbol price ladder. Each side is kept sorted by ascending price, with
/// one entry per price and a strictly positive quantity at every entry.
#[derive(Debug)]
pub struct OrderBook {
    pub symbol: String,
    bids: Vec<PriceLevel>,
    asks: Vec<PriceLevel>,
    pub last_update_id: i64,
    /// Epoch milliseconds of the last accepted update.
    pub timestamp: i64,
}

/// The mathematical content of an `OrderBook`: each side as a map from price
/// (in millionths) to quantity.
pub struct BookView {
    pub symbol: Seq<char>,
    pub bids: Map<int, int>,
    pub asks: Map<int, int>,
    pub last_update_id: int,
    pub timestamp: int,
}

pub open spec fn ladder_sorted(s: Seq<PriceLevel>) -> bool {
    forall|i: int, j: int| 0 <= i < j < s.len() ==> s[i].price.units < s[j].price.units
}

pub open spec fn ladder_wf(s: Seq<PriceLevel>) -> bool {
    &&& ladder_sorted(s)
    &&& forall|i: int| 0 <= i < s.len() ==> (#[trigger] s[i]).quantity > 0
}

pub open spec fn has_price(s: Seq<PriceLevel>, p: int) -> bool {
    exists|i: int| 0 <= i < s.len() && (#[trigger] s[i]).price.units == p
}

/// The price-to-quantity map that a ladder stands for.
pub open spec fn ladder_map(s: Seq<PriceLevel>) -> Map<int, int> {
    Map::new(
        |p: int| has_price(s, p),
        |p: int| s[choose|i: int| 0 <= i < s.len() && (#[trigger] s[i]).price.units == p].quantity as int,
    )
}

/// A map whose every quantity is strictly positive.
pub open spec fn all_positive(m: Map<int, int>) -> bool {
    forall|p: int| #[trigger] m.contains_key(p) ==> m[p] > 0
}

/// Applies one absolute-quantity update to a side of the book.
pub open spec fn apply_level(m: Map<int, int>, price: int, qty: int) -> Map<int, int> {
    if qty <= 0 {
        m.remove(price)
    } else {
        m.insert(price, qty)
    }
}

/// Applies a list of absolute-quantity updates, first to last.
pub open spec fn apply_levels(m: Map<int, int>, u: Seq<(Decimal, i64)>) -> Map<int, int>
    decreases u.len(),
{
    if u.len() == 0 {
        m
    } else {
        apply_level(apply_levels(m, u.drop_last()), u.last().0.units as int, u.last().1 as int)
    }
}

/// The ladder that a list of `(price, quantity)` pairs builds from nothing.
pub open spec fn levels_from_pairs(u: Seq<(Decimal, i64)>) -> Map<int, int> {
    apply_levels(Map::empty(), u)
}

pub open spec fn delta_is_stale(b: BookView, d: OrderBookDelta) -> bool {
    d.symbol@ != b.symbol || d.timestamp < b.timestamp
}

/// What `apply_delta` makes of a book.
pub open spec fn apply_delta_spec(b: BookView, d: OrderBookDelta) -> BookView {
    if delta_is_stale(b, d) {
        b
    } else {
        BookView {
            symbol: b.symbol,
            bids: apply_levels(b.bids, d.bids@),
            asks: apply_levels(b.asks, d.asks@),
            last_update_id: d.update_id as int,
            timestamp: d.timestamp as int,
        }
    }
}

/// The largest key of a non-empty map.
pub open spec fn is_max_key(m: Map<int, int>, p: int) -> bool {
    m.contains_key(p) && forall|k: int| #[trigger] m.contains_key(k) ==> k <= p
}

/// The smallest key of a non-empty map.
pub open spec fn is_min_key(m: Map<int, int>, p: int) -> bool {
    m.contains_key(p) && forall|k: int| #[trigger] m.contains_key(k) ==> p <= k
}

/// A book is crossed when its best bid is at or above its best ask.
pub open spec fn is_crossed(b: BookView) -> bool {
    exists|p: int, a: int|
        #![trigger b.bids.contains_key(p), b.asks.contains_key(a)]
        b.bids.contains_key(p) && b.asks.contains_key(a) && p >= a
}

proof fn lemma_ladder_at(s: Seq<PriceLevel>, i: int)
    requires
        ladder_sorted(s),
        0 <= i < s.len(),
    ensures
        ladder_map(s).contains_key(s[i].price.units as int),
        ladder_map(s)[s[i].price.units as int] == s[i].quantity as int,
{
    let p = s[i].price.units as int;
    assert(has_price(s, p));
    let j = choose|j: int| 0 <= j < s.len() && (#[trigger] s[j]).price.units == p;
    if j < i {
        assert(s[j].price.units < s[i].price.units);
    } else if j > i {
        assert(s[i].price.units < s[j].price.units);
    }
}

proof fn lemma_ladder_is(s: Seq<PriceLevel>, m: Map<int, int>)
    requires
        ladder_sorted(s),
        forall|i: int|
            0 <= i < s.len() ==> m.contains_key((#[trigger] s[i]).price.units as int) && m[s[i].price.units as int]
                == s[i].quantity as int,
        forall|k: int| #[trigger] m.contains_key(k) ==> has_price(s, k),
    ensures
        ladder_map(s) == m,
{
    assert forall|k: int| #[trigger] ladder_map(s).contains_key(k) <==> m.contains_key(k) by {
        if has_price(s, k) {
            let j = choose|j: int| 0 <= j < s.len() && (#[trigger] s[j]).price.units == k;
            assert(m.contains_key(s[j].price.units as int));
        }
    }
    assert forall|k: int| #[trigger] ladder_map(s).contains_key(k) implies ladder_map(s)[k] == m[k] by {
        let j = choose|j: int| 0 <= j < s.len() && (#[trigger] s[j]).price.units == k;
        lemma_ladder_at(s, j);
    }
    assert(ladder_map(s) =~= m);
}

proof fn lemma_ladder_positive(s: Seq<PriceLevel>)
    requires
        ladder_wf(s),
    ensures
        all_positive(ladder_map(s)),
{
    assert forall|p: int| #[trigger] ladder_map(s).contains_key(p) implies ladder_map(s)[p] > 0 by {
        let j = choose|j: int| 0 <= j < s.len() && (#[trigger] s[j]).price.units == p;
        lemma_ladder_at(s, j);
    }
}

/// Writes one absolute-quantity update into a ladder.
fn set_level(v: &mut Vec<PriceLevel>, price: Decimal, qty: i64)
    requires
        ladder_wf(old(v)@),
    ensures
        ladder_wf(final(v)@),
        ladder_map(final(v)@) == apply_level(ladder_map(old(v)@), price.units as int, qty as int),
{
    let ghost o = v@;
    let ghost p = price.units as int;
    let mut i: usize = 0;
    while i < v.len()
        invariant
            v@ == o,
            p == price.units,
            ladder_wf(o),
            0 <= i <= v.len(),
            forall|j: int| 0 <= j < i ==> (#[trigger] o[j]).price.units < p,
        ensures
            i == v.len() || v@[i as int].price.units >= p,
        decreases v.len() - i,
    {
        let cur: i64 = v[i].price.units;
        if cur >= price.units {
            break;
        }
        i = i + 1;
    }
    proof {
        // every entry from `i` on lies at or above `price`
        assert forall|j: int| i <= j < o.len() implies (#[trigger] o[j]).price.units >= p by {
            if j > i {
                assert(o[i as int].price.units < o[j].price.units);
            }
        }
    }
    let ghost target = apply_level(ladder_map(o), p, qty as int);
    if i < v.len() && v[i].price.units == price.units {
        if qty <= 0 {
            v.remove(i);
            proof {
                let n = v@;
                assert forall|j: int| 0 <= j < n.len() implies target.contains_key((#[trigger] n[j]).price.units as int)
                    && target[n[j].price.units as int] == n[j].quantity as int by {
                    if j < i {
                        lemma_ladder_at(o, j);
                    } else {
                        assert(n[j] == o[j + 1]);
                        lemma_ladder_at(o, j + 1);
                    }
                }
                assert forall|k: int| #[trigger] target.contains_key(k) implies has_price(n, k) by {
                    let j = choose|j: int| 0 <= j < o.len() && (#[trigger] o[j]).price.units == k;
                    if j < i {
                        assert(n[j] == o[j]);
                    } else {
                        assert(j != i);
                        assert(n[j - 1] == o[j]);
                    }
                }
                lemma_ladder_is(n, target);
            }
        } else {
            v.set(i, PriceLevel { price, quantity: qty });
            proof {
                let n = v@;
                assert forall|j: int| 0 <= j < n.len() implies target.contains_key((#[trigger] n[j]).price.units as int)
                    && target[n[j].price.units as int] == n[j].quantity as int by {
                    if j != i {
                        lemma_ladder_at(o, j);
                    }
                }
                assert forall|k: int| #[trigger] target.contains_key(k) implies has_price(n, k) by {
                    if k != p {
                        let j = choose|j: int| 0 <= j < o.len() && (#[trigger] o[j]).price.units == k;
                        assert(n[j] == o[j]);
                    } else {
                        assert(n[i as int].price.units == k);
                    }
                }
                lemma_ladder_is(n, target);
            }
        }
    } else if qty > 0 {
        v.insert(i, PriceLevel { price, quantity: qty });
        proof {
            let n = v@;
            assert forall|a: int, b: int| 0 <= a < b < n.len() implies n[a].price.units < n[b].price.units by {
                if b < i {
                } else if b == i {
                } else if a < i {
                    assert(n[b] == o[b - 1]);
                } else if a == i {
                    assert(n[b] == o[b - 1]);
                } else {
                    assert(n[a] == o[a - 1]);
                    assert(n[b] == o[b - 1]);
                }
            }
            assert forall|j: int| 0 <= j < n.len() implies target.contains_key((#[trigger] n[j]).price.units as int)
                && target[n[j].price.units as int] == n[j].quantity as int by {
                if j < i {
                    lemma_ladder_at(o, j);
                } else if j > i {
                    assert(n[j] == o[j - 1]);
                    lemma_ladder_at(o, j - 1);
                }
            }
            assert forall|k: int| #[trigger] target.contains_key(k) implies has_price(n, k) by {
                if k != p {
                    let j = choose|j: int| 0 <= j < o.len() && (#[trigger] o[j]).price.units == k;
                    if j < i {
                        assert(n[j] == o[j]);
                    } else {
                        assert(n[j + 1] == o[j]);
                    }
                } else {
                    assert(n[i as int].price.units == k);
                }
            }
            lemma_ladder_is(n, target);
        }
    } else {
        proof {
            assert(!has_price(o, p)) by {
                if has_price(o, p) {
                    let j = choose|j: int| 0 <= j < o.len() && (#[trigger] o[j]).price.units == p;
                    if j < i {
                    } else if j > i {
                        assert(o[i as int].price.units < o[j].price.units);
                    }
                }
            }
            assert(ladder_map(o).remove(p) =~= ladder_map(o));
        }
    }
}

fn copy_ladder(v: &Vec<PriceLevel>) -> (r: Vec<PriceLevel>)
    ensures
        r@ == v@,
{
    let mut r: Vec<PriceLevel> = Vec::new();
    let mut i: usize = 0;
    while i < v.len()
        invariant
            0 <= i <= v.len(),
            r@ == v@.subrange(0, i as int),
        decreases v.len() - i,
    {
        r.push(v[i]);
        i = i + 1;
        assert(r@ =~= v@.subrange(0, i as int));
    }
    assert(r@ =~= v@);
    r
}

/// Builds a ladder from a list of absolute-quantity updates.
fn ladder_from_pairs(pairs: &Vec<(Decimal, i64)>) -> (r: Vec<PriceLevel>)
    ensures
        ladder_wf(r@),
        ladder_map(r@) == levels_from_pairs(pairs@),
{
    let mut r: Vec<PriceLevel> = Vec::new();
    proof {
        assert(ladder_map(r@) =~= Map::<int, int>::empty());
    }
    apply_pairs(&mut r, pairs);
    r
}

/// Applies a list of absolute-quantity updates to a ladder, first to last.
fn apply_pairs(v: &mut Vec<PriceLevel>, pairs: &Vec<(Decimal, i64)>)
    requires
        ladder_wf(old(v)@),
    ensures
        ladder_wf(final(v)@),
        ladder_map(final(v)@) == apply_levels(ladder_map(old(v)@), pairs@),
{
    let ghost m0 = ladder_map(v@);
    let mut k: usize = 0;
    while k < pairs.len()
        invariant
            0 <= k <= pairs.len(),
            ladder_wf(v@),
            ladder_map(v@) == apply_levels(m0, pairs@.subrange(0, k as int)),
        decreases pairs.len() - k,
    {
        let (price, qty) = pairs[k];
        set_level(v, price, qty);
        proof {
            let t = pairs@.subrange(0, k + 1);
            assert(t.drop_last() =~= pairs@.subrange(0, k as int));
            assert(t.last() == pairs@[k as int]);
        }
        k = k + 1;
    }
    assert(pairs@.subrange(0, k as int) =~= pairs@);
}

proof fn lemma_ladder_empty(s: Seq<PriceLevel>)
    ensures
        (s.len() == 0) == (ladder_map(s).dom() =~= Set::<int>::empty()),
{
    if s.len() > 0 {
        assert(has_price(s, s[0].price.units as int));
        assert(ladder_map(s).dom().contains(s[0].price.units as int));
    }
}

proof fn lemma_ladder_last_is_max(s: Seq<PriceLevel>)
    requires
        ladder_sorted(s),
        s.len() > 0,
    ensures
        is_max_key(ladder_map(s), s.last().price.units as int),
        is_min_key(ladder_map(s), s[0].price.units as int),
{
    lemma_ladder_at(s, s.len() - 1);
    lemma_ladder_at(s, 0);
    assert forall|k: int| #[trigger] ladder_map(s).contains_key(k) implies k <= s.last().price.units && s[0].price.units <= k by {
        let j = choose|j: int| 0 <= j < s.len() && (#[trigger] s[j]).price.units == k;
        if j < s.len() - 1 {
            assert(s[j].price.units < s[s.len() - 1].price.units);
        }
        if j > 0 {
            assert(s[0].price.units < s[j].price.units);
        }
    }
}

impl View for OrderBook {
    type V = BookView;

    closed spec fn view(&self) -> BookView {
        BookView {
            symbol: self.symbol@,
            bids: ladder_map(self.bids@),
            asks: ladder_map(self.asks@),
            last_update_id: self.last_update_id as int,
            timestamp: self.timestamp as int,
        }
    }
}

impl OrderBook {
    /// Both ladders are sorted, with one positive entry per price.
    pub closed spec fn wf(&self) -> bool {
        ladder_wf(self.bids@) && ladder_wf(self.asks@)
    }

    /// Every level of a well-formed book holds a positive quantity.
    pub proof fn lemma_levels_positive(&self)
        requires
            self.wf(),
        ensures
            all_positive(self@.bids),
            all_positive(self@.asks),
    {
        lemma_ladder_positive(self.bids@);
        lemma_ladder_positive(self.asks@);
    }

    /// The bid side as a ladder, lowest price first.
    pub closed spec fn bid_ladder(&self) -> Seq<PriceLevel> {
        self.bids@
    }

    /// The ask side as a ladder, lowest price first.
    pub closed spec fn ask_ladder(&self) -> Seq<PriceLevel> {
        self.asks@
    }

    /// The ladders are the sorted form of the book's two maps.
    pub proof fn lemma_ladders(&self)
        requires
            self.wf(),
        ensures
            ladder_wf(self.bid_ladder()),
            ladder_wf(self.ask_ladder()),
            ladder_map(self.bid_ladder()) == self@.bids,
            ladder_map(self.ask_ladder()) == self@.asks,
    {
    }

    /// The ladders stand for the book's two maps.
    pub proof fn lemma_ladder_maps(&self)
        ensures
            ladder_map(self.bid_ladder()) == self@.bids,
            ladder_map(self.ask_ladder()) == self@.asks,
    {
    }

    /// The `i`-th bid level, lowest price first.
    pub fn bid_level(&self, i: usize) -> (r: PriceLevel)
        requires
            i < self.bid_ladder().len(),
        ensures
            r == self.bid_ladder()[i as int],
    {
        self.bids[i]
    }

    /// The `i`-th ask level, lowest price first.
    pub fn ask_level(&self, i: usize) -> (r: PriceLevel)
        requires
            i < self.ask_ladder().len(),
        ensures
            r == self.ask_ladder()[i as int],
    {
        self.asks[i]
    }

    pub fn get_symbol(&self) -> (r: &String)
        ensures
            r@ == self@.symbol,
    {
        &self.symbol
    }

    pub fn get_timestamp(&self) -> (r: i64)
        ensures
            r == self@.timestamp,
    {
        self.timestamp
    }

    pub fn bid_depth(&self) -> (r: usize)
        ensures
            r == self.bid_ladder().len(),
    {
        self.bids.len()
    }

    pub fn ask_depth(&self) -> (r: usize)
        ensures
            r == self.ask_ladder().len(),
    {
        self.asks.len()
    }

    pub fn new(symbol: String) -> (r: OrderBook)
        ensures
            r.wf(),
            r@.symbol == symbol@,
            r@.bids == Map::<int, int>::empty(),
            r@.asks == Map::<int, int>::empty(),
            r@.last_update_id == 0,
            r@.timestamp == 0,
    {
        let r = OrderBook { symbol, bids: Vec::new(), asks: Vec::new(), last_update_id: 0, timestamp: 0 };
        proof {
            assert(ladder_map(r.bids@) =~= Map::<int, int>::empty());
            assert(ladder_map(r.asks@) =~= Map::<int, int>::empty());
        }
        r
    }

    /// A book built from a full snapshot.
    pub fn from_snapshot(snapshot: &OrderBookSnapshot) -> (r: OrderBook)
        ensures
            r.wf(),
            r@.symbol == snapshot.symbol@,
            r@.bids == levels_from_pairs(snapshot.bids@),
            r@.asks == levels_from_pairs(snapshot.asks@),
            r@.last_update_id == snapshot.update_id,
            r@.timestamp == snapshot.timestamp,
    {
        OrderBook {
            symbol: snapshot.symbol.clone(),
            bids: ladder_from_pairs(&snapshot.bids),
            asks: ladder_from_pairs(&snapshot.asks),
            last_update_id: snapshot.update_id,
            timestamp: snapshot.timestamp,
        }
    }

    /// An independent copy of the book.
    pub fn duplicate(&self) -> (r: OrderBook)
        requires
            self.wf(),
        ensures
            r.wf(),
            r@ == self@,
    {
        OrderBook {
            symbol: self.symbol.clone(),
            bids: copy_ladder(&self.bids),
            asks: copy_ladder(&self.asks),
            last_update_id: self.last_update_id,
            timestamp: self.timestamp,
        }
    }

    /// The bid levels as `(price, quantity)` pairs in ascending price order.
    pub fn get_bids(&self) -> (r: Vec<(Decimal, i64)>)
        requires
            self.wf(),
        ensures
            forall|i: int, j: int| 0 <= i < j < r@.len() ==> r@[i].0.units < r@[j].0.units,
            forall|i: int|
                0 <= i < r@.len() ==> self@.bids.contains_key((#[trigger] r@[i]).0.units as int)
                    && self@.bids[r@[i].0.units as int] == r@[i].1,
            forall|p: int| #[trigger] self@.bids.contains_key(p) ==> exists|i: int| 0 <= i < r@.len() && (#[trigger] r@[i]).0.units == p,
    {
        ladder_pairs(&self.bids)
    }

    /// The ask levels as `(price, quantity)` pairs in ascending price order.
    pub fn get_asks(&self) -> (r: Vec<(Decimal, i64)>)
        requires
            self.wf(),
        ensures
            forall|i: int, j: int| 0 <= i < j < r@.len() ==> r@[i].0.units < r@[j].0.units,
            forall|i: int|
                0 <= i < r@.len() ==> self@.asks.contains_key((#[trigger] r@[i]).0.units as int)
                    && self@.asks[r@[i].0.units as int] == r@[i].1,
            forall|p: int| #[trigger] self@.asks.contains_key(p) ==> exists|i: int| 0 <= i < r@.len() && (#[trigger] r@[i]).0.units == p,
    {
        ladder_pairs(&self.asks)
    }

    /// The quantity resting on the bid side at `price`, if any.
    pub fn bid_quantity(&self, price: Decimal) -> (r: Option<i64>)
        requires
            self.wf(),
        ensures
            r.is_some() == self@.bids.contains_key(price.units as int),
            r.is_some() ==> r.unwrap() == self@.bids[price.units as int],
    {
        ladder_quantity(&self.bids, price)
    }

    /// The quantity resting on the ask side at `price`, if any.
    pub fn ask_quantity(&self, price: Decimal) -> (r: Option<i64>)
        requires
            self.wf(),
        ensures
            r.is_some() == self@.asks.contains_key(price.units as int),
            r.is_some() ==> r.unwrap() == self@.asks[price.units as int],
    {
        ladder_quantity(&self.asks, price)
    }

    /// Replaces the whole state of the book.
    pub fn rebuild(&mut self, bids: Vec<(Decimal, i64)>, asks: Vec<(Decimal, i64)>, last_update_id: i64, timestamp: i64)
        ensures
            final(self).wf(),
            final(self)@.symbol == old(self)@.symbol,
            final(self)@.bids == levels_from_pairs(bids@),
            final(self)@.asks == levels_from_pairs(asks@),
            final(self)@.last_update_id == last_update_id,
            final(self)@.timestamp == timestamp,
    {
        self.bids = ladder_from_pairs(&bids);
        self.asks = ladder_from_pairs(&asks);
        self.last_update_id = last_update_id;
        self.timestamp = timestamp;
    }

    /// Applies an incremental update. A delta for another symbol, or one older
    /// than the book, leaves the book as it is.
    pub fn apply_delta(&mut self, delta: &OrderBookDelta)
        requires
            old(self).wf(),
        ensures
            final(self).wf(),
            final(self)@ == apply_delta_spec(old(self)@, *delta),
    {
        if delta.symbol != self.symbol {
            return;
        }
        if delta.timestamp < self.timestamp {
            return;
        }
        apply_pairs(&mut self.bids, &delta.bids);
        apply_pairs(&mut self.asks, &delta.asks);
        self.last_update_id = delta.update_id;
        self.timestamp = delta.timestamp;
    }

    /// The highest bid level.
    pub fn get_best_bid(&self) -> (r: Option<(Decimal, i64)>)
        requires
            self.wf(),
        ensures
            r.is_none() == (self@.bids.dom() == Set::<int>::empty()),
            r matches Some((p, q)) ==> is_max_key(self@.bids, p.units as int) && self@.bids[p.units as int] == q,
    {
        proof {
            lemma_ladder_empty(self.bids@);
        }
        if self.bids.len() == 0 {
            None
        } else {
            proof {
                lemma_ladder_last_is_max(self.bids@);
            }
            let l = self.bids[self.bids.len() - 1];
            Some((l.price, l.quantity))
        }
    }

    /// The lowest ask level.
    pub fn get_best_ask(&self) -> (r: Option<(Decimal, i64)>)
        requires
            self.wf(),
        ensures
            r.is_none() == (self@.asks.dom() == Set::<int>::empty()),
            r matches Some((p, q)) ==> is_min_key(self@.asks, p.units as int) && self@.asks[p.units as int] == q,
    {
        proof {
            lemma_ladder_empty(self.asks@);
        }
        if self.asks.len() == 0 {
            None
        } else {
            proof {
                lemma_ladder_last_is_max(self.asks@);
            }
            let l = self.asks[0];
            Some((l.price, l.quantity))
        }
    }

    /// The midpoint of the best bid and the best ask, rounded down to a whole
    /// millionth.
    pub fn get_mid_price(&self) -> (r: Option<Decimal>)
        requires
            self.wf(),
        ensures
            r.is_some() == (self@.bids.dom() != Set::<int>::empty() && self@.asks.dom() != Set::<int>::empty()),
            r.is_some() ==> exists|b: int, a: int|
                is_max_key(self@.bids, b) && is_min_key(self@.asks, a) && r.unwrap().units == (b + a) / 2,
    {
        let bb = self.get_best_bid();
        let ba = self.get_best_ask();
        match (bb, ba) {
            (Some((b, _)), Some((a, _))) => {
                let s: i128 = b.units as i128 + a.units as i128;
                let m: i128 = if s >= 0 {
                    (s as u128 / 2) as i128
                } else {
                    let h: u128 = ((-s) as u128 + 1) / 2;
                    -(h as i128)
                };
                assert(m == s / 2) by (nonlinear_arith)
                    requires
                        s >= 0 ==> m == s / 2,
                        s < 0 ==> m == -(((-s) + 1) / 2),
                {}
                proof {
                    assert(is_max_key(self@.bids, b.units as int) && is_min_key(self@.asks, a.units as int));
                }
                Some(Decimal { units: m as i64 })
            },
            _ => None,
        }
    }

    /// False exactly when the book is crossed: best bid at or above best ask.
    pub fn validate(&self) -> (r: bool)
        requires
            self.wf(),
        ensures
            r == !is_crossed(self@),
    {
        let bb = self.get_best_bid();
        let ba = self.get_best_ask();
        match (bb, ba) {
            (Some((b, _)), Some((a, _))) => {
                if b.units >= a.units {
                    assert(self@.bids.contains_key(b.units as int) && self@.asks.contains_key(a.units as int));
                    false
                } else {
                    assert(!is_crossed(self@)) by {
                        assert forall|p: int, q: int|
                            self@.bids.contains_key(p) && self@.asks.contains_key(q) implies p < q by {
                            assert(p <= b.units);
                            assert(a.units <= q);
                        }
                    }
                    true
                }
            },
            _ => {
                assert(!is_crossed(self@)) by {
                    if is_crossed(self@) {
                        let (p, q) = choose|p: int, q: int|
                            self@.bids.contains_key(p) && self@.asks.contains_key(q) && p >= q;
                        assert(self@.bids.dom().contains(p));
                        assert(self@.asks.dom().contains(q));
                    }
                }
                true
            },
        }
    }
}

fn same_ladder(a: &Vec<PriceLevel>, b: &Vec<PriceLevel>) -> (r: bool)
    ensures
        r == (a@ == b@),
{
    if a.len() != b.len() {
        return false;
    }
    let mut i: usize = 0;
    while i < a.len()
        invariant
            0 <= i <= a@.len(),
            a@.len() == b@.len(),
            forall|j: int| 0 <= j < i ==> a@[j] == b@[j],
        decreases a@.len() - i,
    {
        if a[i] != b[i] {
            return false;
        }
        i = i + 1;
    }
    assert(a@ =~= b@);
    true
}

/// Two books are equal when they hold the same symbol and the same levels on
/// both sides; the update id and timestamp are not compared.
impl PartialEq for OrderBook {
    fn eq(&self, other: &OrderBook) -> (r: bool) {
        self.symbol == other.symbol && same_ladder(&self.bids, &other.bids) && same_ladder(&self.asks, &other.asks)
    }
}

impl vstd::std_specs::cmp::PartialEqSpecImpl for OrderBook {
    open spec fn obeys_eq_spec() -> bool {
        true
    }

    open spec fn eq_spec(&self, other: &OrderBook) -> bool {
        self@.symbol == other@.symbol && self.bid_ladder() == other.bid_ladder() && self.ask_ladder() == other.ask_ladder()
    }
}

/// Equal books hold equal maps on both sides.
pub proof fn lemma_equal_books_same_levels(a: OrderBook, b: OrderBook)
    requires
        a.eq_spec(&b),
    ensures
        a@.symbol == b@.symbol,
        a@.bids == b@.bids,
        a@.asks == b@.asks,
{
    a.lemma_ladder_maps();
    b.lemma_ladder_maps();
}

fn ladder_pairs(v: &Vec<PriceLevel>) -> (r: Vec<(Decimal, i64)>)
    requires
        ladder_wf(v@),
    ensures
        forall|i: int, j: int| 0 <= i < j < r@.len() ==> r@[i].0.units < r@[j].0.units,
        forall|i: int|
            0 <= i < r@.len() ==> ladder_map(v@).contains_key((#[trigger] r@[i]).0.units as int)
                && ladder_map(v@)[r@[i].0.units as int] == r@[i].1,
        forall|p: int| #[trigger] ladder_map(v@).contains_key(p) ==> exists|i: int| 0 <= i < r@.len() && (#[trigger] r@[i]).0.units == p,
{
    let mut r: Vec<(Decimal, i64)> = Vec::new();
    let mut i: usize = 0;
    while i < v.len()
        invariant
            0 <= i <= v.len(),
            ladder_wf(v@),
            r@.len() == i,
            forall|j: int| 0 <= j < i ==> (#[trigger] r@[j]) == (v@[j].price, v@[j].quantity),
        decreases v.len() - i,
    {
        r.push((v[i].price, v[i].quantity));
        i = i + 1;
    }
    proof {
        assert forall|a: int, b: int| 0 <= a < b < r@.len() implies r@[a].0.units < r@[b].0.units by {
            assert(r@[a] == (v@[a].price, v@[a].quantity));
            assert(r@[b] == (v@[b].price, v@[b].quantity));
        }
        assert forall|j: int| 0 <= j < r@.len() implies ladder_map(v@).contains_key((#[trigger] r@[j]).0.units as int)
            && ladder_map(v@)[r@[j].0.units as int] == r@[j].1 by {
            lemma_ladder_at(v@, j);
        }
        assert forall|p: int| #[trigger] ladder_map(v@).contains_key(p) implies exists|j: int| 0 <= j < r@.len() && (#[trigger] r@[j]).0.units == p by {
            let j = choose|j: int| 0 <= j < v@.len() && (#[trigger] v@[j]).price.units == p;
            assert(r@[j].0.units == p);
        }
    }
    r
}

fn ladder_quantity(v: &Vec<PriceLevel>, price: Decimal) -> (r: Option<i64>)
    requires
        ladder_wf(v@),
    ensures
        r.is_some() == ladder_map(v@).contains_key(price.units as int),
        r.is_some() ==> r.unwrap() == ladder_map(v@)[price.units as int],
{
    let mut i: usize = 0;
    while i < v.len()
        invariant
            0 <= i <= v.len(),
            ladder_wf(v@),
            forall|j: int| 0 <= j < i ==> (#[trigger] v@[j]).price.units != price.units,
        decreases v.len() - i,
    {
        if v[i].price.units == price.units {
            proof {
                lemma_ladder_at(v@, i as int);
            }
            return Some(v[i].quantity);
        }
        i = i + 1;
    }
    None
}

} // verus!
