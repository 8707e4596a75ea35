use vstd::prelude::*;
use crate::decimal::{div_toward_zero, fits_i64, i128_div_toward_zero, wide_mul, Decimal};
use crate::order::OrderSide;

verus! {

/// A holding in one symbol. The quantity is signed: negative for a short.
#[derive(Clone, Debug)]
pub struct Position {
    pub symbol: String,
    pub quantity: i64,
    pub average_price: Decimal,
    pub current_price: Decimal,
}

/// The numbers of a position, in millionths for the prices.
pub struct PositionView {
    pub quantity: int,
    pub average_price: int,
    pub current_price: int,
}

/// Cash, cash set aside, and the open positions keyed by symbol.
#[derive(Debug)]
pub struct AccountState {
    pub balance: Decimal,
    pub locked: Decimal,
    positions: Vec<Position>,
}

pub struct AccountView {
    pub balance: int,
    pub locked: int,
    pub positions: Map<Seq<char>, PositionView>,
}

pub open spec fn position_view(p: Position) -> PositionView {
    PositionView {
        quantity: p.quantity as int,
        average_price: p.average_price.units as int,
        current_price: p.current_price.units as int,
    }
}

pub open spec fn has_symbol(s: Seq<Position>, k: Seq<char>) -> bool {
    exists|i: int| 0 <= i < s.len() && (#[trigger] s[i]).symbol@ == k
}

pub open spec fn positions_map(s: Seq<Position>) -> Map<Seq<char>, PositionView> {
    Map::new(
        |k: Seq<char>| has_symbol(s, k),
        |k: Seq<char>| position_view(s[choose|i: int| 0 <= i < s.len() && (#[trigger] s[i]).symbol@ == k]),
    )
}

pub open spec fn positions_wf(s: Seq<Position>) -> bool {
    &&& forall|i: int, j: int| 0 <= i < s.len() && 0 <= j < s.len() && i != j ==> (#[trigger] s[i]).symbol@ != (#[trigger] s[j]).symbol@
    &&& forall|i: int| 0 <= i < s.len() ==> (#[trigger] s[i]).quantity != 0
}

/// Writes one position into a map of positions; a zero quantity removes it.
pub open spec fn put_position(m: Map<Seq<char>, PositionView>, p: Position) -> Map<Seq<char>, PositionView> {
    if p.quantity == 0 {
        m.remove(p.symbol@)
    } else {
        m.insert(p.symbol@, position_view(p))
    }
}

/// The positions that a list builds, later entries replacing earlier ones.
pub open spec fn positions_from_list(s: Seq<Position>) -> Map<Seq<char>, PositionView>
    decreases s.len(),
{
    if s.len() == 0 {
        Map::empty()
    } else {
        put_position(positions_from_list(s.drop_last()), s.last())
    }
}

/// The quantity held in `symbol`: zero when there is no position.
pub open spec fn held(m: Map<Seq<char>, PositionView>, symbol: Seq<char>) -> int {
    if m.contains_key(symbol) {
        m[symbol].quantity
    } else {
        0
    }
}

pub open spec fn signed_qty(side: OrderSide, quantity: int) -> int {
    match side {
        OrderSide::BUY => quantity,
        OrderSide::SELL => -quantity,
    }
}

/// What an execution makes of an account, or `None` when the signed
/// quantity or a result lies outside the 64-bit range. A quantity of zero
/// only pays the fee; a negative one moves the position the other way.
pub open spec fn execution_spec(
    a: AccountView,
    symbol: Seq<char>,
    side: OrderSide,
    quantity: int,
    price: int,
    fee: int,
) -> Option<AccountView> {
    let s = signed_qty(side, quantity);
    let balance = a.balance - s * price - fee;
    if !fits_i64(s) || !fits_i64(balance) {
        None
    } else if s == 0 {
        Some(AccountView { balance, locked: a.locked, positions: a.positions })
    } else if !a.positions.contains_key(symbol) {
        Some(
            AccountView {
                balance,
                locked: a.locked,
                positions: a.positions.insert(
                    symbol,
                    PositionView { quantity: s, average_price: price, current_price: price },
                ),
            },
        )
    } else {
        let old = a.positions[symbol];
        let new_qty = old.quantity + s;
        if !fits_i64(new_qty) {
            None
        } else if new_qty == 0 {
            Some(AccountView { balance, locked: a.locked, positions: a.positions.remove(symbol) })
        } else {
            let avg = if (old.quantity > 0 && s > 0) || (old.quantity < 0 && s < 0) {
                div_toward_zero(old.quantity * old.average_price + s * price, new_qty)
            } else if (old.quantity > 0 && new_qty < 0) || (old.quantity < 0 && new_qty > 0) {
                price
            } else {
                old.average_price
            };
            if !fits_i64(avg) {
                None
            } else {
                Some(
                    AccountView {
                        balance,
                        locked: a.locked,
                        positions: a.positions.insert(
                            symbol,
                            PositionView { quantity: new_qty, average_price: avg, current_price: price },
                        ),
                    },
                )
            }
        }
    }
}

/// No position holds a quantity of zero.
pub open spec fn positions_nonzero(m: Map<Seq<char>, PositionView>) -> bool {
    forall|k: Seq<char>| #[trigger] m.contains_key(k) ==> m[k].quantity != 0
}

/// An accepted execution moves cash by minus the signed cost and the fee,
/// changes the holding in its symbol by the signed quantity, and leaves every
/// other holding as it was.
pub proof fn lemma_execution_accounting(
    a: AccountView,
    symbol: Seq<char>,
    side: OrderSide,
    quantity: int,
    price: int,
    fee: int,
)
    requires
        positions_nonzero(a.positions),
        execution_spec(a, symbol, side, quantity, price, fee).is_some(),
    ensures
        ({
            let b = execution_spec(a, symbol, side, quantity, price, fee).unwrap();
            &&& b.balance == a.balance - signed_qty(side, quantity) * price - fee
            &&& held(b.positions, symbol) == held(a.positions, symbol) + signed_qty(side, quantity)
            &&& forall|other: Seq<char>| other != symbol ==> #[trigger] held(b.positions, other) == held(a.positions, other)
            &&& b.locked == a.locked
            &&& (b.positions.contains_key(symbol) <==> held(b.positions, symbol) != 0)
        }),
{
}

proof fn lemma_position_at(s: Seq<Position>, i: int)
    requires
        positions_wf(s),
        0 <= i < s.len(),
    ensures
        positions_map(s).contains_key(s[i].symbol@),
        positions_map(s)[s[i].symbol@] == position_view(s[i]),
{
    let k = s[i].symbol@;
    assert(has_symbol(s, k));
    let j = choose|j: int| 0 <= j < s.len() && (#[trigger] s[j]).symbol@ == k;
    if j != i {
        assert(s[i].symbol@ != s[j].symbol@);
    }
}

proof fn lemma_positions_are(s: Seq<Position>, m: Map<Seq<char>, PositionView>)
    requires
        positions_wf(s),
        forall|i: int|
            0 <= i < s.len() ==> m.contains_key((#[trigger] s[i]).symbol@) && m[s[i].symbol@] == position_view(s[i]),
        forall|k: Seq<char>| #[trigger] m.contains_key(k) ==> has_symbol(s, k),
    ensures
        positions_map(s) == m,
{
    assert forall|k: Seq<char>| #[trigger] positions_map(s).contains_key(k) <==> m.contains_key(k) by {
        if has_symbol(s, k) {
            let j = choose|j: int| 0 <= j < s.len() && (#[trigger] s[j]).symbol@ == k;
            assert(m.contains_key(s[j].symbol@));
        }
    }
    assert forall|k: Seq<char>| #[trigger] positions_map(s).contains_key(k) implies positions_map(s)[k] == m[k] by {
        let j = choose|j: int| 0 <= j < s.len() && (#[trigger] s[j]).symbol@ == k;
        lemma_position_at(s, j);
    }
    assert(positions_map(s) =~= m);
}

fn find_position(v: &Vec<Position>, symbol: &String) -> (r: Option<usize>)
    ensures
        match r {
            Some(i) => i < v@.len() && v@[i as int].symbol@ == symbol@,
            None => !has_symbol(v@, symbol@),
        },
{
    let mut i: usize = 0;
    while i < v.len()
        invariant
            0 <= i <= v.len(),
            forall|j: int| 0 <= j < i ==> (#[trigger] v@[j]).symbol@ != symbol@,
        decreases v.len() - i,
    {
        if v[i].symbol == *symbol {
            return Some(i);
        }
        i = i + 1;
    }
    None
}

/// Writes a position into the list, replacing any with the same symbol; a zero
/// quantity removes it.
fn store_position(v: &mut Vec<Position>, p: Position)
    requires
        positions_wf(old(v)@),
    ensures
        positions_wf(final(v)@),
        positions_map(final(v)@) == put_position(positions_map(old(v)@), p),
{
    let ghost o = v@;
    let ghost target = put_position(positions_map(o), p);
    let found = find_position(v, &p.symbol);
    match found {
        Some(i) => {
            if p.quantity == 0 {
                v.remove(i);
                proof {
                    let n = v@;
                    assert forall|a: int, b: int| 0 <= a < n.len() && 0 <= b < n.len() && a != b implies (#[trigger] n[a]).symbol@
                        != (#[trigger] n[b]).symbol@ by {
                        let a1 = if a < i { a } else { a + 1 };
                        let b1 = if b < i { b } else { b + 1 };
                        assert(n[a] == o[a1] && n[b] == o[b1]);
                    }
                    assert forall|j: int| 0 <= j < n.len() implies (#[trigger] n[j]).quantity != 0 by {
                        let j1 = if j < i { j } else { j + 1 };
                        assert(n[j] == o[j1]);
                    }
                    assert forall|j: int| 0 <= j < n.len() implies target.contains_key((#[trigger] n[j]).symbol@)
                        && target[n[j].symbol@] == position_view(n[j]) by {
                        let j1 = if j < i { j } else { j + 1 };
                        assert(n[j] == o[j1]);
                        lemma_position_at(o, j1);
                    }
                    assert forall|k: Seq<char>| #[trigger] target.contains_key(k) implies has_symbol(n, k) by {
                        let j = choose|j: int| 0 <= j < o.len() && (#[trigger] o[j]).symbol@ == k;
                        if j < i {
                            assert(n[j] == o[j]);
                        } else {
                            assert(j != i);
                            assert(n[j - 1] == o[j]);
                        }
                    }
                    lemma_positions_are(n, target);
                }
            } else {
                v.set(i, p);
                proof {
                    let n = v@;
                    assert forall|j: int| 0 <= j < n.len() implies target.contains_key((#[trigger] n[j]).symbol@)
                        && target[n[j].symbol@] == position_view(n[j]) by {
                        if j != i {
                            lemma_position_at(o, j);
                        }
                    }
                    assert forall|k: Seq<char>| #[trigger] target.contains_key(k) implies has_symbol(n, k) by {
                        if k != p.symbol@ {
                            let j = choose|j: int| 0 <= j < o.len() && (#[trigger] o[j]).symbol@ == k;
                            assert(n[j] == o[j]);
                        } else {
                            assert(n[i as int].symbol@ == k);
                        }
                    }
                    lemma_positions_are(n, target);
                }
            }
        },
        None => {
            if p.quantity != 0 {
                v.push(p);
                proof {
                    let n = v@;
                    assert forall|j: int| 0 <= j < n.len() implies target.contains_key((#[trigger] n[j]).symbol@)
                        && target[n[j].symbol@] == position_view(n[j]) by {
                        if j < o.len() {
                            lemma_position_at(o, j);
                        }
                    }
                    assert forall|k: Seq<char>| #[trigger] target.contains_key(k) implies has_symbol(n, k) by {
                        if k != p.symbol@ {
                            let j = choose|j: int| 0 <= j < o.len() && (#[trigger] o[j]).symbol@ == k;
                            assert(n[j] == o[j]);
                        } else {
                            assert(n[o.len() as int].symbol@ == k);
                        }
                    }
                    lemma_positions_are(n, target);
                }
            } else {
                proof {
                    assert(positions_map(o).remove(p.symbol@) =~= positions_map(o));
                }
            }
        },
    }
}

impl Position {
    pub fn new(symbol: String, quantity: i64, average_price: Decimal, current_price: Decimal) -> (r: Position)
        ensures
            r.symbol == symbol,
            r.quantity == quantity,
            r.average_price == average_price,
            r.current_price == current_price,
    {
        Position { symbol, quantity, average_price, current_price }
    }

    /// `(current_price - average_price) * quantity`, or `None` when that does
    /// not fit in 64 bits of millionths.
    pub fn unrealized_pnl(&self) -> (r: Option<Decimal>)
        ensures
            ({
                let v = (self.current_price.units - self.average_price.units) * self.quantity;
                r == if fits_i64(v) {
                    Some(Decimal { units: v as i64 })
                } else {
                    None
                }
            }),
    {
        let d: i128 = self.current_price.units as i128 - self.average_price.units as i128;
        let q: i128 = self.quantity as i128;
        assert(-0x8000_0000_0000_0000_0000_0000_0000_0000 < d * q < 0x7fff_ffff_ffff_ffff_ffff_ffff_ffff_ffff)
            by (nonlinear_arith)
            requires
                -0x1_0000_0000_0000_0000 < d < 0x1_0000_0000_0000_0000,
                -0x8000_0000_0000_0000 <= q < 0x8000_0000_0000_0000,
        {}
        let v: i128 = d * q;
        if v < i64::MIN as i128 || v > i64::MAX as i128 {
            None
        } else {
            Some(Decimal { units: v as i64 })
        }
    }
}

impl View for AccountState {
    type V = AccountView;

    closed spec fn view(&self) -> AccountView {
        AccountView {
            balance: self.balance.units as int,
            locked: self.locked.units as int,
            positions: positions_map(self.positions@),
        }
    }
}

impl AccountState {
    /// Symbols are unique and no position is empty.
    pub closed spec fn wf(&self) -> bool {
        positions_wf(self.positions@)
    }

    pub fn set_balance(&mut self, balance: Decimal)
        requires
            old(self).wf(),
        ensures
            final(self).wf(),
            final(self)@ == (AccountView { balance: balance.units as int, ..old(self)@ }),
    {
        self.balance = balance;
    }

    pub fn set_locked(&mut self, locked: Decimal)
        requires
            old(self).wf(),
        ensures
            final(self).wf(),
            final(self)@ == (AccountView { locked: locked.units as int, ..old(self)@ }),
    {
        self.locked = locked;
    }

    /// A well-formed account holds no empty position.
    pub proof fn lemma_positions_nonzero(&self)
        requires
            self.wf(),
        ensures
            positions_nonzero(self@.positions),
    {
        assert forall|k: Seq<char>| #[trigger] self@.positions.contains_key(k) implies self@.positions[k].quantity != 0 by {
            let j = choose|j: int| 0 <= j < self.positions@.len() && (#[trigger] self.positions@[j]).symbol@ == k;
            lemma_position_at(self.positions@, j);
        }
    }

    /// An independent copy of the account.
    pub fn duplicate(&self) -> (r: AccountState)
        requires
            self.wf(),
        ensures
            r.wf(),
            r@ == self@,
    {
        let mut v: Vec<Position> = Vec::new();
        let mut i: usize = 0;
        while i < self.positions.len()
            invariant
                0 <= i <= self.positions@.len(),
                v@ == self.positions@.subrange(0, i as int),
            decreases self.positions@.len() - i,
        {
            let p = &self.positions[i];
            v.push(Position { symbol: p.symbol.clone(), quantity: p.quantity, average_price: p.average_price, current_price: p.current_price });
            i = i + 1;
            assert(v@ =~= self.positions@.subrange(0, i as int));
        }
        assert(v@ =~= self.positions@);
        AccountState { balance: self.balance, locked: self.locked, positions: v }
    }

    pub fn new() -> (r: AccountState)
        ensures
            r.wf(),
            r@.balance == 0,
            r@.locked == 0,
            r@.positions == Map::<Seq<char>, PositionView>::empty(),
    {
        let r = AccountState { balance: Decimal { units: 0 }, locked: Decimal { units: 0 }, positions: Vec::new() };
        proof {
            assert(positions_map(r.positions@) =~= Map::<Seq<char>, PositionView>::empty());
        }
        r
    }

    /// Replaces the whole account. Positions later in the list replace earlier
    /// ones of the same symbol, and a position of quantity zero is dropped.
    pub fn rebuild(&mut self, balance: Decimal, locked: Decimal, positions: Vec<Position>)
        ensures
            final(self).wf(),
            final(self)@.balance == balance.units,
            final(self)@.locked == locked.units,
            final(self)@.positions == positions_from_list(positions@),
    {
        self.balance = balance;
        self.locked = locked;
        self.positions = Vec::new();
        proof {
            assert(positions_map(self.positions@) =~= Map::<Seq<char>, PositionView>::empty());
        }
        let mut rest = positions;
        let ghost all = rest@;
        let n = rest.len();
        let mut j: usize = 0;
        while rest.len() > 0
            invariant
                positions_wf(self.positions@),
                self.balance == balance,
                self.locked == locked,
                n == all.len(),
                0 <= j <= n,
                rest@ == all.subrange(j as int, n as int),
                positions_map(self.positions@) == positions_from_list(all.subrange(0, j as int)),
            decreases rest@.len(),
        {
            let p = rest.remove(0);
            proof {
                assert(p == all[j as int]);
                let t = all.subrange(0, j + 1);
                assert(t.drop_last() =~= all.subrange(0, j as int));
                assert(rest@ =~= all.subrange(j + 1, n as int));
            }
            store_position(&mut self.positions, p);
            j = j + 1;
        }
        proof {
            assert(all.subrange(0, n as int) =~= all);
        }
    }

    /// Sets the position in `symbol` outright; a zero quantity removes it. The
    /// current price of a new position is zero.
    pub fn update_position(&mut self, symbol: String, quantity: i64, price: Decimal)
        requires
            old(self).wf(),
        ensures
            final(self).wf(),
            final(self)@.balance == old(self)@.balance,
            final(self)@.locked == old(self)@.locked,
            final(self)@.positions == if quantity == 0 {
                old(self)@.positions.remove(symbol@)
            } else {
                old(self)@.positions.insert(
                    symbol@,
                    PositionView { quantity: quantity as int, average_price: price.units as int, current_price: 0 },
                )
            },
    {
        store_position(&mut self.positions, Position { symbol, quantity, average_price: price, current_price: Decimal { units: 0 } });
    }

    /// The position held in `symbol`, if any.
    pub fn get_position(&self, symbol: &String) -> (r: Option<&Position>)
        requires
            self.wf(),
        ensures
            r.is_some() == self@.positions.contains_key(symbol@),
            r matches Some(p) ==> p.symbol@ == symbol@ && position_view(*p) == self@.positions[symbol@],
    {
        match find_position(&self.positions, symbol) {
            Some(i) => {
                proof {
                    lemma_position_at(self.positions@, i as int);
                }
                Some(&self.positions[i])
            },
            None => None,
        }
    }

    /// Copies of the open positions.
    pub fn get_positions(&self) -> (r: Vec<Position>)
        requires
            self.wf(),
        ensures
            r@.len() == self@.positions.len(),
            forall|i: int|
                0 <= i < r@.len() ==> self@.positions.contains_key((#[trigger] r@[i]).symbol@) && position_view(r@[i])
                    == self@.positions[r@[i].symbol@],
    {
        proof {
            lemma_positions_len(self.positions@);
        }
        let mut r: Vec<Position> = Vec::new();
        let mut i: usize = 0;
        while i < self.positions.len()
            invariant
                0 <= i <= self.positions@.len(),
                self.wf(),
                r@.len() == i,
                forall|j: int|
                    0 <= j < i ==> self@.positions.contains_key((#[trigger] r@[j]).symbol@) && position_view(r@[j])
                        == self@.positions[r@[j].symbol@],
            decreases self.positions@.len() - i,
        {
            proof {
                lemma_position_at(self.positions@, i as int);
            }
            let p = &self.positions[i];
            r.push(Position { symbol: p.symbol.clone(), quantity: p.quantity, average_price: p.average_price, current_price: p.current_price });
            i = i + 1;
        }
        r
    }

    /// The number of open positions.
    pub fn position_count(&self) -> (r: usize)
        requires
            self.wf(),
        ensures
            r == self@.positions.len(),
    {
        proof {
            lemma_positions_len(self.positions@);
        }
        self.positions.len()
    }

    /// Books an execution of `quantity` units of `symbol` at `price`, with a
    /// fee: cash moves by the signed cost and the fee, and the position grows,
    /// shrinks, closes or flips. Returns false, changing nothing, only when a
    /// number would leave the 64-bit range.
    pub fn on_execution(&mut self, symbol: String, side: OrderSide, quantity: i64, price: Decimal, fee: Decimal) -> (r: bool)
        requires
            old(self).wf(),
        ensures
            final(self).wf(),
            r == execution_spec(old(self)@, symbol@, side, quantity as int, price.units as int, fee.units as int).is_some(),
            r ==> final(self)@ == execution_spec(
                old(self)@,
                symbol@,
                side,
                quantity as int,
                price.units as int,
                fee.units as int,
            ).unwrap(),
            !r ==> final(self)@ == old(self)@,
    {
        if side == OrderSide::SELL && quantity == i64::MIN {
            return false;
        }
        let s: i64 = match side {
            OrderSide::BUY => quantity,
            OrderSide::SELL => -quantity,
        };
        let cost: i128 = wide_mul(s, price.units);
        let bal: i128 = self.balance.units as i128 - cost - fee.units as i128;
        if bal < i64::MIN as i128 || bal > i64::MAX as i128 {
            return false;
        }
        if s == 0 {
            self.balance = Decimal { units: bal as i64 };
            return true;
        }
        let ghost a = self@;
        match find_position(&self.positions, &symbol) {
            None => {
                proof {
                    assert(!a.positions.contains_key(symbol@));
                }
                self.balance = Decimal { units: bal as i64 };
                store_position(&mut self.positions, Position { symbol, quantity: s, average_price: price, current_price: price });
                true
            },
            Some(i) => {
                proof {
                    lemma_position_at(self.positions@, i as int);
                }
                let old_qty: i64 = self.positions[i].quantity;
                let old_avg: Decimal = self.positions[i].average_price;
                let new_qty: i128 = old_qty as i128 + s as i128;
                if new_qty < i64::MIN as i128 || new_qty > i64::MAX as i128 {
                    return false;
                }
                if new_qty == 0 {
                    self.balance = Decimal { units: bal as i64 };
                    store_position(&mut self.positions, Position { symbol, quantity: 0, average_price: old_avg, current_price: price });
                    return true;
                }
                let avg: i128 = if (old_qty > 0 && s > 0) || (old_qty < 0 && s < 0) {
                    let total: i128 = wide_mul(old_qty, old_avg.units) + wide_mul(s, price.units);
                    i128_div_toward_zero(total, new_qty)
                } else if (old_qty > 0 && new_qty < 0) || (old_qty < 0 && new_qty > 0) {
                    price.units as i128
                } else {
                    old_avg.units as i128
                };
                if avg < i64::MIN as i128 || avg > i64::MAX as i128 {
                    return false;
                }
                self.balance = Decimal { units: bal as i64 };
                store_position(
                    &mut self.positions,
                    Position { symbol, quantity: new_qty as i64, average_price: Decimal { units: avg as i64 }, current_price: price },
                );
                true
            },
        }
    }
}

proof fn lemma_positions_len(s: Seq<Position>)
    requires
        positions_wf(s),
    ensures
        positions_map(s).len() == s.len(),
    decreases s.len(),
{
    let m = positions_map(s);
    if s.len() == 0 {
        assert(m.dom() =~= Set::<Seq<char>>::empty());
    } else {
        let d = s.drop_last();
        assert forall|a: int, b: int| 0 <= a < d.len() && 0 <= b < d.len() && a != b implies (#[trigger] d[a]).symbol@
            != (#[trigger] d[b]).symbol@ by {
            assert(d[a] == s[a] && d[b] == s[b]);
        }
        assert forall|j: int| 0 <= j < d.len() implies (#[trigger] d[j]).quantity != 0 by {
            assert(d[j] == s[j]);
        }
        lemma_positions_len(d);
        let k = s.last().symbol@;
        assert(!has_symbol(d, k)) by {
            if has_symbol(d, k) {
                let j = choose|j: int| 0 <= j < d.len() && (#[trigger] d[j]).symbol@ == k;
                assert(s[j] == d[j]);
                assert(s[j].symbol@ != s[s.len() - 1].symbol@);
            }
        }
        assert(m.dom() =~= positions_map(d).dom().insert(k)) by {
            assert forall|x: Seq<char>| m.dom().contains(x) <==> #[trigger] positions_map(d).dom().insert(k).contains(x) by {
                if has_symbol(s, x) {
                    let j = choose|j: int| 0 <= j < s.len() && (#[trigger] s[j]).symbol@ == x;
                    if j < s.len() - 1 {
                        assert(d[j] == s[j]);
                    }
                }
                if has_symbol(d, x) {
                    let j = choose|j: int| 0 <= j < d.len() && (#[trigger] d[j]).symbol@ == x;
                    assert(s[j] == d[j]);
                }
                if x == k {
                    assert(s[s.len() - 1].symbol@ == x);
                }
            }
        }
        let names = d.map_values(|p: Position| p.symbol@);
        assert(positions_map(d).dom() =~= names.to_set()) by {
            assert forall|x: Seq<char>| positions_map(d).dom().contains(x) <==> #[trigger] names.to_set().contains(x) by {
                if has_symbol(d, x) {
                    let j = choose|j: int| 0 <= j < d.len() && (#[trigger] d[j]).symbol@ == x;
                    assert(names[j] == x);
                }
                if names.to_set().contains(x) {
                    assert(names.contains(x));
                    let j = choose|j: int| 0 <= j < names.len() && #[trigger] names[j] == x;
                    assert(d[j].symbol@ == x);
                }
            }
        }
        vstd::seq_lib::seq_to_set_is_finite(names);
    }
}

} // verus!
