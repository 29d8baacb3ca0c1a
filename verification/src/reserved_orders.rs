//! Client-side reserved (conditional) orders: stop-losses and paired
//! closes emulated locally and fired on detected price crossings, each
//! order at most once.

use vstd::prelude::*;

use crate::float_exp::{FloatExp, fe_lt, fe_eq};
use crate::order_types::{Side, PosSide, OrderType};

verus! {

broadcast use vstd::std_specs::vec::group_vec_axioms;

#[verifier::external_type_specification]
#[verifier::external_body]
pub struct ExUuid(uuid::Uuid);

/// Relies on uuid::Uuid::new_v4: a freshly generated version-4 identifier.
/// The value is random, so nothing is assumed of it.
#[verifier::external_body]
fn fresh_uuid() -> (r: uuid::Uuid) {
    uuid::Uuid::new_v4()
}

/// Relies on the derived PartialEq of uuid::Uuid, structural equality of
/// its sixteen bytes: `==` agrees with logical equality.
pub assume_specification[ <uuid::Uuid as PartialEq>::eq ](a: &uuid::Uuid, b: &uuid::Uuid) -> (r:
    bool)
    ensures
        r == (a == b),
;

/// A conditional order tracked client-side until its trigger is crossed.
#[derive(Debug)]
pub struct ReservedOrder {
    pub id: uuid::Uuid,
    pub order_type: OrderType,
    pub side: Side,
    pub pos_side: PosSide,
    /// Trigger price.
    pub price: FloatExp,
    pub amount: FloatExp,
    /// The exchange-side order this one is paired with, if any.
    pub pair_order_id: Option<String>,
    /// A reserved order to drop when this one fires, if any.
    pub pair_rsv_order_id: Option<uuid::Uuid>,
    /// Set once the order has been fired; a fired order never fires again.
    pub is_ordered: bool,
}

impl Clone for ReservedOrder {
    fn clone(&self) -> (r: Self)
        ensures
            r == *self,
    {
        ReservedOrder {
            id: self.id,
            order_type: self.order_type,
            side: self.side,
            pos_side: self.pos_side,
            price: self.price,
            amount: self.amount,
            pair_order_id: match &self.pair_order_id {
                Some(s) => Some(s.clone()),
                None => None,
            },
            pair_rsv_order_id: self.pair_rsv_order_id,
            is_ordered: self.is_ordered,
        }
    }
}

/// The crossing rule. A stop order inverts the comparison side (a buy-side
/// stop protects a short and triggers on a fall). On the resulting side:
/// a buy fires when the previous price was strictly above the trigger and
/// the current price is at or below it, or when there is no previous price
/// and the current price is at or below it; a sell mirrors this. A fired
/// order never fires again.
pub open spec fn spec_is_fire(o: ReservedOrder, prev: Option<FloatExp>, curr: FloatExp) -> bool {
    if o.is_ordered {
        false
    } else {
        let side = if o.order_type == OrderType::Stop || o.order_type == OrderType::StopLimit {
            match o.side {
                Side::Buy => Side::Sell,
                Side::Sell => Side::Buy,
            }
        } else {
            o.side
        };
        match side {
            Side::Buy => (prev is None || fe_lt(o.price, prev->Some_0)) && (fe_lt(curr, o.price)
                || fe_eq(curr, o.price)),
            Side::Sell => (prev is None || fe_lt(prev->Some_0, o.price)) && (fe_lt(o.price, curr)
                || fe_eq(o.price, curr)),
        }
    }
}

impl ReservedOrder {
    /// A fresh, not yet fired order with a newly generated identifier.
    pub fn new(order_type: OrderType, side: Side, pos_side: PosSide, price: FloatExp, amount:
        FloatExp) -> (r: Self)
        ensures
            r.order_type == order_type,
            r.side == side,
            r.pos_side == pos_side,
            r.price == price,
            r.amount == amount,
            r.pair_order_id is None,
            r.pair_rsv_order_id is None,
            !r.is_ordered,
    {
        ReservedOrder {
            id: fresh_uuid(),
            order_type,
            side,
            pos_side,
            price,
            amount,
            pair_order_id: None,
            pair_rsv_order_id: None,
            is_ordered: false,
        }
    }

    /// Whether the move from `prev_price` to `curr_price` crosses this
    /// order's trigger; always false once the order has fired.
    pub fn is_fire(&self, prev_price: Option<FloatExp>, curr_price: FloatExp) -> (r: bool)
        ensures
            r == spec_is_fire(*self, prev_price, curr_price),
            self.is_ordered ==> !r,
    {
        if self.is_ordered {
            return false;
        }
        let mut side = self.side;
        if self.order_type.is_stoploss() {
            side = side.inv();
        }
        match side {
            Side::Buy => {
                let prev_above = match prev_price {
                    None => true,
                    Some(p) => matches!(self.price.compare(&p), core::cmp::Ordering::Less),
                };
                let curr_at_or_below = !matches!(
                    curr_price.compare(&self.price),
                    core::cmp::Ordering::Greater
                );
                prev_above && curr_at_or_below
            },
            Side::Sell => {
                let prev_below = match prev_price {
                    None => true,
                    Some(p) => matches!(p.compare(&self.price), core::cmp::Ordering::Less),
                };
                let curr_at_or_above = !matches!(
                    self.price.compare(&curr_price),
                    core::cmp::Ordering::Greater
                );
                prev_below && curr_at_or_above
            },
        }
    }
}

/// The order, marked as fired.
pub open spec fn mark_fired(o: ReservedOrder) -> ReservedOrder {
    ReservedOrder { is_ordered: true, ..o }
}

/// Whether an order fires on one trade of a trade batch: the batch path
/// only evaluates orders once a previous price exists.
pub open spec fn fires_on_trade(o: ReservedOrder, prev: Option<FloatExp>, p: FloatExp) -> bool {
    prev is Some && spec_is_fire(o, prev, p)
}

/// All orders after one trade: those that fire are marked.
pub open spec fn step_orders(orders: Seq<ReservedOrder>, prev: Option<FloatExp>, p: FloatExp)
    -> Seq<ReservedOrder> {
    Seq::new(
        orders.len(),
        |i: int|
            if fires_on_trade(orders[i], prev, p) {
                mark_fired(orders[i])
            } else {
                orders[i]
            },
    )
}

/// The batch fired by one trade: each firing order, already marked, with
/// the position it holds in the order list.
pub open spec fn step_fired(orders: Seq<ReservedOrder>, prev: Option<FloatExp>, p: FloatExp, base:
    int) -> Seq<(int, ReservedOrder)>
    decreases orders.len(),
{
    if orders.len() == 0 {
        Seq::empty()
    } else {
        let rest = step_fired(orders.skip(1), prev, p, base + 1);
        if fires_on_trade(orders[0], prev, p) {
            seq![(base, mark_fired(orders[0]))] + rest
        } else {
            rest
        }
    }
}

/// All orders after a whole trade batch, applied in arrival order; the
/// previous price of each step is the immediately preceding trade.
pub open spec fn run_orders(orders: Seq<ReservedOrder>, prev: Option<FloatExp>, prices: Seq<
    FloatExp,
>) -> Seq<ReservedOrder>
    decreases prices.len(),
{
    if prices.len() == 0 {
        orders
    } else {
        run_orders(step_orders(orders, prev, prices[0]), Some(prices[0]), prices.skip(1))
    }
}

/// Everything fired over a whole trade batch, in firing order, with the
/// position each fired order holds in the order list.
pub open spec fn run_fired(orders: Seq<ReservedOrder>, prev: Option<FloatExp>, prices: Seq<
    FloatExp,
>) -> Seq<(int, ReservedOrder)>
    decreases prices.len(),
{
    if prices.len() == 0 {
        Seq::empty()
    } else {
        step_fired(orders, prev, prices[0], 0) + run_fired(
            step_orders(orders, prev, prices[0]),
            Some(prices[0]),
            prices.skip(1),
        )
    }
}

/// The previous-price state after a batch: the last trade, if any.
pub open spec fn run_prev(prev: Option<FloatExp>, prices: Seq<FloatExp>) -> Option<FloatExp> {
    if prices.len() == 0 {
        prev
    } else {
        Some(prices.last())
    }
}

/// The trigger price a book observation holds against an order: the best
/// bid for buy-side orders, the best ask for sell-side ones.
pub open spec fn ob_price(o: ReservedOrder, bid: FloatExp, ask: FloatExp) -> FloatExp {
    match o.side {
        Side::Buy => bid,
        Side::Sell => ask,
    }
}

/// Whether an order fires on a book observation: no previous price is
/// required, a single observation past the line fires.
pub open spec fn fires_on_book(o: ReservedOrder, bid: FloatExp, ask: FloatExp) -> bool {
    spec_is_fire(o, None, ob_price(o, bid, ask))
}

/// All orders after one book observation: those that fire are marked.
pub open spec fn book_step_orders(orders: Seq<ReservedOrder>, bid: FloatExp, ask: FloatExp) -> Seq<
    ReservedOrder,
> {
    Seq::new(
        orders.len(),
        |i: int|
            if fires_on_book(orders[i], bid, ask) {
                mark_fired(orders[i])
            } else {
                orders[i]
            },
    )
}

/// The batch fired by one book observation, with positions.
pub open spec fn book_fired(orders: Seq<ReservedOrder>, bid: FloatExp, ask: FloatExp, base: int)
    -> Seq<(int, ReservedOrder)>
    decreases orders.len(),
{
    if orders.len() == 0 {
        Seq::empty()
    } else {
        let rest = book_fired(orders.skip(1), bid, ask, base + 1);
        if fires_on_book(orders[0], bid, ask) {
            seq![(base, mark_fired(orders[0]))] + rest
        } else {
            rest
        }
    }
}

/// Drops the position tags of a fired batch.
pub open spec fn fired_orders(s: Seq<(int, ReservedOrder)>) -> Seq<ReservedOrder> {
    s.map_values(|e: (int, ReservedOrder)| e.1)
}

/// Each entry of one trade's fired batch points at a distinct, not yet
/// fired order that the trade fires, and carries that order marked; the
/// positions strictly increase through the batch.
proof fn lemma_step_fired_entries(orders: Seq<ReservedOrder>, prev: Option<FloatExp>, p: FloatExp,
    base: int)
    ensures
        forall|a: int|
            0 <= a < step_fired(orders, prev, p, base).len() ==> {
                let e = #[trigger] step_fired(orders, prev, p, base)[a];
                &&& base <= e.0 < base + orders.len()
                &&& !orders[e.0 - base].is_ordered
                &&& fires_on_trade(orders[e.0 - base], prev, p)
                &&& e.1 == mark_fired(orders[e.0 - base])
            },
        forall|a: int, b: int|
            0 <= a < b < step_fired(orders, prev, p, base).len() ==> (#[trigger] step_fired(
                orders,
                prev,
                p,
                base,
            )[a]).0 < (#[trigger] step_fired(orders, prev, p, base)[b]).0,
    decreases orders.len(),
{
    if orders.len() > 0 {
        lemma_step_fired_entries(orders.skip(1), prev, p, base + 1);
        assert(forall|q: int|
            0 <= q < orders.len() - 1 ==> #[trigger] orders.skip(1)[q] == orders[q + 1]);
    }
}

/// An order fires at most once over a whole trade batch: firing marks the
/// order and a marked order never fires again, so each position of the
/// order list contributes at most one entry to the returned batch, a
/// position already marked contributes none, every returned order is the
/// marked copy of a previously unfired order, and the final state carries
/// the mark of every fired position.
pub proof fn lemma_fire_at_most_once(orders: Seq<ReservedOrder>, prev: Option<FloatExp>, prices:
    Seq<FloatExp>)
    ensures
        run_orders(orders, prev, prices).len() == orders.len(),
        forall|i: int|
            0 <= i < orders.len() && (#[trigger] orders[i]).is_ordered ==> run_orders(
                orders,
                prev,
                prices,
            )[i] == orders[i],
        forall|a: int|
            0 <= a < run_fired(orders, prev, prices).len() ==> {
                let e = #[trigger] run_fired(orders, prev, prices)[a];
                &&& 0 <= e.0 < orders.len()
                &&& !orders[e.0].is_ordered
                &&& e.1 == mark_fired(orders[e.0])
                &&& run_orders(orders, prev, prices)[e.0].is_ordered
            },
        forall|a: int, b: int|
            0 <= a < b < run_fired(orders, prev, prices).len() ==> (#[trigger] run_fired(
                orders,
                prev,
                prices,
            )[a]).0 != (#[trigger] run_fired(orders, prev, prices)[b]).0,
    decreases prices.len(),
{
    if prices.len() > 0 {
        let p0 = prices[0];
        let s1 = step_orders(orders, prev, p0);
        let f1 = step_fired(orders, prev, p0, 0);
        let restf = run_fired(s1, Some(p0), prices.skip(1));
        lemma_step_fired_entries(orders, prev, p0, 0);
        lemma_fire_at_most_once(s1, Some(p0), prices.skip(1));
        assert(run_fired(orders, prev, prices) == f1 + restf);
        assert(forall|i: int|
            0 <= i < orders.len() ==> #[trigger] s1[i] == (if fires_on_trade(orders[i], prev, p0) {
                mark_fired(orders[i])
            } else {
                orders[i]
            }));
        assert forall|i: int|
            0 <= i < orders.len() && (#[trigger] orders[i]).is_ordered implies run_orders(
            orders,
            prev,
            prices,
        )[i] == orders[i] by {
            assert(!fires_on_trade(orders[i], prev, p0));
            assert(s1[i] == orders[i]);
            assert(run_orders(s1, Some(p0), prices.skip(1))[i] == s1[i]);
        }
        assert forall|a: int| 0 <= a < run_fired(orders, prev, prices).len() implies {
            let e = #[trigger] run_fired(orders, prev, prices)[a];
            &&& 0 <= e.0 < orders.len()
            &&& !orders[e.0].is_ordered
            &&& e.1 == mark_fired(orders[e.0])
            &&& run_orders(orders, prev, prices)[e.0].is_ordered
        } by {
            let e = run_fired(orders, prev, prices)[a];
            if a < f1.len() {
                assert(e == f1[a]);
                assert(s1[e.0] == mark_fired(orders[e.0]));
                assert(s1[e.0].is_ordered);
                assert(run_orders(s1, Some(p0), prices.skip(1))[e.0] == s1[e.0]);
            } else {
                assert(e == restf[a - f1.len()]);
                assert(!s1[e.0].is_ordered);
                assert(s1[e.0] == orders[e.0]);
            }
        }
        assert forall|a: int, b: int|
            0 <= a < b < run_fired(orders, prev, prices).len() implies (#[trigger] run_fired(
            orders,
            prev,
            prices,
        )[a]).0 != (#[trigger] run_fired(orders, prev, prices)[b]).0 by {
            let ea = run_fired(orders, prev, prices)[a];
            let eb = run_fired(orders, prev, prices)[b];
            if b < f1.len() {
                assert(ea == f1[a] && eb == f1[b]);
            } else if a >= f1.len() {
                assert(ea == restf[a - f1.len()] && eb == restf[b - f1.len()]);
            } else {
                assert(ea == f1[a] && eb == restf[b - f1.len()]);
                assert(s1[ea.0] == mark_fired(orders[ea.0]));
                assert(s1[ea.0].is_ordered);
                assert(!s1[eb.0].is_ordered);
            }
        }
    }
}

/// No trade fires anything while no previous price exists.
proof fn lemma_step_fired_prev_none(orders: Seq<ReservedOrder>, p: FloatExp, base: int)
    ensures
        step_fired(orders, None, p, base) == Seq::<(int, ReservedOrder)>::empty(),
    decreases orders.len(),
{
    if orders.len() > 0 {
        lemma_step_fired_prev_none(orders.skip(1), p, base + 1);
    }
}

/// The manager: every live reserved order, and the last trade price seen.
pub struct ReservedOrdersManager {
    pub reserved_orders: Vec<ReservedOrder>,
    pub prev_price: Option<FloatExp>,
    /// The exponent at which the feed edge quantizes trade prices.
    pub price_exp: i32,
}

/// Position of the first order carrying the identifier, or `-1`.
pub open spec fn find_index(s: Seq<ReservedOrder>, id: uuid::Uuid) -> int
    decreases s.len(),
{
    if s.len() == 0 {
        -1
    } else if s[0].id == id {
        0
    } else {
        let r = find_index(s.skip(1), id);
        if r == -1 {
            -1
        } else {
            r + 1
        }
    }
}

/// `find_index` points at the first match.
proof fn lemma_find_index_at(s: Seq<ReservedOrder>, id: uuid::Uuid, k: int)
    requires
        0 <= k < s.len(),
        s[k].id == id,
        forall|q: int| 0 <= q < k ==> (#[trigger] s[q]).id != id,
    ensures
        find_index(s, id) == k,
    decreases s.len(),
{
    if k == 0 {
    } else {
        assert(s[0].id != id);
        let t = s.skip(1);
        assert(t[k - 1] == s[k]);
        assert(forall|q: int| 0 <= q < k - 1 ==> (#[trigger] t[q]).id != id) by {
            assert(forall|q: int| 0 <= q < k - 1 ==> #[trigger] t[q] == s[q + 1]);
        }
        lemma_find_index_at(t, id, k - 1);
    }
}

/// Without a match, `find_index` is `-1`.
proof fn lemma_find_index_none(s: Seq<ReservedOrder>, id: uuid::Uuid)
    requires
        forall|q: int| 0 <= q < s.len() ==> (#[trigger] s[q]).id != id,
    ensures
        find_index(s, id) == -1,
    decreases s.len(),
{
    if s.len() > 0 {
        let t = s.skip(1);
        assert(forall|q: int| 0 <= q < t.len() ==> (#[trigger] t[q]).id != id) by {
            assert(forall|q: int| 0 <= q < t.len() ==> #[trigger] t[q] == s[q + 1]);
        }
        lemma_find_index_none(t, id);
    }
}

impl ReservedOrdersManager {
    pub fn new(price_exp: i32) -> (r: Self)
        ensures
            r.reserved_orders@ == Seq::<ReservedOrder>::empty(),
            r.prev_price is None,
            r.price_exp == price_exp,
    {
        ReservedOrdersManager { reserved_orders: Vec::new(), prev_price: None, price_exp }
    }

    /// Drop every tracked order; called when the owning strategy cancels
    /// its live exchange orders, so local stop and pair logic dies too.
    pub fn cancel_all_orders(&mut self)
        ensures
            final(self).reserved_orders@ == Seq::<ReservedOrder>::empty(),
            final(self).prev_price == old(self).prev_price,
            final(self).price_exp == old(self).price_exp,
    {
        self.reserved_orders.clear();
    }

    /// Register a new reserved order and return its identifier.
    pub fn add_reserved_order(&mut self, order_type: OrderType, side: Side, pos_side: PosSide,
        price: FloatExp, amount: FloatExp, pair_order_id: Option<String>) -> (r: uuid::Uuid)
        ensures
            final(self).prev_price == old(self).prev_price,
            final(self).price_exp == old(self).price_exp,
            final(self).reserved_orders@.len() == old(self).reserved_orders@.len() + 1,
            final(self).reserved_orders@.drop_last() == old(self).reserved_orders@,
            ({
                let o = final(self).reserved_orders@.last();
                &&& o.id == r
                &&& o.order_type == order_type
                &&& o.side == side
                &&& o.pos_side == pos_side
                &&& o.price == price
                &&& o.amount == amount
                &&& o.pair_order_id == pair_order_id
                &&& o.pair_rsv_order_id is None
                &&& !o.is_ordered
            }),
    {
        let mut order = ReservedOrder::new(order_type, side, pos_side, price, amount);
        order.pair_order_id = pair_order_id;
        let id = order.id;
        self.reserved_orders.push(order);
        proof {
            assert(self.reserved_orders@.drop_last() =~= old(self).reserved_orders@);
        }
        id
    }

    /// The first order with this identifier, if any.
    pub fn get(&self, id: &uuid::Uuid) -> (r: Option<&ReservedOrder>)
        ensures
            ({
                let i = find_index(self.reserved_orders@, *id);
                match r {
                    Some(o) => i >= 0 && *o == self.reserved_orders@[i] && o.id == *id,
                    None => i == -1,
                }
            }),
    {
        let n = self.reserved_orders.len();
        let mut j: usize = 0;
        while j < n
            invariant
                j <= n,
                n == self.reserved_orders@.len(),
                forall|q: int| 0 <= q < j ==> (#[trigger] self.reserved_orders@[q]).id != *id,
            decreases n - j,
        {
            if self.reserved_orders[j].id == *id {
                proof {
                    lemma_find_index_at(self.reserved_orders@, *id, j as int);
                }
                return Some(&self.reserved_orders[j]);
            }
            j = j + 1;
        }
        proof {
            lemma_find_index_none(self.reserved_orders@, *id);
        }
        None
    }

    /// Remove and return the first order with this identifier.
    pub fn remove(&mut self, id: &uuid::Uuid) -> (r: Option<ReservedOrder>)
        ensures
            final(self).prev_price == old(self).prev_price,
            final(self).price_exp == old(self).price_exp,
            ({
                let i = find_index(old(self).reserved_orders@, *id);
                match r {
                    Some(o) => i >= 0 && o == old(self).reserved_orders@[i] && final(
                        self).reserved_orders@ == old(self).reserved_orders@.remove(i),
                    None => i == -1 && final(self).reserved_orders@ == old(self).reserved_orders@,
                }
            }),
    {
        let n = self.reserved_orders.len();
        let mut j: usize = 0;
        while j < n
            invariant
                j <= n,
                n == self.reserved_orders@.len(),
                self.reserved_orders@ == old(self).reserved_orders@,
                self.prev_price == old(self).prev_price,
                self.price_exp == old(self).price_exp,
                forall|q: int| 0 <= q < j ==> (#[trigger] self.reserved_orders@[q]).id != *id,
            decreases n - j,
        {
            if self.reserved_orders[j].id == *id {
                proof {
                    lemma_find_index_at(self.reserved_orders@, *id, j as int);
                }
                let removed = self.reserved_orders.remove(j);
                return Some(removed);
            }
            j = j + 1;
        }
        proof {
            lemma_find_index_none(self.reserved_orders@, *id);
        }
        None
    }

    /// Point the first order with this identifier at a paired reserved
    /// order; reports whether such an order was found.
    pub fn set_pair_rsv_order_id(&mut self, id: &uuid::Uuid, pair_rsv_order_id: Option<
        uuid::Uuid,
    >) -> (r: bool)
        ensures
            final(self).prev_price == old(self).prev_price,
            final(self).price_exp == old(self).price_exp,
            ({
                let i = find_index(old(self).reserved_orders@, *id);
                if i >= 0 {
                    r && final(self).reserved_orders@ == old(self).reserved_orders@.update(
                        i,
                        ReservedOrder { pair_rsv_order_id, ..old(self).reserved_orders@[i] },
                    )
                } else {
                    !r && final(self).reserved_orders@ == old(self).reserved_orders@
                }
            }),
    {
        let n = self.reserved_orders.len();
        let mut j: usize = 0;
        while j < n
            invariant
                j <= n,
                n == self.reserved_orders@.len(),
                self.reserved_orders@ == old(self).reserved_orders@,
                self.prev_price == old(self).prev_price,
                self.price_exp == old(self).price_exp,
                forall|q: int| 0 <= q < j ==> (#[trigger] self.reserved_orders@[q]).id != *id,
            decreases n - j,
        {
            if self.reserved_orders[j].id == *id {
                proof {
                    lemma_find_index_at(self.reserved_orders@, *id, j as int);
                }
                let o = self.reserved_orders[j].clone();
                self.reserved_orders.set(
                    j,
                    ReservedOrder { pair_rsv_order_id, ..o },
                );
                return true;
            }
            j = j + 1;
        }
        proof {
            lemma_find_index_none(self.reserved_orders@, *id);
        }
        false
    }

    /// Feed a batch of trades, in arrival order: every not-yet-fired order
    /// is held against each consecutive previous/current price pair, the
    /// matches are marked fired and returned, and the stored previous
    /// price ends at the batch's last trade. The first trade ever seen
    /// fires nothing: the batch path needs a previous price.
    pub fn trades_handler(&mut self, trades: &Vec<FloatExp>) -> (r: Vec<ReservedOrder>)
        ensures
            final(self).price_exp == old(self).price_exp,
            final(self).prev_price == run_prev(old(self).prev_price, trades@),
            final(self).reserved_orders@ == run_orders(
                old(self).reserved_orders@,
                old(self).prev_price,
                trades@,
            ),
            r@ == fired_orders(
                run_fired(old(self).reserved_orders@, old(self).prev_price, trades@),
            ),
    {
        let ghost orig = self.reserved_orders@;
        let ghost prev0 = self.prev_price;
        let mut out: Vec<ReservedOrder> = Vec::new();
        let ghost mut fired_idx: Seq<(int, ReservedOrder)> = Seq::empty();
        let nt = trades.len();
        let mut ti: usize = 0;
        proof {
            assert(trades@.skip(0) =~= trades@);
            assert(out@ =~= fired_orders(fired_idx));
        }
        while ti < nt
            invariant
                ti <= nt,
                nt == trades@.len(),
                self.price_exp == old(self).price_exp,
                run_orders(self.reserved_orders@, self.prev_price, trades@.skip(ti as int))
                    == run_orders(orig, prev0, trades@),
                fired_idx + run_fired(
                    self.reserved_orders@,
                    self.prev_price,
                    trades@.skip(ti as int),
                ) == run_fired(orig, prev0, trades@),
                run_prev(self.prev_price, trades@.skip(ti as int)) == run_prev(prev0, trades@),
                out@ == fired_orders(fired_idx),
            decreases nt - ti,
        {
            let t = trades[ti];
            let ghost rem = trades@.skip(ti as int);
            proof {
                assert(rem[0] == trades@[ti as int]);
                assert(rem.skip(1) =~= trades@.skip(ti + 1));
                if trades@.skip(ti + 1).len() > 0 {
                    assert(rem.last() == trades@.skip(ti + 1).last());
                }
            }
            let ghost pre_orders = self.reserved_orders@;
            let ghost pre_prev = self.prev_price;
            let ghost pre_fired = fired_idx;
            if self.prev_price.is_some() {
                let ghost mut delta: Seq<(int, ReservedOrder)> = Seq::empty();
                let n = self.reserved_orders.len();
                let mut oi: usize = 0;
                proof {
                    assert(pre_orders.skip(0) =~= pre_orders);
                    assert(delta + step_fired(pre_orders, pre_prev, t, 0) == step_fired(
                        pre_orders,
                        pre_prev,
                        t,
                        0,
                    )) by {
                        assert(delta + step_fired(pre_orders, pre_prev, t, 0) =~= step_fired(
                            pre_orders,
                            pre_prev,
                            t,
                            0,
                        ));
                    }
                }
                while oi < n
                    invariant
                        oi <= n,
                        n == pre_orders.len(),
                        self.reserved_orders@.len() == n,
                        self.prev_price == pre_prev,
                        pre_prev is Some,
                        self.price_exp == old(self).price_exp,
                        forall|q: int|
                            0 <= q < oi ==> #[trigger] self.reserved_orders@[q] == step_orders(
                                pre_orders,
                                pre_prev,
                                t,
                            )[q],
                        forall|q: int|
                            oi <= q < n ==> #[trigger] self.reserved_orders@[q] == pre_orders[q],
                        delta + step_fired(pre_orders.skip(oi as int), pre_prev, t, oi as int)
                            == step_fired(pre_orders, pre_prev, t, 0),
                        fired_idx == pre_fired + delta,
                        out@ == fired_orders(fired_idx),
                    decreases n - oi,
                {
                    let ghost otail = pre_orders.skip(oi as int);
                    proof {
                        assert(otail[0] == pre_orders[oi as int]);
                        assert(otail.skip(1) =~= pre_orders.skip(oi + 1));
                    }
                    if self.reserved_orders[oi].is_fire(self.prev_price, t) {
                        let mut o = self.reserved_orders[oi].clone();
                        o.is_ordered = true;
                        proof {
                            assert(o == mark_fired(pre_orders[oi as int]));
                        }
                        out.push(o.clone());
                        self.reserved_orders.set(oi, o);
                        proof {
                            delta = delta + seq![
                                ((oi as int), mark_fired(pre_orders[oi as int])),
                            ];
                            fired_idx = pre_fired + delta;
                            assert(out@ =~= fired_orders(fired_idx));
                            assert(delta + step_fired(
                                pre_orders.skip(oi + 1),
                                pre_prev,
                                t,
                                oi + 1,
                            ) =~= (delta.drop_last() + step_fired(
                                otail,
                                pre_prev,
                                t,
                                oi as int,
                            )));
                        }
                    } else {
                        proof {
                            assert(step_fired(otail, pre_prev, t, oi as int) == step_fired(
                                pre_orders.skip(oi + 1),
                                pre_prev,
                                t,
                                oi + 1,
                            ));
                        }
                    }
                    oi = oi + 1;
                }
                proof {
                    assert(pre_orders.skip(n as int) =~= Seq::<ReservedOrder>::empty());
                    assert(delta + Seq::<(int, ReservedOrder)>::empty() =~= delta);
                    assert(self.reserved_orders@ =~= step_orders(pre_orders, pre_prev, t));
                }
            } else {
                proof {
                    lemma_step_fired_prev_none(pre_orders, t, 0);
                    assert(step_orders(pre_orders, pre_prev, t) =~= pre_orders);
                    assert(fired_idx + Seq::<(int, ReservedOrder)>::empty() =~= fired_idx);
                }
            }
            self.prev_price = Some(t);
            proof {
                assert(fired_idx + run_fired(self.reserved_orders@, Some(t), trades@.skip(ti + 1))
                    =~= pre_fired + (step_fired(pre_orders, pre_prev, t, 0) + run_fired(
                    self.reserved_orders@,
                    Some(t),
                    trades@.skip(ti + 1),
                )));
            }
            ti = ti + 1;
        }
        proof {
            assert(trades@.skip(nt as int) =~= Seq::<FloatExp>::empty());
            assert(fired_idx + Seq::<(int, ReservedOrder)>::empty() =~= fired_idx);
        }
        out
    }

    /// Hold every not-yet-fired order against a best-of-book observation:
    /// buy-side orders against the best bid, sell-side against the best
    /// ask, with no previous-price requirement. Matches are marked fired
    /// and returned; the stored previous trade price is untouched.
    pub fn orderbook_handler(&mut self, bid_price: FloatExp, ask_price: FloatExp) -> (r: Vec<
        ReservedOrder,
    >)
        ensures
            final(self).price_exp == old(self).price_exp,
            final(self).prev_price == old(self).prev_price,
            final(self).reserved_orders@ == book_step_orders(
                old(self).reserved_orders@,
                bid_price,
                ask_price,
            ),
            r@ == fired_orders(
                book_fired(old(self).reserved_orders@, bid_price, ask_price, 0),
            ),
    {
        let ghost orig = self.reserved_orders@;
        let mut out: Vec<ReservedOrder> = Vec::new();
        let ghost mut delta: Seq<(int, ReservedOrder)> = Seq::empty();
        let n = self.reserved_orders.len();
        let mut oi: usize = 0;
        proof {
            assert(orig.skip(0) =~= orig);
            assert(delta + book_fired(orig, bid_price, ask_price, 0) =~= book_fired(
                orig,
                bid_price,
                ask_price,
                0,
            ));
            assert(out@ =~= fired_orders(delta));
        }
        while oi < n
            invariant
                oi <= n,
                n == orig.len(),
                self.reserved_orders@.len() == n,
                self.prev_price == old(self).prev_price,
                self.price_exp == old(self).price_exp,
                forall|q: int|
                    0 <= q < oi ==> #[trigger] self.reserved_orders@[q] == book_step_orders(
                        orig,
                        bid_price,
                        ask_price,
                    )[q],
                forall|q: int| oi <= q < n ==> #[trigger] self.reserved_orders@[q] == orig[q],
                delta + book_fired(orig.skip(oi as int), bid_price, ask_price, oi as int)
                    == book_fired(orig, bid_price, ask_price, 0),
                out@ == fired_orders(delta),
            decreases n - oi,
        {
            let ghost otail = orig.skip(oi as int);
            proof {
                assert(otail[0] == orig[oi as int]);
                assert(otail.skip(1) =~= orig.skip(oi + 1));
            }
            let trigger_price = match self.reserved_orders[oi].side {
                Side::Buy => bid_price,
                Side::Sell => ask_price,
            };
            if self.reserved_orders[oi].is_fire(None, trigger_price) {
                let mut o = self.reserved_orders[oi].clone();
                o.is_ordered = true;
                proof {
                    assert(o == mark_fired(orig[oi as int]));
                }
                out.push(o.clone());
                self.reserved_orders.set(oi, o);
                proof {
                    delta = delta + seq![((oi as int), mark_fired(orig[oi as int]))];
                    assert(out@ =~= fired_orders(delta));
                    assert(delta + book_fired(orig.skip(oi + 1), bid_price, ask_price, oi + 1)
                        =~= (delta.drop_last() + book_fired(
                        otail,
                        bid_price,
                        ask_price,
                        oi as int,
                    )));
                }
            } else {
                proof {
                    assert(book_fired(otail, bid_price, ask_price, oi as int) == book_fired(
                        orig.skip(oi + 1),
                        bid_price,
                        ask_price,
                        oi + 1,
                    ));
                }
            }
            oi = oi + 1;
        }
        proof {
            assert(orig.skip(n as int) =~= Seq::<ReservedOrder>::empty());
            assert(delta + Seq::<(int, ReservedOrder)>::empty() =~= delta);
            assert(self.reserved_orders@ =~= book_step_orders(orig, bid_price, ask_price));
        }
        out
    }
}

} // verus!
