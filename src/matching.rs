use crate::economics::{gains, gains_exec, BP};
use crate::market::{orders_wf, Order, MAX_ORDERS, MAX_PRICE};
use crate::ranking::{is_stable_rank_desc, rank_desc, stable_rank_desc};
use vstd::prelude::*;

verus! {

/// The orders of one side of the book, in input order.
pub open spec fn side_orders(s: Seq<Order>, buy: bool) -> Seq<Order>
    decreases s.len(),
{
    if s.len() == 0 {
        Seq::empty()
    } else {
        let sub = side_orders(s.drop_last(), buy);
        if s.last().is_buy_order == buy {
            sub.push(s.last())
        } else {
            sub
        }
    }
}

pub proof fn lemma_side_orders_len(s: Seq<Order>, buy: bool)
    ensures
        side_orders(s, buy).len() <= s.len(),
        forall|i: int|
            0 <= i < side_orders(s, buy).len() ==> (#[trigger] side_orders(s, buy)[i]).is_buy_order
                == buy,
        orders_wf(s) ==> orders_wf(side_orders(s, buy)),
    decreases s.len(),
{
    if s.len() > 0 {
        lemma_side_orders_len(s.drop_last(), buy);
        if orders_wf(s) {
            assert(orders_wf(s.drop_last()));
        }
    }
}

/// Sort keys: the price for a descending order, its negation for an
/// ascending one.
pub open spec fn price_keys(s: Seq<Order>, ascending: bool) -> Seq<i128> {
    s.map_values(|o: Order| if ascending { (-(o.price as int)) as i128 } else { o.price as i128 })
}

/// The orders stably sorted by price.
pub open spec fn by_price(s: Seq<Order>, ascending: bool) -> Seq<Order> {
    stable_rank_desc(price_keys(s, ascending)).map_values(|i: usize| s[i as int])
}

fn collect_side(orders: &Vec<Order>, buy: bool) -> (r: Vec<Order>)
    ensures
        r@ == side_orders(orders@, buy),
{
    let mut r: Vec<Order> = Vec::new();
    let mut i: usize = 0;
    while i < orders.len()
        invariant
            i <= orders@.len(),
            r@ == side_orders(orders@.take(i as int), buy),
        decreases orders@.len() - i,
    {
        assert(orders@.take(i + 1).drop_last() == orders@.take(i as int));
        if orders[i].is_buy_order == buy {
            r.push(orders[i]);
        }
        i = i + 1;
    }
    assert(orders@.take(orders@.len() as int) == orders@);
    r
}

fn sort_by_price(s: &Vec<Order>, ascending: bool) -> (r: Vec<Order>)
    requires
        orders_wf(s@),
    ensures
        r@ == by_price(s@, ascending),
        orders_wf(r@),
{
    let mut keys: Vec<i128> = Vec::new();
    let mut i: usize = 0;
    while i < s.len()
        invariant
            i <= s@.len(),
            keys@ == price_keys(s@.take(i as int), ascending),
        decreases s@.len() - i,
    {
        let k: i128 = if ascending { -(s[i].price as i128) } else { s[i].price as i128 };
        keys.push(k);
        i = i + 1;
        assert(keys@ =~= price_keys(s@.take(i as int), ascending));
    }
    assert(s@.take(s@.len() as int) == s@);
    let t = rank_desc(&keys);
    let mut r: Vec<Order> = Vec::new();
    let mut j: usize = 0;
    while j < t.len()
        invariant
            j <= t@.len() == s@.len(),
            is_stable_rank_desc(keys@, t@),
            t@ == stable_rank_desc(keys@),
            keys@ == price_keys(s@, ascending),
            orders_wf(s@),
            r@ == t@.take(j as int).map_values(|i: usize| s@[i as int]),
        decreases t@.len() - j,
    {
        assert(t@[j as int] < s@.len());
        r.push(s[t[j]]);
        j = j + 1;
        assert(r@ =~= t@.take(j as int).map_values(|i: usize| s@[i as int]));
    }
    assert(t@.take(t@.len() as int) == t@);
    assert(orders_wf(r@)) by {
        assert forall|k: int| 0 <= k < r@.len() implies (#[trigger] r@[k]).wf() by {
            assert(t@[k] < s@.len());
        }
    }
    r
}

/// State of the resale walk: price of the last profitable tier, volume
/// taken so far, whether the walk has stopped.
pub open spec fn resale_step(
    st: (int, int, bool),
    o: Order,
    max_volume: int,
    dest_price: int,
    fee: int,
    cut: int,
) -> (int, int, bool) {
    if st.2 || st.1 >= max_volume || !gains(o.price as int, fee, dest_price, cut) {
        (st.0, st.1, true)
    } else {
        let take = if (o.volume_remain as int) < max_volume - st.1 {
            o.volume_remain as int
        } else {
            max_volume - st.1
        };
        (o.price as int, st.1 + take, false)
    }
}

pub open spec fn resale_walk(
    tiers: Seq<Order>,
    max_volume: int,
    dest_price: int,
    fee: int,
    cut: int,
) -> (int, int, bool)
    decreases tiers.len(),
{
    if tiers.len() == 0 {
        (0, 0, false)
    } else {
        resale_step(
            resale_walk(tiers.drop_last(), max_volume, dest_price, fee, cut),
            tiers.last(),
            max_volume,
            dest_price,
            fee,
            cut,
        )
    }
}

/// Resale matching: the price of the last source sell tier (cheapest first)
/// that still sells at a profit at `dest_price`, and the volume taken up to
/// `max_volume`.
pub open spec fn resale_match_of(
    orders: Seq<Order>,
    max_volume: int,
    dest_price: int,
    fee_src: int,
    fee_dst: int,
    tax: int,
) -> (int, int) {
    let w = resale_walk(
        by_price(side_orders(orders, false), true),
        max_volume,
        dest_price,
        fee_src,
        fee_dst + tax,
    );
    (w.0, w.1)
}

proof fn lemma_resale_walk_volume(tiers: Seq<Order>, max_volume: int, dest_price: int, fee: int, cut: int)
    requires
        max_volume >= 0,
    ensures
        0 <= resale_walk(tiers, max_volume, dest_price, fee, cut).1 <= max_volume,
    decreases tiers.len(),
{
    if tiers.len() > 0 {
        lemma_resale_walk_volume(tiers.drop_last(), max_volume, dest_price, fee, cut);
    }
}

/// Resale matching never takes a negative volume, nor more than asked.
pub proof fn lemma_resale_match_volume(
    orders: Seq<Order>,
    max_volume: int,
    dest_price: int,
    fee_src: int,
    fee_dst: int,
    tax: int,
)
    requires
        max_volume >= 0,
    ensures
        0 <= resale_match_of(orders, max_volume, dest_price, fee_src, fee_dst, tax).1 <= max_volume,
{
    lemma_resale_walk_volume(
        by_price(side_orders(orders, false), true),
        max_volume,
        dest_price,
        fee_src,
        fee_dst + tax,
    );
}

proof fn lemma_resale_walk_stopped(tiers: Seq<Order>, k: int, max_volume: int, dest_price: int, fee: int, cut: int)
    requires
        0 <= k <= tiers.len(),
        resale_walk(tiers.take(k), max_volume, dest_price, fee, cut).2,
    ensures
        resale_walk(tiers, max_volume, dest_price, fee, cut) == resale_walk(
            tiers.take(k),
            max_volume,
            dest_price,
            fee,
            cut,
        ),
    decreases tiers.len(),
{
    if tiers.len() == k {
        assert(tiers.take(k) == tiers);
    } else {
        assert(tiers.drop_last().take(k) == tiers.take(k));
        lemma_resale_walk_stopped(tiers.drop_last(), k, max_volume, dest_price, fee, cut);
    }
}

/// Resale matching (see `resale_match_of`): returns the price and the volume.
pub fn resale_match(
    orders: &Vec<Order>,
    max_volume: u64,
    dest_price: u64,
    fee_src: u64,
    fee_dst: u64,
    tax: u64,
) -> (r: (u64, u64))
    requires
        orders_wf(orders@),
        fee_src <= BP,
        fee_dst + tax <= BP,
    ensures
        (r.0 as int, r.1 as int) == resale_match_of(
            orders@,
            max_volume as int,
            dest_price as int,
            fee_src as int,
            fee_dst as int,
            tax as int,
        ),
        r.1 <= max_volume,
        r.0 <= MAX_PRICE,
{
    let sells = collect_side(orders, false);
    proof {
        lemma_side_orders_len(orders@, false);
    }
    let tiers = sort_by_price(&sells, true);
    let cut = fee_dst + tax;
    let ghost spec_tiers = tiers@;
    let mut price: u64 = 0;
    let mut volume: u64 = 0;
    let mut i: usize = 0;
    while i < tiers.len()
        invariant
            spec_tiers == tiers@,
            spec_tiers == by_price(side_orders(orders@, false), true),
            cut == fee_dst + tax,
            orders_wf(tiers@),
            i <= tiers@.len(),
            fee_src <= BP,
            cut <= BP,
            volume <= max_volume,
            price <= MAX_PRICE,
            resale_walk(tiers@.take(i as int), max_volume as int, dest_price as int, fee_src as int, cut as int)
                == (price as int, volume as int, false),
        decreases tiers@.len() - i,
    {
        assert(tiers@.take(i + 1).drop_last() == tiers@.take(i as int));
        let o = tiers[i];
        assert(tiers@.take(i + 1).last() == o);
        assert(tiers@[i as int].wf());
        if volume >= max_volume || !gains_exec(o.price, fee_src, dest_price, cut) {
            proof {
                let ti = spec_tiers.take(i + 1);
                assert(ti.drop_last() == spec_tiers.take(i as int));
                assert(resale_walk(ti, max_volume as int, dest_price as int, fee_src as int, cut as int)
                    == resale_step(resale_walk(spec_tiers.take(i as int), max_volume as int, dest_price as int, fee_src as int, cut as int),
                    o, max_volume as int, dest_price as int, fee_src as int, cut as int));
                lemma_resale_walk_stopped(spec_tiers, i + 1, max_volume as int, dest_price as int, fee_src as int, cut as int);
            }
            return (price, volume);
        }
        let left = max_volume - volume;
        let take: u64 = if (o.volume_remain as u64) < left { o.volume_remain as u64 } else { left };
        price = o.price;
        volume = volume + take;
        i = i + 1;
    }
    assert(tiers@.take(tiers@.len() as int) == tiers@);
    (price, volume)
}

/// State of the order-to-order walk.
#[derive(Clone, Copy, Debug, PartialEq, Eq)]
pub struct FlipState {
    /// Index of the destination buy order being filled.
    pub bi: usize,
    /// Index of the source sell order being bought from.
    pub si: usize,
    /// Volume the current buy order still takes.
    pub buy_left: u64,
    /// Volume the current sell order still offers.
    pub sell_left: u64,
    /// Volume matched so far.
    pub volume: u64,
    /// Sum over the matches of destination price times volume.
    pub sum_sell: u128,
    /// Sum over the matches of source price times volume.
    pub sum_buy: u128,
    /// Highest source price paid so far.
    pub max_buy_price: u64,
}

pub open spec fn volume_at(s: Seq<Order>, i: int) -> u64 {
    if 0 <= i < s.len() {
        s[i].volume_remain as u64
    } else {
        0
    }
}

pub open spec fn flip_start(buys: Seq<Order>, sells: Seq<Order>) -> FlipState {
    FlipState {
        bi: 0,
        si: 0,
        buy_left: volume_at(buys, 0),
        sell_left: volume_at(sells, 0),
        volume: 0,
        sum_sell: 0,
        sum_buy: 0,
        max_buy_price: 0,
    }
}

/// Volume the next match takes: the least of what both current orders have.
pub open spec fn flip_take(st: FlipState) -> int {
    if st.buy_left < st.sell_left {
        st.buy_left as int
    } else {
        st.sell_left as int
    }
}

/// One move of the walk: go to the next buy order when the current one is
/// filled or no longer profitable, to the next sell order when the current
/// one is used up, else match the least of the two remaining volumes.
pub open spec fn flip_step(buys: Seq<Order>, sells: Seq<Order>, st: FlipState, fee: int, tax: int) -> FlipState {
    if st.buy_left == 0 {
        FlipState { bi: (st.bi + 1) as usize, buy_left: volume_at(buys, st.bi + 1), ..st }
    } else if st.sell_left == 0 {
        FlipState { si: (st.si + 1) as usize, sell_left: volume_at(sells, st.si + 1), ..st }
    } else if !gains(sells[st.si as int].price as int, fee, buys[st.bi as int].price as int, tax) {
        FlipState { bi: (st.bi + 1) as usize, buy_left: volume_at(buys, st.bi + 1), ..st }
    } else {
        let take = flip_take(st);
        let p = sells[st.si as int].price;
        FlipState {
            buy_left: (st.buy_left - take) as u64,
            sell_left: (st.sell_left - take) as u64,
            volume: (st.volume + take) as u64,
            sum_sell: (st.sum_sell + buys[st.bi as int].price * take) as u128,
            sum_buy: (st.sum_buy + p * take) as u128,
            max_buy_price: if p > st.max_buy_price { p } else { st.max_buy_price },
            ..st
        }
    }
}

pub open spec fn flip_run(buys: Seq<Order>, sells: Seq<Order>, st: FlipState, fee: int, tax: int) -> FlipState
    decreases buys.len() - st.bi, sells.len() - st.si, st.sell_left,
{
    if st.bi < buys.len() && st.si < sells.len() && buys.len() <= usize::MAX && sells.len()
        <= usize::MAX {
        flip_run(buys, sells, flip_step(buys, sells, st, fee, tax), fee, tax)
    } else {
        st
    }
}

/// Order-to-order matching: destination buy orders, dearest first, are
/// filled from source sell orders, cheapest first, while the sale after tax
/// is worth more than the purchase with the broker fee.
pub open spec fn flip_match_of(orders_src: Seq<Order>, orders_dst: Seq<Order>, fee: int, tax: int) -> FlipState {
    let buys = by_price(side_orders(orders_dst, true), false);
    let sells = by_price(side_orders(orders_src, false), true);
    flip_run(buys, sells, flip_start(buys, sells), fee, tax)
}

pub open spec fn order_volume_sum(s: Seq<Order>) -> int
    decreases s.len(),
{
    if s.len() == 0 {
        0
    } else {
        order_volume_sum(s.drop_last()) + s.last().volume_remain as int
    }
}

proof fn lemma_order_volume_sum_bound(s: Seq<Order>)
    ensures
        0 <= order_volume_sum(s) <= s.len() * (u32::MAX as int),
    decreases s.len(),
{
    if s.len() > 0 {
        lemma_order_volume_sum_bound(s.drop_last());
    }
}

/// Bounds that hold throughout the walk.
pub open spec fn flip_inv(buys: Seq<Order>, sells: Seq<Order>, st: FlipState) -> bool {
    &&& st.bi <= buys.len()
    &&& st.si <= sells.len()
    &&& st.si < sells.len() ==> st.volume + st.sell_left == order_volume_sum(sells.take(st.si + 1))
    &&& st.si < sells.len() ==> st.sell_left <= sells[st.si as int].volume_remain
    &&& st.si >= sells.len() ==> st.volume <= order_volume_sum(sells) && st.sell_left == 0
    &&& st.bi < buys.len() ==> st.buy_left <= buys[st.bi as int].volume_remain
    &&& st.sum_sell <= st.volume * MAX_PRICE
    &&& st.sum_buy <= st.volume * MAX_PRICE
    &&& st.max_buy_price <= MAX_PRICE
    &&& (st.volume == 0 ==> st.sum_buy == 0 && st.sum_sell == 0 && st.max_buy_price == 0)
    &&& st.sum_buy <= st.volume * st.max_buy_price
}

proof fn lemma_flip_run_terminal(buys: Seq<Order>, sells: Seq<Order>, st: FlipState, fee: int, tax: int)
    requires
        !(st.bi < buys.len() && st.si < sells.len()),
        buys.len() <= usize::MAX,
        sells.len() <= usize::MAX,
    ensures
        flip_run(buys, sells, st, fee, tax) == st,
{
}

/// One move of the order-to-order walk matches no negative volume and no
/// more than the least of the two touched orders' remaining volumes.
pub proof fn lemma_flip_step_bounded(buys: Seq<Order>, sells: Seq<Order>, st: FlipState, fee: int, tax: int)
    requires
        flip_inv(buys, sells, st),
        sells.len() <= MAX_ORDERS,
        st.bi < buys.len(),
        st.si < sells.len(),
    ensures
        ({
            let nx = flip_step(buys, sells, st, fee, tax);
            &&& st.volume <= nx.volume
            &&& nx.volume - st.volume <= st.buy_left
            &&& nx.volume - st.volume <= st.sell_left
            &&& nx.volume - st.volume <= buys[st.bi as int].volume_remain
            &&& nx.volume - st.volume <= sells[st.si as int].volume_remain
        }),
{
    lemma_order_volume_sum_bound(sells.take(st.si + 1));
    assert((st.si + 1) * (u32::MAX as int) <= (MAX_ORDERS as int) * (u32::MAX as int)) by (nonlinear_arith)
        requires st.si + 1 <= MAX_ORDERS;
}

/// Order-to-order matching (see `flip_match_of`).
pub fn flip_match(orders_src: &Vec<Order>, orders_dst: &Vec<Order>, fee: u64, tax: u64) -> (r: FlipState)
    requires
        orders_wf(orders_src@),
        orders_wf(orders_dst@),
        fee <= BP,
        tax <= BP,
    ensures
        r == flip_match_of(orders_src@, orders_dst@, fee as int, tax as int),
        r.sum_sell <= r.volume * MAX_PRICE,
        r.sum_buy <= r.volume * r.max_buy_price,
        r.max_buy_price <= MAX_PRICE,
        r.volume == 0 ==> r.sum_buy == 0 && r.sum_sell == 0 && r.max_buy_price == 0,
{
    let buys0 = collect_side(orders_dst, true);
    let sells0 = collect_side(orders_src, false);
    proof {
        lemma_side_orders_len(orders_dst@, true);
        lemma_side_orders_len(orders_src@, false);
    }
    let buys = sort_by_price(&buys0, false);
    let sells = sort_by_price(&sells0, true);
    let nb = buys.len();
    let ns = sells.len();
    let mut st = FlipState {
        bi: 0,
        si: 0,
        buy_left: if nb > 0 { buys[0].volume_remain as u64 } else { 0 },
        sell_left: if ns > 0 { sells[0].volume_remain as u64 } else { 0 },
        volume: 0,
        sum_sell: 0,
        sum_buy: 0,
        max_buy_price: 0,
    };
    let ghost b = buys@;
    let ghost s = sells@;
    proof {
        if ns > 0 {
            assert(s.take(1).drop_last() == s.take(0));
            assert(s.take(1).last() == s[0]);
            assert(order_volume_sum(s.take(0)) == 0);
            assert(order_volume_sum(s.take(1)) == s[0].volume_remain);
        } else {
            assert(order_volume_sum(s) == 0);
        }
        assert(flip_inv(b, s, st));
    }
    while st.bi < nb && st.si < ns
        invariant
            b == buys@,
            s == sells@,
            nb == b.len(),
            ns == s.len() <= MAX_ORDERS,
            orders_wf(b),
            orders_wf(s),
            fee <= BP,
            tax <= BP,
            flip_inv(b, s, st),
            flip_run(b, s, st, fee as int, tax as int) == flip_run(b, s, flip_start(b, s), fee as int, tax as int),
        decreases nb - st.bi, ns - st.si, st.sell_left,
    {
        let ghost old_st = st;
        proof {
            lemma_order_volume_sum_bound(s.take(st.si + 1));
            assert((st.si + 1) * (u32::MAX as int) <= (MAX_ORDERS as int) * (u32::MAX as int)) by (nonlinear_arith)
                requires st.si + 1 <= MAX_ORDERS;
        }
        if st.buy_left == 0 {
            st.bi = st.bi + 1;
            st.buy_left = if st.bi < nb { buys[st.bi].volume_remain as u64 } else { 0 };
        } else if st.sell_left == 0 {
            proof {
                if st.si + 1 < ns {
                    assert(s.take(st.si + 2).drop_last() == s.take(st.si + 1));
                } else {
                    assert(s.take(st.si + 1) == s);
                }
            }
            st.si = st.si + 1;
            st.sell_left = if st.si < ns { sells[st.si].volume_remain as u64 } else { 0 };
        } else if !gains_exec(sells[st.si].price, fee, buys[st.bi].price, tax) {
            st.bi = st.bi + 1;
            st.buy_left = if st.bi < nb { buys[st.bi].volume_remain as u64 } else { 0 };
        } else {
            let take: u64 = if st.buy_left < st.sell_left { st.buy_left } else { st.sell_left };
            let p = sells[st.si].price;
            let q = buys[st.bi].price;
            assert(b[st.bi as int].wf());
            assert(s[st.si as int].wf());
            proof {
                assert(st.sum_sell + q * take <= (st.volume + take) * MAX_PRICE) by (nonlinear_arith)
                    requires st.sum_sell <= st.volume * MAX_PRICE, q <= MAX_PRICE, take >= 0;
                assert(st.sum_buy + p * take <= (st.volume + take) * MAX_PRICE) by (nonlinear_arith)
                    requires st.sum_buy <= st.volume * MAX_PRICE, p <= MAX_PRICE, take >= 0;
                let m: int = if p > st.max_buy_price { p as int } else { st.max_buy_price as int };
                assert(st.sum_buy + p * take <= (st.volume + take) * m) by (nonlinear_arith)
                    requires st.sum_buy <= st.volume * st.max_buy_price, p <= m, st.max_buy_price <= m,
                        take >= 0, st.volume >= 0;
                assert((st.volume + take) * MAX_PRICE <= u64::MAX * (MAX_PRICE as int)) by (nonlinear_arith)
                    requires st.volume + take <= u64::MAX;
            }
            st.buy_left = st.buy_left - take;
            st.sell_left = st.sell_left - take;
            st.volume = st.volume + take;
            st.sum_sell = st.sum_sell + (q as u128) * (take as u128);
            st.sum_buy = st.sum_buy + (p as u128) * (take as u128);
            if p > st.max_buy_price {
                st.max_buy_price = p;
            }
        }
        assert(st == flip_step(b, s, old_st, fee as int, tax as int));
    }
    proof {
        lemma_flip_run_terminal(b, s, st, fee as int, tax as int);
    }
    st
}

} // verus!
