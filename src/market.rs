use crate::economics::BP;
use crate::history::{history_wf, window_volume_fits, DailyStat};
use vstd::prelude::*;

verus! {

/// Largest price (in cents) a well-formed order may carry.
pub const MAX_PRICE: u64 = 1_000_000_000_000_000;

/// Largest number of orders in one book.
pub const MAX_ORDERS: usize = 4_294_967_295;

/// A standing offer to buy or sell an item.
#[derive(Clone, Copy, Debug, PartialEq, Eq)]
pub struct Order {
    pub order_id: i64,
    pub type_id: i32,
    pub location_id: i64,
    pub is_buy_order: bool,
    /// Price per unit, in cents.
    pub price: u64,
    pub volume_remain: u32,
    pub volume_total: u32,
    pub min_volume: u32,
    /// Day number on which the order was issued.
    pub issued: i64,
    /// Lifetime of the order, in days.
    pub duration: u32,
}

impl Order {
    pub open spec fn wf(self) -> bool {
        self.price <= MAX_PRICE
    }
}

pub open spec fn orders_wf(orders: Seq<Order>) -> bool {
    &&& orders.len() <= MAX_ORDERS
    &&& forall|i: int| 0 <= i < orders.len() ==> (#[trigger] orders[i]).wf()
}

/// Sum of `volume_remain` over the orders on one side of the book.
pub open spec fn side_volume(orders: Seq<Order>, buy: bool) -> int
    decreases orders.len(),
{
    if orders.len() == 0 {
        0
    } else {
        side_volume(orders.drop_last(), buy) + if orders.last().is_buy_order == buy {
            orders.last().volume_remain as int
        } else {
            0
        }
    }
}

pub proof fn lemma_side_volume_bounds(orders: Seq<Order>, buy: bool)
    ensures
        0 <= side_volume(orders, buy) <= orders.len() * (u32::MAX as int),
    decreases orders.len(),
{
    if orders.len() > 0 {
        lemma_side_volume_bounds(orders.drop_last(), buy);
    }
}

/// Total volume offered on one side of the book.
fn side_volume_exec(orders: &Vec<Order>, buy: bool) -> (r: u64)
    requires
        orders@.len() <= MAX_ORDERS,
    ensures
        r == side_volume(orders@, buy),
{
    let mut acc: u64 = 0;
    let mut i: usize = 0;
    while i < orders.len()
        invariant
            i <= orders@.len() <= MAX_ORDERS,
            acc == side_volume(orders@.take(i as int), buy),
        decreases orders@.len() - i,
    {
        proof {
            assert(orders@.take(i + 1).drop_last() == orders@.take(i as int));
            lemma_side_volume_bounds(orders@.take(i as int), buy);
            assert(i * (u32::MAX as int) <= (MAX_ORDERS as int) * (u32::MAX as int)) by (nonlinear_arith)
                requires i <= MAX_ORDERS;
        }
        if orders[i].is_buy_order == buy {
            acc = acc + orders[i].volume_remain as u64;
        }
        i = i + 1;
    }
    assert(orders@.take(orders@.len() as int) == orders@);
    acc
}

/// Total remaining volume of the sell orders.
pub fn sell_side_volume(orders: &Vec<Order>) -> (r: u64)
    requires
        orders@.len() <= MAX_ORDERS,
    ensures
        r == side_volume(orders@, false),
{
    side_volume_exec(orders, false)
}

/// Total remaining volume of the buy orders.
pub fn buy_side_volume(orders: &Vec<Order>) -> (r: u64)
    requires
        orders@.len() <= MAX_ORDERS,
    ensures
        r == side_volume(orders@, true),
{
    side_volume_exec(orders, true)
}

/// Largest volume of one unit of an item, in litres.
pub const MAX_UNIT_VOLUME: u64 = 10_000_000_000;

/// Largest freight rate, in cents per m3.
pub const MAX_FREIGHT: u64 = 1_000_000_000;

/// Descriptive data of an item type.
#[derive(Clone, Debug)]
pub struct TypeDescription {
    pub type_id: i32,
    pub name: String,
    pub description: String,
    pub group_id: i32,
    pub market_group_id: Option<i32>,
    pub graphic_id: Option<i32>,
    pub icon_id: Option<i32>,
    pub portion_size: Option<i32>,
    pub published: bool,
    /// Volume of one unit, in litres.
    pub volume: Option<u64>,
    /// Volume of one packaged unit, in litres.
    pub packaged_volume: Option<u64>,
}

/// The order book and the daily history of one item in one market.
#[derive(Clone, Debug)]
pub struct MarketData {
    pub orders: Vec<Order>,
    /// Daily statistics in ascending date order.
    pub history: Vec<DailyStat>,
}

/// One item in both markets, before its description is joined.
#[derive(Clone, Debug)]
pub struct SystemMarketsItem {
    pub id: i32,
    pub source: MarketData,
    pub destination: MarketData,
}

/// One item with its description and both markets.
#[derive(Clone, Debug)]
pub struct SystemMarketsItemData {
    pub desc: TypeDescription,
    pub source: MarketData,
    pub destination: MarketData,
}

/// Settings of the analysis. Margins are in basis points, money in cents,
/// rates in basis points, volumes of goods in units, cargo in litres.
#[derive(Clone, Copy, Debug)]
pub struct Config {
    pub margin_cutoff: i128,
    pub min_profit: Option<i128>,
    /// Least daily volume traded in the source market.
    pub min_src_volume: u64,
    /// Least daily volume traded in the destination market.
    pub min_dst_volume: u64,
    /// Most days the destination's sell orders may last at its daily volume.
    pub max_filled_for_days_cutoff: u128,
    /// Days of destination demand one purchase should cover.
    pub rcmnd_fill_days: u64,
    pub broker_fee_source: u64,
    pub broker_fee_destination: u64,
    pub sales_tax: u64,
    /// Freight cost, in cents per m3.
    pub freight_cost_iskm3: u64,
    /// Collateral cost of a shipment, as a rate of its value.
    pub freight_cost_collateral_percent: u64,
    /// Cargo capacity, in litres.
    pub cargo_capacity: u64,
    pub items_take: usize,
    pub history_window_days: usize,
    /// Least number of recorded losses of an item for the loss-weighted
    /// strategy.
    pub min_loss_count: u64,
}

impl Config {
    pub open spec fn wf(self) -> bool {
        &&& self.broker_fee_source <= BP
        &&& self.broker_fee_destination + self.sales_tax <= BP
        &&& self.freight_cost_collateral_percent <= BP
        &&& self.freight_cost_iskm3 <= MAX_FREIGHT
    }
}

impl MarketData {
    pub open spec fn wf(self, window_days: int) -> bool {
        &&& orders_wf(self.orders@)
        &&& history_wf(self.history@)
        &&& window_volume_fits(self.history@, window_days)
    }
}

impl SystemMarketsItemData {
    pub open spec fn wf(self, window_days: int) -> bool {
        &&& self.source.wf(window_days)
        &&& self.destination.wf(window_days)
        &&& (self.desc.volume matches Some(v) ==> v <= MAX_UNIT_VOLUME)
    }
}

/// Index of the first entry of `ids` equal to `id`, if any.
pub open spec fn first_index(ids: Seq<i32>, id: i32) -> Option<int>
    decreases ids.len(),
{
    if ids.len() == 0 {
        None
    } else {
        match first_index(ids.drop_last(), id) {
            Some(i) => Some(i),
            None => if ids.last() == id {
                Some(ids.len() - 1)
            } else {
                None
            },
        }
    }
}

/// For each source item, in order, the pair of its index and the index of
/// the first destination item with the same id; source items missing from
/// the destination are left out.
pub open spec fn market_pairs(source_ids: Seq<i32>, dest_ids: Seq<i32>) -> Seq<(usize, usize)>
    decreases source_ids.len(),
{
    if source_ids.len() == 0 {
        Seq::empty()
    } else {
        let sub = market_pairs(source_ids.drop_last(), dest_ids);
        match first_index(dest_ids, source_ids.last()) {
            Some(j) => sub.push(((source_ids.len() - 1) as usize, j as usize)),
            None => sub,
        }
    }
}

proof fn lemma_first_index(ids: Seq<i32>, id: i32)
    ensures
        first_index(ids, id) matches Some(i) ==> 0 <= i < ids.len() && ids[i] == id,
    decreases ids.len(),
{
    if ids.len() > 0 {
        lemma_first_index(ids.drop_last(), id);
    }
}

fn first_index_exec(ids: &Vec<i32>, id: i32) -> (r: Option<usize>)
    ensures
        r matches Some(i) ==> first_index(ids@, id) == Some(i as int),
        r is None ==> first_index(ids@, id) is None,
{
    let mut i: usize = 0;
    while i < ids.len()
        invariant
            i <= ids@.len(),
            first_index(ids@.take(i as int), id) is None,
        decreases ids@.len() - i,
    {
        assert(ids@.take(i + 1).drop_last() == ids@.take(i as int));
        if ids[i] == id {
            proof {
                lemma_first_index_prefix(ids@, i as int + 1, id);
            }
            return Some(i);
        }
        i = i + 1;
    }
    assert(ids@.take(ids@.len() as int) == ids@);
    None
}

proof fn lemma_first_index_prefix(ids: Seq<i32>, k: int, id: i32)
    requires
        0 <= k <= ids.len(),
        first_index(ids.take(k), id) is Some,
    ensures
        first_index(ids, id) == first_index(ids.take(k), id),
    decreases ids.len() - k,
{
    if k < ids.len() {
        assert(ids.take(k + 1).drop_last() == ids.take(k));
        assert(first_index(ids.take(k + 1), id) == first_index(ids.take(k), id));
        lemma_first_index_prefix(ids, k + 1, id);
    } else {
        assert(ids.take(k) == ids);
    }
}

/// Joins the items of two markets by id (see `market_pairs`).
pub fn pair_markets(source_ids: &Vec<i32>, dest_ids: &Vec<i32>) -> (r: Vec<(usize, usize)>)
    ensures
        r@ == market_pairs(source_ids@, dest_ids@),
        forall|k: int|
            0 <= k < r@.len() ==> (#[trigger] r@[k]).0 < source_ids@.len() && r@[k].1 < dest_ids@.len()
                && source_ids@[r@[k].0 as int] == dest_ids@[r@[k].1 as int],
{
    let mut r: Vec<(usize, usize)> = Vec::new();
    let mut i: usize = 0;
    while i < source_ids.len()
        invariant
            i <= source_ids@.len(),
            r@ == market_pairs(source_ids@.take(i as int), dest_ids@),
            forall|k: int|
                0 <= k < r@.len() ==> (#[trigger] r@[k]).0 < i && r@[k].1 < dest_ids@.len()
                    && source_ids@[r@[k].0 as int] == dest_ids@[r@[k].1 as int],
        decreases source_ids@.len() - i,
    {
        proof {
            let s = source_ids@.take(i + 1);
            assert(s.drop_last() == source_ids@.take(i as int));
            assert(s.last() == source_ids@[i as int]);
            lemma_first_index(dest_ids@, source_ids@[i as int]);
        }
        match first_index_exec(dest_ids, source_ids[i]) {
            Some(j) => {
                r.push((i, j));
            },
            None => {},
        }
        i = i + 1;
    }
    assert(source_ids@.take(source_ids@.len() as int) == source_ids@);
    r
}

/// Lowest price among the sell orders, if there is one.
pub open spec fn lowest_sell_price(orders: Seq<Order>) -> Option<u64>
    decreases orders.len(),
{
    if orders.len() == 0 {
        None
    } else {
        let sub = lowest_sell_price(orders.drop_last());
        let o = orders.last();
        if o.is_buy_order {
            sub
        } else {
            match sub {
                Some(p) => Some(if o.price < p { o.price } else { p }),
                None => Some(o.price),
            }
        }
    }
}

pub proof fn lemma_lowest_sell_price(orders: Seq<Order>)
    requires
        orders_wf(orders),
    ensures
        lowest_sell_price(orders) matches Some(p) ==> p <= MAX_PRICE,
    decreases orders.len(),
{
    if orders.len() > 0 {
        assert(orders_wf(orders.drop_last()));
        assert(orders[orders.len() - 1].wf());
        lemma_lowest_sell_price(orders.drop_last());
    }
}

/// Lowest price among the sell orders.
pub fn lowest_sell(orders: &Vec<Order>) -> (r: Option<u64>)
    ensures
        r == lowest_sell_price(orders@),
{
    let mut best: Option<u64> = None;
    let mut i: usize = 0;
    while i < orders.len()
        invariant
            i <= orders@.len(),
            best == lowest_sell_price(orders@.take(i as int)),
        decreases orders@.len() - i,
    {
        assert(orders@.take(i + 1).drop_last() == orders@.take(i as int));
        let o = orders[i];
        if !o.is_buy_order {
            best = match best {
                Some(p) => Some(if o.price < p { o.price } else { p }),
                None => Some(o.price),
            };
        }
        i = i + 1;
    }
    assert(orders@.take(orders@.len() as int) == orders@);
    best
}

} // verus!
