use crate::economics::{after_cut, after_cut_of, margin, margin_of, with_fee, with_fee_of, BP};
use crate::history::{compute_window_stats, window_stats_of, WindowStats};
use crate::market::{
    lowest_sell, lowest_sell_price, lemma_lowest_sell_price, sell_side_volume, side_volume, Config,
    SystemMarketsItemData, MAX_FREIGHT, MAX_PRICE, MAX_UNIT_VOLUME,
};
use crate::matching::{resale_match, resale_match_of};
use crate::ranking::{is_stable_rank_desc, rank_desc, stable_rank_desc};
use vstd::prelude::*;

verus! {

/// A direct-resale recommendation: buy in the source market, carry the
/// goods, and sell them through sell orders in the destination market.
#[derive(Clone, Copy, Debug, PartialEq, Eq)]
pub struct PairCalculatedDataSellSell {
    pub type_id: i32,
    /// `(sell_price - expenses) / expenses`, in basis points.
    pub margin: i128,
    /// `(sell_price - expenses) * recommend_buy`, in cents.
    pub rough_profit: i128,
    /// Volume of the destination's sell orders.
    pub market_dest_volume: u64,
    pub recommend_buy: u64,
    /// Cost of one unit: price, broker fee, freight and collateral.
    pub expenses: u64,
    /// What one unit brings after the destination broker fee and tax.
    pub sell_price: u64,
    /// Days the destination's sell orders last at its daily volume.
    pub filled_for_days: Option<u128>,
    pub src_buy_price: u64,
    pub dest_min_sell_price: u64,
    pub src_avgs: Option<WindowStats>,
    pub dst_avgs: Option<WindowStats>,
    /// Volume of the source's sell orders.
    pub market_src_volume: u64,
}

/// Price at which the destination is expected to buy the goods: the
/// destination's mean daily high, or 1.3 times the source's mean price when
/// the destination has no history, and never above its cheapest sell order.
pub open spec fn dest_price_of(item: SystemMarketsItemData, cfg: Config) -> int {
    let w = cfg.history_window_days as int;
    let base = match window_stats_of(item.destination.history@, w) {
        Some(s) => s.highest as int,
        None => match window_stats_of(item.source.history@, w) {
            Some(s) => s.average * 13 / 10,
            None => 0,
        },
    };
    match lowest_sell_price(item.destination.orders@) {
        Some(l) => if l < base {
            l as int
        } else {
            base
        },
        None => base,
    }
}

/// Volume to buy: the destination's daily volume over the fill days, at
/// least one, at most the source's sell volume.
pub open spec fn max_buy_of(item: SystemMarketsItemData, cfg: Config) -> int {
    let target = match window_stats_of(item.destination.history@, cfg.history_window_days as int) {
        Some(s) => s.volume_total * cfg.rcmnd_fill_days / (s.days as int),
        None => 0,
    };
    let at_least_one = if target < 1 {
        1
    } else {
        target
    };
    let src_vol = side_volume(item.source.orders@, false);
    if at_least_one < src_vol {
        at_least_one
    } else {
        src_vol
    }
}

/// Source price and volume: the source's mean daily high when it has no
/// sell order at all, else resale matching.
pub open spec fn buy_of(item: SystemMarketsItemData, cfg: Config) -> Option<(int, int)> {
    match lowest_sell_price(item.source.orders@) {
        None => match window_stats_of(item.source.history@, cfg.history_window_days as int) {
            Some(s) => Some((s.highest as int, max_buy_of(item, cfg))),
            None => None,
        },
        Some(_) => Some(
            resale_match_of(
                item.source.orders@,
                max_buy_of(item, cfg),
                dest_price_of(item, cfg),
                cfg.broker_fee_source as int,
                cfg.broker_fee_destination as int,
                cfg.sales_tax as int,
            ),
        ),
    }
}

/// Cost of one unit bought at `price`: the price with the broker fee, the
/// freight for `unit_volume` litres and the collateral on the price paid.
pub open spec fn expenses_of(price: int, unit_volume: int, cfg: Config) -> int {
    let b = with_fee_of(price, cfg.broker_fee_source as int);
    b + unit_volume * cfg.freight_cost_iskm3 / 1000 + b * cfg.freight_cost_collateral_percent / (BP as int)
}

pub open spec fn filled_for_days_of(w: Option<WindowStats>, dst_vol: int) -> Option<u128> {
    match w {
        Some(s) => if s.volume_total > 0 {
            Some((dst_vol * s.days / (s.volume_total as int)) as u128)
        } else {
            None
        },
        None => None,
    }
}

/// The economics of one item, none when it offers no trade: nothing to
/// buy, no unit volume known, or a zero cost.
pub open spec fn sell_sell_eval(item: SystemMarketsItemData, cfg: Config) -> Option<PairCalculatedDataSellSell> {
    let w = cfg.history_window_days as int;
    let src_w = window_stats_of(item.source.history@, w);
    let dst_w = window_stats_of(item.destination.history@, w);
    let dest = dest_price_of(item, cfg);
    let dst_vol = side_volume(item.destination.orders@, false);
    match buy_of(item, cfg) {
        None => None,
        Some(pv) => {
            let p = pv.0;
            let v = pv.1;
            match item.desc.volume {
                None => None,
                Some(unit) => {
                    let e = expenses_of(p, unit as int, cfg);
                    let s = after_cut_of(dest, cfg.broker_fee_destination + cfg.sales_tax);
                    if v == 0 || e == 0 {
                        None
                    } else {
                        Some(
                            PairCalculatedDataSellSell {
                                type_id: item.desc.type_id,
                                margin: margin_of(s, e) as i128,
                                rough_profit: ((s - e) * v) as i128,
                                market_dest_volume: dst_vol as u64,
                                recommend_buy: v as u64,
                                expenses: e as u64,
                                sell_price: s as u64,
                                filled_for_days: filled_for_days_of(dst_w, dst_vol),
                                src_buy_price: p as u64,
                                dest_min_sell_price: dest as u64,
                                src_avgs: src_w,
                                dst_avgs: dst_w,
                                market_src_volume: side_volume(item.source.orders@, false) as u64,
                            },
                        )
                    }
                },
            }
        },
    }
}

/// The daily volume of the window is above `m`; false without a window.
pub open spec fn daily_volume_above(w: Option<WindowStats>, m: int) -> bool {
    match w {
        Some(s) => s.volume_total > m * s.days,
        None => false,
    }
}

fn daily_volume_above_exec(w: Option<WindowStats>, m: u64) -> (r: bool)
    ensures
        r == daily_volume_above(w, m as int),
{
    match w {
        Some(s) => {
            proof {
                assert(m * s.days <= u64::MAX * u64::MAX) by (nonlinear_arith)
                    requires m <= u64::MAX, s.days <= u64::MAX;
            }
            (s.volume_total as u128) > (m as u128) * (s.days as u128)
        },
        None => false,
    }
}

/// The cutoffs of the direct-resale strategy.
pub open spec fn passes_cutoffs(r: PairCalculatedDataSellSell, cfg: Config) -> bool {
    &&& r.margin > cfg.margin_cutoff
    &&& daily_volume_above(r.src_avgs, cfg.min_src_volume as int)
    &&& daily_volume_above(r.dst_avgs, cfg.min_dst_volume as int)
    &&& (r.filled_for_days matches Some(f) ==> f < cfg.max_filled_for_days_cutoff)
}

/// Margin and profit agree with the record's own price and cost.
pub open spec fn sell_sell_consistent(r: PairCalculatedDataSellSell) -> bool {
    &&& r.expenses > 0
    &&& r.margin == margin_of(r.sell_price as int, r.expenses as int)
    &&& r.rough_profit == (r.sell_price - r.expenses) * r.recommend_buy
}

/// The economics of one item for direct resale (see `sell_sell_eval`).
pub fn evaluate_sell_sell(item: &SystemMarketsItemData, cfg: &Config) -> (r: Option<PairCalculatedDataSellSell>)
    requires
        cfg.wf(),
        item.wf(cfg.history_window_days as int),
    ensures
        r == sell_sell_eval(*item, *cfg),
        r matches Some(rec) ==> sell_sell_consistent(rec),
{
    let w = cfg.history_window_days;
    let src_vol = sell_side_volume(&item.source.orders);
    let dst_vol = sell_side_volume(&item.destination.orders);
    let src_w = compute_window_stats(&item.source.history, w);
    let dst_w = compute_window_stats(&item.destination.history, w);
    let lowest = lowest_sell(&item.destination.orders);
    proof {
        lemma_lowest_sell_price(item.destination.orders@);
    }
    let base: u64 = match dst_w {
        Some(s) => s.highest,
        None => match src_w {
            Some(s) => ((s.average as u128) * 13 / 10) as u64,
            None => 0,
        },
    };
    let dest: u64 = match lowest {
        Some(l) => if l < base {
            l
        } else {
            base
        },
        None => base,
    };
    assert(dest <= 2 * MAX_PRICE);
    let target: u128 = match dst_w {
        Some(s) => {
            proof {
                assert(s.volume_total * cfg.rcmnd_fill_days <= u64::MAX * u64::MAX) by (nonlinear_arith)
                    requires s.volume_total <= u64::MAX, cfg.rcmnd_fill_days <= u64::MAX;
            }
            (s.volume_total as u128) * (cfg.rcmnd_fill_days as u128) / (s.days as u128)
        },
        None => 0,
    };
    let at_least_one: u128 = if target < 1 {
        1
    } else {
        target
    };
    let max_buy: u64 = if at_least_one < src_vol as u128 {
        at_least_one as u64
    } else {
        src_vol
    };
    let src_lowest = lowest_sell(&item.source.orders);
    let (price, volume) = match src_lowest {
        None => match src_w {
            Some(s) => (s.highest, max_buy),
            None => {
                return None;
            },
        },
        Some(_) => resale_match(
            &item.source.orders,
            max_buy,
            dest,
            cfg.broker_fee_source,
            cfg.broker_fee_destination,
            cfg.sales_tax,
        ),
    };
    assert(price <= MAX_PRICE);
    assert(volume <= max_buy);
    let unit = match item.desc.volume {
        Some(v) => v,
        None => {
            return None;
        },
    };
    let buy = with_fee(price, cfg.broker_fee_source);
    proof {
        assert(unit * cfg.freight_cost_iskm3 <= MAX_UNIT_VOLUME * MAX_FREIGHT) by (nonlinear_arith)
            requires unit <= MAX_UNIT_VOLUME, cfg.freight_cost_iskm3 <= MAX_FREIGHT;
        assert(buy * cfg.freight_cost_collateral_percent <= 2 * MAX_PRICE * BP) by (nonlinear_arith)
            requires buy <= 2 * MAX_PRICE, cfg.freight_cost_collateral_percent <= BP;
        assert(buy * cfg.freight_cost_collateral_percent / (BP as int) <= 2 * MAX_PRICE) by (nonlinear_arith)
            requires buy * cfg.freight_cost_collateral_percent <= 2 * MAX_PRICE * BP,
                buy * cfg.freight_cost_collateral_percent >= 0;
        assert(unit * cfg.freight_cost_iskm3 / 1000 <= MAX_UNIT_VOLUME * MAX_FREIGHT) by (nonlinear_arith)
            requires unit * cfg.freight_cost_iskm3 <= MAX_UNIT_VOLUME * MAX_FREIGHT,
                unit * cfg.freight_cost_iskm3 >= 0;
    }
    let freight = ((unit as u128) * (cfg.freight_cost_iskm3 as u128) / 1000) as u64;
    let collateral = ((buy as u128) * (cfg.freight_cost_collateral_percent as u128) / (BP as u128)) as u64;
    let expenses = buy + freight + collateral;
    let sell = after_cut(dest, cfg.broker_fee_destination + cfg.sales_tax);
    if volume == 0 || expenses == 0 {
        return None;
    }
    let m = margin(sell as i128, expenses as i128);
    proof {
        let d = sell - expenses;
        assert(-0x40_0000_0000_0000 <= d <= 0x40_0000_0000_0000);
        assert(d * volume <= 0x40_0000_0000_0000 * u64::MAX) by (nonlinear_arith)
            requires d <= 0x40_0000_0000_0000, volume <= u64::MAX, volume >= 0;
        assert(d * volume >= -0x40_0000_0000_0000 * u64::MAX) by (nonlinear_arith)
            requires d >= -0x40_0000_0000_0000, volume <= u64::MAX, volume >= 0;
    }
    let profit = (sell as i128 - expenses as i128) * (volume as i128);
    let filled: Option<u128> = match dst_w {
        Some(s) => if s.volume_total > 0 {
            proof {
                assert(dst_vol * s.days <= u64::MAX * u64::MAX) by (nonlinear_arith)
                    requires dst_vol <= u64::MAX, s.days <= u64::MAX;
            }
            Some((dst_vol as u128) * (s.days as u128) / (s.volume_total as u128))
        } else {
            None
        },
        None => None,
    };
    Some(
        PairCalculatedDataSellSell {
            type_id: item.desc.type_id,
            margin: m,
            rough_profit: profit,
            market_dest_volume: dst_vol,
            recommend_buy: volume,
            expenses,
            sell_price: sell,
            filled_for_days: filled,
            src_buy_price: price,
            dest_min_sell_price: dest,
            src_avgs: src_w,
            dst_avgs: dst_w,
            market_src_volume: src_vol,
        },
    )
}

/// Number of recorded losses of the item `id`.
pub open spec fn loss_count(losses: Seq<(i32, u64)>, id: i32) -> int
    decreases losses.len(),
{
    if losses.len() == 0 {
        0
    } else {
        loss_count(losses.drop_last(), id) + if losses.last().0 == id {
            losses.last().1 as int
        } else {
            0
        }
    }
}

proof fn lemma_loss_count_bound(losses: Seq<(i32, u64)>, id: i32)
    ensures
        0 <= loss_count(losses, id) <= losses.len() * (u64::MAX as int),
    decreases losses.len(),
{
    if losses.len() > 0 {
        lemma_loss_count_bound(losses.drop_last(), id);
    }
}

fn loss_count_exec(losses: &Vec<(i32, u64)>, id: i32) -> (r: u128)
    ensures
        r == loss_count(losses@, id),
{
    let mut acc: u128 = 0;
    let mut i: usize = 0;
    while i < losses.len()
        invariant
            i <= losses@.len(),
            acc == loss_count(losses@.take(i as int), id),
        decreases losses@.len() - i,
    {
        proof {
            assert(losses@.take(i + 1).drop_last() == losses@.take(i as int));
            lemma_loss_count_bound(losses@.take(i as int), id);
            assert(i * (u64::MAX as int) + u64::MAX <= u128::MAX) by (nonlinear_arith)
                requires i <= usize::MAX;
        }
        if losses[i].0 == id {
            acc = acc + losses[i].1 as u128;
        }
        i = i + 1;
    }
    assert(losses@.take(losses@.len() as int) == losses@);
    acc
}

/// Whether a record stays in the list: always when the filters are
/// disabled, else when it passes the cutoffs and, for the loss-weighted
/// strategy, the item was lost often enough.
pub open spec fn admitted(
    r: PairCalculatedDataSellSell,
    cfg: Config,
    disable_filters: bool,
    weighted: bool,
    losses: Seq<(i32, u64)>,
) -> bool {
    disable_filters || (passes_cutoffs(r, cfg) && (weighted ==> loss_count(losses, r.type_id)
        >= cfg.min_loss_count))
}

/// The records of the items that offer a trade and are admitted, in input order.
pub open spec fn kept_resale(
    items: Seq<SystemMarketsItemData>,
    cfg: Config,
    disable_filters: bool,
    weighted: bool,
    losses: Seq<(i32, u64)>,
) -> Seq<PairCalculatedDataSellSell>
    decreases items.len(),
{
    if items.len() == 0 {
        Seq::empty()
    } else {
        let sub = kept_resale(items.drop_last(), cfg, disable_filters, weighted, losses);
        match sell_sell_eval(items.last(), cfg) {
            Some(r) => if admitted(r, cfg, disable_filters, weighted, losses) {
                sub.push(r)
            } else {
                sub
            },
            None => sub,
        }
    }
}

pub open spec fn profits(s: Seq<PairCalculatedDataSellSell>) -> Seq<i128> {
    s.map_values(|r: PairCalculatedDataSellSell| r.rough_profit)
}

/// Records by descending profit, ties in input order.
pub open spec fn rank_by_profit(s: Seq<PairCalculatedDataSellSell>) -> Seq<PairCalculatedDataSellSell> {
    stable_rank_desc(profits(s)).map_values(|i: usize| s[i as int])
}

/// The recommendation list of a resale strategy: admitted records by
/// descending profit, at most `items_take` of them.
pub open spec fn resale_result(
    items: Seq<SystemMarketsItemData>,
    cfg: Config,
    disable_filters: bool,
    weighted: bool,
    losses: Seq<(i32, u64)>,
) -> Seq<PairCalculatedDataSellSell> {
    let ranked = rank_by_profit(kept_resale(items, cfg, disable_filters, weighted, losses));
    if cfg.items_take < ranked.len() {
        ranked.take(cfg.items_take as int)
    } else {
        ranked
    }
}

pub open spec fn items_wf(items: Seq<SystemMarketsItemData>, cfg: Config) -> bool {
    forall|i: int| 0 <= i < items.len() ==> (#[trigger] items[i]).wf(cfg.history_window_days as int)
}

fn resale_pipeline(
    pairs: &Vec<SystemMarketsItemData>,
    losses: &Vec<(i32, u64)>,
    weighted: bool,
    config: &Config,
    disable_filters: bool,
) -> (r: Vec<PairCalculatedDataSellSell>)
    requires
        config.wf(),
        items_wf(pairs@, *config),
    ensures
        r@ == resale_result(pairs@, *config, disable_filters, weighted, losses@),
        forall|i: int| 0 <= i < r@.len() ==> sell_sell_consistent(#[trigger] r@[i]),
{
    let mut kept: Vec<PairCalculatedDataSellSell> = Vec::new();
    let mut i: usize = 0;
    while i < pairs.len()
        invariant
            config.wf(),
            items_wf(pairs@, *config),
            i <= pairs@.len(),
            kept@ == kept_resale(pairs@.take(i as int), *config, disable_filters, weighted, losses@),
            forall|k: int| 0 <= k < kept@.len() ==> sell_sell_consistent(#[trigger] kept@[k]),
        decreases pairs@.len() - i,
    {
        assert(pairs@.take(i + 1).drop_last() == pairs@.take(i as int));
        assert(pairs@.take(i + 1).last() == pairs@[i as int]);
        let ev = evaluate_sell_sell(&pairs[i], config);
        match ev {
            Some(rec) => {
                let mut ok = disable_filters;
                if !ok {
                    let cut_ok = rec.margin > config.margin_cutoff
                        && daily_volume_above_exec(rec.src_avgs, config.min_src_volume)
                        && daily_volume_above_exec(rec.dst_avgs, config.min_dst_volume) && match rec.filled_for_days {
                        Some(f) => f < config.max_filled_for_days_cutoff,
                        None => true,
                    };
                    ok = cut_ok && (!weighted || loss_count_exec(losses, rec.type_id) >= config.min_loss_count as u128);
                }
                if ok {
                    kept.push(rec);
                }
            },
            None => {},
        }
        i = i + 1;
    }
    assert(pairs@.take(pairs@.len() as int) == pairs@);
    let ghost k = kept@;
    let mut keys: Vec<i128> = Vec::new();
    let mut j: usize = 0;
    while j < kept.len()
        invariant
            j <= kept@.len(),
            keys@ == profits(kept@.take(j as int)),
        decreases kept@.len() - j,
    {
        keys.push(kept[j].rough_profit);
        j = j + 1;
        assert(keys@ =~= profits(kept@.take(j as int)));
    }
    assert(kept@.take(kept@.len() as int) == kept@);
    let t = rank_desc(&keys);
    let n: usize = if config.items_take < kept.len() { config.items_take } else { kept.len() };
    let mut r: Vec<PairCalculatedDataSellSell> = Vec::new();
    let mut m: usize = 0;
    while m < n
        invariant
            n <= t@.len() == k.len(),
            k == kept@,
            is_stable_rank_desc(keys@, t@),
            m <= n,
            r@ == rank_by_profit(k).take(m as int),
            t@ == stable_rank_desc(profits(k)),
            forall|q: int| 0 <= q < k.len() ==> sell_sell_consistent(#[trigger] k[q]),
            forall|q: int| 0 <= q < r@.len() ==> sell_sell_consistent(#[trigger] r@[q]),
        decreases n - m,
    {
        assert(t@[m as int] < k.len());
        r.push(kept[t[m]]);
        m = m + 1;
        assert(r@ =~= rank_by_profit(k).take(m as int));
    }
    proof {
        assert(rank_by_profit(k).len() == k.len());
        if n == k.len() {
            assert(rank_by_profit(k).take(n as int) == rank_by_profit(k));
        }
    }
    r
}

/// A resale strategy run twice on the same items, settings and loss
/// counts yields the same ordered list.
pub proof fn lemma_resale_idempotent(
    items: Seq<SystemMarketsItemData>,
    cfg: Config,
    disable_filters: bool,
    weighted: bool,
    losses: Seq<(i32, u64)>,
    first: Seq<PairCalculatedDataSellSell>,
    second: Seq<PairCalculatedDataSellSell>,
)
    requires
        first == resale_result(items, cfg, disable_filters, weighted, losses),
        second == resale_result(items, cfg, disable_filters, weighted, losses),
    ensures
        first == second,
{
}

/// Direct-resale recommendations: every item's economics, filtered by the
/// cutoffs unless `disable_filters`, by descending profit, at most
/// `items_take` of them.
pub fn get_good_items_sell_sell(
    pairs: Vec<SystemMarketsItemData>,
    config: &Config,
    disable_filters: bool,
) -> (r: Vec<PairCalculatedDataSellSell>)
    requires
        config.wf(),
        items_wf(pairs@, *config),
    ensures
        r@ == resale_result(pairs@, *config, disable_filters, false, Seq::empty()),
        forall|i: int| 0 <= i < r@.len() ==> sell_sell_consistent(#[trigger] r@[i]),
{
    let none: Vec<(i32, u64)> = Vec::new();
    resale_pipeline(&pairs, &none, false, config, disable_filters)
}

/// Loss-weighted resale: as direct resale, keeping only the items whose
/// recorded losses (pairs of item id and count) reach `min_loss_count`.
pub fn get_good_items_sell_sell_zkb(
    pairs: Vec<SystemMarketsItemData>,
    losses: Vec<(i32, u64)>,
    config: &Config,
    disable_filters: bool,
) -> (r: Vec<PairCalculatedDataSellSell>)
    requires
        config.wf(),
        items_wf(pairs@, *config),
    ensures
        r@ == resale_result(pairs@, *config, disable_filters, true, losses@),
        forall|i: int| 0 <= i < r@.len() ==> sell_sell_consistent(#[trigger] r@[i]),
{
    resale_pipeline(&pairs, &losses, true, config, disable_filters)
}

} // verus!
