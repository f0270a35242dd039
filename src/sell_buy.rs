use crate::economics::{after_cut, after_cut_of, margin, margin_of, with_fee, with_fee_of};
use crate::history::{compute_window_stats, window_stats_of, WindowStats};
use crate::market::{
    sell_side_volume, side_volume, Config, SystemMarketsItemData, MAX_PRICE, MAX_UNIT_VOLUME,
};
use crate::matching::{flip_match, flip_match_of};
use crate::capacity::{
    all_gain, bounds_of, candidates_wf, feasible, is_selection, lemma_selection_bounds, selection_volumes,
    take_maximizing_profit, ProcessedSellBuyItems,
};
use crate::ranking::{is_stable_rank_desc, rank_desc, stable_rank_desc};
use crate::sell_sell::items_wf;
use vstd::prelude::*;

verus! {

/// An instant-flip recommendation: buy from the source's sell orders and
/// sell at once into the destination's buy orders.
#[derive(Clone, Copy, Debug, PartialEq, Eq)]
pub struct PairCalculatedDataSellBuy {
    pub type_id: i32,
    /// `(sell_price - expenses) / expenses`, in basis points.
    pub margin: i128,
    /// `(sell_price - expenses) * recommend_buy`, in cents.
    pub rough_profit: i128,
    /// Volume of the destination's sell orders.
    pub market_dest_volume: u64,
    pub recommend_buy: u64,
    /// Cost of one unit: the single clearing price with the broker fee.
    pub expenses: u64,
    /// What one unit brings: the mean destination price after tax.
    pub sell_price: u64,
    /// The clearing price: the highest source price touched.
    pub src_buy_price: u64,
    /// Mean price of the destination buy orders filled.
    pub dest_min_sell_price: u64,
    pub src_avgs: Option<WindowStats>,
    pub dst_avgs: Option<WindowStats>,
    /// Volume of the source's sell orders.
    pub market_src_volume: u64,
    /// Profit had every unit been bought at its own price.
    pub best_rough_profit: i128,
    /// Margin had every unit been bought at its own price, in basis points.
    pub best_margin: i128,
    /// Volume of one unit, in litres.
    pub unit_volume: u64,
}

/// The economics of one item for the instant flip; none when nothing
/// matches, no unit volume is known, or a cost is zero.
pub open spec fn sell_buy_eval(item: SystemMarketsItemData, cfg: Config) -> Option<PairCalculatedDataSellBuy> {
    let w = cfg.history_window_days as int;
    let fm = flip_match_of(
        item.source.orders@,
        item.destination.orders@,
        cfg.broker_fee_source as int,
        cfg.sales_tax as int,
    );
    let v = fm.volume as int;
    if v == 0 {
        None
    } else {
        match item.desc.volume {
            None => None,
            Some(unit) => {
                let dest_sell = fm.sum_sell as int / v;
                let avg_buy = fm.sum_buy as int / v;
                let cost = with_fee_of(fm.max_buy_price as int, cfg.broker_fee_source as int);
                let best_cost = with_fee_of(avg_buy, cfg.broker_fee_source as int);
                let fin_sell = after_cut_of(dest_sell, cfg.sales_tax as int);
                if cost == 0 || best_cost == 0 {
                    None
                } else {
                    Some(
                        PairCalculatedDataSellBuy {
                            type_id: item.desc.type_id,
                            margin: margin_of(fin_sell, cost) as i128,
                            rough_profit: ((fin_sell - cost) * v) as i128,
                            market_dest_volume: side_volume(item.destination.orders@, false) as u64,
                            recommend_buy: v as u64,
                            expenses: cost as u64,
                            sell_price: fin_sell as u64,
                            src_buy_price: fm.max_buy_price,
                            dest_min_sell_price: dest_sell as u64,
                            src_avgs: window_stats_of(item.source.history@, w),
                            dst_avgs: window_stats_of(item.destination.history@, w),
                            market_src_volume: side_volume(item.source.orders@, false) as u64,
                            best_rough_profit: ((fin_sell - best_cost) * v) as i128,
                            best_margin: margin_of(fin_sell, best_cost) as i128,
                            unit_volume: unit,
                        },
                    )
                }
            },
        }
    }
}

/// Margin and profit agree with the record's own price and cost.
pub open spec fn sell_buy_consistent(r: PairCalculatedDataSellBuy) -> bool {
    &&& r.expenses > 0
    &&& r.margin == margin_of(r.sell_price as int, r.expenses as int)
    &&& r.rough_profit == (r.sell_price - r.expenses) * r.recommend_buy
    &&& r.sell_price <= MAX_PRICE
    &&& r.expenses <= 2 * MAX_PRICE
    &&& r.unit_volume <= MAX_UNIT_VOLUME
}

/// The economics of one item for the instant flip (see `sell_buy_eval`).
pub fn evaluate_sell_buy(item: &SystemMarketsItemData, cfg: &Config) -> (r: Option<PairCalculatedDataSellBuy>)
    requires
        cfg.wf(),
        item.wf(cfg.history_window_days as int),
    ensures
        r == sell_buy_eval(*item, *cfg),
        r matches Some(rec) ==> sell_buy_consistent(rec),
{
    let w = cfg.history_window_days;
    let fm = flip_match(&item.source.orders, &item.destination.orders, cfg.broker_fee_source, cfg.sales_tax);
    if fm.volume == 0 {
        return None;
    }
    let unit = match item.desc.volume {
        Some(u) => u,
        None => {
            return None;
        },
    };
    let v = fm.volume;
    proof {
        assert(fm.sum_sell as int / (v as int) <= MAX_PRICE) by (nonlinear_arith)
            requires fm.sum_sell <= v * MAX_PRICE, v > 0, fm.sum_sell >= 0;
        assert(fm.sum_buy as int / (v as int) <= fm.max_buy_price) by (nonlinear_arith)
            requires fm.sum_buy <= v * fm.max_buy_price, v > 0, fm.sum_buy >= 0;
    }
    let dest_sell = (fm.sum_sell / (v as u128)) as u64;
    let avg_buy = (fm.sum_buy / (v as u128)) as u64;
    let cost = with_fee(fm.max_buy_price, cfg.broker_fee_source);
    let best_cost = with_fee(avg_buy, cfg.broker_fee_source);
    let fin_sell = after_cut(dest_sell, cfg.sales_tax);
    if cost == 0 || best_cost == 0 {
        return None;
    }
    proof {
        let d = fin_sell - cost;
        let e = fin_sell - best_cost;
        assert(d * v <= 0x40_0000_0000_0000 * u64::MAX && d * v >= -0x40_0000_0000_0000 * u64::MAX)
            by (nonlinear_arith)
            requires -0x40_0000_0000_0000 <= d <= 0x40_0000_0000_0000, 0 <= v <= u64::MAX;
        assert(e * v <= 0x40_0000_0000_0000 * u64::MAX && e * v >= -0x40_0000_0000_0000 * u64::MAX)
            by (nonlinear_arith)
            requires -0x40_0000_0000_0000 <= e <= 0x40_0000_0000_0000, 0 <= v <= u64::MAX;
    }
    let m = margin(fin_sell as i128, cost as i128);
    let best_m = margin(fin_sell as i128, best_cost as i128);
    let profit = (fin_sell as i128 - cost as i128) * (v as i128);
    let best_profit = (fin_sell as i128 - best_cost as i128) * (v as i128);
    let src_w = compute_window_stats(&item.source.history, w);
    let dst_w = compute_window_stats(&item.destination.history, w);
    Some(
        PairCalculatedDataSellBuy {
            type_id: item.desc.type_id,
            margin: m,
            rough_profit: profit,
            market_dest_volume: sell_side_volume(&item.destination.orders),
            recommend_buy: v,
            expenses: cost,
            sell_price: fin_sell,
            src_buy_price: fm.max_buy_price,
            dest_min_sell_price: dest_sell,
            src_avgs: src_w,
            dst_avgs: dst_w,
            market_src_volume: sell_side_volume(&item.source.orders),
            best_rough_profit: best_profit,
            best_margin: best_m,
            unit_volume: unit,
        },
    )
}

/// Whether an instant-flip record stays in the list: always when the
/// filters are disabled, else when its average-cost margin is above the
/// cutoff and its average-cost profit above the minimum, if one is set.
pub open spec fn flip_admitted(r: PairCalculatedDataSellBuy, cfg: Config, disable_filters: bool) -> bool {
    disable_filters || (r.best_margin > cfg.margin_cutoff && (cfg.min_profit matches Some(m)
        ==> r.best_rough_profit > m))
}

pub open spec fn kept_flip(items: Seq<SystemMarketsItemData>, cfg: Config, disable_filters: bool) -> Seq<
    PairCalculatedDataSellBuy,
>
    decreases items.len(),
{
    if items.len() == 0 {
        Seq::empty()
    } else {
        let sub = kept_flip(items.drop_last(), cfg, disable_filters);
        match sell_buy_eval(items.last(), cfg) {
            Some(r) => if flip_admitted(r, cfg, disable_filters) {
                sub.push(r)
            } else {
                sub
            },
            None => sub,
        }
    }
}

pub open spec fn best_profits(s: Seq<PairCalculatedDataSellBuy>) -> Seq<i128> {
    s.map_values(|r: PairCalculatedDataSellBuy| r.best_rough_profit)
}

/// The admitted records by descending average-cost profit, ties in input
/// order: the candidates handed to the capacity optimizer.
pub open spec fn flip_candidates(items: Seq<SystemMarketsItemData>, cfg: Config, disable_filters: bool) -> Seq<
    PairCalculatedDataSellBuy,
> {
    let k = kept_flip(items, cfg, disable_filters);
    stable_rank_desc(best_profits(k)).map_values(|i: usize| k[i as int])
}

fn flip_candidates_exec(pairs: &Vec<SystemMarketsItemData>, config: &Config, disable_filters: bool) -> (r: Vec<
    PairCalculatedDataSellBuy,
>)
    requires
        config.wf(),
        items_wf(pairs@, *config),
    ensures
        r@ == flip_candidates(pairs@, *config, disable_filters),
        candidates_wf(r@),
{
    let mut kept: Vec<PairCalculatedDataSellBuy> = Vec::new();
    let mut i: usize = 0;
    while i < pairs.len()
        invariant
            config.wf(),
            items_wf(pairs@, *config),
            i <= pairs@.len(),
            kept@ == kept_flip(pairs@.take(i as int), *config, disable_filters),
            candidates_wf(kept@),
        decreases pairs@.len() - i,
    {
        assert(pairs@.take(i + 1).drop_last() == pairs@.take(i as int));
        assert(pairs@.take(i + 1).last() == pairs@[i as int]);
        match evaluate_sell_buy(&pairs[i], config) {
            Some(rec) => {
                let ok = disable_filters || (rec.best_margin > config.margin_cutoff && match config.min_profit {
                    Some(m) => rec.best_rough_profit > m,
                    None => true,
                });
                if ok {
                    kept.push(rec);
                }
            },
            None => {},
        }
        i = i + 1;
    }
    assert(pairs@.take(pairs@.len() as int) == pairs@);
    let ghost k = kept@;
    let mut keys: Vec<i128> = Vec::new();
    let mut j: usize = 0;
    while j < kept.len()
        invariant
            j <= kept@.len(),
            keys@ == best_profits(kept@.take(j as int)),
        decreases kept@.len() - j,
    {
        keys.push(kept[j].best_rough_profit);
        j = j + 1;
        assert(keys@ =~= best_profits(kept@.take(j as int)));
    }
    assert(kept@.take(kept@.len() as int) == kept@);
    let t = rank_desc(&keys);
    let mut r: Vec<PairCalculatedDataSellBuy> = Vec::new();
    let mut m: usize = 0;
    while m < t.len()
        invariant
            t@.len() == k.len(),
            k == kept@,
            is_stable_rank_desc(keys@, t@),
            m <= t@.len(),
            t@ == stable_rank_desc(best_profits(k)),
            r@ == t@.take(m as int).map_values(|q: usize| k[q as int]),
            candidates_wf(k),
            candidates_wf(r@),
        decreases t@.len() - m,
    {
        assert(t@[m as int] < k.len());
        r.push(kept[t[m]]);
        m = m + 1;
        assert(r@ =~= t@.take(m as int).map_values(|q: usize| k[q as int]));
    }
    assert(t@.take(t@.len() as int) == t@);
    r
}

/// The instant flip run twice on the same items and settings selects the
/// same items, in the same order, with the same totals.
pub proof fn lemma_flip_idempotent(
    items: Seq<SystemMarketsItemData>,
    cfg: Config,
    disable_filters: bool,
    first: ProcessedSellBuyItems,
    second: ProcessedSellBuyItems,
)
    requires
        ({
            let c = flip_candidates(items, cfg, disable_filters);
            &&& is_selection(first, c, selection_volumes(c, cfg.cargo_capacity as int), cfg.cargo_capacity as int)
            &&& is_selection(second, c, selection_volumes(c, cfg.cargo_capacity as int), cfg.cargo_capacity as int)
        }),
    ensures
        first.items@ == second.items@,
        first.sum_profit == second.sum_profit,
        first.sum_volume == second.sum_volume,
{
}

/// Instant-flip recommendations: every item matched order to order,
/// filtered unless `disable_filters`, ordered by descending average-cost
/// profit, then reduced to what the cargo capacity carries most profitably
/// (see `take_maximizing_profit`).
pub fn get_good_items_sell_buy(pairs: Vec<SystemMarketsItemData>, config: &Config, disable_filters: bool) -> (r:
    ProcessedSellBuyItems)
    requires
        config.wf(),
        items_wf(pairs@, *config),
    ensures
        ({
            let c = flip_candidates(pairs@, *config, disable_filters);
            is_selection(r, c, selection_volumes(c, config.cargo_capacity as int), config.cargo_capacity as int)
        }),
        config.cargo_capacity == 0 ==> r.items@.len() == 0 && r.sum_profit == 0 && r.sum_volume == 0,
        ({
            let c = flip_candidates(pairs@, *config, disable_filters);
            config.cargo_capacity > 0 && feasible(c, bounds_of(c), config.cargo_capacity as int)
                && all_gain(c) ==> is_selection(r, c, bounds_of(c), config.cargo_capacity as int)
        }),
        forall|j: int|
            0 <= j < r.items@.len() ==> (#[trigger] r.items@[j]).expenses > 0 && r.items@[j].margin
                == margin_of(r.items@[j].sell_price as int, r.items@[j].expenses as int),
        r.sum_volume <= config.cargo_capacity,
{
    let candidates = flip_candidates_exec(&pairs, config, disable_filters);
    let ghost c = candidates@;
    let r = take_maximizing_profit(candidates, config.cargo_capacity);
    proof {
        lemma_selection_bounds(r, c, selection_volumes(c, config.cargo_capacity as int), config.cargo_capacity as int);
    }
    r
}

} // verus!
