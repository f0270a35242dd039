use eve_tradeworks::capacity::{apply_solution, take_maximizing_profit};
use eve_tradeworks::economics::{after_cut, margin, with_fee};
use eve_tradeworks::history::{compute_window_stats, fill_history_gaps, mean, median, DailyStat, ItemType};
use eve_tradeworks::market::{
    buy_side_volume, pair_markets, lowest_sell, sell_side_volume, Config, MarketData, Order, SystemMarketsItemData,
    TypeDescription,
};
use eve_tradeworks::matching::{flip_match, resale_match};
use eve_tradeworks::sell_buy::{evaluate_sell_buy, get_good_items_sell_buy};
use eve_tradeworks::sell_sell::{
    evaluate_sell_sell, get_good_items_sell_sell, get_good_items_sell_sell_zkb,
};
use eve_tradeworks::station::CharacterInfo;

fn order(is_buy_order: bool, price: u64, volume_remain: u32) -> Order {
    Order {
        order_id: 1,
        type_id: 34,
        location_id: 60003760,
        is_buy_order,
        price,
        volume_remain,
        volume_total: volume_remain,
        min_volume: 1,
        issued: 0,
        duration: 90,
    }
}

fn day(date: i32, average: u64, order_count: u64, volume: u64) -> DailyStat {
    DailyStat { date, average, highest: average + 1000, lowest: average - 1000, order_count, volume }
}

fn config() -> Config {
    Config {
        margin_cutoff: 0,
        min_profit: None,
        min_src_volume: 0,
        min_dst_volume: 0,
        max_filled_for_days_cutoff: 1000,
        rcmnd_fill_days: 3,
        broker_fee_source: 0,
        broker_fee_destination: 0,
        sales_tax: 0,
        freight_cost_iskm3: 0,
        freight_cost_collateral_percent: 0,
        cargo_capacity: 1_000_000,
        items_take: 50,
        history_window_days: 14,
        min_loss_count: 1,
    }
}

fn desc(type_id: i32, volume: Option<u64>) -> TypeDescription {
    TypeDescription {
        type_id,
        name: format!("item {}", type_id),
        description: String::new(),
        group_id: 18,
        market_group_id: Some(1857),
        graphic_id: None,
        icon_id: None,
        portion_size: Some(1),
        published: true,
        volume,
        packaged_volume: volume,
    }
}

fn item(
    type_id: i32,
    unit: Option<u64>,
    src_orders: Vec<Order>,
    src_history: Vec<DailyStat>,
    dst_orders: Vec<Order>,
    dst_history: Vec<DailyStat>,
) -> SystemMarketsItemData {
    SystemMarketsItemData {
        desc: desc(type_id, unit),
        source: MarketData { orders: src_orders, history: src_history },
        destination: MarketData { orders: dst_orders, history: dst_history },
    }
}

fn flat_history(days: i32, average: u64, volume: u64) -> Vec<DailyStat> {
    (0..days).map(|d| day(1000 + d, average, 10, volume)).collect()
}

#[test]
fn side_volumes_sum_each_side() {
    let orders = vec![order(false, 100, 3), order(true, 90, 7), order(false, 120, 4), order(true, 80, 1)];
    assert_eq!(sell_side_volume(&orders), 7);
    assert_eq!(buy_side_volume(&orders), 8);
    assert_eq!(sell_side_volume(&Vec::new()), 0);
}

#[test]
fn lowest_sell_ignores_buy_orders() {
    let orders = vec![order(true, 50, 3), order(false, 120, 4), order(false, 110, 1)];
    assert_eq!(lowest_sell(&orders), Some(110));
    assert_eq!(lowest_sell(&vec![order(true, 50, 3)]), None);
}

#[test]
fn mean_rounds_down() {
    assert_eq!(mean(&vec![1, 2]), 1);
    assert_eq!(mean(&vec![10, 20, 40]), 23);
}

#[test]
fn median_sorts_first() {
    assert_eq!(median(&vec![9, 1, 5]), 5);
    assert_eq!(median(&vec![7, 1, 3, 100]), 5);
    assert_eq!(median(&vec![4]), 4);
}

#[test]
fn window_takes_the_most_recent_days() {
    let mut h = flat_history(6, 1000, 1);
    for d in 6..20 {
        h.push(day(1000 + d, 5000, d as u64, 2));
    }
    let s = compute_window_stats(&h, 14).unwrap();
    assert_eq!(s.days, 14);
    assert_eq!(s.average, 5000);
    assert_eq!(s.highest, 6000);
    assert_eq!(s.lowest, 4000);
    assert_eq!(s.volume_total, 28);
    // order counts 6..=19: middle values 12 and 13
    assert_eq!(s.order_count, 12);
}

#[test]
fn window_never_exceeds_history() {
    let h = flat_history(3, 1000, 5);
    let s = compute_window_stats(&h, 14).unwrap();
    assert_eq!(s.days, 3);
    assert_eq!(s.volume_total, 15);
    assert!(compute_window_stats(&Vec::new(), 14).is_none());
    assert!(compute_window_stats(&h, 0).is_none());
}

#[test]
fn gap_filling_covers_every_day_through_today() {
    let h = vec![day(10, 1000, 4, 7), day(12, 3000, 6, 9)];
    let r = fill_history_gaps(&h, 14);
    assert_eq!(r.len(), 5);
    for (i, e) in r.iter().enumerate() {
        assert_eq!(e.date, 10 + i as i32);
    }
    assert_eq!(r[0], h[0]);
    assert_eq!(r[2], h[1]);
    // filler: medians of known prices, no trading
    assert_eq!(r[1].average, 2000);
    assert_eq!(r[1].highest, 3000);
    assert_eq!(r[1].lowest, 1000);
    assert_eq!(r[1].order_count, 0);
    assert_eq!(r[1].volume, 0);
    assert_eq!(r[4].date, 14);
    assert_eq!(r[4].volume, 0);
}

#[test]
fn gap_filling_of_empty_history() {
    let r = fill_history_gaps(&Vec::new(), 700);
    assert_eq!(r.len(), 1);
    assert_eq!(r[0], DailyStat { date: 700, average: 100, highest: 100, lowest: 100, order_count: 0, volume: 0 });
}

#[test]
fn fee_arithmetic() {
    assert_eq!(with_fee(10000, 250), 10250);
    assert_eq!(after_cut(10000, 800), 9200);
    assert_eq!(margin(15000, 10000), 5000);
    assert_eq!(margin(5000, 10000), -5000);
    assert_eq!(margin(1, 3), -6666);
}

#[test]
fn resale_match_stops_at_first_unprofitable_tier() {
    let orders = vec![
        order(false, 300, 5),
        order(false, 100, 4),
        order(true, 500, 100),
        order(false, 200, 3),
    ];
    // destination sells at 250: tiers 100 and 200 gain, 300 does not
    assert_eq!(resale_match(&orders, 100, 250, 0, 0, 0), (200, 7));
    // volume capped
    assert_eq!(resale_match(&orders, 5, 250, 0, 0, 0), (200, 5));
    // nothing profitable
    assert_eq!(resale_match(&orders, 5, 90, 0, 0, 0), (0, 0));
    // the broker fee turns the 200 tier unprofitable: 200 * 1.3 >= 250
    assert_eq!(resale_match(&orders, 100, 250, 3000, 0, 0), (100, 4));
}

#[test]
fn flip_single_orders() {
    let src = vec![order(false, 10000, 10)];
    let dst = vec![order(true, 15000, 5)];
    let m = flip_match(&src, &dst, 0, 0);
    assert_eq!(m.volume, 5);
    assert_eq!(m.max_buy_price, 10000);
    assert_eq!(m.sum_sell, 75000);
    assert_eq!(m.sum_buy, 50000);
}

#[test]
fn flip_walks_both_books() {
    let src = vec![order(false, 120, 4), order(false, 100, 3), order(true, 1, 9)];
    let dst = vec![order(true, 110, 5), order(true, 130, 2), order(false, 1, 9)];
    // 130 x2 from 100; then 110 x1 from 100; 110 vs 120 is no gain
    let m = flip_match(&src, &dst, 0, 0);
    assert_eq!(m.volume, 3);
    assert_eq!(m.sum_sell, 2 * 130 + 110);
    assert_eq!(m.sum_buy, 300);
    assert_eq!(m.max_buy_price, 100);
    // each step takes at most what both orders have
    assert!(m.volume <= 5);
}

#[test]
fn instant_flip_scenario() {
    let it = item(34, Some(100), vec![order(false, 10000, 10)], vec![], vec![order(true, 15000, 5)], vec![]);
    let r = get_good_items_sell_buy(vec![it], &config(), false);
    assert_eq!(r.items.len(), 1);
    let rec = r.items[0];
    assert_eq!(rec.recommend_buy, 5);
    assert_eq!(rec.src_buy_price, 10000);
    assert_eq!(rec.rough_profit, 25000);
    assert_eq!(rec.margin, 5000);
    assert_eq!(r.sum_profit, 25000);
    assert_eq!(r.sum_volume, 500);
}

#[test]
fn destination_without_data_uses_markup_on_source_average() {
    let it = item(
        35,
        Some(1000),
        vec![order(false, 5000, 10)],
        vec![DailyStat { date: 1, average: 10000, highest: 11000, lowest: 9000, order_count: 5, volume: 50 }],
        vec![],
        vec![],
    );
    let rec = evaluate_sell_sell(&it, &config()).unwrap();
    assert_eq!(rec.dest_min_sell_price, 13000);
    assert_eq!(rec.recommend_buy, 1);
    assert_eq!(rec.expenses, 5000);
    assert_eq!(rec.sell_price, 13000);
    assert_eq!(rec.margin, 16000);
    assert_eq!(rec.rough_profit, 8000);
    let listed = get_good_items_sell_sell(vec![it], &config(), true);
    assert_eq!(listed.len(), 1);
    assert_eq!(listed[0].dest_min_sell_price, 13000);
}

#[test]
fn zero_capacity_selects_nothing() {
    let it = item(34, Some(100), vec![order(false, 10000, 10)], vec![], vec![order(true, 15000, 5)], vec![]);
    let mut cfg = config();
    cfg.cargo_capacity = 0;
    let r = get_good_items_sell_buy(vec![it], &cfg, false);
    assert!(r.items.is_empty());
    assert_eq!(r.sum_profit, 0);
    assert_eq!(r.sum_volume, 0);
}

fn two_flip_items() -> Vec<SystemMarketsItemData> {
    vec![
        item(1, Some(100), vec![order(false, 10000, 5)], vec![], vec![order(true, 15000, 5)], vec![]),
        item(2, Some(10), vec![order(false, 10000, 100)], vec![], vec![order(true, 13000, 100)], vec![]),
    ]
}

#[test]
fn optimizer_respects_capacity_and_bounds() {
    let mut cfg = config();
    cfg.cargo_capacity = 600;
    let r = get_good_items_sell_buy(two_flip_items(), &cfg, false);
    assert!(r.sum_volume <= 600);
    let mut used = 0;
    for rec in &r.items {
        let bound = if rec.type_id == 1 { 5 } else { 100 };
        assert!(rec.recommend_buy > 0 && rec.recommend_buy <= bound);
        used += rec.recommend_buy * rec.unit_volume;
    }
    assert_eq!(used, r.sum_volume);
}

#[test]
fn optimizer_finds_best_mix() {
    let mut cfg = config();
    cfg.cargo_capacity = 600;
    let r = get_good_items_sell_buy(two_flip_items(), &cfg, false);
    assert_eq!(r.sum_profit, 180000);
    assert_eq!(r.items.len(), 1);
    assert_eq!(r.items[0].type_id, 2);
    assert_eq!(r.items[0].recommend_buy, 60);
}

#[test]
fn optimizer_takes_everything_when_it_fits() {
    let r = get_good_items_sell_buy(two_flip_items(), &config(), false);
    assert_eq!(r.items.len(), 2);
    // ordered by profit: item 2 gains 300000, item 1 gains 25000
    assert_eq!(r.items[0].type_id, 2);
    assert_eq!(r.items[0].recommend_buy, 100);
    assert_eq!(r.items[1].recommend_buy, 5);
    assert_eq!(r.sum_profit, 325000);
    assert_eq!(r.sum_volume, 1500);
}

#[test]
fn apply_solution_checks_volumes() {
    let cands: Vec<_> = two_flip_items().iter().map(|i| evaluate_sell_buy(i, &config()).unwrap()).collect();
    let ok = apply_solution(&cands, &vec![0, 60], 600);
    assert_eq!(ok.items.len(), 1);
    assert_eq!(ok.sum_profit, 180000);
    let over_bound = apply_solution(&cands, &vec![6, 0], 10000);
    assert!(over_bound.items.is_empty());
    let over_capacity = apply_solution(&cands, &vec![5, 10], 500);
    assert!(over_capacity.items.is_empty());
    assert_eq!(over_capacity.sum_volume, 0);
    let wrong_len = apply_solution(&cands, &vec![1], 500);
    assert!(wrong_len.items.is_empty());
    let all = take_maximizing_profit(cands.clone(), 0);
    assert!(all.items.is_empty());
}

#[test]
fn records_keep_margin_consistent() {
    let mut cfg = config();
    cfg.broker_fee_source = 300;
    cfg.broker_fee_destination = 200;
    cfg.sales_tax = 500;
    cfg.freight_cost_iskm3 = 1500;
    cfg.freight_cost_collateral_percent = 100;
    let it = item(
        7,
        Some(2500),
        vec![order(false, 40000, 30), order(false, 41000, 30)],
        flat_history(20, 50000, 40),
        vec![order(false, 80000, 10)],
        flat_history(20, 70000, 20),
    );
    let list = get_good_items_sell_sell(vec![it], &cfg, false);
    assert_eq!(list.len(), 1);
    for r in &list {
        assert!(r.expenses > 0);
        let d = r.sell_price as i128 - r.expenses as i128;
        assert_eq!(r.margin, d * 10000 / r.expenses as i128);
        assert_eq!(r.rough_profit, d * r.recommend_buy as i128);
    }
    // expenses: 41000 * 1.03 = 42230, freight 2.5 m3 * 1500 = 3750, collateral 422
    assert_eq!(list[0].src_buy_price, 41000);
    assert_eq!(list[0].expenses, 42230 + 3750 + 422);
    // destination price: min(80000, mean daily high 71000); after 7%
    assert_eq!(list[0].dest_min_sell_price, 71000);
    assert_eq!(list[0].sell_price, 66030);
    // three days of the destination's daily volume 20, within the 60 offered
    assert_eq!(list[0].recommend_buy, 60);
}

#[test]
fn filters_drop_weak_items() {
    let mut cfg = config();
    cfg.margin_cutoff = 20000;
    let it = item(8, Some(10), vec![order(false, 5000, 10)], flat_history(5, 6000, 4), vec![], flat_history(5, 9000, 4));
    assert!(get_good_items_sell_sell(vec![it.clone()], &cfg, false).is_empty());
    assert_eq!(get_good_items_sell_sell(vec![it], &cfg, true).len(), 1);
}

#[test]
fn items_without_unit_volume_are_dropped() {
    let it = item(9, None, vec![order(false, 10000, 10)], vec![], vec![order(true, 15000, 5)], vec![]);
    assert!(evaluate_sell_buy(&it, &config()).is_none());
    assert!(get_good_items_sell_buy(vec![it], &config(), false).items.is_empty());
}

#[test]
fn results_are_sorted_and_truncated() {
    let mk = |id: i32, price: u64| {
        item(id, Some(10), vec![order(false, price, 10)], flat_history(5, 10000, 10), vec![], flat_history(5, 20000, 10))
    };
    let mut cfg = config();
    cfg.items_take = 2;
    let list = get_good_items_sell_sell(vec![mk(1, 15000), mk(2, 5000), mk(3, 10000)], &cfg, false);
    assert_eq!(list.len(), 2);
    assert_eq!(list[0].type_id, 2);
    assert_eq!(list[1].type_id, 3);
}

#[test]
fn loss_weighted_keeps_lost_items() {
    let mk = |id: i32| item(id, Some(10), vec![order(false, 5000, 10)], flat_history(5, 10000, 10), vec![], flat_history(5, 20000, 10));
    let mut cfg = config();
    cfg.min_loss_count = 3;
    let list = get_good_items_sell_sell_zkb(vec![mk(1), mk(2)], vec![(2, 2), (1, 1), (2, 1)], &cfg, false);
    assert_eq!(list.len(), 1);
    assert_eq!(list[0].type_id, 2);
}

#[test]
fn reruns_give_the_same_list() {
    let items = || {
        (1..6)
            .map(|id| item(id, Some(10), vec![order(false, 5000, 10)], flat_history(5, 10000, 10), vec![], flat_history(5, 20000, 10)))
            .collect::<Vec<_>>()
    };
    let a = get_good_items_sell_sell(items(), &config(), false);
    let b = get_good_items_sell_sell(items(), &config(), false);
    assert_eq!(a, b);
    let c = get_good_items_sell_buy(two_flip_items(), &config(), false);
    let d = get_good_items_sell_buy(two_flip_items(), &config(), false);
    assert_eq!(c.items, d.items);
}

fn claims(sub: &str) -> CharacterInfo {
    CharacterInfo {
        scp: vec![],
        jti: String::new(),
        kid: String::new(),
        sub: sub.to_string(),
        azp: String::new(),
        tenant: "tranquility".to_string(),
        tier: "live".to_string(),
    }
}

#[test]
fn character_id_from_subject() {
    assert_eq!(claims("CHARACTER:EVE:2112625428").character_id(), Some(2112625428));
    assert_eq!(claims("CHARACTER:EVE:-7:x").character_id(), Some(-7));
    assert_eq!(claims("CHARACTER:EVE").character_id(), None);
    assert_eq!(claims("CHARACTER:EVE:").character_id(), None);
    assert_eq!(claims("CHARACTER:EVE:12a").character_id(), None);
    assert_eq!(claims("CHARACTER:EVE:3000000000").character_id(), None);
    assert_eq!(claims("CHARACTER:EVE:-2147483648").character_id(), Some(-2147483648));
}

#[test]
fn markets_join_by_item_id() {
    let source = vec![34, 35, 36, 37];
    let destination = vec![36, 34, 99, 34];
    assert_eq!(pair_markets(&source, &destination), vec![(0, 1), (2, 0)]);
    assert!(pair_markets(&source, &Vec::new()).is_empty());
}

#[test]
fn item_history_is_filled_in_place() {
    let mut it = ItemType { id: 34, history: vec![day(5, 2000, 3, 4)] };
    it.fill_gaps(7);
    assert_eq!(it.id, 34);
    assert_eq!(it.history.len(), 3);
    assert_eq!(it.history[0], day(5, 2000, 3, 4));
    assert_eq!(it.history[2].date, 7);
    assert_eq!(it.history[2].average, 2000);
    assert_eq!(it.history[2].volume, 0);
}
