use crate::ranking::{rank_desc, stable_rank_desc};
use crate::market::MAX_PRICE;
use vstd::prelude::*;

verus! {

/// Market statistics of one item on one calendar day.
#[derive(Clone, Copy, Debug, PartialEq, Eq)]
pub struct DailyStat {
    /// Day number (days from the common era, as `chrono` counts them).
    pub date: i32,
    /// Average price, in cents.
    pub average: u64,
    pub highest: u64,
    pub lowest: u64,
    pub order_count: u64,
    pub volume: u64,
}

/// The daily history of one item in one market.
#[derive(Debug)]
pub struct ItemType {
    pub id: i32,
    pub history: Vec<DailyStat>,
}

/// Statistics over the most recent days of a history.
#[derive(Clone, Copy, Debug, PartialEq, Eq)]
pub struct WindowStats {
    /// Number of days the window holds (at least one).
    pub days: u64,
    /// Mean of the daily averages, rounded down.
    pub average: u64,
    /// Mean of the daily highs, rounded down.
    pub highest: u64,
    /// Mean of the daily lows, rounded down.
    pub lowest: u64,
    /// Median of the daily order counts.
    pub order_count: u64,
    /// Total volume traded over the window; the daily volume is
    /// `volume_total / days`.
    pub volume_total: u64,
}

/// A field of `DailyStat`.
#[derive(Clone, Copy, Debug, PartialEq, Eq)]
pub enum Column {
    Average,
    Highest,
    Lowest,
    OrderCount,
    Volume,
}

impl Column {
    pub open spec fn of(self, e: DailyStat) -> u64 {
        match self {
            Column::Average => e.average,
            Column::Highest => e.highest,
            Column::Lowest => e.lowest,
            Column::OrderCount => e.order_count,
            Column::Volume => e.volume,
        }
    }

    fn get(&self, e: &DailyStat) -> (r: u64)
        ensures
            r == self.of(*e),
    {
        match self {
            Column::Average => e.average,
            Column::Highest => e.highest,
            Column::Lowest => e.lowest,
            Column::OrderCount => e.order_count,
            Column::Volume => e.volume,
        }
    }
}

pub open spec fn column(s: Seq<DailyStat>, c: Column) -> Seq<u64> {
    s.map_values(|e: DailyStat| c.of(e))
}

pub open spec fn vals_sum(s: Seq<u64>) -> int
    decreases s.len(),
{
    if s.len() == 0 {
        0
    } else {
        vals_sum(s.drop_last()) + s.last() as int
    }
}

pub open spec fn mean_of(s: Seq<u64>) -> int {
    vals_sum(s) / (s.len() as int)
}

pub open spec fn as_keys(s: Seq<u64>) -> Seq<i128> {
    s.map_values(|v: u64| v as i128)
}

/// The median: the middle value of the sorted values, or the mean (rounded
/// down) of the two middle ones when their number is even.
pub open spec fn median_of(s: Seq<u64>) -> int {
    let t = stable_rank_desc(as_keys(s));
    let k = s.len() as int;
    if k % 2 == 1 {
        s[t[k / 2] as int] as int
    } else {
        (s[t[k / 2 - 1] as int] + s[t[k / 2] as int]) / 2
    }
}

/// The most recent `w` entries of a history in ascending date order.
pub open spec fn window(h: Seq<DailyStat>, w: int) -> Seq<DailyStat> {
    if w >= h.len() {
        h
    } else {
        h.subrange(h.len() - w, h.len() as int)
    }
}

pub open spec fn stats_of(win: Seq<DailyStat>) -> WindowStats {
    WindowStats {
        days: win.len() as u64,
        average: mean_of(column(win, Column::Average)) as u64,
        highest: mean_of(column(win, Column::Highest)) as u64,
        lowest: mean_of(column(win, Column::Lowest)) as u64,
        order_count: median_of(column(win, Column::OrderCount)) as u64,
        volume_total: vals_sum(column(win, Column::Volume)) as u64,
    }
}

/// Statistics of the last `w` days of `h`, none for an empty window.
pub open spec fn window_stats_of(h: Seq<DailyStat>, w: int) -> Option<WindowStats> {
    if h.len() == 0 || w <= 0 {
        None
    } else {
        Some(stats_of(window(h, w)))
    }
}

pub open spec fn history_wf(h: Seq<DailyStat>) -> bool {
    forall|i: int|
        0 <= i < h.len() ==> (#[trigger] h[i]).average <= MAX_PRICE && h[i].highest <= MAX_PRICE
            && h[i].lowest <= MAX_PRICE
}

pub open spec fn all_at_most(s: Seq<u64>, m: int) -> bool {
    forall|i: int| 0 <= i < s.len() ==> s[i] <= m
}

pub proof fn lemma_vals_sum_at_most(s: Seq<u64>, m: int)
    requires
        all_at_most(s, m),
        m >= 0,
    ensures
        vals_sum(s) <= s.len() * m,
    decreases s.len(),
{
    if s.len() > 0 {
        lemma_vals_sum_at_most(s.drop_last(), m);
        assert(s.len() * m == (s.len() - 1) * m + m) by (nonlinear_arith);
    }
}

pub proof fn lemma_mean_at_most(s: Seq<u64>, m: int)
    requires
        all_at_most(s, m),
        m >= 0,
        s.len() > 0,
    ensures
        0 <= mean_of(s) <= m,
{
    lemma_vals_sum_at_most(s, m);
    lemma_vals_sum_bounds(s);
    let t = vals_sum(s);
    let n = s.len() as int;
    assert(t / n <= m) by (nonlinear_arith)
        requires t <= n * m, n > 0, t >= 0;
    assert(t / n >= 0) by (nonlinear_arith)
        requires n > 0, t >= 0;
}

/// Price statistics of a window of a well-formed history stay in range.
pub open spec fn stats_wf(s: WindowStats) -> bool {
    &&& s.days > 0
    &&& s.average <= MAX_PRICE
    &&& s.highest <= MAX_PRICE
    &&& s.lowest <= MAX_PRICE
}

pub proof fn lemma_window_stats_wf(h: Seq<DailyStat>, w: int)
    requires
        history_wf(h),
        0 < h.len() <= usize::MAX,
        w > 0,
    ensures
        stats_wf(stats_of(window(h, w))),
        stats_of(window(h, w)).days == window(h, w).len(),
{
    let win = window(h, w);
    assert(0 < win.len() <= h.len());
    assert forall|c: Column| c != Column::OrderCount && c != Column::Volume implies all_at_most(
        #[trigger] column(win, c),
        MAX_PRICE as int,
    ) by {
        assert forall|i: int| 0 <= i < column(win, c).len() implies column(win, c)[i] <= MAX_PRICE by {
            let k = if w >= h.len() { i } else { h.len() - w + i };
            assert(win[i] == h[k]);
        }
    }
    lemma_mean_at_most(column(win, Column::Average), MAX_PRICE as int);
    lemma_mean_at_most(column(win, Column::Highest), MAX_PRICE as int);
    lemma_mean_at_most(column(win, Column::Lowest), MAX_PRICE as int);
}

pub open spec fn sorted_by_date(h: Seq<DailyStat>) -> bool {
    forall|i: int, j: int| 0 <= i < j < h.len() ==> h[i].date < h[j].date
}

/// One entry per day, without gaps.
pub open spec fn consecutive_days(h: Seq<DailyStat>) -> bool {
    forall|i: int| 0 <= i < h.len() ==> (#[trigger] h[i]).date == h[0].date + i
}

pub open spec fn window_volume_fits(h: Seq<DailyStat>, w: int) -> bool {
    vals_sum(column(window(h, w), Column::Volume)) <= u64::MAX
}

pub proof fn lemma_vals_sum_bounds(s: Seq<u64>)
    ensures
        0 <= vals_sum(s) <= s.len() * (u64::MAX as int),
    decreases s.len(),
{
    if s.len() > 0 {
        lemma_vals_sum_bounds(s.drop_last());
    }
}

fn column_values(h: &Vec<DailyStat>, start: usize, c: Column) -> (r: Vec<u64>)
    requires
        start <= h@.len(),
    ensures
        r@ == column(h@.subrange(start as int, h@.len() as int), c),
{
    let mut r: Vec<u64> = Vec::new();
    let mut i: usize = start;
    while i < h.len()
        invariant
            start <= i <= h@.len(),
            r@ == column(h@.subrange(start as int, i as int), c),
        decreases h@.len() - i,
    {
        let v = c.get(&h[i]);
        r.push(v);
        i = i + 1;
        assert(r@ =~= column(h@.subrange(start as int, i as int), c));
    }
    r
}

fn sum_values(vals: &Vec<u64>) -> (r: u128)
    ensures
        r == vals_sum(vals@),
{
    let mut acc: u128 = 0;
    let mut i: usize = 0;
    while i < vals.len()
        invariant
            i <= vals@.len(),
            acc == vals_sum(vals@.take(i as int)),
        decreases vals@.len() - i,
    {
        proof {
            assert(vals@.take(i + 1).drop_last() == vals@.take(i as int));
            lemma_vals_sum_bounds(vals@.take(i as int));
            assert(i * (u64::MAX as int) + u64::MAX <= u128::MAX) by (nonlinear_arith)
                requires i <= usize::MAX;
        }
        acc = acc + vals[i] as u128;
        i = i + 1;
    }
    assert(vals@.take(vals@.len() as int) == vals@);
    acc
}

/// Arithmetic mean, rounded down.
pub fn mean(vals: &Vec<u64>) -> (r: u64)
    requires
        vals@.len() > 0,
    ensures
        r == mean_of(vals@),
{
    let s = sum_values(vals);
    proof {
        lemma_vals_sum_bounds(vals@);
        let n = vals@.len() as int;
        let t = vals_sum(vals@);
        assert(t / n <= u64::MAX) by (nonlinear_arith)
            requires 0 <= t <= n * (u64::MAX as int), n > 0;
        assert(t / n >= 0) by (nonlinear_arith)
            requires 0 <= t, n > 0;
    }
    (s / (vals.len() as u128)) as u64
}

/// Median of the values: see `median_of`.
pub fn median(vals: &Vec<u64>) -> (r: u64)
    requires
        vals@.len() > 0,
    ensures
        r == median_of(vals@),
{
    let mut keys: Vec<i128> = Vec::new();
    let mut i: usize = 0;
    while i < vals.len()
        invariant
            i <= vals@.len(),
            keys@ == as_keys(vals@.take(i as int)),
        decreases vals@.len() - i,
    {
        keys.push(vals[i] as i128);
        i = i + 1;
        assert(keys@ =~= as_keys(vals@.take(i as int)));
    }
    assert(vals@.take(vals@.len() as int) == vals@);
    let t = rank_desc(&keys);
    let k = vals.len();
    assert(t@[(k / 2) as int] < k);
    if k % 2 == 1 {
        vals[t[k / 2]]
    } else {
        assert(t@[(k / 2 - 1) as int] < k);
        let a = vals[t[k / 2 - 1]] as u128;
        let b = vals[t[k / 2]] as u128;
        ((a + b) / 2) as u64
    }
}

/// Statistics over the most recent `window_days` entries of a history kept
/// in ascending date order; none when the history or the window is empty.
pub fn compute_window_stats(history: &Vec<DailyStat>, window_days: usize) -> (r: Option<WindowStats>)
    requires
        window_volume_fits(history@, window_days as int),
    ensures
        r == window_stats_of(history@, window_days as int),
        r matches Some(s) ==> s.days <= history@.len() && s.days <= window_days && s.days > 0,
        r matches Some(s) ==> history_wf(history@) ==> stats_wf(s),
{
    proof {
        if history@.len() > 0 && window_days > 0 && history_wf(history@) {
            assert(history@.len() == history.len());
            lemma_window_stats_wf(history@, window_days as int);
        }
    }
    let n = history.len();
    if n == 0 || window_days == 0 {
        return None;
    }
    let start: usize = if window_days >= n { 0 } else { n - window_days };
    let ghost win = window(history@, window_days as int);
    assert(history@.subrange(start as int, n as int) == win);
    let averages = column_values(history, start, Column::Average);
    let highs = column_values(history, start, Column::Highest);
    let lows = column_values(history, start, Column::Lowest);
    let counts = column_values(history, start, Column::OrderCount);
    let volumes = column_values(history, start, Column::Volume);
    let total = sum_values(&volumes);
    Some(WindowStats {
        days: (n - start) as u64,
        average: mean(&averages),
        highest: mean(&highs),
        lowest: mean(&lows),
        order_count: median(&counts),
        volume_total: total as u64,
    })
}

/// Within a history with one entry per day, the window holds at most
/// `w` entries, no more than the history, all dated within the last `w` days.
pub proof fn lemma_window_recent(h: Seq<DailyStat>, w: int)
    requires
        h.len() > 0,
        w > 0,
        consecutive_days(h),
    ensures
        window(h, w).len() <= h.len(),
        window(h, w).len() <= w,
        forall|i: int|
            0 <= i < window(h, w).len() ==> #[trigger] window(h, w)[i].date > h.last().date - w
                && window(h, w)[i].date <= h.last().date,
{
    assert forall|i: int| 0 <= i < window(h, w).len() implies #[trigger] window(h, w)[i].date
        > h.last().date - w && window(h, w)[i].date <= h.last().date by {
        let k = if w >= h.len() { i } else { h.len() - w + i };
        assert(window(h, w)[i] == h[k]);
        assert(h[k].date == h[0].date + k);
        assert(h[h.len() - 1].date == h[0].date + h.len() - 1);
    }
}

/// Price used for a day without data when nothing at all is known: 1 ISK.
pub const DEFAULT_PRICE: u64 = 100;

pub open spec fn has_date(h: Seq<DailyStat>, d: int) -> bool {
    exists|j: int| 0 <= j < h.len() && #[trigger] h[j].date == d
}

/// The entry put in for a day without trading: the medians of the known
/// prices, with no orders and no volume.
pub open spec fn filler(h: Seq<DailyStat>, d: int) -> DailyStat {
    DailyStat {
        date: d as i32,
        average: median_of(column(h, Column::Average)) as u64,
        highest: median_of(column(h, Column::Highest)) as u64,
        lowest: median_of(column(h, Column::Lowest)) as u64,
        order_count: 0,
        volume: 0,
    }
}

/// The history completed with one entry for each day from its first date
/// through `today`; a single default entry dated `today` for an empty one.
pub open spec fn is_gap_filled(h: Seq<DailyStat>, today: int, r: Seq<DailyStat>) -> bool {
    if h.len() == 0 {
        r == seq![
            DailyStat {
                date: today as i32,
                average: DEFAULT_PRICE,
                highest: DEFAULT_PRICE,
                lowest: DEFAULT_PRICE,
                order_count: 0,
                volume: 0,
            },
        ]
    } else {
        &&& r.len() == today - h[0].date + 1
        &&& forall|i: int| 0 <= i < r.len() ==> (#[trigger] r[i]).date == h[0].date + i
        &&& forall|j: int| 0 <= j < h.len() ==> r[#[trigger] h[j].date - h[0].date] == h[j]
        &&& forall|i: int|
            0 <= i < r.len() && !has_date(h, h[0].date + i) ==> #[trigger] r[i] == filler(
                h,
                h[0].date + i,
            )
    }
}

/// A gap-filled history has one entry for each day from the first known
/// date through `today`, in order, without duplicates or gaps.
pub proof fn lemma_gap_filled_days(h: Seq<DailyStat>, today: int, r: Seq<DailyStat>)
    requires
        is_gap_filled(h, today, r),
        h.len() > 0,
        h.last().date <= today,
        sorted_by_date(h),
    ensures
        consecutive_days(r),
        sorted_by_date(r),
        r.len() > 0,
        r[0].date == h[0].date,
        r.last().date == today,
{
    assert(h[h.len() - 1].date >= h[0].date);
    assert(r[0].date == h[0].date + 0);
}

/// Fills every missing calendar day between the earliest recorded date and
/// `today` with a synthetic entry (see `filler`).
pub fn fill_history_gaps(history: &Vec<DailyStat>, today: i32) -> (r: Vec<DailyStat>)
    requires
        sorted_by_date(history@),
        history@.len() > 0 ==> history@.last().date <= today,
    ensures
        is_gap_filled(history@, today as int, r@),
{
    let n = history.len();
    if n == 0 {
        let e = DailyStat {
            date: today,
            average: DEFAULT_PRICE,
            highest: DEFAULT_PRICE,
            lowest: DEFAULT_PRICE,
            order_count: 0,
            volume: 0,
        };
        let r = vec![e];
        assert(r@ =~= seq![e]);
        return r;
    }
    let avg = median(&column_values(history, 0, Column::Average));
    let high = median(&column_values(history, 0, Column::Highest));
    let low = median(&column_values(history, 0, Column::Lowest));
    assert(history@.subrange(0, n as int) == history@);
    let ghost h = history@;
    let first = history[0].date;
    let mut r: Vec<DailyStat> = Vec::new();
    let mut j: usize = 0;
    let mut d: i64 = first as i64;
    while d <= today as i64
        invariant
            h == history@,
            n == h.len() > 0,
            first == h[0].date,
            sorted_by_date(h),
            h.last().date <= today,
            avg == median_of(column(h, Column::Average)),
            high == median_of(column(h, Column::Highest)),
            low == median_of(column(h, Column::Lowest)),
            first <= d <= today + 1,
            j <= n,
            r@.len() == d - first,
            forall|i: int| 0 <= i < r@.len() ==> (#[trigger] r@[i]).date == first + i,
            forall|k: int| 0 <= k < j ==> r@[#[trigger] h[k].date - first] == h[k],
            forall|k: int| 0 <= k < j ==> #[trigger] h[k].date < d,
            j < n ==> h[j as int].date >= d,
            forall|i: int|
                0 <= i < r@.len() && !has_date(h, first + i) ==> #[trigger] r@[i] == filler(
                    h,
                    first + i,
                ),
        decreases today as int + 1 - d as int,
    {
        if j < n && history[j].date as i64 == d {
            r.push(history[j]);
            proof {
                if j + 1 < n {
                    assert(h[j + 1].date > h[j as int].date);
                }
                assert forall|i: int|
                    0 <= i < r@.len() && !has_date(h, first + i) implies #[trigger] r@[i] == filler(
                    h,
                    first + i,
                ) by {
                    if i == r@.len() - 1 {
                        assert(h[j as int].date == first + i);
                    }
                }
            }
            j = j + 1;
        } else {
            let e = DailyStat { date: d as i32, average: avg, highest: high, lowest: low, order_count: 0, volume: 0 };
            proof {
                assert forall|k: int| 0 <= k < n implies #[trigger] h[k].date != d by {
                    if k < j {
                    } else if k > j {
                        assert(h[k].date > h[j as int].date);
                    }
                }
            }
            r.push(e);
        }
        d = d + 1;
    }
    proof {
        if j < n {
            assert(h[n - 1].date >= h[j as int].date);
        }
    }
    r
}

impl ItemType {
    /// Completes the history with one entry per day through `today` (see
    /// `fill_history_gaps`).
    pub fn fill_gaps(&mut self, today: i32)
        requires
            sorted_by_date(old(self).history@),
            old(self).history@.len() > 0 ==> old(self).history@.last().date <= today,
        ensures
            final(self).id == old(self).id,
            is_gap_filled(old(self).history@, today as int, final(self).history@),
    {
        let filled = fill_history_gaps(&self.history, today);
        self.history = filled;
    }
}

} // verus!
