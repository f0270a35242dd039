use crate::economics::margin_of;
use crate::market::MAX_UNIT_VOLUME;
use crate::sell_buy::{sell_buy_consistent, PairCalculatedDataSellBuy};
use good_lp::{microlp, variable, Expression, ProblemVariables, Solution, SolverModel, Variable};
use vstd::prelude::*;

verus! {

/// The selection made under a cargo budget.
#[derive(Debug)]
pub struct ProcessedSellBuyItems {
    /// The candidates taken, in candidate order, each with the volume taken.
    pub items: Vec<PairCalculatedDataSellBuy>,
    /// Sum over the items of `(sell_price - expenses)` times the volume taken.
    pub sum_profit: i128,
    /// Cargo the items take, in litres.
    pub sum_volume: u64,
}

/// Largest magnitude a running profit total may reach.
pub const PROFIT_LIMIT: i128 = 0x4000_0000_0000_0000_0000_0000_0000_0000;

pub open spec fn unit_gain(r: PairCalculatedDataSellBuy) -> int {
    r.sell_price - r.expenses
}

/// Cargo taken by the first `n` candidates at the volumes `vs`.
pub open spec fn volume_upto(c: Seq<PairCalculatedDataSellBuy>, vs: Seq<int>, n: int) -> int
    decreases n,
{
    if n <= 0 {
        0
    } else {
        volume_upto(c, vs, n - 1) + c[n - 1].unit_volume * vs[n - 1]
    }
}

/// Profit of the first `n` candidates at the volumes `vs`.
pub open spec fn profit_upto(c: Seq<PairCalculatedDataSellBuy>, vs: Seq<int>, n: int) -> int
    decreases n,
{
    if n <= 0 {
        0
    } else {
        profit_upto(c, vs, n - 1) + unit_gain(c[n - 1]) * vs[n - 1]
    }
}

/// The first `n` candidates with a positive volume, carrying that volume.
pub open spec fn chosen_upto(c: Seq<PairCalculatedDataSellBuy>, vs: Seq<int>, n: int) -> Seq<PairCalculatedDataSellBuy>
    decreases n,
{
    if n <= 0 {
        Seq::empty()
    } else {
        let sub = chosen_upto(c, vs, n - 1);
        if vs[n - 1] > 0 {
            sub.push(PairCalculatedDataSellBuy { recommend_buy: vs[n - 1] as u64, ..c[n - 1] })
        } else {
            sub
        }
    }
}

pub open spec fn profit_fits(c: Seq<PairCalculatedDataSellBuy>, vs: Seq<int>) -> bool {
    forall|k: int| 0 <= k <= c.len() ==> -PROFIT_LIMIT <= #[trigger] profit_upto(c, vs, k) <= PROFIT_LIMIT
}

/// Volumes `vs` are within each candidate's bound, the cargo fits the
/// capacity and the profit totals stay representable.
pub open spec fn feasible(c: Seq<PairCalculatedDataSellBuy>, vs: Seq<int>, capacity: int) -> bool {
    &&& vs.len() == c.len()
    &&& forall|i: int| 0 <= i < c.len() ==> 0 <= #[trigger] vs[i] <= c[i].recommend_buy
    &&& volume_upto(c, vs, c.len() as int) <= capacity
    &&& profit_fits(c, vs)
}

/// `r` is the selection that the volumes `vs` describe, or the empty
/// selection when they are not feasible.
pub open spec fn is_selection(
    r: ProcessedSellBuyItems,
    c: Seq<PairCalculatedDataSellBuy>,
    vs: Seq<int>,
    capacity: int,
) -> bool {
    if feasible(c, vs, capacity) {
        &&& r.items@ == chosen_upto(c, vs, c.len() as int)
        &&& r.sum_profit == profit_upto(c, vs, c.len() as int)
        &&& r.sum_volume == volume_upto(c, vs, c.len() as int)
    } else {
        &&& r.items@.len() == 0
        &&& r.sum_profit == 0
        &&& r.sum_volume == 0
    }
}

pub open spec fn as_volumes(v: Seq<u64>) -> Seq<int> {
    v.map_values(|x: u64| x as int)
}

/// The candidates' own volumes.
pub open spec fn bounds_of(c: Seq<PairCalculatedDataSellBuy>) -> Seq<int> {
    c.map_values(|r: PairCalculatedDataSellBuy| r.recommend_buy as int)
}

pub open spec fn candidates_wf(c: Seq<PairCalculatedDataSellBuy>) -> bool {
    forall|i: int| 0 <= i < c.len() ==> sell_buy_consistent(#[trigger] c[i])
}

proof fn lemma_volume_monotone(c: Seq<PairCalculatedDataSellBuy>, vs: Seq<int>, k: int, n: int)
    requires
        0 <= k <= n <= c.len() == vs.len(),
        forall|i: int| 0 <= i < c.len() ==> 0 <= #[trigger] vs[i],
    ensures
        volume_upto(c, vs, k) <= volume_upto(c, vs, n),
    decreases n - k,
{
    if k < n {
        lemma_volume_monotone(c, vs, k, n - 1);
        assert(c[n - 1].unit_volume * vs[n - 1] >= 0) by (nonlinear_arith)
            requires vs[n - 1] >= 0;
    }
}

fn empty_selection() -> (r: ProcessedSellBuyItems)
    ensures
        r.items@.len() == 0,
        r.sum_profit == 0,
        r.sum_volume == 0,
{
    ProcessedSellBuyItems { items: Vec::new(), sum_profit: 0, sum_volume: 0 }
}

fn checked_selection(candidates: &Vec<PairCalculatedDataSellBuy>, volumes: &Vec<u64>, capacity: u64) -> (r: Option<
    ProcessedSellBuyItems,
>)
    requires
        candidates_wf(candidates@),
    ensures
        r is Some <==> feasible(candidates@, as_volumes(volumes@), capacity as int),
        r matches Some(s) ==> is_selection(s, candidates@, as_volumes(volumes@), capacity as int),
{
    let ghost c = candidates@;
    let ghost vs = as_volumes(volumes@);
    let n = candidates.len();
    if volumes.len() != n {
        return None;
    }
    let mut i: usize = 0;
    while i < n
        invariant
            n == c.len() == vs.len(),
            c == candidates@,
            vs == as_volumes(volumes@),
            i <= n,
            forall|k: int| 0 <= k < i ==> 0 <= #[trigger] vs[k] <= c[k].recommend_buy,
        decreases n - i,
    {
        if volumes[i] > candidates[i].recommend_buy {
            assert(vs[i as int] > c[i as int].recommend_buy);
            return None;
        }
        i = i + 1;
    }
    let mut items: Vec<PairCalculatedDataSellBuy> = Vec::new();
    let mut volume: u128 = 0;
    let mut profit: i128 = 0;
    let mut j: usize = 0;
    while j < n
        invariant
            n == c.len() == vs.len(),
            c == candidates@,
            vs == as_volumes(volumes@),
            candidates_wf(c),
            j <= n,
            forall|k: int| 0 <= k < n ==> 0 <= #[trigger] vs[k] <= c[k].recommend_buy,
            volume == volume_upto(c, vs, j as int),
            volume <= capacity,
            profit == profit_upto(c, vs, j as int),
            forall|k: int| 0 <= k <= j ==> -PROFIT_LIMIT <= #[trigger] profit_upto(c, vs, k) <= PROFIT_LIMIT,
            items@ == chosen_upto(c, vs, j as int),
        decreases n - j,
    {
        let rec = candidates[j];
        let v = volumes[j];
        assert(sell_buy_consistent(c[j as int]));
        proof {
            assert(rec.unit_volume * v <= MAX_UNIT_VOLUME * u64::MAX) by (nonlinear_arith)
                requires rec.unit_volume <= MAX_UNIT_VOLUME, v <= u64::MAX;
            let g = unit_gain(rec);
            assert(-0x40_0000_0000_0000 <= g <= 0x40_0000_0000_0000);
            assert(g * v <= 0x40_0000_0000_0000 * u64::MAX && g * v >= -0x40_0000_0000_0000 * u64::MAX)
                by (nonlinear_arith)
                requires -0x40_0000_0000_0000 <= g <= 0x40_0000_0000_0000, 0 <= v <= u64::MAX;
        }
        volume = volume + (rec.unit_volume as u128) * (v as u128);
        if volume > capacity as u128 {
            proof {
                lemma_volume_monotone(c, vs, j + 1, n as int);
            }
            return None;
        }
        profit = profit + (rec.sell_price as i128 - rec.expenses as i128) * (v as i128);
        if profit > PROFIT_LIMIT || profit < -PROFIT_LIMIT {
            assert(profit_upto(c, vs, j + 1) == profit);
            return None;
        }
        if v > 0 {
            items.push(PairCalculatedDataSellBuy { recommend_buy: v, ..rec });
        }
        j = j + 1;
    }
    Some(ProcessedSellBuyItems { items, sum_profit: profit, sum_volume: volume as u64 })
}

/// The selection that the volumes `volumes` describe (one per candidate):
/// the candidates with a positive volume, carrying it, with the totals; the
/// empty selection when the volumes are not feasible.
pub fn apply_solution(candidates: &Vec<PairCalculatedDataSellBuy>, volumes: &Vec<u64>, capacity: u64) -> (r:
    ProcessedSellBuyItems)
    requires
        candidates_wf(candidates@),
    ensures
        is_selection(r, candidates@, as_volumes(volumes@), capacity as int),
{
    match checked_selection(candidates, volumes, capacity) {
        Some(s) => s,
        None => empty_selection(),
    }
}

/// What the solver returns for a problem (see `solve_knapsack`).
pub uninterp spec fn knapsack_of(bounds: Seq<i32>, weights: Seq<i32>, sizes: Seq<i32>, capacity: i32) -> Option<Seq<u64>>;

/// Relies on the `good_lp` crate with its `microlp` solver: maximises
/// `sum(weights[i] * x[i])` over integers `x[i]` in `0..=bounds[i]` under
/// `sum(sizes[i] * x[i]) <= capacity`, and reads back one value per
/// variable (rounded toward zero, negative values to 0); none when the
/// solver reports an error. No time limit is set, so the outcome depends
/// on the arguments alone.
#[verifier::external_body]
fn solve_knapsack(bounds: &Vec<i32>, weights: &Vec<i32>, sizes: &Vec<i32>, capacity: i32) -> (r: Option<Vec<u64>>)
    ensures
        r matches Some(v) ==> knapsack_of(bounds@, weights@, sizes@, capacity) == Some(v@),
        r is None ==> knapsack_of(bounds@, weights@, sizes@, capacity) is None,
        r matches Some(v) ==> v@.len() == bounds@.len(),
{
    let mut vars = ProblemVariables::new();
    let xs: Vec<Variable> = bounds.iter().map(|b| vars.add(variable().integer().min(0).max(*b))).collect();
    let goal: Expression = xs.iter().zip(weights).map(|(x, w)| *x * *w).sum();
    let space: Expression = xs.iter().zip(sizes).map(|(x, s)| *x * *s).sum();
    let solution = vars.maximise(goal).using(microlp).with(space.leq(capacity)).solve().ok()?;
    Some(xs.iter().map(|x| solution.value(*x) as u64).collect())
}

/// `x` is the candidate `y` with a positive volume no larger than its own.
pub open spec fn derived_from(x: PairCalculatedDataSellBuy, y: PairCalculatedDataSellBuy) -> bool {
    &&& x == (PairCalculatedDataSellBuy { recommend_buy: x.recommend_buy, ..y })
    &&& 0 < x.recommend_buy <= y.recommend_buy
}

/// `x` comes from one of the first `n` candidates.
pub open spec fn sourced(x: PairCalculatedDataSellBuy, c: Seq<PairCalculatedDataSellBuy>, n: int) -> bool {
    exists|i: int| 0 <= i < n && #[trigger] derived_from(x, c[i])
}

proof fn lemma_chosen_upto(c: Seq<PairCalculatedDataSellBuy>, vs: Seq<int>, n: int)
    requires
        0 <= n <= c.len() == vs.len(),
        forall|i: int| 0 <= i < c.len() ==> 0 <= #[trigger] vs[i] <= c[i].recommend_buy,
    ensures
        forall|j: int|
            0 <= j < chosen_upto(c, vs, n).len() ==> sourced(#[trigger] chosen_upto(c, vs, n)[j], c, n),
    decreases n,
{
    if n > 0 {
        lemma_chosen_upto(c, vs, n - 1);
        let sub = chosen_upto(c, vs, n - 1);
        let cur = chosen_upto(c, vs, n);
        assert forall|j: int| 0 <= j < cur.len() implies sourced(#[trigger] cur[j], c, n) by {
            if j < sub.len() {
                assert(cur[j] == sub[j]);
                assert(sourced(sub[j], c, n - 1));
                let i = choose|i: int| 0 <= i < n - 1 && #[trigger] derived_from(sub[j], c[i]);
                assert(derived_from(cur[j], c[i]));
            } else {
                assert(vs[n - 1] > 0);
                assert(cur[j] == (PairCalculatedDataSellBuy { recommend_buy: vs[n - 1] as u64, ..c[n - 1] }));
                assert(derived_from(cur[j], c[n - 1]));
            }
        }
    }
}

/// Every selection fits the capacity, and each item of it is one of the
/// candidates with a volume no larger than the candidate's own, its margin
/// still agreeing with its price and cost.
pub proof fn lemma_selection_bounds(
    r: ProcessedSellBuyItems,
    c: Seq<PairCalculatedDataSellBuy>,
    vs: Seq<int>,
    capacity: int,
)
    requires
        is_selection(r, c, vs, capacity),
        candidates_wf(c),
        capacity >= 0,
    ensures
        r.sum_volume <= capacity,
        forall|j: int| 0 <= j < r.items@.len() ==> sourced(#[trigger] r.items@[j], c, c.len() as int),
        forall|j: int|
            0 <= j < r.items@.len() ==> (#[trigger] r.items@[j]).expenses > 0 && r.items@[j].margin
                == margin_of(r.items@[j].sell_price as int, r.items@[j].expenses as int),
{
    if feasible(c, vs, capacity) {
        lemma_chosen_upto(c, vs, c.len() as int);
        assert forall|j: int| 0 <= j < r.items@.len() implies (#[trigger] r.items@[j]).expenses > 0
            && r.items@[j].margin == margin_of(r.items@[j].sell_price as int, r.items@[j].expenses as int) by {
            assert(sourced(r.items@[j], c, c.len() as int));
            let i = choose|i: int| 0 <= i < c.len() && #[trigger] derived_from(r.items@[j], c[i]);
            assert(sell_buy_consistent(c[i]));
        }
    }
}

proof fn lemma_whole_upto(c: Seq<PairCalculatedDataSellBuy>, n: int)
    requires
        0 <= n <= c.len(),
        forall|i: int| 0 <= i < c.len() ==> (#[trigger] c[i]).recommend_buy > 0,
    ensures
        chosen_upto(c, bounds_of(c), n) == c.take(n),
    decreases n,
{
    if n > 0 {
        lemma_whole_upto(c, n - 1);
        assert(c.take(n) == c.take(n - 1).push(c[n - 1]));
        assert((PairCalculatedDataSellBuy { recommend_buy: c[n - 1].recommend_buy, ..c[n - 1] }) == c[n - 1]);
    }
}

/// When the whole candidate list is the selection, every candidate with a
/// volume is taken unchanged.
pub proof fn lemma_whole_selection(r: ProcessedSellBuyItems, c: Seq<PairCalculatedDataSellBuy>, capacity: int)
    requires
        is_selection(r, c, bounds_of(c), capacity),
        feasible(c, bounds_of(c), capacity),
        forall|i: int| 0 <= i < c.len() ==> (#[trigger] c[i]).recommend_buy > 0,
    ensures
        r.items@ == c,
{
    lemma_whole_upto(c, c.len() as int);
    assert(c.take(c.len() as int) == c);
}

pub open spec fn all_gain(c: Seq<PairCalculatedDataSellBuy>) -> bool {
    forall|i: int| 0 <= i < c.len() ==> unit_gain(#[trigger] c[i]) > 0
}

pub open spec fn zero_volumes(n: int) -> Seq<int> {
    Seq::new(n as nat, |i: int| 0int)
}

proof fn lemma_zero_volumes(c: Seq<PairCalculatedDataSellBuy>, n: int)
    requires
        0 <= n <= c.len(),
    ensures
        chosen_upto(c, zero_volumes(c.len() as int), n).len() == 0,
        profit_upto(c, zero_volumes(c.len() as int), n) == 0,
        volume_upto(c, zero_volumes(c.len() as int), n) == 0,
    decreases n,
{
    if n > 0 {
        lemma_zero_volumes(c, n - 1);
    }
}

/// `x` (not negative) capped at `i32::MAX`.
pub open spec fn clamp_of(x: int) -> i32 {
    if x > i32::MAX {
        i32::MAX
    } else {
        x as i32
    }
}

fn clamp_i32(x: u128) -> (r: i32)
    ensures
        r == clamp_of(x as int),
{
    if x > i32::MAX as u128 {
        i32::MAX
    } else {
        x as i32
    }
}

/// The largest per-unit gain, at least 0.
pub open spec fn max_gain_of(c: Seq<PairCalculatedDataSellBuy>) -> int
    decreases c.len(),
{
    if c.len() == 0 {
        0
    } else {
        let m = max_gain_of(c.drop_last());
        if unit_gain(c.last()) > m {
            unit_gain(c.last())
        } else {
            m
        }
    }
}

/// The largest unit volume, at least `capacity`.
pub open spec fn max_size_of(c: Seq<PairCalculatedDataSellBuy>, capacity: int) -> int
    decreases c.len(),
{
    if c.len() == 0 {
        capacity
    } else {
        let m = max_size_of(c.drop_last(), capacity);
        if c.last().unit_volume > m {
            c.last().unit_volume as int
        } else {
            m
        }
    }
}

/// Divisor that brings every gain within `i32`.
pub open spec fn gain_scale(c: Seq<PairCalculatedDataSellBuy>) -> int {
    max_gain_of(c) / (i32::MAX as int) + 1
}

/// Divisor that brings every unit volume and the capacity within `i32`.
pub open spec fn size_scale(c: Seq<PairCalculatedDataSellBuy>, capacity: int) -> int {
    max_size_of(c, capacity) / (i32::MAX as int) + 1
}

pub open spec fn solver_bound(r: PairCalculatedDataSellBuy) -> i32 {
    clamp_of(r.recommend_buy as int)
}

/// The objective weight of a candidate: its scaled gain, 0 for no gain.
pub open spec fn solver_weight(r: PairCalculatedDataSellBuy, gscale: int) -> i32 {
    if unit_gain(r) > 0 {
        clamp_of(unit_gain(r) / gscale)
    } else {
        0
    }
}

/// The cargo weight of a candidate: its scaled unit volume, rounded up.
pub open spec fn solver_size(r: PairCalculatedDataSellBuy, sscale: int) -> i32 {
    clamp_of((r.unit_volume + sscale - 1) / sscale)
}

/// What the solver gives for the scaled problem of the candidates.
pub open spec fn solver_volumes(c: Seq<PairCalculatedDataSellBuy>, capacity: int) -> Option<Seq<u64>> {
    let g = gain_scale(c);
    let s = size_scale(c, capacity);
    knapsack_of(
        c.map_values(|r: PairCalculatedDataSellBuy| solver_bound(r)),
        c.map_values(|r: PairCalculatedDataSellBuy| solver_weight(r, g)),
        c.map_values(|r: PairCalculatedDataSellBuy| solver_size(r, s)),
        clamp_of(capacity / s),
    )
}

/// The volumes the optimizer settles on: none for a capacity of 0, every
/// candidate whole when each gains and all fit, else the solver's answer,
/// scaled into `i32` (gains rounded down, unit volumes up, the capacity
/// down), or no feasible volumes when the solver fails.
pub open spec fn selection_volumes(c: Seq<PairCalculatedDataSellBuy>, capacity: int) -> Seq<int> {
    if capacity == 0 {
        zero_volumes(c.len() as int)
    } else if all_gain(c) && feasible(c, bounds_of(c), capacity) {
        bounds_of(c)
    } else {
        match solver_volumes(c, capacity) {
            Some(v) => as_volumes(v),
            None => zero_volumes(c.len() as int + 1),
        }
    }
}

/// Chooses, under the cargo capacity `max_cargo` (in litres), how much of
/// each candidate to take so that the profit is greatest: the selection of
/// `selection_volumes`. A capacity of 0 gives the empty selection; when
/// every candidate gains on each unit and all of them fit whole, all are
/// taken whole; otherwise an integer-programming solver decides, and a
/// solver failure, or volumes that break a bound or the capacity, give the
/// empty selection.
pub fn take_maximizing_profit(candidates: Vec<PairCalculatedDataSellBuy>, max_cargo: u64) -> (r:
    ProcessedSellBuyItems)
    requires
        candidates_wf(candidates@),
    ensures
        is_selection(r, candidates@, selection_volumes(candidates@, max_cargo as int), max_cargo as int),
        max_cargo == 0 ==> r.items@.len() == 0 && r.sum_profit == 0 && r.sum_volume == 0,
{
    let ghost c = candidates@;
    let n = candidates.len();
    if max_cargo == 0 {
        let r = empty_selection();
        proof {
            lemma_zero_volumes(c, c.len() as int);
            assert(r.items@ =~= chosen_upto(c, zero_volumes(c.len() as int), c.len() as int));
        }
        return r;
    }
    let mut whole: Vec<u64> = Vec::new();
    let mut gaining = true;
    let mut max_gain: i128 = 0;
    let mut max_size: u64 = max_cargo;
    let mut i: usize = 0;
    while i < n
        invariant
            n == c.len(),
            c == candidates@,
            candidates_wf(c),
            i <= n,
            whole@.len() == i,
            forall|k: int| 0 <= k < i ==> #[trigger] whole@[k] == c[k].recommend_buy,
            gaining == (forall|k: int| 0 <= k < i ==> unit_gain(#[trigger] c[k]) > 0),
            max_gain == max_gain_of(c.take(i as int)),
            max_size == max_size_of(c.take(i as int), max_cargo as int),
            0 <= max_gain <= 0x40_0000_0000_0000,
        decreases n - i,
    {
        let rec = candidates[i];
        assert(sell_buy_consistent(c[i as int]));
        assert(c.take(i + 1).drop_last() == c.take(i as int));
        assert(c.take(i + 1).last() == rec);
        whole.push(rec.recommend_buy);
        let g = rec.sell_price as i128 - rec.expenses as i128;
        if g <= 0 {
            gaining = false;
        }
        if g > max_gain {
            max_gain = g;
        }
        if rec.unit_volume > max_size {
            max_size = rec.unit_volume;
        }
        i = i + 1;
    }
    assert(as_volumes(whole@) =~= bounds_of(c));
    assert(c.take(n as int) == c);
    assert(gaining == all_gain(c));
    if gaining {
        match checked_selection(&candidates, &whole, max_cargo) {
            Some(s) => {
                return s;
            },
            None => {},
        }
    }
    let gscale: i128 = max_gain / 2147483647 + 1;
    let sscale: u64 = max_size / 2147483647 + 1;
    let mut bounds: Vec<i32> = Vec::new();
    let mut weights: Vec<i32> = Vec::new();
    let mut sizes: Vec<i32> = Vec::new();
    let mut j: usize = 0;
    while j < n
        invariant
            n == c.len(),
            c == candidates@,
            candidates_wf(c),
            j <= n,
            gscale == gain_scale(c),
            sscale == size_scale(c, max_cargo as int),
            gscale >= 1,
            1 <= sscale <= 0x3_0000_0000,
            bounds@ == c.take(j as int).map_values(|r: PairCalculatedDataSellBuy| solver_bound(r)),
            weights@ == c.take(j as int).map_values(|r: PairCalculatedDataSellBuy| solver_weight(r, gscale as int)),
            sizes@ == c.take(j as int).map_values(|r: PairCalculatedDataSellBuy| solver_size(r, sscale as int)),
        decreases n - j,
    {
        let rec = candidates[j];
        assert(sell_buy_consistent(c[j as int]));
        bounds.push(clamp_i32(rec.recommend_buy as u128));
        let g = rec.sell_price as i128 - rec.expenses as i128;
        let w: i32 = if g > 0 { clamp_i32((g / gscale) as u128) } else { 0 };
        weights.push(w);
        sizes.push(clamp_i32(((rec.unit_volume + sscale - 1) / sscale) as u128));
        j = j + 1;
        assert(bounds@ =~= c.take(j as int).map_values(|r: PairCalculatedDataSellBuy| solver_bound(r)));
        assert(weights@ =~= c.take(j as int).map_values(|r: PairCalculatedDataSellBuy| solver_weight(r, gscale as int)));
        assert(sizes@ =~= c.take(j as int).map_values(|r: PairCalculatedDataSellBuy| solver_size(r, sscale as int)));
    }
    let cap = clamp_i32((max_cargo / sscale) as u128);
    match solve_knapsack(&bounds, &weights, &sizes, cap) {
        Some(v) => apply_solution(&candidates, &v, max_cargo),
        None => empty_selection(),
    }
}

} // verus!
