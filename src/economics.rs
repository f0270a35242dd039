use crate::market::MAX_PRICE;
use vstd::prelude::*;

verus! {

/// Basis points in one whole.
pub const BP: u64 = 10_000;

/// A price with a fee added, rounded down.
pub open spec fn with_fee_of(price: int, fee: int) -> int {
    price * (BP + fee) / (BP as int)
}

/// A price with a share taken off, rounded down.
pub open spec fn after_cut_of(price: int, cut: int) -> int {
    price * (BP - cut) / (BP as int)
}

/// Margin in basis points, `(sell - cost) / cost`, rounded toward zero.
pub open spec fn margin_of(sell: int, cost: int) -> int {
    if sell >= cost {
        (sell - cost) * BP / cost
    } else {
        -((cost - sell) * BP / cost)
    }
}

/// Buying at `buy` with the fee `fee` costs strictly less than what
/// selling at `sell` brings after the share `cut`.
pub open spec fn gains(buy: int, fee: int, sell: int, cut: int) -> bool {
    buy * (BP + fee) < sell * (BP - cut)
}

pub fn with_fee(price: u64, fee: u64) -> (r: u64)
    requires
        price <= MAX_PRICE,
        fee <= BP,
    ensures
        r == with_fee_of(price as int, fee as int),
        r <= 2 * MAX_PRICE,
{
    proof {
        assert(price * (BP + fee) <= MAX_PRICE * (2 * BP)) by (nonlinear_arith)
            requires price <= MAX_PRICE, fee <= BP;
        assert(price * (BP + fee) / (BP as int) <= 2 * MAX_PRICE) by (nonlinear_arith)
            requires price * (BP + fee) <= MAX_PRICE * (2 * BP), price * (BP + fee) >= 0;
    }
    ((price as u128) * ((BP + fee) as u128) / (BP as u128)) as u64
}

pub fn after_cut(price: u64, cut: u64) -> (r: u64)
    requires
        cut <= BP,
    ensures
        r == after_cut_of(price as int, cut as int),
        r <= price,
{
    proof {
        assert(price * (BP - cut) <= price * BP) by (nonlinear_arith)
            requires cut <= BP;
        assert(price * (BP - cut) / (BP as int) <= price) by (nonlinear_arith)
            requires price * (BP - cut) <= price * BP, price * (BP - cut) >= 0;
    }
    ((price as u128) * ((BP - cut) as u128) / (BP as u128)) as u64
}

pub fn margin(sell: i128, cost: i128) -> (r: i128)
    requires
        cost > 0,
        -0x1_0000_0000_0000_0000_0000 <= sell <= 0x1_0000_0000_0000_0000_0000,
        cost <= 0x1_0000_0000_0000_0000_0000,
    ensures
        r == margin_of(sell as int, cost as int),
{
    if sell >= cost {
        (sell - cost) * (BP as i128) / cost
    } else {
        let d = (cost - sell) * (BP as i128) / cost;
        proof {
            let a = (cost - sell) as int * (BP as int);
            assert(a / (cost as int) <= a) by (nonlinear_arith)
                requires cost > 0, a > 0;
        }
        -d
    }
}

pub fn gains_exec(buy: u64, fee: u64, sell: u64, cut: u64) -> (r: bool)
    requires
        fee <= BP,
        cut <= BP,
    ensures
        r == gains(buy as int, fee as int, sell as int, cut as int),
{
    proof {
        assert(buy * (BP + fee) <= u64::MAX * (2 * BP)) by (nonlinear_arith)
            requires fee <= BP, buy <= u64::MAX;
        assert(sell * (BP - cut) <= u64::MAX * BP) by (nonlinear_arith)
            requires cut <= BP, sell <= u64::MAX;
    }
    (buy as u128) * ((BP + fee) as u128) < (sell as u128) * ((BP - cut) as u128)
}

} // verus!
