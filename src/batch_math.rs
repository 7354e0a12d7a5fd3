//! Constant-product pool arithmetic and the clearing-price search.
use crate::arith::{mul_div, mul_div_spec, sqrt_product, sqrt_product_spec};
use vstd::arithmetic::div_mod::{lemma_fundamental_div_mod, lemma_mod_bound};
use crate::cells::{BPS_DENOMINATOR, MINIMUM_LIQUIDITY, PRECISION};
use vstd::prelude::*;

verus! {

pub const MAX_ITERATIONS: u32 = 100;

/// Bracket width at which the clearing-price search stops.
pub const CONVERGENCE_THRESHOLD: u128 = 1_000_000;

/// The golden ratio, scaled by 10^18.
pub const PHI: u128 = 1_618_033_988_749_895_000;

pub const FIB_236: u128 = 236_000_000_000_000_000;
pub const FIB_382: u128 = 382_000_000_000_000_000;
pub const FIB_500: u128 = 500_000_000_000_000_000;
pub const FIB_618: u128 = 618_000_000_000_000_000;
pub const FIB_786: u128 = 786_000_000_000_000_000;

/// Failures of the arithmetic kernel and pool math.
#[derive(Debug, Clone, Copy, PartialEq, Eq)]
pub enum MathError {
    InvalidReserves,
    InsufficientInput,
    InsufficientLiquidity,
    InvalidAmounts,
    InsufficientInitialLiquidity,
    Overflow,
    PositionOutOfBounds,
}

/// An order of the batch: amount and limit price.
#[derive(Clone, Copy, Debug)]
pub struct Order {
    pub amount: u128,
    pub limit_price: u128,
}

/// What `get_amount_out` returns: the constant-product output for `amount_in`
/// after a fee of `fee_bps` basis points.
pub open spec fn amount_out_spec(amount_in: int, reserve_in: int, reserve_out: int, fee_bps: int) -> Result<u128, MathError> {
    if amount_in == 0 {
        Err(MathError::InsufficientInput)
    } else if reserve_in == 0 || reserve_out == 0 {
        Err(MathError::InsufficientLiquidity)
    } else if fee_bps > 10_000 || amount_in * (10_000 - fee_bps) > u128::MAX || reserve_in
        * 10_000 > u128::MAX || reserve_in * 10_000 + amount_in * (10_000 - fee_bps) > u128::MAX {
        Err(MathError::Overflow)
    } else {
        Ok(
            mul_div_spec(
                amount_in * (10_000 - fee_bps),
                reserve_out,
                reserve_in * 10_000 + amount_in * (10_000 - fee_bps),
            ) as u128,
        )
    }
}

/// What `get_amount_in` returns: the input needed for `amount_out`, rounded up by one.
pub open spec fn amount_in_spec(amount_out: int, reserve_in: int, reserve_out: int, fee_bps: int) -> Result<u128, MathError> {
    if amount_out == 0 {
        Err(MathError::InsufficientInput)
    } else if reserve_in == 0 || reserve_out == 0 || amount_out >= reserve_out {
        Err(MathError::InsufficientLiquidity)
    } else if reserve_in * 10_000 > u128::MAX || fee_bps >= 10_000 || (reserve_out - amount_out)
        * (10_000 - fee_bps) > u128::MAX || mul_div_spec(
        reserve_in * 10_000,
        amount_out,
        (reserve_out - amount_out) * (10_000 - fee_bps),
    ) == u128::MAX {
        Err(MathError::Overflow)
    } else {
        Ok(
            (mul_div_spec(
                reserve_in * 10_000,
                amount_out,
                (reserve_out - amount_out) * (10_000 - fee_bps),
            ) + 1) as u128,
        )
    }
}

/// What `calculate_liquidity` returns: for an empty pool the root of the
/// product less the locked minimum, else the smaller proportional share.
pub open spec fn liquidity_spec(amount0: int, amount1: int, reserve0: int, reserve1: int, total: int) -> Result<u128, MathError> {
    if total == 0 {
        if sqrt_product_spec(amount0, amount1) <= 1000 {
            Err(MathError::InsufficientInitialLiquidity)
        } else {
            Ok((sqrt_product_spec(amount0, amount1) - 1000) as u128)
        }
    } else if reserve0 == 0 || reserve1 == 0 {
        Err(MathError::InvalidReserves)
    } else {
        let l0 = mul_div_spec(amount0, total, reserve0);
        let l1 = mul_div_spec(amount1, total, reserve1);
        Ok(
            (if l0 < l1 {
                l0
            } else {
                l1
            }) as u128,
        )
    }
}

/// Spot price `reserve1 / reserve0`, scaled by 10^18.
pub open spec fn spot_price_spec(reserve0: int, reserve1: int) -> int {
    mul_div_spec(reserve1, PRECISION as int, reserve0)
}

/// Total amount of the orders that accept `price`, added up saturating:
/// buyers accept prices up to their limit, sellers prices from their limit.
pub open spec fn demand_spec(orders: Seq<Order>, price: u128, buy_side: bool) -> u128
    decreases orders.len(),
{
    if orders.len() == 0 {
        0
    } else {
        let rest = demand_spec(orders.drop_last(), price, buy_side);
        let o = orders.last();
        let accepts = if buy_side {
            price <= o.limit_price
        } else {
            price >= o.limit_price
        };
        if !accepts {
            rest
        } else if rest + o.amount > u128::MAX {
            u128::MAX
        } else {
            (rest + o.amount) as u128
        }
    }
}

/// Largest buy limit, starting from `init`.
pub open spec fn max_buy_limit(buys: Seq<Order>, init: u128) -> u128
    decreases buys.len(),
{
    if buys.len() == 0 {
        init
    } else {
        let m = max_buy_limit(buys.drop_last(), init);
        if buys.last().limit_price > m {
            buys.last().limit_price
        } else {
            m
        }
    }
}

/// Smallest positive sell limit, starting from `init`.
pub open spec fn min_sell_limit(sells: Seq<Order>, init: u128) -> u128
    decreases sells.len(),
{
    if sells.len() == 0 {
        init
    } else {
        let m = min_sell_limit(sells.drop_last(), init);
        if sells.last().limit_price < m && sells.last().limit_price > 0 {
            sells.last().limit_price
        } else {
            m
        }
    }
}

/// Capacity of the pool at `target`: geometric-mean liquidity divided by ten
/// times the ratio between target and spot price.
pub open spec fn capacity_spec(reserve0: int, reserve1: int, target: int) -> Result<u128, MathError> {
    let spot = spot_price_spec(reserve0, reserve1);
    if target > spot && spot == 0 {
        Err(MathError::Overflow)
    } else if target <= spot && target == 0 {
        Err(MathError::Overflow)
    } else {
        let ratio = if target > spot {
            mul_div_spec(target, PRECISION as int, spot)
        } else {
            mul_div_spec(spot, PRECISION as int, target)
        };
        if ratio * 10 > u128::MAX || ratio == 0 {
            Err(MathError::Overflow)
        } else {
            Ok(
                mul_div_spec(
                    sqrt_product_spec(reserve0, reserve1),
                    PRECISION as int,
                    ratio * 10,
                ) as u128,
            )
        }
    }
}

/// Whether capped buy demand exceeds capped sell demand at `price`, and the
/// two-sided fillable volume.
pub open spec fn net_demand_spec(
    buys: Seq<Order>,
    sells: Seq<Order>,
    price: u128,
    reserve0: int,
    reserve1: int,
) -> Result<(bool, u128), MathError> {
    let cap = capacity_spec(reserve0, reserve1, price as int);
    if cap is Err {
        Err(MathError::Overflow)
    } else {
        let c = cap->Ok_0;
        let b = demand_spec(buys, price, true);
        let s = demand_spec(sells, price, false);
        let eb = if b < c {
            b
        } else {
            c
        };
        let es = if s < c {
            s
        } else {
            c
        };
        if eb + es > u128::MAX {
            Err(MathError::Overflow)
        } else {
            Ok((eb > es, (eb + es) as u128))
        }
    }
}

/// Bisection from round `iter` on the bracket `[low, high]`: stop when the
/// bracket is narrow or after `MAX_ITERATIONS` rounds, else move the bracket
/// end on the side of the excess demand to the midpoint.
pub open spec fn bisect_spec(
    buys: Seq<Order>,
    sells: Seq<Order>,
    low: u128,
    high: u128,
    iter: nat,
    reserve0: int,
    reserve1: int,
) -> Result<(u128, u128), MathError>
    decreases MAX_ITERATIONS - iter,
{
    let mid = ((low + high) / 2) as u128;
    let net = net_demand_spec(buys, sells, mid, reserve0, reserve1);
    if net is Err {
        Err(MathError::Overflow)
    } else if iter >= MAX_ITERATIONS || high - low <= CONVERGENCE_THRESHOLD {
        Ok((mid, net->Ok_0.1))
    } else if net->Ok_0.0 {
        bisect_spec(buys, sells, mid, high, iter + 1, reserve0, reserve1)
    } else {
        bisect_spec(buys, sells, low, mid, iter + 1, reserve0, reserve1)
    }
}

/// The clearing price and fillable volume of a batch.
pub open spec fn clearing_price_spec(
    buys: Seq<Order>,
    sells: Seq<Order>,
    reserve0: int,
    reserve1: int,
) -> Result<(u128, u128), MathError> {
    let spot = spot_price_spec(reserve0, reserve1) as u128;
    if reserve0 == 0 || reserve1 == 0 {
        Err(MathError::InvalidReserves)
    } else if buys.len() == 0 && sells.len() == 0 {
        Ok((spot, 0))
    } else {
        let twice = if spot * 2 > u128::MAX {
            u128::MAX
        } else {
            (spot * 2) as u128
        };
        bisect_spec(
            buys,
            sells,
            min_sell_limit(sells, spot / 2),
            max_buy_limit(buys, twice),
            0,
            reserve0,
            reserve1,
        )
    }
}

/// Uniform clearing price and fillable volume for a batch, found by bisection
/// between the most extreme limit prices around the spot price.
pub fn calculate_clearing_price(
    buy_orders: &[Order],
    sell_orders: &[Order],
    reserve0: u128,
    reserve1: u128,
) -> (r: Result<(u128, u128), MathError>)
    ensures
        r == clearing_price_spec(buy_orders@, sell_orders@, reserve0 as int, reserve1 as int),
{
    if reserve0 == 0 || reserve1 == 0 {
        return Err(MathError::InvalidReserves);
    }
    let spot_price = mul_div(reserve1, PRECISION, reserve0);
    if buy_orders.len() == 0 && sell_orders.len() == 0 {
        return Ok((spot_price, 0));
    }
    let (min_price, max_price) = find_price_bounds(buy_orders, sell_orders, spot_price);
    let ghost goal = clearing_price_spec(buy_orders@, sell_orders@, reserve0 as int, reserve1 as int);
    let mut low = min_price;
    let mut high = max_price;
    let mut iter: u32 = 0;
    while iter < MAX_ITERATIONS
        invariant
            low <= high,
            iter <= MAX_ITERATIONS,
            reserve0 > 0,
            reserve1 > 0,
            goal == clearing_price_spec(buy_orders@, sell_orders@, reserve0 as int, reserve1 as int),
            goal == bisect_spec(
                buy_orders@,
                sell_orders@,
                low,
                high,
                iter as nat,
                reserve0 as int,
                reserve1 as int,
            ),
        decreases MAX_ITERATIONS - iter,
    {
        let mid = midpoint(low, high);
        let net = calculate_net_demand(buy_orders, sell_orders, mid, reserve0, reserve1);
        proof {
            assert(mid == ((low + high) / 2) as u128);
            assert(goal == bisect_spec(
                buy_orders@,
                sell_orders@,
                low,
                high,
                iter as nat,
                reserve0 as int,
                reserve1 as int,
            ));
        }
        let (buy_heavy, volume) = match net {
            Ok(v) => v,
            Err(e) => {
                return Err(e);
            },
        };
        if high - low <= CONVERGENCE_THRESHOLD {
            return Ok((mid, volume));
        }
        if buy_heavy {
            low = mid;
        } else {
            high = mid;
        }
        iter = iter + 1;
    }
    let clearing_price = midpoint(low, high);
    match calculate_net_demand(buy_orders, sell_orders, clearing_price, reserve0, reserve1) {
        Ok((_, fillable_volume)) => Ok((clearing_price, fillable_volume)),
        Err(e) => Err(e),
    }
}

/// `floor((a + b) / 2)` without overflow.
fn midpoint(a: u128, b: u128) -> (r: u128)
    requires
        a <= b,
    ensures
        r == (a + b) / 2,
        a <= r <= b,
{
    a / 2 + b / 2 + (a % 2 + b % 2) / 2
}

/// Bisection bracket: half the spot price lowered to the smallest positive
/// sell limit, and twice the spot price (saturating) raised to the largest buy limit.
fn find_price_bounds(buy_orders: &[Order], sell_orders: &[Order], spot_price: u128) -> (r: (u128, u128))
    ensures
        r.0 == min_sell_limit(sell_orders@, spot_price / 2),
        r.1 == max_buy_limit(
            buy_orders@,
            if spot_price * 2 > u128::MAX {
                u128::MAX
            } else {
                (spot_price * 2) as u128
            },
        ),
        r.0 <= r.1,
{
    let ghost init_min = spot_price / 2;
    let init_max = match spot_price.checked_mul(2) {
        Some(v) => v,
        None => u128::MAX,
    };
    let mut min_price = spot_price / 2;
    let mut max_price = init_max;
    let mut i: usize = 0;
    proof {
        assert(buy_orders@.subrange(0, 0) =~= Seq::<Order>::empty());
        assert(sell_orders@.subrange(0, 0) =~= Seq::<Order>::empty());
    }
    while i < buy_orders.len()
        invariant
            i <= buy_orders@.len(),
            max_price == max_buy_limit(buy_orders@.subrange(0, i as int), init_max),
            max_price >= init_max,
            init_max >= spot_price / 2,
        decreases buy_orders@.len() - i,
    {
        proof {
            assert(buy_orders@.subrange(0, i + 1).drop_last() =~= buy_orders@.subrange(0, i as int));
        }
        if buy_orders[i].limit_price > max_price {
            max_price = buy_orders[i].limit_price;
        }
        i = i + 1;
    }
    let mut j: usize = 0;
    while j < sell_orders.len()
        invariant
            j <= sell_orders@.len(),
            min_price == min_sell_limit(sell_orders@.subrange(0, j as int), init_min as u128),
            min_price <= spot_price / 2,
        decreases sell_orders@.len() - j,
    {
        proof {
            assert(sell_orders@.subrange(0, j + 1).drop_last() =~= sell_orders@.subrange(0, j as int));
        }
        if sell_orders[j].limit_price < min_price && sell_orders[j].limit_price > 0 {
            min_price = sell_orders[j].limit_price;
        }
        j = j + 1;
    }
    proof {
        assert(buy_orders@.subrange(0, buy_orders@.len() as int) =~= buy_orders@);
        assert(sell_orders@.subrange(0, sell_orders@.len() as int) =~= sell_orders@);
    }
    (min_price, max_price)
}

/// Total amount of the orders that accept `price` (saturating).
fn demand_at(orders: &[Order], price: u128, buy_side: bool) -> (r: u128)
    ensures
        r == demand_spec(orders@, price, buy_side),
{
    let mut total: u128 = 0;
    let mut i: usize = 0;
    proof {
        assert(orders@.subrange(0, 0) =~= Seq::<Order>::empty());
    }
    while i < orders.len()
        invariant
            i <= orders@.len(),
            total == demand_spec(orders@.subrange(0, i as int), price, buy_side),
        decreases orders@.len() - i,
    {
        proof {
            assert(orders@.subrange(0, i + 1).drop_last() =~= orders@.subrange(0, i as int));
        }
        let accepts = if buy_side {
            price <= orders[i].limit_price
        } else {
            price >= orders[i].limit_price
        };
        if accepts {
            total = total.saturating_add(orders[i].amount);
        }
        i = i + 1;
    }
    proof {
        assert(orders@.subrange(0, orders@.len() as int) =~= orders@);
    }
    total
}

/// Whether capped buy volume exceeds capped sell volume at `price`, and the
/// two-sided fillable volume.
fn calculate_net_demand(
    buy_orders: &[Order],
    sell_orders: &[Order],
    price: u128,
    reserve0: u128,
    reserve1: u128,
) -> (r: Result<(bool, u128), MathError>)
    requires
        reserve0 > 0,
        reserve1 > 0,
    ensures
        r == net_demand_spec(buy_orders@, sell_orders@, price, reserve0 as int, reserve1 as int),
{
    let total_buy_volume = demand_at(buy_orders, price, true);
    let total_sell_volume = demand_at(sell_orders, price, false);
    let amm_capacity = match calculate_amm_capacity(reserve0, reserve1, price) {
        Ok(c) => c,
        Err(e) => {
            return Err(e);
        },
    };
    let effective_buy = if total_buy_volume < amm_capacity {
        total_buy_volume
    } else {
        amm_capacity
    };
    let effective_sell = if total_sell_volume < amm_capacity {
        total_sell_volume
    } else {
        amm_capacity
    };
    match effective_buy.checked_add(effective_sell) {
        Some(fillable) => Ok((effective_buy > effective_sell, fillable)),
        None => Err(MathError::Overflow),
    }
}

/// Capacity of the pool to absorb trades at `target_price`.
fn calculate_amm_capacity(reserve0: u128, reserve1: u128, target_price: u128) -> (r: Result<
    u128,
    MathError,
>)
    requires
        reserve0 > 0,
    ensures
        r == capacity_spec(reserve0 as int, reserve1 as int, target_price as int),
{
    let spot_price = mul_div(reserve1, PRECISION, reserve0);
    let price_ratio = if target_price > spot_price {
        if spot_price == 0 {
            return Err(MathError::Overflow);
        }
        mul_div(target_price, PRECISION, spot_price)
    } else {
        if target_price == 0 {
            return Err(MathError::Overflow);
        }
        mul_div(spot_price, PRECISION, target_price)
    };
    let geometric_mean = sqrt_product(reserve0, reserve1);
    let scaled = match price_ratio.checked_mul(10) {
        Some(v) => v,
        None => {
            return Err(MathError::Overflow);
        },
    };
    if scaled == 0 {
        return Err(MathError::Overflow);
    }
    Ok(mul_div(geometric_mean, PRECISION, scaled))
}

/// Constant-product output: `in·(BPS − fee)·rout / (rin·BPS + in·(BPS − fee))`.
pub fn get_amount_out(amount_in: u128, reserve_in: u128, reserve_out: u128, fee_rate_bps: u128) -> (r:
    Result<u128, MathError>)
    ensures
        r == amount_out_spec(amount_in as int, reserve_in as int, reserve_out as int, fee_rate_bps as int),
{
    if amount_in == 0 {
        return Err(MathError::InsufficientInput);
    }
    if reserve_in == 0 || reserve_out == 0 {
        return Err(MathError::InsufficientLiquidity);
    }
    if fee_rate_bps > BPS_DENOMINATOR {
        return Err(MathError::Overflow);
    }
    let amount_in_with_fee = match amount_in.checked_mul(BPS_DENOMINATOR - fee_rate_bps) {
        Some(v) => v,
        None => {
            return Err(MathError::Overflow);
        },
    };
    let reserve_in_bps = match reserve_in.checked_mul(BPS_DENOMINATOR) {
        Some(v) => v,
        None => {
            return Err(MathError::Overflow);
        },
    };
    let denominator = match reserve_in_bps.checked_add(amount_in_with_fee) {
        Some(v) => v,
        None => {
            return Err(MathError::Overflow);
        },
    };
    Ok(mul_div(amount_in_with_fee, reserve_out, denominator))
}

/// Input needed for `amount_out`: `rin·BPS·out / ((rout − out)·(BPS − fee)) + 1`.
pub fn get_amount_in(amount_out: u128, reserve_in: u128, reserve_out: u128, fee_rate_bps: u128) -> (r:
    Result<u128, MathError>)
    ensures
        r == amount_in_spec(amount_out as int, reserve_in as int, reserve_out as int, fee_rate_bps as int),
{
    if amount_out == 0 {
        return Err(MathError::InsufficientInput);
    }
    if reserve_in == 0 || reserve_out == 0 {
        return Err(MathError::InsufficientLiquidity);
    }
    if amount_out >= reserve_out {
        return Err(MathError::InsufficientLiquidity);
    }
    let reserve_in_bps = match reserve_in.checked_mul(BPS_DENOMINATOR) {
        Some(v) => v,
        None => {
            return Err(MathError::Overflow);
        },
    };
    if fee_rate_bps >= BPS_DENOMINATOR {
        return Err(MathError::Overflow);
    }
    let denominator = match (reserve_out - amount_out).checked_mul(BPS_DENOMINATOR - fee_rate_bps) {
        Some(v) => v,
        None => {
            return Err(MathError::Overflow);
        },
    };
    proof {
        assert((reserve_out - amount_out) * (BPS_DENOMINATOR - fee_rate_bps) > 0) by (nonlinear_arith)
            requires
                reserve_out > amount_out,
                BPS_DENOMINATOR > fee_rate_bps,
        ;
    }
    let q = mul_div(reserve_in_bps, amount_out, denominator);
    if q == u128::MAX {
        return Err(MathError::Overflow);
    }
    Ok(q + 1)
}

/// Amounts to deposit that keep the pool ratio, within the desired amounts.
pub fn calculate_optimal_liquidity(
    amount0_desired: u128,
    amount1_desired: u128,
    reserve0: u128,
    reserve1: u128,
) -> (r: Result<(u128, u128), MathError>)
    ensures
        reserve0 == 0 && reserve1 == 0 ==> r == Ok::<(u128, u128), MathError>(
            (amount0_desired, amount1_desired),
        ),
        (reserve0 == 0) != (reserve1 == 0) ==> r == Err::<(u128, u128), MathError>(
            MathError::InvalidReserves,
        ),
        reserve0 != 0 && reserve1 != 0 ==> {
            let a1 = mul_div_spec(amount0_desired as int, reserve1 as int, reserve0 as int);
            let a0 = mul_div_spec(amount1_desired as int, reserve0 as int, reserve1 as int);
            r == if a1 <= amount1_desired {
                Ok::<(u128, u128), MathError>((amount0_desired, a1 as u128))
            } else if a0 > amount0_desired {
                Err::<(u128, u128), MathError>(MathError::InvalidAmounts)
            } else {
                Ok::<(u128, u128), MathError>((a0 as u128, amount1_desired))
            }
        },
{
    if reserve0 == 0 && reserve1 == 0 {
        return Ok((amount0_desired, amount1_desired));
    }
    if reserve0 == 0 || reserve1 == 0 {
        return Err(MathError::InvalidReserves);
    }
    let amount1_optimal = mul_div(amount0_desired, reserve1, reserve0);
    if amount1_optimal <= amount1_desired {
        Ok((amount0_desired, amount1_optimal))
    } else {
        let amount0_optimal = mul_div(amount1_desired, reserve0, reserve1);
        if amount0_optimal > amount0_desired {
            return Err(MathError::InvalidAmounts);
        }
        Ok((amount0_optimal, amount1_desired))
    }
}

/// LP tokens to mint for a deposit.
pub fn calculate_liquidity(
    amount0: u128,
    amount1: u128,
    reserve0: u128,
    reserve1: u128,
    total_supply: u128,
) -> (r: Result<u128, MathError>)
    ensures
        r == liquidity_spec(amount0 as int, amount1 as int, reserve0 as int, reserve1 as int, total_supply as int),
{
    if total_supply == 0 {
        let liquidity = sqrt_product(amount0, amount1);
        if liquidity <= MINIMUM_LIQUIDITY {
            return Err(MathError::InsufficientInitialLiquidity);
        }
        Ok(liquidity - MINIMUM_LIQUIDITY)
    } else {
        if reserve0 == 0 || reserve1 == 0 {
            return Err(MathError::InvalidReserves);
        }
        let liquidity0 = mul_div(amount0, total_supply, reserve0);
        let liquidity1 = mul_div(amount1, total_supply, reserve1);
        Ok(
            if liquidity0 < liquidity1 {
                liquidity0
            } else {
                liquidity1
            },
        )
    }
}

/// Protocol and LP shares of the fee on `amount`.
pub fn calculate_fees(amount: u128, fee_rate_bps: u128, protocol_share_bps: u128) -> (r: (u128, u128))
    requires
        amount * fee_rate_bps <= u128::MAX,
        (amount * fee_rate_bps / 10_000) * protocol_share_bps <= u128::MAX,
        protocol_share_bps <= 10_000,
    ensures
        r.0 == (amount * fee_rate_bps / 10_000) * protocol_share_bps / 10_000,
        r.0 + r.1 == amount * fee_rate_bps / 10_000,
{
    let total_fee = amount * fee_rate_bps / BPS_DENOMINATOR;
    let protocol_fee = total_fee * protocol_share_bps / BPS_DENOMINATOR;
    proof {
        assert(total_fee * protocol_share_bps <= total_fee * 10_000) by (nonlinear_arith)
            requires
                protocol_share_bps <= 10_000,
        ;
    }
    let lp_fee = total_fee - protocol_fee;
    (protocol_fee, lp_fee)
}

/// Absolute difference of two integers.
pub open spec fn abs_diff(a: int, b: int) -> int {
    if a > b {
        a - b
    } else {
        b - a
    }
}

/// Limits a price move to `max_deviation_bps` of the current price; a move
/// beyond it is replaced by the cap scaled by the golden ratio, capped again.
pub fn apply_golden_ratio_damping(current_price: u128, proposed_price: u128, max_deviation_bps: u128) -> (r:
    u128)
    requires
        current_price * max_deviation_bps <= u128::MAX,
        abs_diff(proposed_price as int, current_price as int) > current_price * max_deviation_bps
            / 10_000 ==> (current_price * max_deviation_bps / 10_000) * PHI <= u128::MAX,
    ensures
        ({
            let max_dev = current_price * max_deviation_bps / 10_000;
            let damped = if max_dev * PHI / (PRECISION as int) < max_dev {
                max_dev * PHI / (PRECISION as int)
            } else {
                max_dev
            };
            r == if proposed_price > current_price {
                if proposed_price - current_price > max_dev {
                    current_price + damped
                } else {
                    proposed_price as int
                }
            } else {
                if current_price - proposed_price > max_dev {
                    current_price - damped
                } else {
                    proposed_price as int
                }
            }
        }),
{
    let max_deviation = current_price * max_deviation_bps / BPS_DENOMINATOR;
    if proposed_price > current_price {
        let increase = proposed_price - current_price;
        if increase > max_deviation {
            let scaled = max_deviation * PHI / PRECISION;
            let damped = if scaled < max_deviation {
                scaled
            } else {
                max_deviation
            };
            current_price + damped
        } else {
            proposed_price
        }
    } else {
        let decrease = current_price - proposed_price;
        if decrease > max_deviation {
            let scaled = max_deviation * PHI / PRECISION;
            let damped = if scaled < max_deviation {
                scaled
            } else {
                max_deviation
            };
            current_price - damped
        } else {
            proposed_price
        }
    }
}

/// Blend of `a` and `b` weighted by the golden ratio:
/// `(a·φ + b·(2 − φ)) / 2`, or `a/2 + b/2` when that overflows.
pub fn golden_ratio_mean(a: u128, b: u128) -> (r: u128)
    ensures
        ({
            let complement = 2 * PRECISION - PHI;
            r == if a * PHI + b * complement <= u128::MAX {
                (a * PHI + b * complement) / (2 * PRECISION as int)
            } else {
                a / 2 + b / 2
            }
        }),
{
    let complement: u128 = 2 * PRECISION - PHI;
    let weighted = match a.checked_mul(PHI) {
        Some(x) => match b.checked_mul(complement) {
            Some(y) => x.checked_add(y),
            None => None,
        },
        None => None,
    };
    proof {
        assert(a * PHI >= 0 && b * complement >= 0) by (nonlinear_arith);
    }
    match weighted {
        Some(w) => w / (2 * PRECISION),
        None => a / 2 + b / 2,
    }
}

/// Swap inverse, upper side: for an output that `get_amount_out` gives for
/// `amount_in`, the input `get_amount_in` asks for that output is at most
/// `amount_in + 1` (when its intermediate product fits in 128 bits).
pub proof fn lemma_amount_in_at_most_one_more(
    amount_in: u128,
    reserve_in: u128,
    reserve_out: u128,
    fee_bps: u128,
    out: u128,
)
    requires
        amount_out_spec(amount_in as int, reserve_in as int, reserve_out as int, fee_bps as int)
            == Ok::<u128, MathError>(out),
        out > 0,
        (reserve_out - out) * (10_000 - fee_bps) <= u128::MAX,
    ensures
        amount_in_spec(out as int, reserve_in as int, reserve_out as int, fee_bps as int) matches Ok(
            back,
        ) && back <= amount_in + 1,
{
    let a = amount_in * (10_000 - fee_bps);
    let d = reserve_in * 10_000 + a;
    let rin = reserve_in as int;
    let rout = reserve_out as int;
    let o = out as int;
    assert(a * rout >= 0) by (nonlinear_arith)
        requires
            a >= 0,
            rout >= 0,
    ;
    // the quotient a * rout / d is below rout, so it was not capped
    assert(a < d);
    lemma_fundamental_div_mod(a * rout, d);
    lemma_mod_bound(a * rout, d);
    assert((a * rout) / d < rout) by (nonlinear_arith)
        requires
            a < d,
            d > 0,
            rout > 0,
            a * rout == d * ((a * rout) / d) + (a * rout) % d,
            (a * rout) % d >= 0,
    ;
    assert(o == (a * rout) / d);
    assert(o * d <= a * rout) by (nonlinear_arith)
        requires
            a * rout == d * o + (a * rout) % d,
            (a * rout) % d >= 0,
    ;
    // o * rin * B <= a * (rout - o) = amount_in * (B - fee) * (rout - o)
    let den = (rout - o) * (10_000 - fee_bps);
    let num = rin * 10_000 * o;
    assert(num <= amount_in * den) by (nonlinear_arith)
        requires
            o * d <= a * rout,
            d == rin * 10_000 + a,
            a == amount_in * (10_000 - fee_bps),
            num == rin * 10_000 * o,
            den == (rout - o) * (10_000 - fee_bps),
    ;
    assert(fee_bps < 10_000) by {
        if fee_bps == 10_000 {
            assert(a == 0) by (nonlinear_arith)
                requires
                    a == amount_in * (10_000 - fee_bps),
                    fee_bps == 10_000,
            ;
            assert(a * rout == 0) by (nonlinear_arith)
                requires
                    a == 0,
            ;
        }
    }
    assert(den > 0) by (nonlinear_arith)
        requires
            rout > o,
            fee_bps < 10_000,
            den == (rout - o) * (10_000 - fee_bps),
    ;
    assert(num >= 0) by (nonlinear_arith)
        requires
            rin >= 0,
            o >= 0,
            num == rin * 10_000 * o,
    ;
    lemma_fundamental_div_mod(num, den);
    lemma_mod_bound(num, den);
    assert(num / den <= amount_in) by (nonlinear_arith)
        requires
            num <= amount_in * den,
            den > 0,
            num == den * (num / den) + num % den,
            num % den >= 0,
    ;
    assert(amount_in < a || a == amount_in) by (nonlinear_arith)
        requires
            a == amount_in * (10_000 - fee_bps),
            fee_bps < 10_000,
            amount_in >= 0,
    ;
    assert(rin * 10_000 * o == (rin * 10_000) * o);
}

} // verus!
