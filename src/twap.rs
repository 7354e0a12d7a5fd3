//! Time-weighted average price over a ring buffer of cumulative observations.
use crate::batch_math::MathError;
use vstd::prelude::*;

verus! {

/// A cumulative price observation.
#[derive(Clone, Copy, Debug, Default)]
pub struct Observation {
    pub block_number: u64,
    pub price_cumulative: u128,
}

/// Ring buffer of observations.
#[derive(Clone, Debug)]
pub struct OracleState {
    pub observations: Vec<Observation>,
    /// Slot of the newest observation.
    pub index: u16,
    /// Number of slots written so far.
    pub cardinality: u16,
    /// Number of slots of the ring.
    pub cardinality_next: u16,
}

/// Observation `i` takes part in a search: it was written, and slots other
/// than the first are skipped while their block is zero.
pub open spec fn scanned(o: Seq<Observation>, card: nat, i: int) -> bool {
    0 <= i < card && i < o.len() && !(o[i].block_number == 0 && i > 0)
}

/// `(a + b) mod 2^128`.
pub open spec fn wrap_add(a: u128, b: int) -> u128 {
    ((a + b) % (u128::MAX + 1)) as u128
}

/// `(a - b) mod 2^128`.
pub open spec fn wrap_sub(a: u128, b: u128) -> u128 {
    ((a - b) % (u128::MAX + 1)) as u128
}

/// Average price from `target` to the observation `current`, given the
/// cumulative at `target`; none when `current` is not after `target`.
pub open spec fn average_since(current: Observation, target: u64, target_cum: u128) -> Option<u128> {
    if current.block_number > target {
        Some(
            (wrap_sub(current.price_cumulative, target_cum) as int / (current.block_number
                - target) as int) as u128,
        )
    } else {
        None
    }
}

/// The newest of the first `n` slots that is scanned and at or before `target`
/// (the first one found among equal blocks).
pub open spec fn scan_before(o: Seq<Observation>, card: nat, target: u64, n: nat) -> Option<Observation>
    decreases n,
{
    if n == 0 {
        None
    } else {
        let prev = scan_before(o, card, target, (n - 1) as nat);
        let k = n - 1;
        if scanned(o, card, k) && o[k].block_number <= target {
            match prev {
                Some(b) => if o[k].block_number > b.block_number {
                    Some(o[k])
                } else {
                    prev
                },
                None => Some(o[k]),
            }
        } else {
            prev
        }
    }
}

proof fn lemma_scan_before_at_or_before(o: Seq<Observation>, card: nat, target: u64, n: nat)
    ensures
        scan_before(o, card, target, n) matches Some(b) ==> b.block_number <= target,
    decreases n,
{
    if n > 0 {
        lemma_scan_before_at_or_before(o, card, target, (n - 1) as nat);
    }
}

/// The oldest of the first `n` slots that is scanned and after `target`
/// (the first one found among equal blocks).
pub open spec fn scan_after(o: Seq<Observation>, card: nat, target: u64, n: nat) -> Option<Observation>
    decreases n,
{
    if n == 0 {
        None
    } else {
        let prev = scan_after(o, card, target, (n - 1) as nat);
        let k = n - 1;
        if scanned(o, card, k) && o[k].block_number > target {
            match prev {
                Some(a) => if o[k].block_number < a.block_number {
                    Some(o[k])
                } else {
                    prev
                },
                None => Some(o[k]),
            }
        } else {
            prev
        }
    }
}

/// The observations around `target`: the newest written one at or before it,
/// and the oldest after it, or the newest observation when none is after it.
pub open spec fn surrounding_spec(s: &OracleState, target: u64) -> Result<(Observation, Observation), MathError> {
    let o = s.observations@;
    let card = s.cardinality as nat;
    match scan_before(o, card, target, card) {
        None => Err(MathError::InsufficientInput),
        Some(b) => Ok(
            (
                b,
                match scan_after(o, card, target, card) {
                    Some(a) => a,
                    None => o[s.index as int],
                },
            ),
        ),
    }
}

/// Cumulative at `target`, interpolated linearly between `before` and `after`.
pub open spec fn target_cumulative(before: Observation, after: Observation, target: u64) -> Result<u128, MathError> {
    let span = target - before.block_number;
    let diff = wrap_sub(after.price_cumulative, before.price_cumulative);
    if before.block_number == target {
        Ok(before.price_cumulative)
    } else if after.block_number <= before.block_number {
        Err(MathError::InsufficientInput)
    } else if diff * span > u128::MAX {
        Err(MathError::Overflow)
    } else {
        Ok(
            wrap_add(
                before.price_cumulative,
                (diff * span) / ((after.block_number - before.block_number) as int),
            ),
        )
    }
}

/// What `consult` returns for the period that starts at `target`.
pub open spec fn consult_rule(s: &OracleState, target: u64) -> Result<u128, MathError> {
    let current = s.observations@[s.index as int];
    if s.cardinality < 2 {
        Err(MathError::InsufficientInput)
    } else {
        match surrounding_spec(s, target) {
            Err(e) => Err(e),
            Ok((b, a)) => match target_cumulative(b, a, target) {
                Err(e) => Err(e),
                Ok(tc) => match average_since(current, target, tc) {
                    None => Err(MathError::InsufficientInput),
                    Some(v) => Ok(v),
                },
            },
        }
    }
}

proof fn lemma_wrapping_sub(a: u128, b: u128, r: u128)
    requires
        r == a.wrapping_sub(b),
    ensures
        r == wrap_sub(a, b),
{
    let m = u128::MAX + 1;
    if a >= b {
        vstd::arithmetic::div_mod::lemma_small_mod((a - b) as nat, m as nat);
    } else {
        vstd::arithmetic::div_mod::lemma_mod_add_multiples_vanish(a - b, m);
        vstd::arithmetic::div_mod::lemma_small_mod((a - b + m) as nat, m as nat);
    }
}

proof fn lemma_wrapping_add(a: u128, b: u128, r: u128)
    requires
        r == a.wrapping_add(b),
    ensures
        r == wrap_add(a, b as int),
{
    let m = u128::MAX + 1;
    if a + b <= u128::MAX {
        vstd::arithmetic::div_mod::lemma_small_mod((a + b) as nat, m as nat);
    } else {
        vstd::arithmetic::div_mod::lemma_mod_sub_multiples_vanish(a + b, m);
        vstd::arithmetic::div_mod::lemma_small_mod((a + b - m) as nat, m as nat);
    }
}

/// The cumulative at `target`, interpolated between `before` and `after`.
fn cumulative_at(before: Observation, after: Observation, target: u64) -> (r: Result<u128, MathError>)
    requires
        before.block_number <= target,
    ensures
        r == target_cumulative(before, after, target),
{
    if before.block_number == target {
        return Ok(before.price_cumulative);
    }
    if after.block_number <= before.block_number {
        return Err(MathError::InsufficientInput);
    }
    let block_delta = after.block_number - before.block_number;
    let price_delta = after.price_cumulative.wrapping_sub(before.price_cumulative);
    proof {
        lemma_wrapping_sub(after.price_cumulative, before.price_cumulative, price_delta);
    }
    let target_delta = target - before.block_number;
    let scaled = match price_delta.checked_mul(target_delta as u128) {
        Some(v) => v,
        None => {
            return Err(MathError::Overflow);
        },
    };
    let q = scaled / block_delta as u128;
    let c = before.price_cumulative.wrapping_add(q);
    proof {
        lemma_wrapping_add(before.price_cumulative, q, c);
    }
    Ok(c)
}

impl OracleState {
    /// The ring has `cardinality_next` slots and its counters stay inside it.
    pub open spec fn wf(&self) -> bool {
        &&& self.observations@.len() == self.cardinality_next
        &&& self.cardinality_next > 0
        &&& self.index < self.cardinality_next
        &&& self.cardinality <= self.cardinality_next
    }

    /// An empty ring of `max_cardinality` slots.
    pub fn new(max_cardinality: u16) -> (r: Self)
        ensures
            r.observations@.len() == max_cardinality,
            forall|i: int|
                0 <= i < max_cardinality ==> r.observations@[i].block_number == 0
                    && r.observations@[i].price_cumulative == 0,
            r.index == 0,
            r.cardinality == 0,
            r.cardinality_next == max_cardinality,
            max_cardinality > 0 ==> r.wf(),
    {
        let mut observations: Vec<Observation> = Vec::new();
        let mut i: u16 = 0;
        while i < max_cardinality
            invariant
                i <= max_cardinality,
                observations@.len() == i,
                forall|k: int|
                    0 <= k < i ==> observations@[k].block_number == 0
                        && observations@[k].price_cumulative == 0,
            decreases max_cardinality - i,
        {
            observations.push(Observation { block_number: 0, price_cumulative: 0 });
            i = i + 1;
        }
        OracleState { observations, index: 0, cardinality: 0, cardinality_next: max_cardinality }
    }

    /// Records the first observation in slot 0.
    pub fn initialize(&mut self, initial_price: u128, block_number: u64)
        requires
            old(self).wf(),
        ensures
            final(self).wf(),
            final(self).observations@ == old(self).observations@.update(
                0,
                Observation { block_number, price_cumulative: initial_price },
            ),
            final(self).index == 0,
            final(self).cardinality == 1,
            final(self).cardinality_next == old(self).cardinality_next,
    {
        self.observations.set(0, Observation { block_number, price_cumulative: initial_price });
        self.index = 0;
        self.cardinality = 1;
    }

    /// Appends an observation for `block_number`, accumulating
    /// `price * (block_number - last block)` (wrapping) onto the newest one;
    /// nothing happens when no block has passed.
    pub fn write(&mut self, price: u128, block_number: u64)
        requires
            old(self).wf(),
            block_number >= old(self).observations@[old(self).index as int].block_number,
        ensures
            final(self).wf(),
            final(self).cardinality_next == old(self).cardinality_next,
            ({
                let last = old(self).observations@[old(self).index as int];
                if block_number == last.block_number {
                    *final(self) == *old(self)
                } else {
                    let next = (old(self).index + 1) % (old(self).cardinality_next as int);
                    &&& final(self).index == next
                    &&& final(self).observations@ == old(self).observations@.update(
                        next as int,
                        Observation {
                            block_number,
                            price_cumulative: wrap_add(
                                last.price_cumulative,
                                ((price * (block_number - last.block_number)) % (u128::MAX + 1)),
                            ),
                        },
                    )
                    &&& final(self).cardinality == if old(self).cardinality < old(
                        self,
                    ).cardinality_next {
                        old(self).cardinality + 1
                    } else {
                        old(self).cardinality as int
                    }
                }
            }),
    {
        let last = self.observations[self.index as usize];
        if block_number == last.block_number {
            return;
        }
        let delta = block_number - last.block_number;
        let increment = price.wrapping_mul(delta as u128);
        let new_cumulative = last.price_cumulative.wrapping_add(increment);
        let index_next = ((self.index as u32 + 1) % self.cardinality_next as u32) as u16;
        self.observations.set(
            index_next as usize,
            Observation { block_number, price_cumulative: new_cumulative },
        );
        self.index = index_next;
        if self.cardinality < self.cardinality_next {
            self.cardinality = self.cardinality + 1;
        }
    }

    /// Average price over the `period_blocks` blocks before `current_block`:
    /// the cumulative at the period start is interpolated between the
    /// observations around it, and the difference to the newest cumulative
    /// (wrapping) is divided by the blocks between them.
    pub fn consult(&self, period_blocks: u64, current_block: u64) -> (r: Result<u128, MathError>)
        requires
            self.wf(),
            period_blocks <= current_block,
        ensures
            r == consult_rule(self, (current_block - period_blocks) as u64),
    {
        if self.cardinality < 2 {
            return Err(MathError::InsufficientInput);
        }
        let target_block = current_block - period_blocks;
        let current = self.observations[self.index as usize];
        let (before, after) = match self.get_surrounding_observations(target_block) {
            Ok(pair) => pair,
            Err(e) => {
                return Err(e);
            },
        };
        proof {
            lemma_scan_before_at_or_before(
                self.observations@,
                self.cardinality as nat,
                target_block,
                self.cardinality as nat,
            );
        }
        let target_cumulative = match cumulative_at(before, after, target_block) {
            Ok(c) => c,
            Err(e) => {
                return Err(e);
            },
        };
        if current.block_number <= target_block {
            return Err(MathError::InsufficientInput);
        }
        let cumulative_delta = current.price_cumulative.wrapping_sub(target_cumulative);
        proof {
            lemma_wrapping_sub(current.price_cumulative, target_cumulative, cumulative_delta);
        }
        let block_delta = current.block_number - target_block;
        Ok(cumulative_delta / block_delta as u128)
    }

    /// The newest written observation at or before `target`, and the oldest
    /// after it (or the newest observation when none is after it).
    fn get_surrounding_observations(&self, target: u64) -> (r: Result<
        (Observation, Observation),
        MathError,
    >)
        requires
            self.wf(),
        ensures
            r == surrounding_spec(self, target),
    {
        let ghost o = self.observations@;
        let ghost card = self.cardinality as nat;
        let mut best_before: Option<Observation> = None;
        let mut best_after: Option<Observation> = None;
        let mut i: u16 = 0;
        while i < self.cardinality
            invariant
                self.wf(),
                o == self.observations@,
                card == self.cardinality,
                i <= self.cardinality,
                best_before == scan_before(o, card, target, i as nat),
                best_after == scan_after(o, card, target, i as nat),
            decreases self.cardinality - i,
        {
            let idx = i as usize;
            let obs = self.observations[idx];
            if !(obs.block_number == 0 && i > 0) {
                if obs.block_number <= target {
                    match best_before {
                        None => {
                            best_before = Some(obs);
                        },
                        Some(b) => {
                            if obs.block_number > b.block_number {
                                best_before = Some(obs);
                            }
                        },
                    }
                } else {
                    match best_after {
                        None => {
                            best_after = Some(obs);
                        },
                        Some(a) => {
                            if obs.block_number < a.block_number {
                                best_after = Some(obs);
                            }
                        },
                    }
                }
            }
            i = i + 1;
        }
        let before = match best_before {
            Some(b) => b,
            None => {
                return Err(MathError::InsufficientInput);
            },
        };
        let after = match best_after {
            Some(a) => a,
            None => self.observations[self.index as usize],
        };
        Ok((before, after))
    }
}

/// A window of `Δ` blocks over which the cumulative grew by between
/// `p_min · Δ` and `p_max · Δ` averages to a price in `[p_min, p_max]`.
pub proof fn lemma_average_between(
    current: Observation,
    target: u64,
    target_cum: u128,
    p_min: nat,
    p_max: nat,
)
    requires
        current.block_number > target,
        p_min * (current.block_number - target) <= wrap_sub(current.price_cumulative, target_cum),
        wrap_sub(current.price_cumulative, target_cum) <= p_max * (current.block_number - target),
    ensures
        average_since(current, target, target_cum) matches Some(v) && p_min <= v <= p_max,
{
    let d = (current.block_number - target) as int;
    let x = wrap_sub(current.price_cumulative, target_cum) as int;
    vstd::arithmetic::div_mod::lemma_fundamental_div_mod(x, d);
    vstd::arithmetic::div_mod::lemma_mod_bound(x, d);
    assert(p_min <= x / d <= p_max) by (nonlinear_arith)
        requires
            d > 0,
            p_min * d <= x,
            x <= p_max * d,
            x == d * (x / d) + x % d,
            0 <= x % d < d,
    ;
    vstd::arithmetic::div_mod::lemma_div_is_ordered_by_denominator(x, 1, d);
}

} // verus!
