//! The consumption meter and the discount and reward engine.
//!
//! A consumption report is converted into cost with 64.64 fixed-point
//! arithmetic: storage and compute cost scale with the seconds elapsed
//! since the last accounted report, network cost is the delta of a
//! monotonic counter, and rounding is a single ceiling at the final
//! conversion to whole units, so the provider is never underpaid. A billed
//! amount is then reduced by a balance-proportional discount tier and split
//! among foundation, certified-sales and farmer accounts.
//!
//! Two conventions are fixed here once and for all: sub-costs are summed
//! at full precision and the ceiling is taken only on the sum, and
//! `previous_nu_reported` always records the last-seen value of the
//! network counter (rounded up to whole units), whether or not the
//! counter advanced.

use vstd::prelude::*;
use crate::contracts::{Consumption, ContractBillingInformation, DiscountLevel, Error};
use crate::fixed::{ceil_units, mul_raw, Fixed, SCALE};
use crate::types::{unit_factor, CertificationType, PricingPolicy};

verus! {

/// Raw fixed-point value of `amount` bytes expressed in units of `factor`
/// bytes each.
pub open spec fn units_raw(amount: u64, factor: u128) -> int {
    (amount * (SCALE as int)) / (factor as int)
}

/// Raw fixed-point per-second rate of a policy entry whose `value` is a
/// price per hour.
pub open spec fn rate_per_second_raw(value: u32) -> int {
    (value * (SCALE as int)) / 3600
}

/// Raw storage units of a report: disk spread over 1200 hours plus SSD
/// spread over 300 hours, in the storage policy's unit.
pub open spec fn su_used_raw(r: Consumption, p: PricingPolicy) -> int {
    units_raw(r.hru, unit_factor(p.su.unit)) / 1200 + units_raw(r.sru, unit_factor(p.su.unit))
        / 300
}

/// Raw compute units of a report: the smaller of memory over 4 and cores
/// over 2, in the compute policy's unit.
pub open spec fn cu_used_raw(r: Consumption, p: PricingPolicy) -> int {
    let mru_used = units_raw(r.mru, unit_factor(p.cu.unit)) / 4;
    let cru_used = (r.cru * (SCALE as int)) / 2;
    if mru_used < cru_used {
        mru_used
    } else {
        cru_used
    }
}

/// Raw storage cost over `elapsed` seconds.
pub open spec fn su_cost_raw(r: Consumption, p: PricingPolicy, elapsed: int) -> int {
    mul_raw(rate_per_second_raw(p.su.value) * elapsed, su_used_raw(r, p))
}

/// Raw compute cost over `elapsed` seconds.
pub open spec fn cu_cost_raw(r: Consumption, p: PricingPolicy, elapsed: int) -> int {
    mul_raw(rate_per_second_raw(p.cu.value) * elapsed, cu_used_raw(r, p))
}

/// Raw network-usage counter of a report, in the network policy's unit.
pub open spec fn nru_units_raw(r: Consumption, p: PricingPolicy) -> int {
    units_raw(r.nru, unit_factor(p.nu.unit))
}

/// Raw network cost: the advance of the monotonic counter past the last
/// reported value, priced at the network rate; a counter that went
/// backward is treated as zero additional usage, never negative.
pub open spec fn nu_cost_raw(r: Consumption, p: PricingPolicy, previous_nu: u64) -> int {
    let nru = nru_units_raw(r, p);
    if nru > previous_nu * (SCALE as int) {
        mul_raw(nru - previous_nu * (SCALE as int), rate_per_second_raw(p.nu.value))
    } else {
        0
    }
}

/// Raw total cost of one report against the current billing state.
pub open spec fn total_cost_raw(r: Consumption, p: PricingPolicy, info: ContractBillingInformation) -> int {
    let elapsed = r.timestamp - info.last_updated;
    su_cost_raw(r, p, elapsed) + cu_cost_raw(r, p, elapsed) + nu_cost_raw(
        r,
        p,
        info.previous_nu_reported,
    )
}

/// Whole units charged for one report: the ceiling of the raw total, the
/// only rounding step of the pipeline.
pub open spec fn report_units(r: Consumption, p: PricingPolicy, info: ContractBillingInformation) -> int {
    ceil_units(total_cost_raw(r, p, info))
}

/// Whether the cost of one report stays within the machine's arithmetic
/// range; a report outside it is rejected rather than miscounted.
pub open spec fn accrue_fits(r: Consumption, p: PricingPolicy, info: ContractBillingInformation) -> bool {
    r.timestamp < info.last_updated || {
        let elapsed = r.timestamp - info.last_updated;
        &&& su_used_raw(r, p) <= u128::MAX
        &&& rate_per_second_raw(p.su.value) * elapsed <= u128::MAX
        &&& su_cost_raw(r, p, elapsed) <= u128::MAX
        &&& rate_per_second_raw(p.cu.value) * elapsed <= u128::MAX
        &&& cu_cost_raw(r, p, elapsed) <= u128::MAX
        &&& nu_cost_raw(r, p, info.previous_nu_reported) <= u128::MAX
        &&& su_cost_raw(r, p, elapsed) + cu_cost_raw(r, p, elapsed) <= u128::MAX
        &&& total_cost_raw(r, p, info) <= u128::MAX
        &&& report_units(r, p, info) <= u64::MAX
        &&& ceil_units(nru_units_raw(r, p)) <= u64::MAX
        &&& info.amount_unbilled + report_units(r, p, info) <= u64::MAX
    }
}

/// Billing state after accounting one report: a stale report (timestamp in
/// the past) changes nothing; otherwise the charge is added to the unbilled
/// amount, the last-seen network counter and timestamp advance.
pub open spec fn accrue_spec(r: Consumption, p: PricingPolicy, info: ContractBillingInformation) -> ContractBillingInformation {
    if r.timestamp < info.last_updated {
        info
    } else {
        ContractBillingInformation {
            previous_nu_reported: ceil_units(nru_units_raw(r, p)) as u64,
            last_updated: r.timestamp,
            amount_unbilled: (info.amount_unbilled + report_units(r, p, info)) as u64,
        }
    }
}

/// Accounts one consumption report against a contract's billing state.
///
/// Returns the updated state, or an error when the report's cost exceeds
/// the arithmetic range, in which case nothing is charged.
pub fn accrue(report: &Consumption, policy: &PricingPolicy, info: &ContractBillingInformation) -> (r: Result<ContractBillingInformation, Error>)
    ensures
        accrue_fits(*report, *policy, *info) ==> r == Ok::<ContractBillingInformation, Error>(
            accrue_spec(*report, *policy, *info),
        ),
        !accrue_fits(*report, *policy, *info) ==> r == Err::<ContractBillingInformation, Error>(
            Error::CostOverflow,
        ),
{
    if report.timestamp < info.last_updated {
        return Ok(*info);
    }
    let elapsed: u64 = report.timestamp - info.last_updated;

    let f_su: u128 = policy.su.factor();
    let hru = Fixed::from_u64(report.hru).div_int(f_su);
    let sru = Fixed::from_u64(report.sru).div_int(f_su);
    let su_used = match hru.div_int(1200).checked_add(sru.div_int(300)) {
        Some(x) => x,
        None => {
            return Err(Error::CostOverflow);
        },
    };
    let su_rate = Fixed::from_u64(policy.su.value as u64).div_int(3600);
    let su_rate_elapsed = match su_rate.checked_mul_int(elapsed as u128) {
        Some(x) => x,
        None => {
            return Err(Error::CostOverflow);
        },
    };
    let su_cost = match su_rate_elapsed.checked_mul(su_used) {
        Some(x) => x,
        None => {
            return Err(Error::CostOverflow);
        },
    };

    let f_cu: u128 = policy.cu.factor();
    let mru_used = Fixed::from_u64(report.mru).div_int(f_cu).div_int(4);
    let cru_used = Fixed::from_u64(report.cru).div_int(2);
    let cu_used = if mru_used.raw < cru_used.raw {
        mru_used
    } else {
        cru_used
    };
    let cu_rate = Fixed::from_u64(policy.cu.value as u64).div_int(3600);
    let cu_rate_elapsed = match cu_rate.checked_mul_int(elapsed as u128) {
        Some(x) => x,
        None => {
            return Err(Error::CostOverflow);
        },
    };
    let cu_cost = match cu_rate_elapsed.checked_mul(cu_used) {
        Some(x) => x,
        None => {
            return Err(Error::CostOverflow);
        },
    };

    let f_nu: u128 = policy.nu.factor();
    let used_nru = Fixed::from_u64(report.nru).div_int(f_nu);
    let prev = Fixed::from_u64(info.previous_nu_reported);
    let nu_rate = Fixed::from_u64(policy.nu.value as u64).div_int(3600);
    let nu_cost = if used_nru.gt(prev) {
        match used_nru.sub(prev).checked_mul(nu_rate) {
            Some(x) => x,
            None => {
                return Err(Error::CostOverflow);
            },
        }
    } else {
        Fixed { raw: 0 }
    };

    let storage_and_compute = match su_cost.checked_add(cu_cost) {
        Some(x) => x,
        None => {
            return Err(Error::CostOverflow);
        },
    };
    let total_fixed = match storage_and_compute.checked_add(nu_cost) {
        Some(x) => x,
        None => {
            return Err(Error::CostOverflow);
        },
    };
    let total = match total_fixed.checked_ceil_u64() {
        Some(x) => x,
        None => {
            return Err(Error::CostOverflow);
        },
    };
    let new_previous_nu = match used_nru.checked_ceil_u64() {
        Some(x) => x,
        None => {
            return Err(Error::CostOverflow);
        },
    };
    if info.amount_unbilled > u64::MAX - total {
        return Err(Error::CostOverflow);
    }
    Ok(
        ContractBillingInformation {
            previous_nu_reported: new_previous_nu,
            last_updated: report.timestamp,
            amount_unbilled: info.amount_unbilled + total,
        },
    )
}

/// Billing state after a whole sequence of reports, accounted in order.
pub open spec fn accrue_all_spec(reports: Seq<Consumption>, p: PricingPolicy, info: ContractBillingInformation) -> ContractBillingInformation
    decreases reports.len(),
{
    if reports.len() == 0 {
        info
    } else {
        accrue_all_spec(reports.drop_first(), p, accrue_spec(reports.first(), p, info))
    }
}

/// Whether every report of a sequence stays within the arithmetic range
/// when accounted in order.
pub open spec fn accrue_all_fits(reports: Seq<Consumption>, p: PricingPolicy, info: ContractBillingInformation) -> bool
    decreases reports.len(),
{
    reports.len() == 0 || {
        &&& accrue_fits(reports.first(), p, info)
        &&& accrue_all_fits(reports.drop_first(), p, accrue_spec(reports.first(), p, info))
    }
}

/// Billing states of all contracts after accounting a batch of reports in
/// order; each report addresses the entry `contract_id - 1`.
pub open spec fn apply_reports(
    infos: Seq<ContractBillingInformation>,
    reports: Seq<Consumption>,
    p: PricingPolicy,
) -> Seq<ContractBillingInformation>
    decreases reports.len(),
{
    if reports.len() == 0 {
        infos
    } else {
        let r = reports.first();
        let updated = infos.update(r.contract_id - 1, accrue_spec(r, p, infos[r.contract_id - 1]));
        apply_reports(updated, reports.drop_first(), p)
    }
}

/// Whether every report of a batch stays within the arithmetic range when
/// the batch is accounted in order.
pub open spec fn apply_reports_fit(
    infos: Seq<ContractBillingInformation>,
    reports: Seq<Consumption>,
    p: PricingPolicy,
) -> bool
    decreases reports.len(),
{
    reports.len() == 0 || {
        let r = reports.first();
        &&& accrue_fits(r, p, infos[r.contract_id - 1])
        &&& apply_reports_fit(
            infos.update(r.contract_id - 1, accrue_spec(r, p, infos[r.contract_id - 1])),
            reports.drop_first(),
            p,
        )
    }
}

/// Accounting one more report at the end of a batch extends the fold by
/// one step.
pub proof fn lemma_apply_reports_push(
    infos: Seq<ContractBillingInformation>,
    reports: Seq<Consumption>,
    r: Consumption,
    p: PricingPolicy,
)
    requires
        forall|j: int|
            0 <= j < reports.len() ==> 1 <= (#[trigger] reports[j]).contract_id <= infos.len(),
        1 <= r.contract_id <= infos.len(),
    ensures
        apply_reports(infos, reports.push(r), p) == apply_reports(infos, reports, p).update(
            r.contract_id - 1,
            accrue_spec(r, p, apply_reports(infos, reports, p)[r.contract_id - 1]),
        ),
        apply_reports_fit(infos, reports.push(r), p) == (apply_reports_fit(infos, reports, p)
            && accrue_fits(r, p, apply_reports(infos, reports, p)[r.contract_id - 1])),
    decreases reports.len(),
{
    if reports.len() == 0 {
        assert(reports.push(r).first() == r);
        assert(reports.push(r).drop_first() =~= Seq::<Consumption>::empty());
        assert(apply_reports(infos, reports.push(r), p) == apply_reports(
            infos.update(r.contract_id - 1, accrue_spec(r, p, infos[r.contract_id - 1])),
            reports.push(r).drop_first(),
            p,
        ));
        assert(apply_reports(infos, reports, p) == infos);
        assert(apply_reports_fit(infos, reports.push(r), p) == (accrue_fits(
            r,
            p,
            infos[r.contract_id - 1],
        ) && apply_reports_fit(
            infos.update(r.contract_id - 1, accrue_spec(r, p, infos[r.contract_id - 1])),
            reports.push(r).drop_first(),
            p,
        )));
        assert(apply_reports_fit(
            infos.update(r.contract_id - 1, accrue_spec(r, p, infos[r.contract_id - 1])),
            reports.push(r).drop_first(),
            p,
        ));
        assert(apply_reports_fit(infos, reports, p));
    } else {
        let first = reports.first();
        let updated = infos.update(
            first.contract_id - 1,
            accrue_spec(first, p, infos[first.contract_id - 1]),
        );
        assert(forall|j: int|
            0 <= j < reports.drop_first().len() ==> #[trigger] reports.drop_first()[j]
                == reports[j + 1]);
        assert(updated.len() == infos.len());
        assert(reports.push(r).first() == first);
        assert(reports.push(r).drop_first() =~= reports.drop_first().push(r));
        assert(apply_reports(infos, reports.push(r), p) == apply_reports(
            updated,
            reports.drop_first().push(r),
            p,
        ));
        assert(apply_reports_fit(infos, reports.push(r), p) == (accrue_fits(
            first,
            p,
            infos[first.contract_id - 1],
        ) && apply_reports_fit(updated, reports.drop_first().push(r), p)));
        lemma_apply_reports_push(updated, reports.drop_first(), r, p);
        assert(apply_reports(infos, reports, p) == apply_reports(updated, reports.drop_first(), p));
        assert(apply_reports_fit(infos, reports, p) == (accrue_fits(
            first,
            p,
            infos[first.contract_id - 1],
        ) && apply_reports_fit(updated, reports.drop_first(), p)));
    }
}

/// The raw cost of a report is never negative.
proof fn lemma_total_cost_nonneg(r: Consumption, p: PricingPolicy, info: ContractBillingInformation)
    requires
        r.timestamp >= info.last_updated,
    ensures
        0 <= total_cost_raw(r, p, info),
{
    let s = SCALE as int;
    let elapsed = r.timestamp - info.last_updated;
    lemma_units_nonneg(r.hru, unit_factor(p.su.unit));
    lemma_units_nonneg(r.sru, unit_factor(p.su.unit));
    lemma_units_nonneg(r.mru, unit_factor(p.cu.unit));
    lemma_units_nonneg(r.nru, unit_factor(p.nu.unit));
    lemma_div_nonneg(units_raw(r.hru, unit_factor(p.su.unit)), 1200);
    lemma_div_nonneg(units_raw(r.sru, unit_factor(p.su.unit)), 300);
    lemma_div_nonneg(units_raw(r.mru, unit_factor(p.cu.unit)), 4);
    lemma_units_nonneg(r.cru, 2);
    lemma_rate_nonneg(p.su.value);
    lemma_rate_nonneg(p.cu.value);
    lemma_rate_nonneg(p.nu.value);
    vstd::arithmetic::mul::lemma_mul_nonnegative(rate_per_second_raw(p.su.value), elapsed);
    vstd::arithmetic::mul::lemma_mul_nonnegative(rate_per_second_raw(p.cu.value), elapsed);
    lemma_mul_raw_nonneg(rate_per_second_raw(p.su.value) * elapsed, su_used_raw(r, p));
    lemma_mul_raw_nonneg(rate_per_second_raw(p.cu.value) * elapsed, cu_used_raw(r, p));
    let nru = nru_units_raw(r, p);
    let prev = info.previous_nu_reported;
    if nru > prev * s {
        lemma_mul_raw_nonneg(nru - prev * s, rate_per_second_raw(p.nu.value));
    }
}

/// Units charged for a report are never negative.
proof fn lemma_report_units_nonneg(r: Consumption, p: PricingPolicy, info: ContractBillingInformation)
    requires
        r.timestamp >= info.last_updated,
    ensures
        0 <= report_units(r, p, info),
{
    lemma_total_cost_nonneg(r, p, info);
    lemma_div_nonneg(total_cost_raw(r, p, info), SCALE as int);
}

proof fn lemma_units_nonneg(amount: u64, factor: u128)
    requires
        factor > 0,
    ensures
        0 <= units_raw(amount, factor),
{
    vstd::arithmetic::mul::lemma_mul_nonnegative(amount as int, SCALE as int);
    lemma_div_nonneg(amount * (SCALE as int), factor as int);
}

proof fn lemma_rate_nonneg(value: u32)
    ensures
        0 <= rate_per_second_raw(value),
{
    vstd::arithmetic::mul::lemma_mul_nonnegative(value as int, SCALE as int);
    lemma_div_nonneg(value * (SCALE as int), 3600);
}

proof fn lemma_div_nonneg(x: int, d: int)
    requires
        0 <= x,
        0 < d,
    ensures
        0 <= x / d,
{
    vstd::arithmetic::div_mod::lemma_div_pos_is_pos(x, d);
}

proof fn lemma_mul_raw_nonneg(a: int, b: int)
    requires
        0 <= a,
        0 <= b,
    ensures
        0 <= mul_raw(a, b),
{
    vstd::arithmetic::mul::lemma_mul_nonnegative(a, b);
    lemma_div_nonneg(a * b, SCALE as int);
}

/// One report never decreases the unbilled amount: a stale report leaves
/// it unchanged and any other report adds a non-negative charge.
pub proof fn lemma_accrue_monotonic(r: Consumption, p: PricingPolicy, info: ContractBillingInformation)
    requires
        accrue_fits(r, p, info),
    ensures
        accrue_spec(r, p, info).amount_unbilled >= info.amount_unbilled,
{
    if r.timestamp >= info.last_updated {
        lemma_report_units_nonneg(r, p, info);
    }
}

/// Monotonic billing law: over any sequence of consumption reports the
/// unbilled amount never decreases between billing fires.
pub proof fn lemma_billing_monotonic(reports: Seq<Consumption>, p: PricingPolicy, info: ContractBillingInformation)
    requires
        accrue_all_fits(reports, p, info),
    ensures
        accrue_all_spec(reports, p, info).amount_unbilled >= info.amount_unbilled,
    decreases reports.len(),
{
    if reports.len() > 0 {
        lemma_accrue_monotonic(reports.first(), p, info);
        lemma_billing_monotonic(reports.drop_first(), p, accrue_spec(reports.first(), p, info));
    }
}

/// Discount tier granted by the ratio of the payer's balance to a month of
/// this cost: below 3 months none, from 3 the default rate, from 6 bronze,
/// from 12 silver, from 36 gold.
pub open spec fn spec_discount_level(amount_due: u128, balance: u128) -> DiscountLevel
    recommends
        amount_due > 0,
{
    let ratio = balance as int / (amount_due as int * 720);
    if ratio >= 36 {
        DiscountLevel::Gold
    } else if ratio >= 12 {
        DiscountLevel::Silver
    } else if ratio >= 6 {
        DiscountLevel::Bronze
    } else if ratio >= 3 {
        DiscountLevel::DefaultDiscount
    } else {
        DiscountLevel::NoDiscount
    }
}

/// Numerator of a tier's effective price multiplier, out of 10: no
/// discount pays in full, the default tier 20% off, bronze 30%, silver
/// 40%, gold 60%.
pub open spec fn spec_multiplier_num(level: DiscountLevel) -> int {
    match level {
        DiscountLevel::NoDiscount => 10,
        DiscountLevel::DefaultDiscount => 8,
        DiscountLevel::Bronze => 7,
        DiscountLevel::Silver => 6,
        DiscountLevel::Gold => 4,
    }
}

/// Ceiling division for non-negative operands.
pub open spec fn ceil_div(x: int, d: int) -> int
    recommends
        0 <= x,
        0 < d,
{
    if x % d == 0 {
        x / d
    } else {
        x / d + 1
    }
}

/// Amount due after the discount, rounded up once; certified capacity
/// costs 25% more, so its denominator is 8 instead of 10.
pub open spec fn spec_discounted_amount(amount_due: u128, level: DiscountLevel, certification: CertificationType) -> int {
    if certification == CertificationType::Certified {
        ceil_div(amount_due * spec_multiplier_num(level), 8)
    } else {
        ceil_div(amount_due * spec_multiplier_num(level), 10)
    }
}

/// Computes the discount tier for a raw amount due against the payer's
/// balance, and the discounted amount to charge.
pub fn calculate_discount(amount_due: u128, balance: u128, certification: CertificationType) -> (r: (u128, DiscountLevel))
    requires
        amount_due > 0,
        amount_due <= u128::MAX / 720,
    ensures
        r.1 == spec_discount_level(amount_due, balance),
        r.0 == spec_discounted_amount(amount_due, r.1, certification),
        r.0 <= 2 * amount_due,
{
    proof {
        vstd::arithmetic::mul::lemma_mul_inequality(
            amount_due as int,
            (u128::MAX / 720) as int,
            720,
        );
        vstd::arithmetic::div_mod::lemma_fundamental_div_mod(u128::MAX as int, 720);
        vstd::arithmetic::div_mod::lemma_mod_division_less_than_divisor(u128::MAX as int, 720);
    }
    let monthly: u128 = amount_due * 720;
    let ratio: u128 = balance / monthly;
    let level = if ratio >= 36 {
        DiscountLevel::Gold
    } else if ratio >= 12 {
        DiscountLevel::Silver
    } else if ratio >= 6 {
        DiscountLevel::Bronze
    } else if ratio >= 3 {
        DiscountLevel::DefaultDiscount
    } else {
        DiscountLevel::NoDiscount
    };
    let num: u128 = match level {
        DiscountLevel::NoDiscount => 10,
        DiscountLevel::DefaultDiscount => 8,
        DiscountLevel::Bronze => 7,
        DiscountLevel::Silver => 6,
        DiscountLevel::Gold => 4,
    };
    proof {
        vstd::arithmetic::mul::lemma_mul_inequality(num as int, 720, amount_due as int);
        vstd::arithmetic::mul::lemma_mul_is_commutative(num as int, amount_due as int);
    }
    let product: u128 = amount_due * num;
    let denominator: u128 = if certification == CertificationType::Certified {
        8
    } else {
        10
    };
    let quotient: u128 = product / denominator;
    let remainder: u128 = product % denominator;
    proof {
        vstd::arithmetic::div_mod::lemma_fundamental_div_mod(
            product as int,
            denominator as int,
        );
        vstd::arithmetic::div_mod::lemma_mod_division_less_than_divisor(
            product as int,
            denominator as int,
        );
        lemma_div_nonneg(product as int, denominator as int);
        assert(quotient + 1 <= 2 * amount_due) by (nonlinear_arith)
            requires
                product == denominator * quotient + remainder,
                0 <= remainder,
                0 <= quotient,
                product <= 10 * amount_due,
                denominator == 8 || denominator == 10,
                1 <= amount_due,
        ;
    }
    let discounted: u128 = if remainder == 0 {
        quotient
    } else {
        quotient + 1
    };
    (discounted, level)
}

/// Foundation share of a billed amount: 30%, rounded down.
pub open spec fn spec_foundation_share(amount: u128) -> int {
    (amount * 3) / 10
}

/// Certified-sales share of a billed amount: 60%, rounded down, or nothing
/// when the deployer rents capacity on their own farm.
pub open spec fn spec_sales_share(amount: u128, self_hosted: bool) -> int {
    if self_hosted {
        0
    } else {
        (amount * 6) / 10
    }
}

/// Farmer share of a billed amount: the exact remainder, so the three
/// shares always conserve the amount.
pub open spec fn spec_farmer_share(amount: u128, self_hosted: bool) -> int {
    amount - spec_foundation_share(amount) - spec_sales_share(amount, self_hosted)
}

/// Splits one billed amount into the foundation, certified-sales and
/// farmer shares. The three shares sum to the amount exactly: the split
/// never over- or under-pays.
pub fn reward_shares(amount: u128, self_hosted: bool) -> (r: (u128, u128, u128))
    requires
        amount <= u128::MAX / 6,
    ensures
        r.0 == spec_foundation_share(amount),
        r.1 == spec_sales_share(amount, self_hosted),
        r.2 == spec_farmer_share(amount, self_hosted),
        r.0 + r.1 + r.2 == amount,
{
    proof {
        vstd::arithmetic::mul::lemma_mul_inequality(amount as int, (u128::MAX / 6) as int, 6);
        vstd::arithmetic::div_mod::lemma_fundamental_div_mod(u128::MAX as int, 6);
        vstd::arithmetic::div_mod::lemma_mod_division_less_than_divisor(u128::MAX as int, 6);
        vstd::arithmetic::mul::lemma_mul_inequality(amount as int, (u128::MAX / 6) as int, 3);
        lemma_shares_bounded(amount as int);
    }
    let foundation: u128 = (amount * 3) / 10;
    let sales: u128 = if self_hosted {
        0
    } else {
        (amount * 6) / 10
    };
    let farmer: u128 = amount - foundation - sales;
    (foundation, sales, farmer)
}

/// 30% and 60% rounded down never exceed the whole.
proof fn lemma_shares_bounded(a: int)
    requires
        0 <= a,
    ensures
        0 <= (a * 3) / 10,
        0 <= (a * 6) / 10,
        (a * 3) / 10 + (a * 6) / 10 <= a,
{
    vstd::arithmetic::mul::lemma_mul_nonnegative(a, 3);
    vstd::arithmetic::mul::lemma_mul_nonnegative(a, 6);
    vstd::arithmetic::div_mod::lemma_fundamental_div_mod(a * 3, 10);
    vstd::arithmetic::div_mod::lemma_fundamental_div_mod(a * 6, 10);
    vstd::arithmetic::div_mod::lemma_mod_division_less_than_divisor(a * 3, 10);
    vstd::arithmetic::div_mod::lemma_mod_division_less_than_divisor(a * 6, 10);
    lemma_div_nonneg(a * 3, 10);
    lemma_div_nonneg(a * 6, 10);
    assert((a * 3) / 10 + (a * 6) / 10 <= a) by (nonlinear_arith)
        requires
            a * 3 == 10 * ((a * 3) / 10) + (a * 3) % 10,
            a * 6 == 10 * ((a * 6) / 10) + (a * 6) % 10,
            0 <= (a * 3) % 10,
            0 <= (a * 6) % 10,
            0 <= a,
    ;
}

} // verus!
