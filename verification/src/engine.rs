//! The amortization engine: a pure function from validated mortgage
//! parameters to the month-by-month schedule and its summary.
//!
//! All amounts are micro-dollars and all rates are micro-fractions
//! (`SCALE` micro-units = one dollar, or 100%).  The level monthly payment
//! comes from the standard annuity formula, evaluated in fixed point at
//! `POW_SCALE` precision; every division truncates toward zero, as `tdiv`
//! states.

use crate::fixed::{
    lemma_mul_div_bound, lemma_tdiv_bounds, lemma_tdiv_ordered, mul_div, mul_div_spec, tdiv,
    tdiv_i128, POW_CAP, POW_SCALE, SCALE,
};
use vstd::arithmetic::div_mod::{
    lemma_div_is_ordered_by_denominator, lemma_div_multiples_vanish, lemma_fundamental_div_mod,
    lemma_mod_division_less_than_divisor, lemma_multiply_divide_le,
};
use vstd::arithmetic::mul::{
    lemma_mul_is_commutative, lemma_mul_left_inequality, lemma_mul_upper_bound,
};
use vstd::prelude::*;

verus! {

/// Largest supported money amount: 10^14 micro-dollars (100 million dollars).
pub const MAX_MONEY: i64 = 100_000_000_000_000;

/// Largest supported loan term in years.
pub const MAX_YEARS: u32 = 100;

/// Ceiling on the appreciating house value (4 * 10^16 micro-dollars); keeps
/// every monthly cost within range over any simulated horizon.
pub const HV_CAP: i64 = 40_000_000_000_000_000;

/// The simulation horizon in months (thirty years).
pub const MAX_MONTHS: u32 = 360;

/// One cost category, in exactly one of its two representations: a rate in
/// micro-fractions of a base value, or an absolute amount in micro-dollars.
#[derive(Clone, Copy, Debug, PartialEq, Eq, Structural)]
pub enum Split {
    Percent(i64),
    Amount(i64),
}

impl Split {
    /// Both representations bounded: rates at most 100%, amounts at most
    /// `MAX_MONEY`, and nothing negative.
    pub open spec fn wf(self) -> bool {
        match self {
            Split::Percent(x) => 0 <= x <= SCALE,
            Split::Amount(a) => 0 <= a <= MAX_MONEY,
        }
    }
}

/// Fully parsed, validated mortgage parameters; the engine's only input.
#[derive(Clone, Copy, Debug, PartialEq, Eq, Structural)]
pub struct MortgageParams {
    /// Purchase price, micro-dollars; positive.
    pub house_value: i64,
    /// Down payment: percent of the house value, or an absolute amount.
    pub down_payment: Split,
    /// Monthly HOA fee, micro-dollars.
    pub monthly_hoa: i64,
    /// Annual interest rate, micro-fraction (SCALE = 100%).
    pub annual_interest_rate: i64,
    /// Annual property tax: percent of current house value, or annual amount.
    pub property_tax: Split,
    /// Annual insurance: percent of current house value, or annual amount.
    pub insurance: Split,
    /// Annual maintenance: percent of current house value, or annual amount.
    pub maintenance: Split,
    /// PMI: annual percent of the remaining balance, or a monthly amount.
    pub pmi: Split,
    /// Annual appreciation rate, micro-fraction; may be negative.
    pub annual_appreciation: i64,
    /// Loan term in years; positive.
    pub loan_term_years: u32,
    /// Extra principal paid every month, micro-dollars.
    pub extra_monthly: i64,
}

impl MortgageParams {
    pub open spec fn wf(self) -> bool {
        &&& 0 < self.house_value <= MAX_MONEY
        &&& self.down_payment.wf()
        &&& 0 <= self.monthly_hoa <= MAX_MONEY
        &&& 0 <= self.annual_interest_rate <= SCALE
        &&& self.property_tax.wf()
        &&& self.insurance.wf()
        &&& self.maintenance.wf()
        &&& self.pmi.wf()
        &&& -SCALE <= self.annual_appreciation <= SCALE
        &&& 0 < self.loan_term_years <= MAX_YEARS
        &&& 0 <= self.extra_monthly <= MAX_MONEY
    }
}

/// The down payment resolved to micro-dollars.
pub open spec fn down_payment_micro(p: MortgageParams) -> int {
    match p.down_payment {
        Split::Percent(x) => mul_div_spec(p.house_value as int, x as int, SCALE as int),
        Split::Amount(a) => a as int,
    }
}

/// The initial loan balance: house value minus down payment.  May be
/// non-positive (an all-cash or overpaid purchase), in which case the
/// schedule is empty.
pub open spec fn loan_micro(p: MortgageParams) -> int {
    p.house_value - down_payment_micro(p)
}

/// Whether PMI can ever apply: the down payment at origination is less
/// than one fifth of the house value.
pub open spec fn pmi_applies(p: MortgageParams) -> bool {
    5 * down_payment_micro(p) < p.house_value
}

/// The monthly interest rate at `POW_SCALE` precision.
pub open spec fn rate12(p: MortgageParams) -> int {
    tdiv(p.annual_interest_rate * POW_SCALE, 12 * SCALE)
}

/// The monthly house-value growth factor at `SCALE` precision.
pub open spec fn growth_factor(p: MortgageParams) -> int {
    SCALE + tdiv(p.annual_appreciation as int, 12)
}

/// The scheduled number of payments.
pub open spec fn term_months(p: MortgageParams) -> int {
    p.loan_term_years * 12
}

/// `(1 + r)^k` at `POW_SCALE` precision, truncating at each step and capped
/// at `POW_CAP` (where the annuity quotient below is 1 to twelve decimals).
pub open spec fn annuity_pow(r: int, k: nat) -> int
    decreases k,
{
    if k == 0 {
        POW_SCALE as int
    } else {
        let prev = annuity_pow(r, (k - 1) as nat);
        let nx = tdiv(prev * (POW_SCALE + r), POW_SCALE as int);
        if nx > POW_CAP {
            POW_CAP as int
        } else {
            nx
        }
    }
}

/// `p / (p - 1)` at `POW_SCALE` precision, where `p` is the compounding
/// factor of the full term.
pub open spec fn annuity_quot(p: MortgageParams) -> int {
    let pw = annuity_pow(rate12(p), term_months(p) as nat);
    tdiv(pw * POW_SCALE, pw - POW_SCALE)
}

/// `r * p / (p - 1)` at `POW_SCALE` precision: the level-payment factor
/// applied to the loan amount.
pub open spec fn pay_factor(p: MortgageParams) -> int {
    tdiv(rate12(p) * annuity_quot(p), POW_SCALE as int)
}

/// The fixed monthly payment in micro-dollars: the annuity formula for a
/// positive rate, straight-line division for a zero rate, clamped to the
/// supported money range.
pub open spec fn monthly_payment_micro(p: MortgageParams) -> int {
    let loan = loan_micro(p);
    if rate12(p) == 0 {
        tdiv(loan, term_months(p))
    } else {
        let raw = tdiv(loan * pay_factor(p), POW_SCALE as int);
        if raw > MAX_MONEY {
            MAX_MONEY as int
        } else if raw < -MAX_MONEY {
            -MAX_MONEY as int
        } else {
            raw
        }
    }
}

/// One row of the schedule, all amounts in micro-dollars; field meanings
/// follow the exported header, `debt` being the balance after this month's
/// principal is paid and `house_cost` the appreciated value this month.
#[derive(Clone, Copy, Debug, PartialEq, Eq, Structural)]
pub struct MortgageRow {
    pub month: u32,
    pub interest: i64,
    pub principal: i64,
    pub extra_principal: i64,
    pub repair_costs: i64,
    pub hoa: i64,
    pub taxes: i64,
    pub insurance: i64,
    pub pmi: i64,
    pub actual_payment: i64,
    pub cost_of_capital: i64,
    pub waste_cost: i64,
    pub cost: i64,
    pub debt: i64,
    pub interest_rate: i64,
    pub house_cost: i64,
    pub equity: i64,
}

/// The appreciated house value after `k` months, capped at `HV_CAP`.
pub open spec fn house_value_at(p: MortgageParams, k: nat) -> int
    decreases k,
{
    if k == 0 {
        p.house_value as int
    } else {
        let nx = mul_div_spec(house_value_at(p, (k - 1) as nat), growth_factor(p), SCALE as int);
        if nx > HV_CAP {
            HV_CAP as int
        } else {
            nx
        }
    }
}

/// Interest accrued in a month that starts with balance `prev`.
pub open spec fn month_interest(p: MortgageParams, prev: int) -> int {
    tdiv(prev * rate12(p), POW_SCALE as int)
}

/// Whether month `k` (starting with balance `prev`) clears the loan: the
/// scheduled principal would overshoot the balance, or the term ends.
pub open spec fn month_pays_off(p: MortgageParams, k: int, prev: int) -> bool {
    monthly_payment_micro(p) - month_interest(p, prev) + p.extra_monthly > prev || k
        == term_months(p)
}

/// Scheduled principal for month `k`: payment minus interest, adjusted in
/// the final month so that principal plus extra equals the balance exactly.
pub open spec fn month_principal(p: MortgageParams, k: int, prev: int) -> int {
    if month_pays_off(p, k, prev) {
        if prev >= p.extra_monthly {
            prev - p.extra_monthly
        } else {
            0
        }
    } else {
        monthly_payment_micro(p) - month_interest(p, prev)
    }
}

/// Extra principal actually paid in month `k`: the configured extra, cut
/// down in the final month so the balance never goes negative.
pub open spec fn month_extra(p: MortgageParams, k: int, prev: int) -> int {
    if month_pays_off(p, k, prev) {
        if prev >= p.extra_monthly {
            p.extra_monthly as int
        } else {
            prev
        }
    } else {
        p.extra_monthly as int
    }
}

/// The remaining balance after `k` months.  A non-positive balance is
/// frozen: the schedule has ended.
pub open spec fn balance_after(p: MortgageParams, k: nat) -> int
    decreases k,
{
    if k == 0 {
        loan_micro(p)
    } else {
        let prev = balance_after(p, (k - 1) as nat);
        if prev <= 0 {
            prev
        } else {
            prev - month_principal(p, k as int, prev) - month_extra(p, k as int, prev)
        }
    }
}

/// A percent-of-base or amount-per-year category resolved to one month's
/// cost against the given base value.
pub open spec fn month_cost(s: Split, base: int) -> int {
    match s {
        Split::Percent(x) => mul_div_spec(base, x as int, 12 * SCALE),
        Split::Amount(a) => tdiv(a as int, 12),
    }
}

/// PMI charged in a month that starts with balance `prev`.
pub open spec fn month_pmi(p: MortgageParams, prev: int) -> int {
    if pmi_applies(p) && prev > 0 {
        match p.pmi {
            Split::Percent(x) => mul_div_spec(prev, x as int, 12 * SCALE),
            Split::Amount(a) => a as int,
        }
    } else {
        0
    }
}

/// What every field of the row for month `k` (1-based) must be.
pub open spec fn row_matches(p: MortgageParams, k: int, row: MortgageRow) -> bool {
    let prev = balance_after(p, (k - 1) as nat);
    let hv = house_value_at(p, k as nat);
    let interest = month_interest(p, prev);
    let principal = month_principal(p, k, prev);
    let extra = month_extra(p, k, prev);
    let repairs = month_cost(p.maintenance, hv);
    let taxes = month_cost(p.property_tax, hv);
    let insurance = month_cost(p.insurance, hv);
    let pmi = month_pmi(p, prev);
    let coc = tdiv((hv - prev) * p.annual_interest_rate, 12 * SCALE);
    let actual = interest + principal + extra + repairs + p.monthly_hoa + taxes + insurance + pmi;
    &&& row.month == k
    &&& row.interest == interest
    &&& row.principal == principal
    &&& row.extra_principal == extra
    &&& row.repair_costs == repairs
    &&& row.hoa == p.monthly_hoa
    &&& row.taxes == taxes
    &&& row.insurance == insurance
    &&& row.pmi == pmi
    &&& row.actual_payment == actual
    &&& row.cost_of_capital == coc
    &&& row.waste_cost == interest + repairs + p.monthly_hoa + taxes + insurance + pmi + coc
    &&& row.cost == actual - principal - extra + coc
    &&& row.debt == prev - principal - extra
    &&& row.interest_rate == p.annual_interest_rate
    &&& row.house_cost == hv
    &&& row.equity == hv - prev
}

/// Generous per-field ranges every emitted row satisfies; they let the
/// summary sums stay within `i64` over the whole horizon.
pub open spec fn row_bounded(row: MortgageRow) -> bool {
    &&& 0 <= row.interest <= 10_000_000_000_000
    &&& 0 <= row.principal <= 100_000_000_000_000
    &&& 0 <= row.extra_principal <= 100_000_000_000_000
    &&& 0 <= row.repair_costs <= 4_000_000_000_000_000
    &&& 0 <= row.hoa <= 100_000_000_000_000
    &&& 0 <= row.taxes <= 4_000_000_000_000_000
    &&& 0 <= row.insurance <= 4_000_000_000_000_000
    &&& 0 <= row.pmi <= 100_000_000_000_000
    &&& 0 <= row.actual_payment <= 20_000_000_000_000_000
    &&& -10_000_000_000_000 <= row.cost_of_capital <= 4_000_000_000_000_000
    &&& -10_000_000_000_000 <= row.waste_cost <= 20_000_000_000_000_000
    &&& -10_000_000_000_000 <= row.cost <= 20_000_000_000_000_000
    &&& 0 <= row.debt <= 100_000_000_000_000
    &&& 0 <= row.interest_rate <= 1_000_000
    &&& 0 <= row.house_cost <= 40_000_000_000_000_000
    &&& -100_000_000_000_000 <= row.equity <= 40_000_000_000_000_000
}

/// The first month index at or after `k` whose closing balance is
/// non-positive, or the horizon if the loan outlives it.
pub open spec fn months_from(p: MortgageParams, k: nat) -> nat
    decreases MAX_MONTHS - k,
{
    if k >= MAX_MONTHS {
        MAX_MONTHS as nat
    } else if balance_after(p, k) <= 0 {
        k
    } else {
        months_from(p, (k + 1) as nat)
    }
}

/// How many rows the schedule holds: months run from 1 up to the first
/// month whose closing balance is zero, or up to the horizon.
pub open spec fn months_emitted(p: MortgageParams) -> nat {
    months_from(p, 0)
}

/// The growth factor sits within one twelfth of 100% around parity.
pub proof fn lemma_growth_bounds(p: MortgageParams)
    requires
        p.wf(),
    ensures
        916_667 <= growth_factor(p) <= 1_083_333,
{
    let a: int = p.annual_appreciation as int;
    if a >= 0 {
        lemma_tdiv_bounds(a, 12);
        lemma_tdiv_ordered(a, 1_000_000, 12);
        crate::fixed::lemma_tdiv_value(1_000_000, 12, 83_333, 4);
    } else {
        lemma_tdiv_bounds(-a, 12);
        lemma_tdiv_ordered(-a, 1_000_000, 12);
        crate::fixed::lemma_tdiv_value(1_000_000, 12, 83_333, 4);
    }
}

/// The house value stays within `[0, HV_CAP]` at every month.
pub proof fn lemma_house_value_bounds(p: MortgageParams, k: nat)
    requires
        p.wf(),
    ensures
        0 <= house_value_at(p, k) <= HV_CAP,
    decreases k,
{
    if k > 0 {
        lemma_house_value_bounds(p, (k - 1) as nat);
        lemma_growth_bounds(p);
        lemma_mul_div_bound(
            house_value_at(p, (k - 1) as nat),
            HV_CAP as int,
            growth_factor(p),
            1_083_333,
            SCALE as int,
        );
    }
}

/// One month's percent-or-amount cost is nonnegative and bounded.
pub proof fn lemma_month_cost_bounds(s: Split, base: int)
    requires
        s.wf(),
        0 <= base <= HV_CAP,
    ensures
        0 <= month_cost(s, base) <= 3_333_333_333_333_333,
{
    match s {
        Split::Percent(x) => {
            lemma_mul_div_bound(base, HV_CAP as int, x as int, SCALE as int, 12 * SCALE);
            crate::fixed::lemma_tdiv_value(
                HV_CAP * SCALE,
                12 * SCALE,
                3_333_333_333_333_333,
                4_000_000,
            );
        },
        Split::Amount(a) => {
            lemma_tdiv_bounds(a as int, 12);
        },
    }
}

/// The PMI charge is nonnegative and within the money range.
pub proof fn lemma_month_pmi_bounds(p: MortgageParams, prev: int)
    requires
        p.wf(),
        0 <= prev <= MAX_MONEY,
    ensures
        0 <= month_pmi(p, prev) <= MAX_MONEY,
{
    if pmi_applies(p) && prev > 0 {
        match p.pmi {
            Split::Percent(x) => {
                lemma_mul_div_bound(prev, MAX_MONEY as int, x as int, SCALE as int, 12 * SCALE);
                crate::fixed::lemma_tdiv_value(
                    MAX_MONEY * SCALE,
                    12 * SCALE,
                    8_333_333_333_333,
                    4_000_000,
                );
            },
            Split::Amount(_) => {},
        }
    }
}

/// Interest in a month starting at balance `prev` is nonnegative and small
/// against the money range.
pub proof fn lemma_month_interest_bounds(p: MortgageParams, prev: int)
    requires
        p.wf(),
        0 <= prev <= MAX_MONEY,
    ensures
        0 <= month_interest(p, prev) <= 8_333_333_333_300,
{
    lemma_rate12_bounds(p);
    lemma_mul_div_bound(prev, MAX_MONEY as int, rate12(p), 83_333_333_333, POW_SCALE as int);
    crate::fixed::lemma_tdiv_value(
        MAX_MONEY * 83_333_333_333,
        POW_SCALE as int,
        8_333_333_333_300,
        0,
    );
}

/// With a positive opening balance the month's principal and effective
/// extra are nonnegative, never overpay, and leave the closing balance
/// between zero and the opening balance.
pub proof fn lemma_month_split(p: MortgageParams, k: int, prev: int)
    requires
        p.wf(),
        loan_micro(p) >= prev,
        0 < prev <= MAX_MONEY,
        1 <= k,
    ensures
        0 <= month_principal(p, k, prev) <= prev,
        0 <= month_extra(p, k, prev) <= p.extra_monthly,
        month_principal(p, k, prev) + month_extra(p, k, prev) <= prev,
        month_pays_off(p, k, prev) ==> month_principal(p, k, prev) + month_extra(p, k, prev)
            == prev,
{
    lemma_payment_bounds(p);
    lemma_rate12_bounds(p);
    lemma_month_interest_bounds(p, prev);
    // payment >= interest at this balance, since prev <= loan.
    assert(prev * rate12(p) <= loan_micro(p) * rate12(p)) by (nonlinear_arith)
        requires
            prev <= loan_micro(p),
            0 <= rate12(p),
    ;
    lemma_tdiv_ordered(prev * rate12(p), loan_micro(p) * rate12(p), POW_SCALE as int);
    assert(monthly_payment_micro(p) >= month_interest(p, prev));
}

/// The balance never leaves `[0, loan]` for a positive loan, never rises,
/// and is frozen at the loan amount when the loan is non-positive.
pub proof fn lemma_balance_bounds(p: MortgageParams, k: nat)
    requires
        p.wf(),
    ensures
        loan_micro(p) <= 0 ==> balance_after(p, k) == loan_micro(p),
        loan_micro(p) > 0 ==> 0 <= balance_after(p, k) <= loan_micro(p),
        k >= 1 ==> balance_after(p, k) <= balance_after(p, (k - 1) as nat),
    decreases k,
{
    lemma_down_payment_bounds(p);
    if k > 0 {
        lemma_balance_bounds(p, (k - 1) as nat);
        let prev = balance_after(p, (k - 1) as nat);
        if prev > 0 {
            lemma_month_split(p, k as int, prev);
        }
    }
}

/// The cost of capital lies between a small negative bound (equity can be
/// negative early on) and the largest monthly percent cost.
pub proof fn lemma_coc_bounds(p: MortgageParams, prev: int, hv: int)
    requires
        p.wf(),
        0 <= prev <= MAX_MONEY,
        0 <= hv <= HV_CAP,
    ensures
        -8_333_333_333_333 <= tdiv((hv - prev) * p.annual_interest_rate, 12 * SCALE)
            <= 3_333_333_333_333_333,
{
    let e: int = hv - prev;
    let r: int = p.annual_interest_rate as int;
    if e >= 0 {
        lemma_mul_div_bound(e, HV_CAP as int, r, SCALE as int, 12 * SCALE);
        crate::fixed::lemma_tdiv_value(
            HV_CAP * SCALE,
            12 * SCALE,
            3_333_333_333_333_333,
            4_000_000,
        );
    } else {
        assert(-(100_000_000_000_000_000_000 as int) <= e * r <= 0) by (nonlinear_arith)
            requires
                -100_000_000_000_000 <= e < 0,
                0 <= r <= 1_000_000,
        ;
        lemma_tdiv_bounds(e * r, 12 * SCALE);
        lemma_tdiv_ordered(-(e * r), 100_000_000_000_000_000_000, 12 * SCALE);
        crate::fixed::lemma_tdiv_value(
            100_000_000_000_000_000_000,
            12 * SCALE,
            8_333_333_333_333,
            4_000_000,
        );
    }
}

/// Every field of an emitted row is within `row_bounded`'s ranges.
pub proof fn lemma_row_ranges(p: MortgageParams, k: int, row: MortgageRow)
    requires
        p.wf(),
        1 <= k,
        balance_after(p, (k - 1) as nat) > 0,
        row_matches(p, k, row),
    ensures
        row_bounded(row),
{
    let prev = balance_after(p, (k - 1) as nat);
    let hv = house_value_at(p, k as nat);
    lemma_down_payment_bounds(p);
    lemma_balance_bounds(p, (k - 1) as nat);
    lemma_house_value_bounds(p, k as nat);
    lemma_month_interest_bounds(p, prev);
    lemma_month_split(p, k, prev);
    lemma_month_cost_bounds(p.maintenance, hv);
    lemma_month_cost_bounds(p.property_tax, hv);
    lemma_month_cost_bounds(p.insurance, hv);
    lemma_month_pmi_bounds(p, prev);
    lemma_coc_bounds(p, prev, hv);
}

/// The emission count never leaves `[k, MAX_MONTHS]`.
pub proof fn lemma_months_range(p: MortgageParams, k: nat)
    requires
        k <= MAX_MONTHS,
    ensures
        k <= months_from(p, k) <= MAX_MONTHS,
    decreases MAX_MONTHS - k,
{
    if k < MAX_MONTHS && balance_after(p, k) > 0 {
        lemma_months_range(p, (k + 1) as nat);
    }
}

/// Pins down `months_emitted` from a run of positive balances: if the
/// balance is positive through month `t` and then closes (or the horizon is
/// reached), exactly `t` rows are emitted.
pub proof fn lemma_months_value(p: MortgageParams, k: nat, t: nat)
    requires
        k <= t <= MAX_MONTHS,
        forall|j: int| k <= j < t ==> #[trigger] balance_after(p, j as nat) > 0,
        t == MAX_MONTHS || balance_after(p, t) <= 0,
    ensures
        months_from(p, k) == t,
    decreases t - k,
{
    if k == t {
    } else {
        let j: int = k as int;
        assert(balance_after(p, j as nat) > 0);
        assert(j as nat == k);
        lemma_months_value(p, (k + 1) as nat, t);
    }
}

/// The down payment is within the money range.
pub proof fn lemma_down_payment_bounds(p: MortgageParams)
    requires
        p.wf(),
    ensures
        0 <= down_payment_micro(p) <= MAX_MONEY,
        -MAX_MONEY < loan_micro(p) <= MAX_MONEY,
{
    match p.down_payment {
        Split::Percent(x) => {
            lemma_mul_div_bound(
                p.house_value as int,
                MAX_MONEY as int,
                x as int,
                SCALE as int,
                SCALE as int,
            );
            lemma_div_multiples_vanish(MAX_MONEY as int, SCALE as int);
            lemma_mul_is_commutative(MAX_MONEY as int, SCALE as int);
        },
        Split::Amount(_) => {},
    }
}

/// The monthly rate is bounded by the rate of 100% a year, and is zero
/// exactly when the annual rate is zero.
pub proof fn lemma_rate12_bounds(p: MortgageParams)
    requires
        p.wf(),
    ensures
        0 <= rate12(p) <= 83_333_333_333,
        rate12(p) == 0 <==> p.annual_interest_rate == 0,
        p.annual_interest_rate > 0 ==> rate12(p) >= 83_333,
{
    let d: int = 12 * SCALE;
    let a: int = p.annual_interest_rate as int;
    let prod: int = a * POW_SCALE;
    assert(0 <= prod <= 1_000_000_000_000_000_000) by (nonlinear_arith)
        requires
            0 <= a <= 1_000_000,
            prod == a * 1_000_000_000_000,
    ;
    lemma_tdiv_bounds(prod, d);
    lemma_tdiv_ordered(prod, 1_000_000_000_000_000_000, d);
    crate::fixed::lemma_tdiv_value(1_000_000_000_000_000_000, d, 83_333_333_333, 4_000_000);
    if a > 0 {
        assert(prod >= 1_000_000_000_000) by (nonlinear_arith)
            requires
                a >= 1,
                prod == a * 1_000_000_000_000,
        ;
        lemma_tdiv_ordered(1_000_000_000_000, prod, d);
        crate::fixed::lemma_tdiv_value(1_000_000_000_000, d, 83_333, 4_000_000);
    } else {
        assert(prod == 0) by (nonlinear_arith)
            requires
                a == 0,
                prod == a * 1_000_000_000_000,
        ;
    }
}

/// The compounding factor stays within `[POW_SCALE, POW_CAP]`, never falls
/// from one month to the next, and after the first month it has grown by at
/// least `r`.
pub proof fn lemma_annuity_pow_bounds(r: int, k: nat)
    requires
        0 <= r <= POW_SCALE,
    ensures
        POW_SCALE <= annuity_pow(r, k) <= POW_CAP,
        k >= 1 ==> annuity_pow(r, k) >= POW_SCALE + r,
    decreases k,
{
    if k > 0 {
        lemma_annuity_pow_bounds(r, (k - 1) as nat);
        let prev = annuity_pow(r, (k - 1) as nat);
        let nx = tdiv(prev * (POW_SCALE + r), POW_SCALE as int);
        lemma_mul_left_inequality(prev, POW_SCALE as int, POW_SCALE + r);
        lemma_mul_is_commutative(prev, POW_SCALE as int);
        lemma_div_multiples_vanish(prev, POW_SCALE as int);
        lemma_tdiv_ordered(prev * (POW_SCALE as int), prev * (POW_SCALE + r), POW_SCALE as int);
        assert(nx >= prev);
        if k == 1 {
            lemma_div_multiples_vanish(POW_SCALE + r, POW_SCALE as int);
        } else {
            assert(prev >= POW_SCALE + r);
        }
    }
}

/// The compounding factor of the whole term, computed by iterated
/// fixed-point multiplication.
fn annuity_pow_exec(r: i64, n: u32) -> (pw: i128)
    requires
        0 <= r <= POW_SCALE,
    ensures
        pw == annuity_pow(r as int, n as nat),
{
    let mut pw: i128 = POW_SCALE;
    let mut k: u32 = 0;
    while k < n
        invariant
            0 <= r <= POW_SCALE,
            k <= n,
            pw == annuity_pow(r as int, k as nat),
        decreases n - k,
    {
        proof {
            lemma_annuity_pow_bounds(r as int, k as nat);
            lemma_mul_upper_bound(pw as int, POW_CAP as int, POW_SCALE + r, 2 * POW_SCALE);
            vstd::arithmetic::mul::lemma_mul_nonnegative(pw as int, POW_SCALE + r);
        }
        let prod: i128 = pw * (POW_SCALE + (r as i128));
        let nx: i128 = tdiv_i128(prod, POW_SCALE);
        proof {
            lemma_tdiv_bounds(prod as int, POW_SCALE as int);
        }
        pw = if nx > POW_CAP {
            POW_CAP
        } else {
            nx
        };
        k = k + 1;
    }
    pw
}

/// Bounds on the annuity quotient and the level-payment factor, for a
/// positive rate: the factor is at least `r` and at most the compounding
/// factor itself.
pub proof fn lemma_pay_factor_bounds(p: MortgageParams)
    requires
        p.wf(),
        rate12(p) != 0,
    ensures
        POW_SCALE <= annuity_quot(p) <= annuity_pow(rate12(p), term_months(p) as nat) * POW_SCALE,
        rate12(p) <= pay_factor(p) <= POW_CAP,
{
    let r = rate12(p);
    let n = term_months(p) as nat;
    lemma_rate12_bounds(p);
    lemma_annuity_pow_bounds(r, n);
    let pw = annuity_pow(r, n);
    let q = annuity_quot(p);
    assert(n >= 1);
    assert(pw - POW_SCALE >= r);
    lemma_mul_upper_bound(pw, POW_CAP as int, POW_SCALE as int, POW_SCALE as int);
    vstd::arithmetic::mul::lemma_mul_nonnegative(pw, POW_SCALE as int);
    // Lower bound: dividing by the full factor itself gives exactly POW_SCALE.
    lemma_div_is_ordered_by_denominator(pw * POW_SCALE, pw - POW_SCALE, pw);
    lemma_mul_is_commutative(pw, POW_SCALE as int);
    lemma_div_multiples_vanish(POW_SCALE as int, pw);
    assert(q >= POW_SCALE);
    // Upper bound q <= pw * POW_SCALE / r.
    lemma_div_is_ordered_by_denominator(pw * POW_SCALE, r, pw - POW_SCALE);
    assert(q <= tdiv(pw * POW_SCALE, r));
    // r * q <= pw * POW_SCALE, so the factor is at most pw.
    let fq = tdiv(pw * POW_SCALE, r);
    lemma_fundamental_div_mod(pw * POW_SCALE, r);
    lemma_mod_division_less_than_divisor(pw * POW_SCALE, r);
    assert(r * fq <= pw * POW_SCALE);
    lemma_mul_left_inequality(r, q, fq);
    assert(r * q <= pw * POW_SCALE);
    lemma_mul_is_commutative(pw, POW_SCALE as int);
    lemma_mul_is_commutative(POW_SCALE as int, pw);
    lemma_multiply_divide_le(r * q, POW_SCALE as int, pw);
    vstd::arithmetic::mul::lemma_mul_nonnegative(r, q);
    lemma_tdiv_bounds(r * q, POW_SCALE as int);
    assert(pay_factor(p) <= pw);
    // Lower bound: q >= POW_SCALE gives factor >= r.
    lemma_mul_left_inequality(r, POW_SCALE as int, q);
    lemma_mul_is_commutative(r, POW_SCALE as int);
    lemma_div_multiples_vanish(r, POW_SCALE as int);
    lemma_tdiv_ordered(r * POW_SCALE, r * q, POW_SCALE as int);
}

/// The monthly payment is in the money range; with a nonnegative loan it is
/// nonnegative and at least the first month's interest.
pub proof fn lemma_payment_bounds(p: MortgageParams)
    requires
        p.wf(),
    ensures
        -MAX_MONEY <= monthly_payment_micro(p) <= MAX_MONEY,
        loan_micro(p) >= 0 ==> monthly_payment_micro(p) >= tdiv(
            loan_micro(p) * rate12(p),
            POW_SCALE as int,
        ),
        loan_micro(p) >= 0 ==> monthly_payment_micro(p) >= 0,
{
    let loan = loan_micro(p);
    let n = term_months(p);
    lemma_down_payment_bounds(p);
    lemma_rate12_bounds(p);
    if rate12(p) == 0 {
        lemma_tdiv_bounds(loan, n);
        assert(tdiv(loan * 0, POW_SCALE as int) == 0) by {
            lemma_tdiv_bounds(loan * 0, POW_SCALE as int);
        }
        if loan >= 0 {
            lemma_tdiv_bounds(loan, n);
        }
    } else {
        lemma_pay_factor_bounds(p);
        let f = pay_factor(p);
        let raw = tdiv(loan * f, POW_SCALE as int);
        if loan >= 0 {
            // payment >= tdiv(loan * r, POW_SCALE) before clamping, and the
            // interest bound itself is well under MAX_MONEY.
            assert(loan * rate12(p) <= loan * f) by (nonlinear_arith)
                requires
                    0 <= loan,
                    0 <= rate12(p) <= f,
            ;
            lemma_tdiv_ordered(loan * rate12(p), loan * f, POW_SCALE as int);
            lemma_mul_upper_bound(loan, MAX_MONEY as int, rate12(p), 83_333_333_333);
            vstd::arithmetic::mul::lemma_mul_nonnegative(loan, rate12(p));
            lemma_tdiv_bounds(loan * rate12(p), POW_SCALE as int);
            lemma_tdiv_ordered(
                loan * rate12(p),
                MAX_MONEY * 83_333_333_333,
                POW_SCALE as int,
            );
            crate::fixed::lemma_tdiv_value(
                MAX_MONEY * 83_333_333_333,
                POW_SCALE as int,
                8_333_333_333_300,
                0,
            );
            vstd::arithmetic::mul::lemma_mul_nonnegative(loan, f);
            lemma_tdiv_bounds(loan * f, POW_SCALE as int);
        }
    }
}

/// The down payment in micro-dollars.
pub fn down_payment_amount(p: &MortgageParams) -> (dp: i64)
    requires
        p.wf(),
    ensures
        dp == down_payment_micro(*p),
        0 <= dp <= MAX_MONEY,
{
    proof {
        lemma_down_payment_bounds(*p);
    }
    match p.down_payment {
        Split::Percent(x) => {
            proof {
                lemma_mul_upper_bound(p.house_value as int, MAX_MONEY as int, x as int,
                    SCALE as int);
                vstd::arithmetic::mul::lemma_mul_nonnegative(p.house_value as int, x as int);
            }
            let d: i128 = mul_div(p.house_value as i128, x as i128, SCALE as i128);
            d as i64
        },
        Split::Amount(a) => a,
    }
}

/// The monthly interest rate at `POW_SCALE` precision.
pub fn monthly_rate(p: &MortgageParams) -> (r12: i64)
    requires
        p.wf(),
    ensures
        r12 == rate12(*p),
        0 <= r12 <= 83_333_333_333,
{
    proof {
        lemma_rate12_bounds(*p);
        lemma_mul_upper_bound(p.annual_interest_rate as int, SCALE as int, POW_SCALE as int,
            POW_SCALE as int);
        vstd::arithmetic::mul::lemma_mul_nonnegative(p.annual_interest_rate as int,
            POW_SCALE as int);
    }
    let r12_i: i128 = tdiv_i128(
        (p.annual_interest_rate as i128) * POW_SCALE,
        12 * (SCALE as i128),
    );
    r12_i as i64
}

/// The fixed monthly payment in micro-dollars.
pub fn monthly_payment(p: &MortgageParams) -> (pay: i64)
    requires
        p.wf(),
    ensures
        pay == monthly_payment_micro(*p),
        -MAX_MONEY <= pay <= MAX_MONEY,
{
    proof {
        lemma_payment_bounds(*p);
        lemma_down_payment_bounds(*p);
        lemma_rate12_bounds(*p);
    }
    let dp: i64 = down_payment_amount(p);
    let loan: i64 = p.house_value - dp;
    let n: u32 = p.loan_term_years * 12;
    let r12: i64 = monthly_rate(p);
    if r12 == 0 {
        let q: i128 = tdiv_i128(loan as i128, n as i128);
        proof {
            lemma_tdiv_bounds(loan as int, n as int);
        }
        q as i64
    } else {
        let pw: i128 = annuity_pow_exec(r12, n);
        proof {
            lemma_annuity_pow_bounds(r12 as int, n as nat);
            lemma_pay_factor_bounds(*p);
            lemma_mul_upper_bound(pw as int, POW_CAP as int, POW_SCALE as int, POW_SCALE as int);
            vstd::arithmetic::mul::lemma_mul_nonnegative(pw as int, POW_SCALE as int);
        }
        let q: i128 = tdiv_i128(pw * POW_SCALE, pw - POW_SCALE);
        let f: i128 = tdiv_i128((r12 as i128) * q, POW_SCALE);
        proof {
            assert(q == annuity_quot(*p));
            assert(f == pay_factor(*p));
            assert(-MAX_MONEY <= loan <= MAX_MONEY);
            assert(0 <= f <= POW_CAP);
            assert((loan as int) * (f as int) <= MAX_MONEY * POW_CAP) by (nonlinear_arith)
                requires
                    -MAX_MONEY <= loan <= MAX_MONEY,
                    0 <= f <= POW_CAP,
            ;
            assert((loan as int) * (f as int) >= -(MAX_MONEY * POW_CAP)) by (nonlinear_arith)
                requires
                    -MAX_MONEY <= loan <= MAX_MONEY,
                    0 <= f <= POW_CAP,
            ;
        }
        let raw: i128 = tdiv_i128((loan as i128) * f, POW_SCALE);
        if raw > MAX_MONEY as i128 {
            MAX_MONEY
        } else if raw < -(MAX_MONEY as i128) {
            -MAX_MONEY
        } else {
            raw as i64
        }
    }
}

/// One month's cost for a percent-or-amount category against `base`.
fn month_cost_exec(s: Split, base: i64) -> (c: i64)
    requires
        s.wf(),
        0 <= base <= HV_CAP,
    ensures
        c == month_cost(s, base as int),
        0 <= c <= 3_333_333_333_333_333,
{
    proof {
        lemma_month_cost_bounds(s, base as int);
    }
    match s {
        Split::Percent(x) => {
            proof {
                lemma_mul_upper_bound(base as int, HV_CAP as int, x as int, SCALE as int);
                vstd::arithmetic::mul::lemma_mul_nonnegative(base as int, x as int);
            }
            let c: i128 = mul_div(base as i128, x as i128, 12 * (SCALE as i128));
            c as i64
        },
        Split::Amount(a) => {
            let c: i128 = tdiv_i128(a as i128, 12);
            c as i64
        },
    }
}

/// Runs the monthly simulation and returns the schedule: one row per month,
/// from month 1 until the balance closes or the horizon ends.
pub fn compute_rows(p: &MortgageParams) -> (rows: Vec<MortgageRow>)
    requires
        p.wf(),
    ensures
        rows@.len() == months_emitted(*p),
        forall|i: int|
            0 <= i < rows@.len() ==> row_matches(*p, i + 1, #[trigger] rows@[i]) && row_bounded(
                rows@[i],
            ),
{
    proof {
        lemma_down_payment_bounds(*p);
        lemma_payment_bounds(*p);
        lemma_growth_bounds(*p);
    }
    let dp: i64 = down_payment_amount(p);
    let loan: i64 = p.house_value - dp;
    let payment: i64 = monthly_payment(p);
    let r12: i64 = monthly_rate(p);
    let growth_sub: i128 = tdiv_i128(p.annual_appreciation as i128, 12);
    let growth: i64 = SCALE + (growth_sub as i64);
    proof {
        lemma_tdiv_bounds(p.annual_appreciation as int, 12);
        lemma_tdiv_bounds(-(p.annual_appreciation as int), 12);
        assert(growth == growth_factor(*p));
    }
    let pmi_on: bool = 5 * dp < p.house_value;
    let n: u32 = p.loan_term_years * 12;
    let extra: i64 = p.extra_monthly;
    let hoa: i64 = p.monthly_hoa;
    let mut rows: Vec<MortgageRow> = Vec::new();
    let mut bal: i64 = loan;
    let mut hv: i64 = p.house_value;
    let mut month: u32 = 1;
    while month <= MAX_MONTHS && bal > 0
        invariant
            p.wf(),
            1 <= month <= MAX_MONTHS + 1,
            loan == loan_micro(*p),
            -MAX_MONEY < loan <= MAX_MONEY,
            payment == monthly_payment_micro(*p),
            r12 == rate12(*p),
            growth == growth_factor(*p),
            pmi_on == pmi_applies(*p),
            n == term_months(*p),
            extra == p.extra_monthly,
            hoa == p.monthly_hoa,
            bal == balance_after(*p, (month - 1) as nat),
            hv == house_value_at(*p, (month - 1) as nat),
            0 <= hv <= HV_CAP,
            rows@.len() == month - 1,
            forall|j: int| 0 <= j < month - 1 ==> #[trigger] balance_after(*p, j as nat) > 0,
            forall|i: int|
                0 <= i < rows@.len() ==> row_matches(*p, i + 1, #[trigger] rows@[i])
                    && row_bounded(rows@[i]),
        decreases MAX_MONTHS + 1 - month,
    {
        let ghost prev: int = bal as int;
        let ghost k: int = month as int;
        proof {
            lemma_balance_bounds(*p, (month - 1) as nat);
            assert(loan > 0);
            lemma_month_interest_bounds(*p, prev);
            lemma_rate12_bounds(*p);
            vstd::arithmetic::mul::lemma_mul_nonnegative(prev, r12 as int);
            lemma_mul_upper_bound(prev, MAX_MONEY as int, r12 as int, 83_333_333_333);
            lemma_month_split(*p, k, prev);
        }
        let interest_w: i128 = mul_div(bal as i128, r12 as i128, POW_SCALE);
        let interest: i64 = interest_w as i64;
        proof {
            assert(interest == month_interest(*p, prev));
        }
        // The house appreciates before this month's value-based costs.
        proof {
            lemma_mul_upper_bound(hv as int, HV_CAP as int, growth as int, 1_083_333);
            vstd::arithmetic::mul::lemma_mul_nonnegative(hv as int, growth as int);
            lemma_mul_div_bound(hv as int, HV_CAP as int, growth as int, 1_083_333, SCALE as int);
        }
        let hv_next: i128 = mul_div(hv as i128, growth as i128, SCALE as i128);
        hv = if hv_next > HV_CAP as i128 {
            HV_CAP
        } else {
            hv_next as i64
        };
        proof {
            assert(hv == house_value_at(*p, k as nat));
            lemma_house_value_bounds(*p, k as nat);
        }
        let taxes: i64 = month_cost_exec(p.property_tax, hv);
        let insurance: i64 = month_cost_exec(p.insurance, hv);
        let repairs: i64 = month_cost_exec(p.maintenance, hv);
        proof {
            lemma_month_pmi_bounds(*p, prev);
        }
        let pmi: i64 = if pmi_on {
            match p.pmi {
                Split::Percent(x) => {
                    proof {
                        lemma_mul_upper_bound(bal as int, MAX_MONEY as int, x as int,
                            SCALE as int);
                        vstd::arithmetic::mul::lemma_mul_nonnegative(bal as int, x as int);
                    }
                    let w: i128 = mul_div(bal as i128, x as i128, 12 * (SCALE as i128));
                    w as i64
                },
                Split::Amount(a) => a,
            }
        } else {
            0
        };
        proof {
            assert(pmi == month_pmi(*p, prev));
        }
        let due: i64 = payment - interest;
        let pays_off: bool = due + extra > bal || month == n;
        proof {
            assert(pays_off == month_pays_off(*p, k, prev));
        }
        let principal: i64 = if pays_off {
            if bal >= extra {
                bal - extra
            } else {
                0
            }
        } else {
            due
        };
        let extra_eff: i64 = if pays_off {
            if bal >= extra {
                extra
            } else {
                bal
            }
        } else {
            extra
        };
        proof {
            assert(principal == month_principal(*p, k, prev));
            assert(extra_eff == month_extra(*p, k, prev));
        }
        let equity: i64 = hv - bal;
        proof {
            lemma_coc_bounds(*p, prev, hv as int);
            assert(-(100_000_000_000_000_000_000 as i128) <= (equity as i128) * (
            p.annual_interest_rate as i128) <= 40_000_000_000_000_000_000_000 as i128)
                by (nonlinear_arith)
                requires
                    -100_000_000_000_000 <= equity <= 40_000_000_000_000_000,
                    0 <= p.annual_interest_rate <= 1_000_000,
            ;
        }
        let coc_w: i128 = mul_div(equity as i128, p.annual_interest_rate as i128, 12 * (
        SCALE as i128));
        let coc: i64 = coc_w as i64;
        let actual: i64 = interest + principal + extra_eff + repairs + hoa + taxes + insurance
            + pmi;
        let waste: i64 = interest + repairs + hoa + taxes + insurance + pmi + coc;
        let cost: i64 = actual - principal - extra_eff + coc;
        bal = bal - principal - extra_eff;
        let row = MortgageRow {
            month,
            interest,
            principal,
            extra_principal: extra_eff,
            repair_costs: repairs,
            hoa,
            taxes,
            insurance,
            pmi,
            actual_payment: actual,
            cost_of_capital: coc,
            waste_cost: waste,
            cost,
            debt: bal,
            interest_rate: p.annual_interest_rate,
            house_cost: hv,
            equity,
        };
        proof {
            assert(row_matches(*p, k, row));
            lemma_row_ranges(*p, k, row);
            assert(bal == balance_after(*p, k as nat));
        }
        rows.push(row);
        month = month + 1;
    }
    proof {
        if month == MAX_MONTHS + 1 {
            lemma_months_value(*p, 0, MAX_MONTHS as nat);
        } else {
            lemma_months_value(*p, 0, (month - 1) as nat);
        }
    }
    rows
}

/// Aggregate of the whole schedule, produced once after the simulation.
#[derive(Clone, Copy, Debug, PartialEq, Eq, Structural)]
pub struct MortgageSummary {
    pub total_interest_paid: i64,
    pub total_principal_paid: i64,
    pub total_taxes_paid: i64,
    pub total_insurance_paid: i64,
    pub total_maintenance_paid: i64,
    pub total_pmi_paid: i64,
    pub total_hoa_paid: i64,
    pub total_payments: i64,
    pub total_cost_of_capital: i64,
    pub total_waste_cost: i64,
    pub final_house_value: i64,
    pub final_equity: i64,
    pub months_to_payoff: u32,
    pub effective_interest_rate: i64,
}

/// Ceiling for the derived effective rate (a million percent); far beyond
/// any value the simulation can produce, it only keeps the ratio in range.
pub const RATE_CAP: i64 = 1_000_000_000_000;

/// Sums a per-row quantity over a schedule.
pub open spec fn sum_rows(rows: Seq<MortgageRow>, f: spec_fn(MortgageRow) -> int) -> int
    decreases rows.len(),
{
    if rows.len() == 0 {
        0
    } else {
        sum_rows(rows.drop_last(), f) + f(rows.last())
    }
}

/// The annualized blended rate: interest over principal, scaled by twelve
/// over the payoff months; zero in the all-cash case.
pub open spec fn effective_rate(ti: int, tp: int, months: int) -> int {
    if tp > 0 && months > 0 {
        let raw = tdiv(ti * (12 * SCALE), tp * months);
        if raw > RATE_CAP {
            RATE_CAP as int
        } else {
            raw
        }
    } else {
        0
    }
}

/// The remaining debt when the schedule ends: the last row's closing
/// balance, or zero when no loan was ever outstanding.
pub open spec fn final_debt_of(rows: Seq<MortgageRow>) -> int {
    if rows.len() == 0 {
        0
    } else {
        rows.last().debt as int
    }
}

/// What every field of the summary must be, given the schedule and the
/// house value at its end.  Final equity is the final house value net of
/// whatever debt the horizon left outstanding.
pub open spec fn summary_matches(
    rows: Seq<MortgageRow>,
    final_hv: int,
    s: MortgageSummary,
) -> bool {
    let ti = sum_rows(rows, |r: MortgageRow| r.interest as int);
    let tp = sum_rows(rows, |r: MortgageRow| r.principal + r.extra_principal);
    &&& s.total_interest_paid == ti
    &&& s.total_principal_paid == tp
    &&& s.total_taxes_paid == sum_rows(rows, |r: MortgageRow| r.taxes as int)
    &&& s.total_insurance_paid == sum_rows(rows, |r: MortgageRow| r.insurance as int)
    &&& s.total_maintenance_paid == sum_rows(rows, |r: MortgageRow| r.repair_costs as int)
    &&& s.total_pmi_paid == sum_rows(rows, |r: MortgageRow| r.pmi as int)
    &&& s.total_hoa_paid == sum_rows(rows, |r: MortgageRow| r.hoa as int)
    &&& s.total_payments == sum_rows(rows, |r: MortgageRow| r.actual_payment as int)
    &&& s.total_cost_of_capital == sum_rows(rows, |r: MortgageRow| r.cost_of_capital as int)
    &&& s.total_waste_cost == sum_rows(rows, |r: MortgageRow| r.waste_cost as int)
    &&& s.final_house_value == final_hv
    &&& s.final_equity == final_hv - final_debt_of(rows)
    &&& s.months_to_payoff == rows.len()
    &&& s.effective_interest_rate == effective_rate(ti, tp, rows.len() as int)
}

/// Sums every cost category over a bounded schedule.
fn summarize(rows: &Vec<MortgageRow>, final_hv: i64) -> (s: MortgageSummary)
    requires
        rows@.len() <= MAX_MONTHS,
        forall|i: int| 0 <= i < rows@.len() ==> row_bounded(#[trigger] rows@[i]),
        0 <= final_hv <= HV_CAP,
    ensures
        summary_matches(rows@, final_hv as int, s),
{
    let final_debt: i64 = if rows.len() == 0 {
        0
    } else {
        proof {
            assert(row_bounded(rows@[rows@.len() - 1]));
        }
        rows[rows.len() - 1].debt
    };
    let ghost fi = |r: MortgageRow| r.interest as int;
    let ghost fp = |r: MortgageRow| r.principal + r.extra_principal;
    let ghost ft = |r: MortgageRow| r.taxes as int;
    let ghost fs = |r: MortgageRow| r.insurance as int;
    let ghost fm = |r: MortgageRow| r.repair_costs as int;
    let ghost fpm = |r: MortgageRow| r.pmi as int;
    let ghost fh = |r: MortgageRow| r.hoa as int;
    let ghost fa = |r: MortgageRow| r.actual_payment as int;
    let ghost fc = |r: MortgageRow| r.cost_of_capital as int;
    let ghost fw = |r: MortgageRow| r.waste_cost as int;
    let mut ti: i64 = 0;
    let mut tp: i64 = 0;
    let mut tt: i64 = 0;
    let mut ts: i64 = 0;
    let mut tm: i64 = 0;
    let mut tpm: i64 = 0;
    let mut th: i64 = 0;
    let mut ta: i64 = 0;
    let mut tc: i64 = 0;
    let mut tw: i64 = 0;
    let mut i: usize = 0;
    while i < rows.len()
        invariant
            rows@.len() <= MAX_MONTHS,
            forall|j: int| 0 <= j < rows@.len() ==> row_bounded(#[trigger] rows@[j]),
            i <= rows@.len(),
            ti == sum_rows(rows@.take(i as int), fi),
            tp == sum_rows(rows@.take(i as int), fp),
            tt == sum_rows(rows@.take(i as int), ft),
            ts == sum_rows(rows@.take(i as int), fs),
            tm == sum_rows(rows@.take(i as int), fm),
            tpm == sum_rows(rows@.take(i as int), fpm),
            th == sum_rows(rows@.take(i as int), fh),
            ta == sum_rows(rows@.take(i as int), fa),
            tc == sum_rows(rows@.take(i as int), fc),
            tw == sum_rows(rows@.take(i as int), fw),
            fi == (|r: MortgageRow| r.interest as int),
            fp == (|r: MortgageRow| r.principal + r.extra_principal),
            ft == (|r: MortgageRow| r.taxes as int),
            fs == (|r: MortgageRow| r.insurance as int),
            fm == (|r: MortgageRow| r.repair_costs as int),
            fpm == (|r: MortgageRow| r.pmi as int),
            fh == (|r: MortgageRow| r.hoa as int),
            fa == (|r: MortgageRow| r.actual_payment as int),
            fc == (|r: MortgageRow| r.cost_of_capital as int),
            fw == (|r: MortgageRow| r.waste_cost as int),
            0 <= ti <= (i as int) * 10_000_000_000_000,
            0 <= tp <= (i as int) * 200_000_000_000_000,
            0 <= tt <= (i as int) * 4_000_000_000_000_000,
            0 <= ts <= (i as int) * 4_000_000_000_000_000,
            0 <= tm <= (i as int) * 4_000_000_000_000_000,
            0 <= tpm <= (i as int) * 100_000_000_000_000,
            0 <= th <= (i as int) * 100_000_000_000_000,
            0 <= ta <= (i as int) * 20_000_000_000_000_000,
            -(i as int) * 10_000_000_000_000 <= tc <= (i as int) * 4_000_000_000_000_000,
            -(i as int) * 10_000_000_000_000 <= tw <= (i as int) * 20_000_000_000_000_000,
        decreases rows@.len() - i,
    {
        let row = rows[i];
        proof {
            assert(rows@.take(i + 1 as int).drop_last() =~= rows@.take(i as int));
            assert(rows@.take((i + 1) as int).last() == rows@[i as int]);
        }
        ti = ti + row.interest;
        tp = tp + row.principal + row.extra_principal;
        tt = tt + row.taxes;
        ts = ts + row.insurance;
        tm = tm + row.repair_costs;
        tpm = tpm + row.pmi;
        th = th + row.hoa;
        ta = ta + row.actual_payment;
        tc = tc + row.cost_of_capital;
        tw = tw + row.waste_cost;
        i = i + 1;
    }
    proof {
        assert(rows@.take(i as int) =~= rows@);
    }
    let months: u32 = rows.len() as u32;
    let eff: i64 = if tp > 0 && months > 0 {
        proof {
            lemma_mul_upper_bound(ti as int, 3_600_000_000_000_000_000, 12 * SCALE,
                12_000_000);
            vstd::arithmetic::mul::lemma_mul_nonnegative(ti as int, 12 * SCALE);
            assert((tp as int) * (months as int) >= 1) by (nonlinear_arith)
                requires
                    tp >= 1,
                    months >= 1,
            ;
            lemma_mul_upper_bound(tp as int, 72_000_000_000_000_000_000, months as int, 360);
            lemma_tdiv_bounds((ti as int) * (12 * SCALE), (tp as int) * (months as int));
        }
        let raw: i128 = tdiv_i128(
            (ti as i128) * (12 * (SCALE as i128)),
            (tp as i128) * (months as i128),
        );
        if raw > RATE_CAP as i128 {
            RATE_CAP
        } else {
            raw as i64
        }
    } else {
        0
    };
    MortgageSummary {
        total_interest_paid: ti,
        total_principal_paid: tp,
        total_taxes_paid: tt,
        total_insurance_paid: ts,
        total_maintenance_paid: tm,
        total_pmi_paid: tpm,
        total_hoa_paid: th,
        total_payments: ta,
        total_cost_of_capital: tc,
        total_waste_cost: tw,
        final_house_value: final_hv,
        final_equity: final_hv - final_debt,
        months_to_payoff: months,
        effective_interest_rate: eff,
    }
}

/// Runs the whole projection: the monthly schedule plus its summary.  Pure
/// and deterministic; recomputed from scratch on every call.
pub fn calculate_mortgage(p: &MortgageParams) -> (out: (Vec<MortgageRow>, MortgageSummary))
    requires
        p.wf(),
    ensures
        out.0@.len() == months_emitted(*p),
        forall|i: int|
            0 <= i < out.0@.len() ==> row_matches(*p, i + 1, #[trigger] out.0@[i])
                && row_bounded(out.0@[i]),
        summary_matches(out.0@, house_value_at(*p, months_emitted(*p)), out.1),
{
    let rows = compute_rows(p);
    let final_hv: i64 = if rows.len() == 0 {
        p.house_value
    } else {
        rows[rows.len() - 1].house_cost
    };
    proof {
        lemma_months_range(*p, 0);
        if rows@.len() > 0 {
            assert(row_matches(*p, rows@.len() as int, rows@[rows@.len() - 1]));
            assert(row_bounded(rows@[rows@.len() - 1]));
        }
        assert(final_hv as int == house_value_at(*p, months_emitted(*p)));
        assert(0 <= final_hv <= HV_CAP);
    }
    let summary = summarize(&rows, final_hv);
    (rows, summary)
}

/// The balances ahead of every emitted row are positive, and when the
/// schedule ends before the horizon its closing balance is non-positive.
pub proof fn lemma_months_chars(p: MortgageParams, k: nat)
    requires
        k <= MAX_MONTHS,
    ensures
        forall|j: int|
            k <= j < months_from(p, k) ==> #[trigger] balance_after(p, j as nat) > 0,
        months_from(p, k) < MAX_MONTHS ==> balance_after(p, months_from(p, k)) <= 0,
    decreases MAX_MONTHS - k,
{
    if k < MAX_MONTHS && balance_after(p, k) > 0 {
        lemma_months_chars(p, (k + 1) as nat);
    }
}

/// Once the scheduled term is over, the balance is never positive: the
/// term's final month always clears whatever is left.
pub proof fn lemma_paid_off_after_term(p: MortgageParams, j: nat)
    requires
        p.wf(),
        j >= term_months(p),
    ensures
        balance_after(p, j) <= 0,
    decreases j,
{
    let prev = balance_after(p, (j - 1) as nat);
    if j == term_months(p) {
        assert(j >= 1);
        if prev > 0 {
            assert(month_pays_off(p, j as int, prev));
        }
    } else {
        lemma_paid_off_after_term(p, (j - 1) as nat);
    }
}

/// A sum of a quantity that is zero on every row is zero.
pub proof fn lemma_sum_rows_zero(rows: Seq<MortgageRow>, f: spec_fn(MortgageRow) -> int)
    requires
        forall|i: int| 0 <= i < rows.len() ==> #[trigger] f(rows[i]) == 0,
    ensures
        sum_rows(rows, f) == 0,
    decreases rows.len(),
{
    if rows.len() > 0 {
        lemma_sum_rows_zero(rows.drop_last(), f);
    }
}

/// Months count up from 1 with no gaps, the recorded debt is the closing
/// balance of each month and never increases, and — for a term within the
/// simulated horizon — the last row's debt is zero or less.
pub proof fn lemma_schedule_shape(p: MortgageParams, rows: Seq<MortgageRow>)
    requires
        p.wf(),
        rows.len() == months_emitted(p),
        forall|i: int| 0 <= i < rows.len() ==> row_matches(p, i + 1, #[trigger] rows[i]),
    ensures
        rows.len() <= MAX_MONTHS,
        forall|i: int| 0 <= i < rows.len() ==> (#[trigger] rows[i]).month == i + 1,
        forall|i: int|
            0 <= i < rows.len() ==> (#[trigger] rows[i]).debt == balance_after(p, (i + 1) as nat),
        forall|i: int| 1 <= i < rows.len() ==> (#[trigger] rows[i]).debt <= rows[i - 1].debt,
        p.loan_term_years <= 30 && rows.len() > 0 ==> rows[rows.len() - 1].debt <= 0,
{
    lemma_months_range(p, 0);
    lemma_months_chars(p, 0);
    assert forall|i: int| 0 <= i < rows.len() implies (#[trigger] rows[i]).debt == balance_after(
        p,
        (i + 1) as nat,
    ) by {
        assert(balance_after(p, i as nat) > 0);
        assert(rows[i].debt == balance_after(p, i as nat) - month_principal(
            p,
            i + 1,
            balance_after(p, i as nat),
        ) - month_extra(p, i + 1, balance_after(p, i as nat)));
    }
    assert forall|i: int| 1 <= i < rows.len() implies (#[trigger] rows[i]).debt <= rows[i
        - 1].debt by {
        lemma_balance_bounds(p, (i + 1) as nat);
    }
    if p.loan_term_years <= 30 && rows.len() > 0 {
        let m = rows.len() as int;
        if m < MAX_MONTHS {
            assert(balance_after(p, m as nat) <= 0);
        } else {
            lemma_paid_off_after_term(p, m as nat);
        }
    }
}

/// Telescoping: principal plus extra paid through month `t` equals the
/// original loan minus the balance after month `t`.
proof fn lemma_principal_telescope(p: MortgageParams, rows: Seq<MortgageRow>, t: int)
    requires
        p.wf(),
        0 <= t <= rows.len(),
        forall|i: int| 0 <= i < rows.len() ==> row_matches(p, i + 1, #[trigger] rows[i]),
        forall|j: int| 0 <= j < rows.len() ==> #[trigger] balance_after(p, j as nat) > 0,
    ensures
        sum_rows(
            rows.take(t),
            |r: MortgageRow| r.principal + r.extra_principal,
        ) == loan_micro(p) - balance_after(p, t as nat),
    decreases t,
{
    if t == 0 {
    } else {
        lemma_principal_telescope(p, rows, t - 1);
        assert(rows.take(t).drop_last() =~= rows.take(t - 1));
        assert(rows.take(t).last() == rows[t - 1]);
        assert(balance_after(p, (t - 1) as nat) > 0);
        assert(row_matches(p, t, rows[t - 1]));
    }
}

/// Every micro-dollar of principal (scheduled or extra) across the whole
/// schedule accounts exactly for the distance from the original loan to the
/// final remaining debt.
pub proof fn lemma_principal_accounting(p: MortgageParams, rows: Seq<MortgageRow>)
    requires
        p.wf(),
        rows.len() == months_emitted(p),
        forall|i: int| 0 <= i < rows.len() ==> row_matches(p, i + 1, #[trigger] rows[i]),
    ensures
        sum_rows(rows, |r: MortgageRow| r.principal + r.extra_principal) == loan_micro(p) - (
        if rows.len() == 0 {
            loan_micro(p)
        } else {
            rows[rows.len() - 1].debt as int
        }),
{
    lemma_months_range(p, 0);
    lemma_months_chars(p, 0);
    lemma_principal_telescope(p, rows, rows.len() as int);
    assert(rows.take(rows.len() as int) =~= rows);
    if rows.len() > 0 {
        lemma_schedule_shape(p, rows);
    }
}

/// With a zero interest rate the payment is the straight-line division of
/// the loan over the term, and no interest at all is charged.
pub proof fn lemma_zero_rate(p: MortgageParams, rows: Seq<MortgageRow>)
    requires
        p.wf(),
        p.annual_interest_rate == 0,
        forall|i: int| 0 <= i < rows.len() ==> row_matches(p, i + 1, #[trigger] rows[i]),
    ensures
        monthly_payment_micro(p) == tdiv(loan_micro(p), term_months(p)),
        sum_rows(rows, |r: MortgageRow| r.interest as int) == 0,
{
    lemma_rate12_bounds(p);
    let f = |r: MortgageRow| r.interest as int;
    assert forall|i: int| 0 <= i < rows.len() implies #[trigger] f(rows[i]) == 0 by {
        let prev = balance_after(p, i as nat);
        assert(prev * rate12(p) == 0) by (nonlinear_arith)
            requires
                rate12(p) == 0,
        ;
        lemma_tdiv_bounds(prev * rate12(p), POW_SCALE as int);
    }
    lemma_sum_rows_zero(rows, f);
}

/// Raising only the extra monthly principal never leaves the balance
/// higher at any month: every month the larger extra pays at least as much
/// down, and the final-month cap only ever clears the balance completely.
pub proof fn lemma_extra_lowers_balance(p0: MortgageParams, p1: MortgageParams, k: nat)
    requires
        p0.wf(),
        p1.wf(),
        p1 == (MortgageParams { extra_monthly: p1.extra_monthly, ..p0 }),
        p0.extra_monthly <= p1.extra_monthly,
    ensures
        balance_after(p1, k) <= balance_after(p0, k),
    decreases k,
{
    assert(loan_micro(p1) == loan_micro(p0));
    assert(rate12(p1) == rate12(p0));
    assert(term_months(p1) == term_months(p0));
    assert(monthly_payment_micro(p1) == monthly_payment_micro(p0));
    if k > 0 {
        lemma_extra_lowers_balance(p0, p1, (k - 1) as nat);
        lemma_balance_bounds(p0, (k - 1) as nat);
        lemma_balance_bounds(p1, (k - 1) as nat);
        lemma_down_payment_bounds(p0);
        lemma_rate12_bounds(p0);
        let prev0 = balance_after(p0, (k - 1) as nat);
        let prev1 = balance_after(p1, (k - 1) as nat);
        if prev1 <= 0 {
            if prev0 > 0 {
                lemma_month_split(p0, k as int, prev0);
            }
        } else {
            // Both schedules still open; the loan is positive.
            lemma_month_split(p0, k as int, prev0);
            lemma_month_split(p1, k as int, prev1);
            assert(prev1 * rate12(p0) <= prev0 * rate12(p0)) by (nonlinear_arith)
                requires
                    prev1 <= prev0,
                    rate12(p0) >= 0,
            ;
            lemma_tdiv_ordered(prev1 * rate12(p0), prev0 * rate12(p0), POW_SCALE as int);
            assert(month_interest(p1, prev1) <= month_interest(p0, prev0));
            if month_pays_off(p0, k as int, prev0) {
                // The smaller-extra schedule clears this month; the larger
                // one clears too, for its payment covers no less.
                assert(month_pays_off(p1, k as int, prev1));
            } else {
                // Neither clears (the larger may): either way the closing
                // balance of the larger-extra schedule is no higher.
                if month_pays_off(p1, k as int, prev1) {
                    assert(balance_after(p1, k) == 0);
                } else {
                    assert(balance_after(p1, k) == prev1 - (monthly_payment_micro(p1)
                        - month_interest(p1, prev1)) - p1.extra_monthly);
                }
            }
        }
    }
}

/// Extra monthly principal never delays payoff: with a larger extra
/// payment on an otherwise identical loan, the schedule is never longer.
pub proof fn lemma_extra_never_delays_payoff(p0: MortgageParams, p1: MortgageParams)
    requires
        p0.wf(),
        p1.wf(),
        p1 == (MortgageParams { extra_monthly: p1.extra_monthly, ..p0 }),
        p0.extra_monthly <= p1.extra_monthly,
    ensures
        months_emitted(p1) <= months_emitted(p0),
{
    lemma_months_range(p0, 0);
    lemma_months_range(p1, 0);
    lemma_months_chars(p0, 0);
    lemma_months_chars(p1, 0);
    let m0 = months_emitted(p0);
    let m1 = months_emitted(p1);
    if m0 < months_emitted(p1) {
        assert(m0 < MAX_MONTHS);
        assert(balance_after(p0, m0) <= 0);
        lemma_extra_lowers_balance(p0, p1, m0);
        let j: int = m0 as int;
        assert(balance_after(p1, j as nat) > 0);
        assert(j as nat == m0);
        assert(false);
    }
}

/// Interest accrued over the first `k` months, counting only months the
/// schedule is still open.
pub open spec fn interest_paid_through(p: MortgageParams, k: nat) -> int
    decreases k,
{
    if k == 0 {
        0
    } else {
        let t = interest_paid_through(p, (k - 1) as nat);
        let prev = balance_after(p, (k - 1) as nat);
        if prev > 0 {
            t + month_interest(p, prev)
        } else {
            t
        }
    }
}

/// The schedule's interest column sums to the interest accrued through the
/// whole horizon.
proof fn lemma_interest_sum_bridge(p: MortgageParams, rows: Seq<MortgageRow>, t: nat)
    requires
        p.wf(),
        rows.len() == months_emitted(p),
        forall|i: int| 0 <= i < rows.len() ==> row_matches(p, i + 1, #[trigger] rows[i]),
        t <= MAX_MONTHS,
    ensures
        t <= rows.len() ==> sum_rows(
            rows.take(t as int),
            |r: MortgageRow| r.interest as int,
        ) == interest_paid_through(p, t),
        t >= rows.len() ==> sum_rows(rows, |r: MortgageRow| r.interest as int)
            == interest_paid_through(p, t),
    decreases t,
{
    lemma_months_range(p, 0);
    lemma_months_chars(p, 0);
    let f = |r: MortgageRow| r.interest as int;
    if t == 0 {
        assert(rows.take(0) =~= Seq::<MortgageRow>::empty());
    } else {
        lemma_interest_sum_bridge(p, rows, (t - 1) as nat);
        let prev = balance_after(p, (t - 1) as nat);
        if t <= rows.len() {
            let j: int = t - 1;
            assert(balance_after(p, j as nat) > 0);
            assert(rows.take(t as int).drop_last() =~= rows.take(t - 1));
            assert(rows.take(t as int).last() == rows[t - 1]);
            assert(row_matches(p, t as int, rows[t - 1]));
            if t == rows.len() {
                assert(rows.take(t as int) =~= rows);
            }
        } else {
            // Past the end of the schedule the balance is closed and no
            // interest accrues.
            assert(prev <= 0) by {
                let m = rows.len() as nat;
                assert(m < MAX_MONTHS);
                assert(balance_after(p, m) <= 0);
                lemma_balance_closed_stays(p, m, (t - 1) as nat);
            }
        }
    }
}

/// Once the balance has closed it never reopens.
proof fn lemma_balance_closed_stays(p: MortgageParams, m: nat, k: nat)
    requires
        p.wf(),
        balance_after(p, m) <= 0,
        m <= k,
    ensures
        balance_after(p, k) <= 0,
    decreases k - m,
{
    if k > m {
        lemma_balance_closed_stays(p, m, (k - 1) as nat);
    }
}

/// Raising only the extra monthly principal never accrues more interest
/// through any horizon.
proof fn lemma_extra_lowers_interest(p0: MortgageParams, p1: MortgageParams, k: nat)
    requires
        p0.wf(),
        p1.wf(),
        p1 == (MortgageParams { extra_monthly: p1.extra_monthly, ..p0 }),
        p0.extra_monthly <= p1.extra_monthly,
    ensures
        0 <= interest_paid_through(p1, k) <= interest_paid_through(p0, k),
    decreases k,
{
    if k > 0 {
        lemma_extra_lowers_interest(p0, p1, (k - 1) as nat);
        lemma_extra_lowers_balance(p0, p1, (k - 1) as nat);
        lemma_balance_bounds(p0, (k - 1) as nat);
        lemma_balance_bounds(p1, (k - 1) as nat);
        lemma_down_payment_bounds(p0);
        lemma_rate12_bounds(p0);
        let prev0 = balance_after(p0, (k - 1) as nat);
        let prev1 = balance_after(p1, (k - 1) as nat);
        assert(rate12(p1) == rate12(p0));
        if prev1 > 0 {
            assert(prev1 * rate12(p0) <= prev0 * rate12(p0)) by (nonlinear_arith)
                requires
                    prev1 <= prev0,
                    rate12(p0) >= 0,
            ;
            lemma_tdiv_ordered(prev1 * rate12(p0), prev0 * rate12(p0), POW_SCALE as int);
            vstd::arithmetic::mul::lemma_mul_nonnegative(prev1, rate12(p0));
            lemma_tdiv_bounds(prev1 * rate12(p0), POW_SCALE as int);
        } else if prev0 > 0 {
            vstd::arithmetic::mul::lemma_mul_nonnegative(prev0, rate12(p0));
            lemma_tdiv_bounds(prev0 * rate12(p0), POW_SCALE as int);
        }
    }
}

/// Extra monthly principal never costs interest: against an otherwise
/// identical loan, a schedule with a larger extra payment pays no more
/// total interest.
pub proof fn lemma_extra_saves_interest(
    p0: MortgageParams,
    p1: MortgageParams,
    rows0: Seq<MortgageRow>,
    rows1: Seq<MortgageRow>,
)
    requires
        p0.wf(),
        p1.wf(),
        p1 == (MortgageParams { extra_monthly: p1.extra_monthly, ..p0 }),
        p0.extra_monthly <= p1.extra_monthly,
        rows0.len() == months_emitted(p0),
        rows1.len() == months_emitted(p1),
        forall|i: int| 0 <= i < rows0.len() ==> row_matches(p0, i + 1, #[trigger] rows0[i]),
        forall|i: int| 0 <= i < rows1.len() ==> row_matches(p1, i + 1, #[trigger] rows1[i]),
    ensures
        sum_rows(rows1, |r: MortgageRow| r.interest as int) <= sum_rows(
            rows0,
            |r: MortgageRow| r.interest as int,
        ),
{
    lemma_months_range(p0, 0);
    lemma_months_range(p1, 0);
    lemma_interest_sum_bridge(p0, rows0, MAX_MONTHS as nat);
    lemma_interest_sum_bridge(p1, rows1, MAX_MONTHS as nat);
    lemma_extra_lowers_interest(p0, p1, MAX_MONTHS as nat);
}

/// With a down payment of a fifth of the house value or more, PMI is zero
/// in every row, whatever PMI inputs were given.
pub proof fn lemma_no_pmi(p: MortgageParams, rows: Seq<MortgageRow>)
    requires
        p.wf(),
        5 * down_payment_micro(p) >= p.house_value,
        forall|i: int| 0 <= i < rows.len() ==> row_matches(p, i + 1, #[trigger] rows[i]),
    ensures
        forall|i: int| 0 <= i < rows.len() ==> (#[trigger] rows[i]).pmi == 0,
{
    assert(!pmi_applies(p));
}

} // verus!
