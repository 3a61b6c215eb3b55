use home_buyer::engine::{calculate_mortgage, monthly_payment, MortgageParams, Split};

const DOLLAR: i64 = 1_000_000;

/// A loan with every optional cost switched off.
fn bare_loan(house: i64, down: Split, annual_rate: i64, years: u32) -> MortgageParams {
    MortgageParams {
        house_value: house,
        down_payment: down,
        monthly_hoa: 0,
        annual_interest_rate: annual_rate,
        property_tax: Split::Amount(0),
        insurance: Split::Amount(0),
        maintenance: Split::Amount(0),
        pmi: Split::Amount(0),
        annual_appreciation: 0,
        loan_term_years: years,
        extra_monthly: 0,
    }
}

#[test]
fn zero_rate_loan_is_straight_line() {
    // 120,000 over ten years at 0%: exactly 1,000 per month.
    let p = bare_loan(120_000 * DOLLAR, Split::Amount(0), 0, 10);
    assert_eq!(monthly_payment(&p), 1_000 * DOLLAR);
    let (rows, summary) = calculate_mortgage(&p);
    assert_eq!(rows.len(), 120);
    assert_eq!(summary.months_to_payoff, 120);
    assert_eq!(summary.total_interest_paid, 0);
    assert_eq!(summary.total_principal_paid, 120_000 * DOLLAR);
    assert_eq!(summary.effective_interest_rate, 0);
    let first = &rows[0];
    assert_eq!(first.month, 1);
    assert_eq!(first.interest, 0);
    assert_eq!(first.principal, 1_000 * DOLLAR);
    assert_eq!(first.debt, 119_000 * DOLLAR);
    assert_eq!(rows[119].debt, 0);
}

#[test]
fn standard_thirty_year_annuity() {
    // 300,000 house, 20% down, 6% for 30 years: the level payment on the
    // 240,000 loan is 1,438.92 and change.
    let p = bare_loan(
        300_000 * DOLLAR,
        Split::Percent(200_000),
        60_000,
        30,
    );
    let pay = monthly_payment(&p);
    assert!(pay >= 1_438_900_000 && pay <= 1_438_930_000, "payment {}", pay);
    let (rows, summary) = calculate_mortgage(&p);
    assert_eq!(rows.len(), 360);
    assert_eq!(summary.months_to_payoff, 360);
    assert_eq!(rows[359].debt, 0);
    // Total interest on the level payment: about 278,012.
    let ti = summary.total_interest_paid;
    assert!(
        ti >= 277_990 * DOLLAR && ti <= 278_030 * DOLLAR,
        "total interest {}",
        ti
    );
    // First month: interest is exactly 0.5% of 240,000.
    assert_eq!(rows[0].interest, 1_200 * DOLLAR);
    assert_eq!(rows[0].month, 1);
}

#[test]
fn months_count_up_and_debt_never_rises() {
    let p = bare_loan(
        300_000 * DOLLAR,
        Split::Percent(200_000),
        60_000,
        30,
    );
    let (rows, _) = calculate_mortgage(&p);
    let mut prev_debt = 300_000 * DOLLAR - 60_000 * DOLLAR;
    for (i, r) in rows.iter().enumerate() {
        assert_eq!(r.month as usize, i + 1);
        assert!(r.debt <= prev_debt);
        prev_debt = r.debt;
    }
    assert!(prev_debt <= 0);
}

#[test]
fn principal_accounts_for_loan_minus_final_debt() {
    let mut p = bare_loan(
        250_000 * DOLLAR,
        Split::Percent(100_000),
        55_000,
        15,
    );
    p.extra_monthly = 75 * DOLLAR;
    let (rows, summary) = calculate_mortgage(&p);
    let loan = 250_000 * DOLLAR - 25_000 * DOLLAR;
    let paid: i64 = rows.iter().map(|r| r.principal + r.extra_principal).sum();
    let final_debt = rows.last().unwrap().debt;
    assert_eq!(paid, loan - final_debt);
    assert_eq!(summary.total_principal_paid, paid);
}

#[test]
fn pmi_waived_at_twenty_percent_down() {
    let mut p = bare_loan(
        300_000 * DOLLAR,
        Split::Percent(200_000),
        60_000,
        30,
    );
    p.pmi = Split::Percent(5_000);
    let (rows, summary) = calculate_mortgage(&p);
    for r in rows.iter() {
        assert_eq!(r.pmi, 0);
    }
    assert_eq!(summary.total_pmi_paid, 0);
}

#[test]
fn pmi_charged_below_twenty_percent_down() {
    let mut p = bare_loan(
        300_000 * DOLLAR,
        Split::Percent(100_000),
        60_000,
        30,
    );
    p.pmi = Split::Percent(5_000);
    let (rows, _) = calculate_mortgage(&p);
    // First month: 0.5% a year on the 270,000 balance is 112.50.
    assert_eq!(rows[0].pmi, 112_500_000);
    assert!(rows[1].pmi < rows[0].pmi || rows[1].pmi == rows[0].pmi);
}

#[test]
fn percent_costs_follow_house_value() {
    let mut p = bare_loan(
        300_000 * DOLLAR,
        Split::Percent(200_000),
        60_000,
        30,
    );
    p.property_tax = Split::Percent(20_000);
    let (rows, _) = calculate_mortgage(&p);
    // 2% a year of the (non-appreciating) 300,000 value: 500 a month.
    assert_eq!(rows[0].taxes, 500 * DOLLAR);
    assert_eq!(rows[200].taxes, 500 * DOLLAR);
}

#[test]
fn appreciation_compounds_and_drives_equity() {
    let mut p = bare_loan(
        300_000 * DOLLAR,
        Split::Percent(200_000),
        60_000,
        30,
    );
    p.annual_appreciation = 36_000;  // 3.6% a year: 0.3% a month exactly.
    let (rows, summary) = calculate_mortgage(&p);
    // Month 1: 300,000 * 1.003 = 300,900 exactly.
    assert_eq!(rows[0].house_cost, 300_900 * DOLLAR);
    assert!(rows[359].house_cost > rows[0].house_cost);
    assert_eq!(summary.final_house_value, rows[359].house_cost);
    assert_eq!(rows[0].equity, rows[0].house_cost - (240_000 * DOLLAR));
}

#[test]
fn extra_principal_shortens_loan_and_saves_interest() {
    let base = bare_loan(
        300_000 * DOLLAR,
        Split::Percent(200_000),
        60_000,
        30,
    );
    let mut faster = base;
    faster.extra_monthly = 200 * DOLLAR;
    let (rows0, s0) = calculate_mortgage(&base);
    let (rows1, s1) = calculate_mortgage(&faster);
    assert!(s1.months_to_payoff < s0.months_to_payoff);
    assert!(s1.total_interest_paid < s0.total_interest_paid);
    assert_eq!(rows0.len(), 360);
    assert!(rows1.len() < 360);
    assert_eq!(rows1.last().unwrap().debt, 0);
}

#[test]
fn all_cash_purchase_has_no_schedule() {
    let p = bare_loan(
        200_000 * DOLLAR,
        Split::Amount(200_000 * DOLLAR),
        60_000,
        30,
    );
    let (rows, summary) = calculate_mortgage(&p);
    assert_eq!(rows.len(), 0);
    assert_eq!(summary.months_to_payoff, 0);
    assert_eq!(summary.total_principal_paid, 0);
    assert_eq!(summary.effective_interest_rate, 0);
    assert_eq!(summary.final_house_value, 200_000 * DOLLAR);
}

#[test]
fn waste_and_cost_cover_every_non_principal_outflow() {
    let mut p = bare_loan(
        300_000 * DOLLAR,
        Split::Percent(100_000),
        60_000,
        30,
    );
    p.monthly_hoa = 50 * DOLLAR;
    p.property_tax = Split::Percent(20_000);
    p.insurance = Split::Percent(3_500);
    p.maintenance = Split::Percent(10_000);
    p.pmi = Split::Percent(5_000);
    let (rows, _) = calculate_mortgage(&p);
    for r in rows.iter().take(24) {
        let waste = r.interest + r.repair_costs + r.hoa + r.taxes + r.insurance + r.pmi
            + r.cost_of_capital;
        assert_eq!(r.waste_cost, waste);
        assert_eq!(
            r.cost,
            r.actual_payment - r.principal - r.extra_principal + r.cost_of_capital
        );
        assert_eq!(
            r.actual_payment,
            r.interest + r.principal + r.extra_principal + r.repair_costs + r.hoa + r.taxes
                + r.insurance + r.pmi
        );
    }
}

#[test]
fn depreciation_can_push_equity_and_capital_cost_negative() {
    // No down payment and a falling market: the first months are under
    // water, so equity and the opportunity cost of equity are negative.
    let mut p = bare_loan(300_000 * DOLLAR, Split::Amount(0), 60_000, 30);
    p.annual_appreciation = -36_000;  // -3.6% a year: -0.3% a month exactly.
    let (rows, _) = calculate_mortgage(&p);
    // Month 1: 300,000 * 0.997 = 299,100 exactly.
    assert_eq!(rows[0].house_cost, 299_100 * DOLLAR);
    assert_eq!(rows[0].equity, -900 * DOLLAR);
    // Cost of capital: -900 * 6% / 12 = -4.50 a month.
    assert_eq!(rows[0].cost_of_capital, -4_500_000);
    assert_eq!(rows[0].waste_cost, rows[0].interest + rows[0].cost_of_capital);
    assert!(rows[1].house_cost < rows[0].house_cost);
}

#[test]
fn unfinished_term_reports_equity_net_of_debt() {
    // A 100-year, zero-rate loan of 1,200,000 with nothing down pays 1,000
    // a month; after the 360-month horizon 840,000 is still owed, so the
    // final equity is only what has been paid off.
    let p = bare_loan(1_200_000 * DOLLAR, Split::Amount(0), 0, 100);
    let (rows, summary) = calculate_mortgage(&p);
    assert_eq!(rows.len(), 360);
    assert_eq!(rows[359].debt, 840_000 * DOLLAR);
    assert_eq!(summary.final_house_value, 1_200_000 * DOLLAR);
    assert_eq!(summary.final_equity, 360_000 * DOLLAR);
}

#[test]
fn paid_off_loan_reports_full_equity() {
    let p = bare_loan(120_000 * DOLLAR, Split::Amount(0), 0, 10);
    let (rows, summary) = calculate_mortgage(&p);
    assert_eq!(rows[rows.len() - 1].debt, 0);
    assert_eq!(summary.final_equity, summary.final_house_value);
}

#[test]
fn effective_rate_is_the_annualized_interest_ratio() {
    let p = bare_loan(
        300_000 * DOLLAR,
        Split::Percent(200_000),
        60_000,
        30,
    );
    let (_, s) = calculate_mortgage(&p);
    let expected = (s.total_interest_paid as i128) * 12_000_000
        / ((s.total_principal_paid as i128) * (s.months_to_payoff as i128));
    assert_eq!(s.effective_interest_rate as i128, expected);
}
