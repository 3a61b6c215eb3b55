use home_buyer::codec::parse_micro;
use home_buyer::engine::{calculate_mortgage, MortgageParams, Split};
use home_buyer::export::{export_csv, export_filename};
use home_buyer::wizard::Screen;

const DOLLAR: i64 = 1_000_000;

const HEADER: &str = "Month,Interest,Principal,Extra Principal,Repair Costs,HOA,Taxes,Insurance,PMI,Actual Payment,Cost of Capital,Waste Cost,Cost,Debt,Interest Rate,House Cost,Equity";

fn bare_loan(house: i64, down: Split, annual_rate: i64, years: u32) -> MortgageParams {
    MortgageParams {
        house_value: house,
        down_payment: down,
        monthly_hoa: 0,
        annual_interest_rate: annual_rate,
        property_tax: Split::Amount(0),
        insurance: Split::Amount(0),
        maintenance: Split::Amount(0),
        pmi: Split::Amount(0),
        annual_appreciation: 0,
        loan_term_years: years,
        extra_monthly: 0,
    }
}

fn lines_of(bytes: &[u8]) -> Vec<String> {
    let text = String::from_utf8(bytes.to_vec()).unwrap();
    text.split('\n').map(|s| s.to_string()).collect()
}

fn round_to_cents(v: i64) -> i64 {
    let cents = (v.abs() + 5000) / 10_000;
    cents * 10_000 * if v < 0 { -1 } else { 1 }
}

#[test]
fn export_without_summary_is_header_plus_rows() {
    let p = bare_loan(120_000 * DOLLAR, Split::Amount(0), 0, 10);
    let (rows, _) = calculate_mortgage(&p);
    let out = export_csv(&rows, &None);
    let lines = lines_of(&out);
    // Header, 120 row lines, and the empty fragment after the final break.
    assert_eq!(lines.len(), 1 + 120 + 1);
    assert_eq!(lines[0], HEADER);
    assert_eq!(lines[121], "");
    assert_eq!(
        lines[1],
        "1,0.00,1000.00,0.00,0.00,0.00,0.00,0.00,0.00,1000.00,0.00,0.00,0.00,119000.00,0.0000,120000.00,0.00"
    );
    assert_eq!(
        lines[120],
        "120,0.00,1000.00,0.00,0.00,0.00,0.00,0.00,0.00,1000.00,0.00,0.00,0.00,0.00,0.0000,120000.00,119000.00"
    );
}

#[test]
fn export_with_summary_appends_the_section() {
    let p = bare_loan(120_000 * DOLLAR, Split::Amount(0), 0, 10);
    let (rows, summary) = calculate_mortgage(&p);
    let out = export_csv(&rows, &Some(summary));
    let lines = lines_of(&out);
    // Header, 120 rows, blank separator, section header, 14 value lines,
    // and the trailing empty fragment.
    assert_eq!(lines.len(), 1 + 120 + 2 + 14 + 1);
    assert_eq!(lines[121], "");
    assert_eq!(lines[122], "Summary Statistics");
    assert_eq!(lines[123], "Total Interest Paid,0.00");
    assert_eq!(lines[124], "Total Principal Paid,120000.00");
    assert_eq!(lines[135], "Months to Payoff,120");
    assert_eq!(lines[136], "Effective Interest Rate,0.0000");
}

#[test]
fn written_row_count_matches_memory() {
    let p = bare_loan(
        300_000 * DOLLAR,
        Split::Percent(200_000),
        60_000,
        30,
    );
    let (rows, summary) = calculate_mortgage(&p);
    let out = export_csv(&rows, &Some(summary));
    let lines = lines_of(&out);
    let row_lines: Vec<&String> = lines[1..]
        .iter()
        .take_while(|l| !l.is_empty())
        .collect();
    assert_eq!(row_lines.len(), rows.len());
}

#[test]
fn exported_numbers_reparse_to_printed_precision() {
    let mut p = bare_loan(
        300_000 * DOLLAR,
        Split::Percent(100_000),
        65_000,
        30,
    );
    p.monthly_hoa = 50 * DOLLAR;
    p.property_tax = Split::Percent(20_000);
    p.insurance = Split::Percent(3_500);
    p.maintenance = Split::Percent(10_000);
    p.pmi = Split::Percent(5_000);
    p.annual_appreciation = 30_000;
    let (rows, summary) = calculate_mortgage(&p);
    let out = export_csv(&rows, &Some(summary));
    let lines = lines_of(&out);
    for (i, row) in rows.iter().enumerate().step_by(37) {
        let cells: Vec<&str> = lines[1 + i].split(',').collect();
        assert_eq!(cells.len(), 17);
        assert_eq!(cells[0].parse::<u32>().unwrap(), row.month);
        let currency = [
            (1, row.interest),
            (2, row.principal),
            (3, row.extra_principal),
            (4, row.repair_costs),
            (5, row.hoa),
            (6, row.taxes),
            (7, row.insurance),
            (8, row.pmi),
            (9, row.actual_payment),
            (10, row.cost_of_capital),
            (11, row.waste_cost),
            (12, row.cost),
            (13, row.debt),
            (15, row.house_cost),
            (16, row.equity),
        ];
        for &(cell, value) in currency.iter() {
            let reparsed = parse_micro(&cells[cell].as_bytes().to_vec()).unwrap();
            assert_eq!(reparsed, round_to_cents(value), "cell {} of row {}", cell, i + 1);
        }
        // The rate column re-parses exactly: four decimals lose nothing of
        // a micro-fraction rate ending in two zeros.
        let rate = parse_micro(&cells[14].as_bytes().to_vec()).unwrap();
        assert_eq!(rate, 65_000);
    }
}

#[test]
fn export_file_names_follow_the_screen() {
    assert_eq!(export_filename(&Screen::Spreadsheet), "mortgage_spreadsheet.csv");
    assert_eq!(export_filename(&Screen::Summary), "mortgage_analysis.csv");
}
