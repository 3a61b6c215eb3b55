//! The exporter: turns the schedule and summary into delimited text, one
//! header line, one line per month, and — when a summary exists — a
//! label,value section.  Currency fields print at two decimals, the rate
//! fields at four.  Writing the bytes to a file is the caller's concern;
//! the text itself is specified to the byte.

use crate::codec::{
    dec_digits, money_text, push_decimal, push_money, push_rate, rate_text, COMMA, NEWLINE,
};
use crate::engine::{MortgageRow, MortgageSummary};
use crate::wizard::Screen;
use vstd::prelude::*;
use vstd::string::StrSliceExecFns;
use vstd::string::StringSliceAdditionalSpecFns;

verus! {

/// The header naming every row field.
pub open spec fn header_bytes() -> Seq<u8> {
    (
    "Month,Interest,Principal,Extra Principal,Repair Costs,HOA,Taxes,Insurance,PMI,Actual Payment,Cost of Capital,Waste Cost,Cost,Debt,Interest Rate,House Cost,Equity\n").spec_bytes()
}

/// The month number and the first three currency columns.
pub open spec fn row_line_p1(r: MortgageRow) -> Seq<u8> {
    dec_digits(r.month as nat) + seq![COMMA] + money_text(r.interest as int) + seq![COMMA]
        + money_text(r.principal as int) + seq![COMMA] + money_text(r.extra_principal as int)
        + seq![COMMA]
}

/// The recurring-cost columns.
pub open spec fn row_line_p2(r: MortgageRow) -> Seq<u8> {
    money_text(r.repair_costs as int) + seq![COMMA] + money_text(r.hoa as int) + seq![COMMA]
        + money_text(r.taxes as int) + seq![COMMA] + money_text(r.insurance as int) + seq![COMMA]
}

/// The PMI, payment and economic-cost columns.
pub open spec fn row_line_p3(r: MortgageRow) -> Seq<u8> {
    money_text(r.pmi as int) + seq![COMMA] + money_text(r.actual_payment as int) + seq![COMMA]
        + money_text(r.cost_of_capital as int) + seq![COMMA] + money_text(r.waste_cost as int)
        + seq![COMMA]
}

/// The closing columns: cost, debt, the rate at four decimals, house value
/// and equity, then the line break.
pub open spec fn row_line_p4(r: MortgageRow) -> Seq<u8> {
    money_text(r.cost as int) + seq![COMMA] + money_text(r.debt as int) + seq![COMMA] + rate_text(
        r.interest_rate as int,
    ) + seq![COMMA] + money_text(r.house_cost as int) + seq![COMMA] + money_text(r.equity as int)
        + seq![NEWLINE]
}

/// One schedule row as a line of text.
pub open spec fn row_line(r: MortgageRow) -> Seq<u8> {
    row_line_p1(r) + row_line_p2(r) + row_line_p3(r) + row_line_p4(r)
}

/// All schedule rows, in order.
pub open spec fn rows_text(rows: Seq<MortgageRow>) -> Seq<u8>
    decreases rows.len(),
{
    if rows.len() == 0 {
        Seq::empty()
    } else {
        rows_text(rows.drop_last()) + row_line(rows.last())
    }
}

/// The first summary lines: the separator, the section header, and the
/// interest, principal, taxes and insurance totals.
pub open spec fn summary_text_p1(s: MortgageSummary) -> Seq<u8> {
    ("\nSummary Statistics\n").spec_bytes() + ("Total Interest Paid,").spec_bytes() + money_text(
        s.total_interest_paid as int,
    ) + seq![NEWLINE] + ("Total Principal Paid,").spec_bytes() + money_text(
        s.total_principal_paid as int,
    ) + seq![NEWLINE] + ("Total Taxes Paid,").spec_bytes() + money_text(s.total_taxes_paid as int)
        + seq![NEWLINE] + ("Total Insurance Paid,").spec_bytes() + money_text(
        s.total_insurance_paid as int,
    ) + seq![NEWLINE]
}

/// The maintenance, PMI, HOA and total-payment lines.
pub open spec fn summary_text_p2(s: MortgageSummary) -> Seq<u8> {
    ("Total Maintenance Paid,").spec_bytes() + money_text(s.total_maintenance_paid as int) + seq![
        NEWLINE,
    ] + ("Total PMI Paid,").spec_bytes() + money_text(s.total_pmi_paid as int) + seq![NEWLINE] + (
    "Total HOA Paid,").spec_bytes() + money_text(s.total_hoa_paid as int) + seq![NEWLINE] + (
    "Total Payments,").spec_bytes() + money_text(s.total_payments as int) + seq![NEWLINE]
}

/// The economic-cost and final-value lines.
pub open spec fn summary_text_p3(s: MortgageSummary) -> Seq<u8> {
    ("Total Cost of Capital,").spec_bytes() + money_text(s.total_cost_of_capital as int) + seq![
        NEWLINE,
    ] + ("Total Waste Cost,").spec_bytes() + money_text(s.total_waste_cost as int) + seq![NEWLINE]
        + ("Final House Value,").spec_bytes() + money_text(s.final_house_value as int) + seq![
        NEWLINE,
    ] + ("Final Equity,").spec_bytes() + money_text(s.final_equity as int) + seq![NEWLINE]
}

/// The payoff-month count and the effective rate at four decimals.
pub open spec fn summary_text_p4(s: MortgageSummary) -> Seq<u8> {
    ("Months to Payoff,").spec_bytes() + dec_digits(s.months_to_payoff as nat) + seq![NEWLINE] + (
    "Effective Interest Rate,").spec_bytes() + rate_text(s.effective_interest_rate as int) + seq![
        NEWLINE,
    ]
}

/// The summary section: a blank separator, a section header, and one
/// label,value line per summary field.
pub open spec fn summary_text(s: MortgageSummary) -> Seq<u8> {
    summary_text_p1(s) + summary_text_p2(s) + summary_text_p3(s) + summary_text_p4(s)
}

/// The complete export: header, rows, and the summary section if one
/// exists.
pub open spec fn export_text(rows: Seq<MortgageRow>, s: Option<MortgageSummary>) -> Seq<u8> {
    header_bytes() + rows_text(rows) + (match s {
        Option::None => Seq::empty(),
        Option::Some(x) => summary_text(x),
    })
}

/// How many line breaks a byte sequence holds.
pub open spec fn newline_count(s: Seq<u8>) -> int
    decreases s.len(),
{
    if s.len() == 0 {
        0
    } else {
        newline_count(s.drop_last()) + if s.last() == NEWLINE {
            1int
        } else {
            0int
        }
    }
}

/// Line breaks add up over concatenation.
pub broadcast proof fn lemma_newline_count_concat(a: Seq<u8>, b: Seq<u8>)
    ensures
        #[trigger] newline_count(a + b) == newline_count(a) + newline_count(b),
    decreases b.len(),
{
    if b.len() == 0 {
        assert(a + b =~= a);
    } else {
        lemma_newline_count_concat(a, b.drop_last());
        assert((a + b).drop_last() =~= a + b.drop_last());
        assert((a + b).last() == b.last());
    }
}

/// A run of bytes none of which is a line break holds none.
proof fn lemma_no_newline(s: Seq<u8>)
    requires
        forall|i: int| 0 <= i < s.len() ==> #[trigger] s[i] != NEWLINE,
    ensures
        newline_count(s) == 0,
    decreases s.len(),
{
    if s.len() > 0 {
        assert(forall|i: int| 0 <= i < s.len() - 1 ==> #[trigger] s.drop_last()[i] == s[i]);
        lemma_no_newline(s.drop_last());
    }
}

/// One byte holds a line break exactly when it is one.
proof fn lemma_newline_singleton(b: u8)
    ensures
        newline_count(seq![b]) == if b == NEWLINE {
            1int
        } else {
            0int
        },
{
    let s: Seq<u8> = seq![b];
    assert(s.len() == 1);
    assert(s.drop_last() =~= Seq::<u8>::empty());
    assert(newline_count(s.drop_last()) == 0);
    assert(s.last() == b);
    assert(newline_count(s) == newline_count(s.drop_last()) + if s.last() == NEWLINE {
        1int
    } else {
        0int
    });
}

/// Formatted money holds no line break.
proof fn lemma_money_text_no_newline(v: int)
    ensures
        newline_count(money_text(v)) == 0,
{
    reveal(crate::codec::money_text);
    broadcast use lemma_newline_count_concat;

    let m: int = if v >= 0 {
        v
    } else {
        -v
    };
    let cents = crate::fixed::tdiv(m + 5000, 10_000);
    crate::fixed::lemma_tdiv_bounds(m + 5000, 10_000);
    crate::codec::lemma_dec_digits_val((cents / 100) as nat);
    let ds = dec_digits((cents / 100) as nat);
    assert(newline_count(ds) == 0) by {
        assert(forall|i: int|
            0 <= i < ds.len() ==> crate::codec::is_digit_byte(#[trigger] ds[i]));
        lemma_no_newline(ds);
    }
    let tail: Seq<u8> = seq![
        crate::codec::DOT,
        (crate::codec::ZERO + (cents % 100) / 10) as u8,
        (crate::codec::ZERO + (cents % 100) % 10) as u8,
    ];
    assert(newline_count(tail) == 0) by {
        assert(tail[0] != NEWLINE && tail[1] != NEWLINE && tail[2] != NEWLINE);
        lemma_no_newline(tail);
    }
    if v < 0 {
        lemma_newline_singleton(crate::codec::MINUS);
    } else {
        assert(newline_count(Seq::<u8>::empty()) == 0);
    }
}

/// Formatted rates hold no line break.
proof fn lemma_rate_text_no_newline(v: int)
    ensures
        newline_count(rate_text(v)) == 0,
{
    reveal(crate::codec::rate_text);
    broadcast use lemma_newline_count_concat;

    let m: int = if v >= 0 {
        v
    } else {
        -v
    };
    let t = crate::fixed::tdiv(m + 50, 100);
    crate::fixed::lemma_tdiv_bounds(m + 50, 100);
    crate::codec::lemma_dec_digits_val((t / 10_000) as nat);
    let ds = dec_digits((t / 10_000) as nat);
    assert(newline_count(ds) == 0) by {
        assert(forall|i: int|
            0 <= i < ds.len() ==> crate::codec::is_digit_byte(#[trigger] ds[i]));
        lemma_no_newline(ds);
    }
    let f4 = t % 10_000;
    let tail: Seq<u8> = seq![
        crate::codec::DOT,
        (crate::codec::ZERO + f4 / 1000) as u8,
        (crate::codec::ZERO + (f4 / 100) % 10) as u8,
        (crate::codec::ZERO + (f4 / 10) % 10) as u8,
        (crate::codec::ZERO + f4 % 10) as u8,
    ];
    assert(newline_count(tail) == 0) by {
        assert(tail[0] != NEWLINE && tail[1] != NEWLINE && tail[2] != NEWLINE && tail[3]
            != NEWLINE && tail[4] != NEWLINE);
        lemma_no_newline(tail);
    }
    if v < 0 {
        lemma_newline_singleton(crate::codec::MINUS);
    } else {
        assert(newline_count(Seq::<u8>::empty()) == 0);
    }
}

/// Every row becomes exactly one line: its text ends in the one and only
/// line break it holds.
proof fn lemma_row_line_one_newline(r: MortgageRow)
    ensures
        newline_count(row_line(r)) == 1,
{
    broadcast use lemma_newline_count_concat;

    crate::codec::lemma_dec_digits_val(r.month as nat);
    let ds = dec_digits(r.month as nat);
    assert(newline_count(ds) == 0) by {
        assert(forall|i: int|
            0 <= i < ds.len() ==> crate::codec::is_digit_byte(#[trigger] ds[i]));
        lemma_no_newline(ds);
    }
    lemma_newline_singleton(COMMA);
    lemma_newline_singleton(NEWLINE);
    lemma_money_text_no_newline(r.interest as int);
    lemma_money_text_no_newline(r.principal as int);
    lemma_money_text_no_newline(r.extra_principal as int);
    lemma_money_text_no_newline(r.repair_costs as int);
    lemma_money_text_no_newline(r.hoa as int);
    lemma_money_text_no_newline(r.taxes as int);
    lemma_money_text_no_newline(r.insurance as int);
    lemma_money_text_no_newline(r.pmi as int);
    lemma_money_text_no_newline(r.actual_payment as int);
    lemma_money_text_no_newline(r.cost_of_capital as int);
    lemma_money_text_no_newline(r.waste_cost as int);
    lemma_money_text_no_newline(r.cost as int);
    lemma_money_text_no_newline(r.debt as int);
    lemma_rate_text_no_newline(r.interest_rate as int);
    lemma_money_text_no_newline(r.house_cost as int);
    lemma_money_text_no_newline(r.equity as int);
}

/// The written row block holds exactly one line break per schedule row: a
/// reader that splits the export on line breaks finds as many row records
/// as the schedule holds rows.
pub proof fn lemma_one_line_per_row(rows: Seq<MortgageRow>)
    ensures
        newline_count(rows_text(rows)) == rows.len(),
    decreases rows.len(),
{
    broadcast use lemma_newline_count_concat;

    if rows.len() > 0 {
        lemma_one_line_per_row(rows.drop_last());
        lemma_row_line_one_newline(rows.last());
    }
}

/// The export's line structure: beyond the header's own lines and the
/// summary section's, the file holds exactly one line per schedule row —
/// the written row count always equals the in-memory row count.
pub proof fn lemma_export_line_structure(rows: Seq<MortgageRow>, s: Option<MortgageSummary>)
    ensures
        newline_count(export_text(rows, s)) == newline_count(header_bytes()) + rows.len() + (
        match s {
            Option::None => 0int,
            Option::Some(x) => newline_count(summary_text(x)),
        }),
{
    broadcast use lemma_newline_count_concat;

    lemma_one_line_per_row(rows);
}

/// Appends a literal's bytes.
fn push_lit(out: &mut Vec<u8>, s: &str)
    ensures
        final(out)@ == old(out)@ + s.spec_bytes(),
{
    let mut b: Vec<u8> = s.as_bytes_vec();
    out.append(&mut b);
}

/// Appends one row's line.
fn push_row_line(out: &mut Vec<u8>, r: &MortgageRow)
    ensures
        final(out)@ == old(out)@ + row_line(*r),
{
    let ghost b0: Seq<u8> = out@;
    push_decimal(out, r.month as u64);
    out.push(COMMA);
    push_money(out, r.interest);
    out.push(COMMA);
    push_money(out, r.principal);
    out.push(COMMA);
    push_money(out, r.extra_principal);
    out.push(COMMA);
    proof {
        assert(out@ =~= b0 + row_line_p1(*r));
    }
    let ghost b1: Seq<u8> = out@;
    push_money(out, r.repair_costs);
    out.push(COMMA);
    push_money(out, r.hoa);
    out.push(COMMA);
    push_money(out, r.taxes);
    out.push(COMMA);
    push_money(out, r.insurance);
    out.push(COMMA);
    proof {
        assert(out@ =~= b1 + row_line_p2(*r));
    }
    let ghost b2: Seq<u8> = out@;
    push_money(out, r.pmi);
    out.push(COMMA);
    push_money(out, r.actual_payment);
    out.push(COMMA);
    push_money(out, r.cost_of_capital);
    out.push(COMMA);
    push_money(out, r.waste_cost);
    out.push(COMMA);
    proof {
        assert(out@ =~= b2 + row_line_p3(*r));
    }
    let ghost b3: Seq<u8> = out@;
    push_money(out, r.cost);
    out.push(COMMA);
    push_money(out, r.debt);
    out.push(COMMA);
    push_rate(out, r.interest_rate);
    out.push(COMMA);
    push_money(out, r.house_cost);
    out.push(COMMA);
    push_money(out, r.equity);
    out.push(NEWLINE);
    proof {
        assert(out@ =~= b3 + row_line_p4(*r));
        assert(out@ =~= b0 + row_line(*r));
    }
}

/// Appends the first half of the summary section.
#[verifier::rlimit(100)]
fn push_summary_front(out: &mut Vec<u8>, s: &MortgageSummary)
    ensures
        final(out)@ == old(out)@ + summary_text_p1(*s) + summary_text_p2(*s),
{
    let ghost b0: Seq<u8> = out@;
    push_lit(out, "\nSummary Statistics\n");
    push_lit(out, "Total Interest Paid,");
    push_money(out, s.total_interest_paid);
    out.push(NEWLINE);
    push_lit(out, "Total Principal Paid,");
    push_money(out, s.total_principal_paid);
    out.push(NEWLINE);
    push_lit(out, "Total Taxes Paid,");
    push_money(out, s.total_taxes_paid);
    out.push(NEWLINE);
    push_lit(out, "Total Insurance Paid,");
    push_money(out, s.total_insurance_paid);
    out.push(NEWLINE);
    proof {
        assert(out@ =~= b0 + summary_text_p1(*s));
    }
    let ghost b1: Seq<u8> = out@;
    push_lit(out, "Total Maintenance Paid,");
    push_money(out, s.total_maintenance_paid);
    out.push(NEWLINE);
    push_lit(out, "Total PMI Paid,");
    push_money(out, s.total_pmi_paid);
    out.push(NEWLINE);
    push_lit(out, "Total HOA Paid,");
    push_money(out, s.total_hoa_paid);
    out.push(NEWLINE);
    push_lit(out, "Total Payments,");
    push_money(out, s.total_payments);
    out.push(NEWLINE);
    proof {
        assert(out@ =~= b1 + summary_text_p2(*s));
        assert(out@ =~= b0 + summary_text_p1(*s) + summary_text_p2(*s));
    }
}

/// Appends the second half of the summary section.
#[verifier::rlimit(100)]
fn push_summary_back(out: &mut Vec<u8>, s: &MortgageSummary)
    ensures
        final(out)@ == old(out)@ + summary_text_p3(*s) + summary_text_p4(*s),
{
    let ghost b0: Seq<u8> = out@;
    push_lit(out, "Total Cost of Capital,");
    push_money(out, s.total_cost_of_capital);
    out.push(NEWLINE);
    push_lit(out, "Total Waste Cost,");
    push_money(out, s.total_waste_cost);
    out.push(NEWLINE);
    push_lit(out, "Final House Value,");
    push_money(out, s.final_house_value);
    out.push(NEWLINE);
    push_lit(out, "Final Equity,");
    push_money(out, s.final_equity);
    out.push(NEWLINE);
    proof {
        assert(out@ =~= b0 + summary_text_p3(*s));
    }
    let ghost b1: Seq<u8> = out@;
    push_lit(out, "Months to Payoff,");
    push_decimal(out, s.months_to_payoff as u64);
    out.push(NEWLINE);
    push_lit(out, "Effective Interest Rate,");
    push_rate(out, s.effective_interest_rate);
    out.push(NEWLINE);
    proof {
        assert(out@ =~= b1 + summary_text_p4(*s));
        assert(out@ =~= b0 + summary_text_p3(*s) + summary_text_p4(*s));
    }
}

/// Appends the summary section.
fn push_summary(out: &mut Vec<u8>, s: &MortgageSummary)
    ensures
        final(out)@ == old(out)@ + summary_text(*s),
{
    let ghost b0: Seq<u8> = out@;
    push_summary_front(out, s);
    push_summary_back(out, s);
    proof {
        assert(out@ =~= b0 + summary_text(*s));
    }
}

/// Builds the whole export text.  Pure: reads the rows and summary it is
/// given and touches nothing else; never invoked except by an explicit
/// export action.
pub fn export_csv(rows: &Vec<MortgageRow>, summary: &Option<MortgageSummary>) -> (out: Vec<u8>)
    ensures
        out@ == export_text(rows@, *summary),
{
    let mut out: Vec<u8> = Vec::new();
    push_lit(
        &mut out,
        "Month,Interest,Principal,Extra Principal,Repair Costs,HOA,Taxes,Insurance,PMI,Actual Payment,Cost of Capital,Waste Cost,Cost,Debt,Interest Rate,House Cost,Equity\n",
    );
    let mut i: usize = 0;
    while i < rows.len()
        invariant
            i <= rows@.len(),
            out@ == header_bytes() + rows_text(rows@.take(i as int)),
        decreases rows@.len() - i,
    {
        push_row_line(&mut out, &rows[i]);
        proof {
            assert(rows@.take(i + 1).drop_last() =~= rows@.take(i as int));
            assert(rows@.take(i + 1).last() == rows@[i as int]);
            assert(header_bytes() + rows_text(rows@.take(i as int)) + row_line(rows@[i as int])
                =~= header_bytes() + rows_text(rows@.take(i + 1)));
        }
        i = i + 1;
    }
    proof {
        assert(rows@.take(i as int) =~= rows@);
    }
    match summary {
        Option::None => {
            proof {
                assert(out@ =~= export_text(rows@, *summary));
            }
            out
        },
        Option::Some(s) => {
            push_summary(&mut out, s);
            proof {
                assert(out@ =~= export_text(rows@, *summary));
            }
            out
        },
    }
}

/// The fixed file name each export context writes to: one for the
/// spreadsheet screen, one for the summary screen.
pub fn export_filename(screen: &Screen) -> (name: &'static str)
    ensures
        *screen == Screen::Summary ==> name@ == ("mortgage_analysis.csv")@,
        *screen != Screen::Summary ==> name@ == ("mortgage_spreadsheet.csv")@,
{
    match screen {
        Screen::Summary => "mortgage_analysis.csv",
        _ => "mortgage_spreadsheet.csv",
    }
}

} // verus!
