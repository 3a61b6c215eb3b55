//! The input wizard: an ordered sequence of screens, each editing one
//! field, with forward navigation gated on a non-empty field.  Confirming
//! the last input step parses every field and runs the amortization engine;
//! the resulting schedule is browsed on the spreadsheet screen.
//!
//! `transition` is the complete state machine: it says, for every state and
//! action, exactly what the next state and outcome are, and `handle_action`
//! is proved against it.

use crate::codec::{all_digits, digits_val, numeral_micro, parse_count, parse_micro, parse_ok};
use crate::engine::{
    calculate_mortgage, house_value_at, lemma_months_range, months_emitted, row_bounded,
    row_matches, summary_matches, MortgageParams, MortgageRow, MortgageSummary, Split,
};
use crate::field::{
    erased_dual, erased_field, pushed_dual, pushed_field, toggled, CharRule, DualField, Field,
};
use crate::fixed::{tdiv, tdiv_i128, SCALE};
use vstd::prelude::*;

verus! {

/// The screens, in wizard order; the last two browse the results.
#[derive(Clone, Copy, Debug, PartialEq, Eq, Structural)]
pub enum Screen {
    HouseValue,
    DownPayment,
    HOAFee,
    InterestRate,
    PropertyTax,
    Insurance,
    Maintenance,
    PMI,
    HouseAppreciation,
    LoanTerm,
    ExtraPrincipal,
    Spreadsheet,
    Summary,
}

/// The canonical input actions; the presentation layer translates key
/// events into these.
#[derive(Clone, Copy, Debug, PartialEq, Eq, Structural)]
pub enum Action {
    CharacterEntered(u8),
    Erase,
    ToggleMode,
    Advance,
    Retreat,
    Cancel,
    Quit,
    NextRow,
    PreviousRow,
    Top,
    Bottom,
    PageForward,
    PageBackward,
    ShowSummary,
    Export,
}

/// What the caller must do after an action: keep going, end the session,
/// or write the current data to the export file.
#[derive(Clone, Copy, Debug, PartialEq, Eq, Structural)]
pub enum Outcome {
    Continue,
    Exit,
    ExportRequested,
}

/// The computation could not run: some field did not parse as a number in
/// the supported range.  The wizard stays on the input step.
#[derive(Clone, Copy, Debug, PartialEq, Eq, Structural)]
pub struct ComputeError {}

/// All eleven editable inputs.
#[derive(Clone, Debug)]
pub struct MortgageInputs {
    pub house_value: Field,
    pub down_payment: DualField,
    pub hoa_fee: Field,
    pub interest_rate: Field,
    pub property_tax: DualField,
    pub insurance: DualField,
    pub maintenance: DualField,
    pub pmi: DualField,
    pub house_appreciation: Field,
    pub loan_term_years: Field,
    pub extra_principal: Field,
}

/// A percentage text is divided by one hundred to a micro-fraction.
pub open spec fn percent_to_rate(t: Seq<u8>) -> int {
    tdiv(numeral_micro(t), 100)
}

/// The active side of a dual field, resolved to the engine's split form.
pub open spec fn split_of(d: DualField) -> Split {
    if d.use_percent {
        Split::Percent(percent_to_rate(d.percent.text@) as i64)
    } else {
        Split::Amount(numeral_micro(d.amount.text@) as i64)
    }
}

/// Whether the active side of a dual field parses and is in range.
pub open spec fn dual_valid(d: DualField) -> bool {
    if d.use_percent {
        parse_ok(d.percent.text@) && 0 <= percent_to_rate(d.percent.text@) <= SCALE
    } else {
        parse_ok(d.amount.text@) && numeral_micro(d.amount.text@) >= 0
    }
}

/// Whether every field parses to a value the engine supports.  Only the
/// active side of each dual field is read; the inactive side never is.
pub open spec fn inputs_valid(i: MortgageInputs) -> bool {
    &&& parse_ok(i.house_value.text@) && numeral_micro(i.house_value.text@) > 0
    &&& dual_valid(i.down_payment)
    &&& parse_ok(i.hoa_fee.text@) && numeral_micro(i.hoa_fee.text@) >= 0
    &&& parse_ok(i.interest_rate.text@) && 0 <= percent_to_rate(i.interest_rate.text@) <= SCALE
    &&& dual_valid(i.property_tax)
    &&& dual_valid(i.insurance)
    &&& dual_valid(i.maintenance)
    &&& dual_valid(i.pmi)
    &&& parse_ok(i.house_appreciation.text@) && -SCALE <= percent_to_rate(
        i.house_appreciation.text@,
    ) <= SCALE
    &&& i.loan_term_years.text@.len() >= 1 && all_digits(i.loan_term_years.text@) && 1
        <= digits_val(i.loan_term_years.text@) <= 100
    &&& parse_ok(i.extra_principal.text@) && numeral_micro(i.extra_principal.text@) >= 0
}

/// The parameters the valid inputs denote.
pub open spec fn resolved_params(i: MortgageInputs) -> MortgageParams {
    MortgageParams {
        house_value: numeral_micro(i.house_value.text@) as i64,
        down_payment: split_of(i.down_payment),
        monthly_hoa: numeral_micro(i.hoa_fee.text@) as i64,
        annual_interest_rate: percent_to_rate(i.interest_rate.text@) as i64,
        property_tax: split_of(i.property_tax),
        insurance: split_of(i.insurance),
        maintenance: split_of(i.maintenance),
        pmi: split_of(i.pmi),
        annual_appreciation: percent_to_rate(i.house_appreciation.text@) as i64,
        loan_term_years: digits_val(i.loan_term_years.text@) as u32,
        extra_monthly: numeral_micro(i.extra_principal.text@) as i64,
    }
}

/// Resolves one dual field, or reports that it cannot be parsed.
fn resolve_dual(d: &DualField) -> (r: Result<Split, ComputeError>)
    ensures
        r is Ok <==> dual_valid(*d),
        r is Ok ==> r->Ok_0 == split_of(*d) && split_of(*d).wf(),
{
    if d.use_percent {
        match parse_micro(&d.percent.text) {
            Some(v) => {
                let rate: i128 = tdiv_i128(v as i128, 100);
                proof {
                    crate::fixed::lemma_tdiv_bounds(v as int, 100);
                    crate::fixed::lemma_tdiv_bounds(-(v as int), 100);
                }
                if 0 <= rate && rate <= SCALE as i128 {
                    Ok(Split::Percent(rate as i64))
                } else {
                    Err(ComputeError {})
                }
            },
            None => Err(ComputeError {}),
        }
    } else {
        match parse_micro(&d.amount.text) {
            Some(v) => {
                if v >= 0 {
                    Ok(Split::Amount(v))
                } else {
                    Err(ComputeError {})
                }
            },
            None => Err(ComputeError {}),
        }
    }
}

/// Parses every field into engine parameters.  Fails — with no partial
/// result — exactly when some active field does not hold a number in the
/// supported range.
pub fn resolve_inputs(i: &MortgageInputs) -> (r: Result<MortgageParams, ComputeError>)
    ensures
        r is Ok <==> inputs_valid(*i),
        r is Ok ==> r->Ok_0 == resolved_params(*i) && resolved_params(*i).wf(),
{
    let house_value: i64 = match parse_micro(&i.house_value.text) {
        Some(v) if v > 0 => v,
        _ => {
            return Err(ComputeError {});
        },
    };
    let down_payment: Split = match resolve_dual(&i.down_payment) {
        Ok(s) => s,
        Err(e) => {
            return Err(e);
        },
    };
    let monthly_hoa: i64 = match parse_micro(&i.hoa_fee.text) {
        Some(v) if v >= 0 => v,
        _ => {
            return Err(ComputeError {});
        },
    };
    let annual_interest_rate: i64 = match parse_micro(&i.interest_rate.text) {
        Some(v) => {
            let rate: i128 = tdiv_i128(v as i128, 100);
            proof {
                crate::fixed::lemma_tdiv_bounds(v as int, 100);
                crate::fixed::lemma_tdiv_bounds(-(v as int), 100);
            }
            if 0 <= rate && rate <= SCALE as i128 {
                rate as i64
            } else {
                return Err(ComputeError {});
            }
        },
        None => {
            return Err(ComputeError {});
        },
    };
    let property_tax: Split = match resolve_dual(&i.property_tax) {
        Ok(s) => s,
        Err(e) => {
            return Err(e);
        },
    };
    let insurance: Split = match resolve_dual(&i.insurance) {
        Ok(s) => s,
        Err(e) => {
            return Err(e);
        },
    };
    let maintenance: Split = match resolve_dual(&i.maintenance) {
        Ok(s) => s,
        Err(e) => {
            return Err(e);
        },
    };
    let pmi: Split = match resolve_dual(&i.pmi) {
        Ok(s) => s,
        Err(e) => {
            return Err(e);
        },
    };
    let annual_appreciation: i64 = match parse_micro(&i.house_appreciation.text) {
        Some(v) => {
            let rate: i128 = tdiv_i128(v as i128, 100);
            proof {
                crate::fixed::lemma_tdiv_bounds(v as int, 100);
                crate::fixed::lemma_tdiv_bounds(-(v as int), 100);
            }
            if -(SCALE as i128) <= rate && rate <= SCALE as i128 {
                rate as i64
            } else {
                return Err(ComputeError {});
            }
        },
        None => {
            return Err(ComputeError {});
        },
    };
    let loan_term_years: u32 = match parse_count(&i.loan_term_years.text, 1, 100) {
        Some(y) => y,
        None => {
            return Err(ComputeError {});
        },
    };
    let extra_monthly: i64 = match parse_micro(&i.extra_principal.text) {
        Some(v) if v >= 0 => v,
        _ => {
            return Err(ComputeError {});
        },
    };
    let p = MortgageParams {
        house_value,
        down_payment,
        monthly_hoa,
        annual_interest_rate,
        property_tax,
        insurance,
        maintenance,
        pmi,
        annual_appreciation,
        loan_term_years,
        extra_monthly,
    };
    proof {
        assert(p.wf());
    }
    Ok(p)
}

/// The whole interactive session: current screen, the inputs, and the last
/// computed results.
#[derive(Clone, Debug)]
pub struct App {
    pub screen: Screen,
    pub inputs: MortgageInputs,
    pub spreadsheet_data: Vec<MortgageRow>,
    pub selected_row: usize,
    pub summary: Option<MortgageSummary>,
    pub compute_failed: bool,
}

/// Screens on which text is edited (everything before the results).
pub open spec fn is_input_screen(s: Screen) -> bool {
    s != Screen::Spreadsheet && s != Screen::Summary
}

/// The screen an `Advance` moves to from each input screen.
pub open spec fn next_screen(s: Screen) -> Screen {
    match s {
        Screen::HouseValue => Screen::DownPayment,
        Screen::DownPayment => Screen::HOAFee,
        Screen::HOAFee => Screen::InterestRate,
        Screen::InterestRate => Screen::PropertyTax,
        Screen::PropertyTax => Screen::Insurance,
        Screen::Insurance => Screen::Maintenance,
        Screen::Maintenance => Screen::PMI,
        Screen::PMI => Screen::HouseAppreciation,
        Screen::HouseAppreciation => Screen::LoanTerm,
        Screen::LoanTerm => Screen::ExtraPrincipal,
        _ => s,
    }
}

/// The screen a `Retreat` moves to; retreating from the first screen ends
/// the session instead.
pub open spec fn prev_screen(s: Screen) -> Screen {
    match s {
        Screen::DownPayment => Screen::HouseValue,
        Screen::HOAFee => Screen::DownPayment,
        Screen::InterestRate => Screen::HOAFee,
        Screen::PropertyTax => Screen::InterestRate,
        Screen::Insurance => Screen::PropertyTax,
        Screen::Maintenance => Screen::Insurance,
        Screen::PMI => Screen::Maintenance,
        Screen::HouseAppreciation => Screen::PMI,
        Screen::LoanTerm => Screen::HouseAppreciation,
        Screen::ExtraPrincipal => Screen::LoanTerm,
        Screen::Spreadsheet => Screen::ExtraPrincipal,
        Screen::Summary => Screen::Spreadsheet,
        _ => s,
    }
}

/// Whether the field bound to the current screen is non-empty, which is
/// what `Advance` demands.
pub open spec fn screen_filled(a: App) -> bool {
    match a.screen {
        Screen::HouseValue => a.inputs.house_value.is_filled(),
        Screen::DownPayment => a.inputs.down_payment.is_filled(),
        Screen::HOAFee => a.inputs.hoa_fee.is_filled(),
        Screen::InterestRate => a.inputs.interest_rate.is_filled(),
        Screen::PropertyTax => a.inputs.property_tax.is_filled(),
        Screen::Insurance => a.inputs.insurance.is_filled(),
        Screen::Maintenance => a.inputs.maintenance.is_filled(),
        Screen::PMI => a.inputs.pmi.is_filled(),
        Screen::HouseAppreciation => a.inputs.house_appreciation.is_filled(),
        Screen::LoanTerm => a.inputs.loan_term_years.is_filled(),
        Screen::ExtraPrincipal => a.inputs.extra_principal.is_filled(),
        _ => true,
    }
}

/// `i1` is `i0` after a character entered on screen `s`.
pub open spec fn inputs_push_rel(i0: MortgageInputs, s: Screen, b: u8, i1: MortgageInputs) -> bool {
    match s {
        Screen::HouseValue => pushed_field(i0.house_value, i1.house_value, b) && i1
            == MortgageInputs { house_value: i1.house_value, ..i0 },
        Screen::DownPayment => pushed_dual(i0.down_payment, i1.down_payment, b) && i1
            == MortgageInputs { down_payment: i1.down_payment, ..i0 },
        Screen::HOAFee => pushed_field(i0.hoa_fee, i1.hoa_fee, b) && i1 == MortgageInputs {
            hoa_fee: i1.hoa_fee,
            ..i0
        },
        Screen::InterestRate => pushed_field(i0.interest_rate, i1.interest_rate, b) && i1
            == MortgageInputs { interest_rate: i1.interest_rate, ..i0 },
        Screen::PropertyTax => pushed_dual(i0.property_tax, i1.property_tax, b) && i1
            == MortgageInputs { property_tax: i1.property_tax, ..i0 },
        Screen::Insurance => pushed_dual(i0.insurance, i1.insurance, b) && i1 == MortgageInputs {
            insurance: i1.insurance,
            ..i0
        },
        Screen::Maintenance => pushed_dual(i0.maintenance, i1.maintenance, b) && i1
            == MortgageInputs { maintenance: i1.maintenance, ..i0 },
        Screen::PMI => pushed_dual(i0.pmi, i1.pmi, b) && i1 == MortgageInputs {
            pmi: i1.pmi,
            ..i0
        },
        Screen::HouseAppreciation => pushed_field(i0.house_appreciation, i1.house_appreciation, b)
            && i1 == MortgageInputs { house_appreciation: i1.house_appreciation, ..i0 },
        Screen::LoanTerm => pushed_field(i0.loan_term_years, i1.loan_term_years, b) && i1
            == MortgageInputs { loan_term_years: i1.loan_term_years, ..i0 },
        Screen::ExtraPrincipal => pushed_field(i0.extra_principal, i1.extra_principal, b) && i1
            == MortgageInputs { extra_principal: i1.extra_principal, ..i0 },
        _ => i1 == i0,
    }
}

/// `i1` is `i0` after an erase on screen `s`.
pub open spec fn inputs_erase_rel(i0: MortgageInputs, s: Screen, i1: MortgageInputs) -> bool {
    match s {
        Screen::HouseValue => erased_field(i0.house_value, i1.house_value) && i1
            == MortgageInputs { house_value: i1.house_value, ..i0 },
        Screen::DownPayment => erased_dual(i0.down_payment, i1.down_payment) && i1
            == MortgageInputs { down_payment: i1.down_payment, ..i0 },
        Screen::HOAFee => erased_field(i0.hoa_fee, i1.hoa_fee) && i1 == MortgageInputs {
            hoa_fee: i1.hoa_fee,
            ..i0
        },
        Screen::InterestRate => erased_field(i0.interest_rate, i1.interest_rate) && i1
            == MortgageInputs { interest_rate: i1.interest_rate, ..i0 },
        Screen::PropertyTax => erased_dual(i0.property_tax, i1.property_tax) && i1
            == MortgageInputs { property_tax: i1.property_tax, ..i0 },
        Screen::Insurance => erased_dual(i0.insurance, i1.insurance) && i1 == MortgageInputs {
            insurance: i1.insurance,
            ..i0
        },
        Screen::Maintenance => erased_dual(i0.maintenance, i1.maintenance) && i1
            == MortgageInputs { maintenance: i1.maintenance, ..i0 },
        Screen::PMI => erased_dual(i0.pmi, i1.pmi) && i1 == MortgageInputs { pmi: i1.pmi, ..i0 },
        Screen::HouseAppreciation => erased_field(i0.house_appreciation, i1.house_appreciation)
            && i1 == MortgageInputs { house_appreciation: i1.house_appreciation, ..i0 },
        Screen::LoanTerm => erased_field(i0.loan_term_years, i1.loan_term_years) && i1
            == MortgageInputs { loan_term_years: i1.loan_term_years, ..i0 },
        Screen::ExtraPrincipal => erased_field(i0.extra_principal, i1.extra_principal) && i1
            == MortgageInputs { extra_principal: i1.extra_principal, ..i0 },
        _ => i1 == i0,
    }
}

/// `i1` is `i0` after a toggle on screen `s`: only the five dual-mode
/// screens respond, and only the selector moves.
pub open spec fn inputs_toggle_rel(i0: MortgageInputs, s: Screen, i1: MortgageInputs) -> bool {
    match s {
        Screen::DownPayment => i1 == MortgageInputs { down_payment: toggled(i0.down_payment), ..i0 },
        Screen::PropertyTax => i1 == MortgageInputs { property_tax: toggled(i0.property_tax), ..i0 },
        Screen::Insurance => i1 == MortgageInputs { insurance: toggled(i0.insurance), ..i0 },
        Screen::Maintenance => i1 == MortgageInputs { maintenance: toggled(i0.maintenance), ..i0 },
        Screen::PMI => i1 == MortgageInputs { pmi: toggled(i0.pmi), ..i0 },
        _ => i1 == i0,
    }
}

/// The selected-row cursor after a navigation action on the spreadsheet,
/// clamped to the row range.
pub open spec fn nav_cursor(a: Action, sel: int, len: int) -> int {
    match a {
        Action::NextRow => if sel + 1 < len {
            sel + 1
        } else {
            sel
        },
        Action::PreviousRow => if sel > 0 {
            sel - 1
        } else {
            sel
        },
        Action::Top => 0,
        Action::Bottom => if len > 0 {
            len - 1
        } else {
            sel
        },
        Action::PageForward => if len > 0 {
            if sel + 10 < len {
                sel + 10
            } else {
                len - 1
            }
        } else {
            sel
        },
        Action::PageBackward => if sel >= 10 {
            sel - 10
        } else {
            0
        },
        _ => sel,
    }
}

/// What `Advance` does: move on when the current field is filled, refuse
/// silently when it is empty, and on the last input step run the engine —
/// on success the spreadsheet opens on the first row, on a parse failure
/// the wizard stays put with every entered value intact.
pub open spec fn advance_rel(pre: App, post: App) -> bool {
    if is_input_screen(pre.screen) {
        if !screen_filled(pre) {
            post == pre
        } else if pre.screen != Screen::ExtraPrincipal {
            post == App { screen: next_screen(pre.screen), ..pre }
        } else if inputs_valid(pre.inputs) {
            let p = resolved_params(pre.inputs);
            &&& post.screen == Screen::Spreadsheet
            &&& post.inputs == pre.inputs
            &&& post.selected_row == 0
            &&& post.compute_failed == false
            &&& post.spreadsheet_data@.len() == months_emitted(p)
            &&& forall|k: int|
                0 <= k < post.spreadsheet_data@.len() ==> row_matches(
                    p,
                    k + 1,
                    #[trigger] post.spreadsheet_data@[k],
                ) && row_bounded(post.spreadsheet_data@[k])
            &&& post.summary is Some
            &&& summary_matches(
                post.spreadsheet_data@,
                house_value_at(p, months_emitted(p)),
                post.summary->0,
            )
        } else {
            post == App { compute_failed: true, ..pre }
        }
    } else {
        post == pre
    }
}

/// The full transition table: for every state and action, the next state
/// and the outcome handed back to the caller.
pub open spec fn transition(pre: App, a: Action, post: App, out: Outcome) -> bool {
    match a {
        Action::CharacterEntered(b) => out == Outcome::Continue && post == App {
            inputs: post.inputs,
            ..pre
        } && inputs_push_rel(pre.inputs, pre.screen, b, post.inputs),
        Action::Erase => out == Outcome::Continue && post == App { inputs: post.inputs, ..pre }
            && inputs_erase_rel(pre.inputs, pre.screen, post.inputs),
        Action::ToggleMode => out == Outcome::Continue && post == App {
            inputs: post.inputs,
            ..pre
        } && inputs_toggle_rel(pre.inputs, pre.screen, post.inputs),
        Action::Advance => out == Outcome::Continue && advance_rel(pre, post),
        Action::Retreat => if pre.screen == Screen::HouseValue {
            post == pre && out == Outcome::Exit
        } else {
            post == App { screen: prev_screen(pre.screen), ..pre } && out == Outcome::Continue
        },
        Action::Cancel => post == pre && out == Outcome::Exit,
        Action::Quit => post == pre && out == Outcome::Exit,
        Action::NextRow | Action::PreviousRow | Action::Top | Action::Bottom
            | Action::PageForward | Action::PageBackward => {
            out == Outcome::Continue && if pre.screen == Screen::Spreadsheet {
                post == App {
                    selected_row: nav_cursor(
                        a,
                        pre.selected_row as int,
                        pre.spreadsheet_data@.len() as int,
                    ) as usize,
                    ..pre
                }
            } else {
                post == pre
            }
        },
        Action::ShowSummary => out == Outcome::Continue && if pre.screen == Screen::Spreadsheet {
            post == App { screen: Screen::Summary, ..pre }
        } else {
            post == pre
        },
        Action::Export => post == pre && out == (if pre.screen == Screen::Spreadsheet
            || pre.screen == Screen::Summary {
            Outcome::ExportRequested
        } else {
            Outcome::Continue
        }),
    }
}

/// The session invariant: at most the simulated horizon of rows, and the
/// cursor inside them (or zero when there are none).
pub open spec fn app_wf(a: App) -> bool {
    &&& a.spreadsheet_data@.len() <= 360
    &&& (a.selected_row == 0 || a.selected_row < a.spreadsheet_data@.len())
}

impl App {
    /// The wizard as the session starts: first screen, the usual defaults
    /// pre-filled, no results yet.
    pub fn start() -> (a: App)
        ensures
            app_wf(a),
            a.screen == Screen::HouseValue,
            a.inputs.house_value.text@ =~= Seq::<u8>::empty(),
            a.inputs.house_value.rule == CharRule::MoneyChars,
            a.inputs.down_payment.percent.text@ =~= seq![50u8, 48u8],
            a.inputs.down_payment.amount.text@ =~= Seq::<u8>::empty(),
            a.inputs.down_payment.use_percent,
            a.inputs.down_payment.percent.rule == CharRule::MoneyChars,
            a.inputs.down_payment.amount.rule == CharRule::MoneyChars,
            a.inputs.hoa_fee.text@ =~= seq![48u8],
            a.inputs.hoa_fee.rule == CharRule::MoneyChars,
            a.inputs.interest_rate.text@ =~= seq![54u8, 46u8, 53u8],
            a.inputs.interest_rate.rule == CharRule::MoneyChars,
            a.inputs.property_tax.percent.text@ =~= seq![50u8],
            a.inputs.property_tax.amount.text@ =~= Seq::<u8>::empty(),
            a.inputs.property_tax.use_percent,
            a.inputs.property_tax.percent.rule == CharRule::MoneyChars,
            a.inputs.property_tax.amount.rule == CharRule::MoneyChars,
            a.inputs.insurance.percent.text@ =~= seq![48u8, 46u8, 51u8, 53u8],
            a.inputs.insurance.amount.text@ =~= Seq::<u8>::empty(),
            a.inputs.insurance.use_percent,
            a.inputs.insurance.percent.rule == CharRule::MoneyChars,
            a.inputs.insurance.amount.rule == CharRule::MoneyChars,
            a.inputs.maintenance.percent.text@ =~= seq![49u8],
            a.inputs.maintenance.amount.text@ =~= Seq::<u8>::empty(),
            a.inputs.maintenance.use_percent,
            a.inputs.maintenance.percent.rule == CharRule::MoneyChars,
            a.inputs.maintenance.amount.rule == CharRule::MoneyChars,
            a.inputs.pmi.percent.text@ =~= seq![48u8, 46u8, 53u8],
            a.inputs.pmi.amount.text@ =~= Seq::<u8>::empty(),
            a.inputs.pmi.use_percent,
            a.inputs.pmi.percent.rule == CharRule::MoneyChars,
            a.inputs.pmi.amount.rule == CharRule::MoneyChars,
            a.inputs.house_appreciation.text@ =~= seq![51u8],
            a.inputs.house_appreciation.rule == CharRule::SignedChars,
            a.inputs.loan_term_years.text@ =~= seq![51u8, 48u8],
            a.inputs.loan_term_years.rule == CharRule::DigitChars,
            a.inputs.extra_principal.text@ =~= seq![48u8],
            a.inputs.extra_principal.rule == CharRule::MoneyChars,
            a.spreadsheet_data@.len() == 0,
            a.selected_row == 0,
            a.summary is None,
            !a.compute_failed,
    {
        let mut down = DualField::new();
        down.percent.push_char(50);
        down.percent.push_char(48);
        let mut hoa = Field::new(CharRule::MoneyChars);
        hoa.push_char(48);
        let mut rate = Field::new(CharRule::MoneyChars);
        rate.push_char(54);
        rate.push_char(46);
        rate.push_char(53);
        let mut tax = DualField::new();
        tax.percent.push_char(50);
        let mut ins = DualField::new();
        ins.percent.push_char(48);
        ins.percent.push_char(46);
        ins.percent.push_char(51);
        ins.percent.push_char(53);
        let mut maint = DualField::new();
        maint.percent.push_char(49);
        let mut pmi = DualField::new();
        pmi.percent.push_char(48);
        pmi.percent.push_char(46);
        pmi.percent.push_char(53);
        let mut appr = Field::new(CharRule::SignedChars);
        appr.push_char(51);
        let mut term = Field::new(CharRule::DigitChars);
        term.push_char(51);
        term.push_char(48);
        let mut extra = Field::new(CharRule::MoneyChars);
        extra.push_char(48);
        App {
            screen: Screen::HouseValue,
            inputs: MortgageInputs {
                house_value: Field::new(CharRule::MoneyChars),
                down_payment: down,
                hoa_fee: hoa,
                interest_rate: rate,
                property_tax: tax,
                insurance: ins,
                maintenance: maint,
                pmi,
                house_appreciation: appr,
                loan_term_years: term,
                extra_principal: extra,
            },
            spreadsheet_data: Vec::new(),
            selected_row: 0,
            summary: None,
            compute_failed: false,
        }
    }

    /// Applies one input action: the state moves exactly as `transition`
    /// says, and the session invariant is kept.
    pub fn handle_action(&mut self, a: Action) -> (out: Outcome)
        requires
            app_wf(*old(self)),
        ensures
            transition(*old(self), a, *final(self), out),
            app_wf(*final(self)),
    {
        match a {
            Action::CharacterEntered(b) => {
                match self.screen {
                    Screen::HouseValue => self.inputs.house_value.push_char(b),
                    Screen::DownPayment => self.inputs.down_payment.push_char(b),
                    Screen::HOAFee => self.inputs.hoa_fee.push_char(b),
                    Screen::InterestRate => self.inputs.interest_rate.push_char(b),
                    Screen::PropertyTax => self.inputs.property_tax.push_char(b),
                    Screen::Insurance => self.inputs.insurance.push_char(b),
                    Screen::Maintenance => self.inputs.maintenance.push_char(b),
                    Screen::PMI => self.inputs.pmi.push_char(b),
                    Screen::HouseAppreciation => self.inputs.house_appreciation.push_char(b),
                    Screen::LoanTerm => self.inputs.loan_term_years.push_char(b),
                    Screen::ExtraPrincipal => self.inputs.extra_principal.push_char(b),
                    _ => {},
                }
                Outcome::Continue
            },
            Action::Erase => {
                match self.screen {
                    Screen::HouseValue => self.inputs.house_value.erase(),
                    Screen::DownPayment => self.inputs.down_payment.erase(),
                    Screen::HOAFee => self.inputs.hoa_fee.erase(),
                    Screen::InterestRate => self.inputs.interest_rate.erase(),
                    Screen::PropertyTax => self.inputs.property_tax.erase(),
                    Screen::Insurance => self.inputs.insurance.erase(),
                    Screen::Maintenance => self.inputs.maintenance.erase(),
                    Screen::PMI => self.inputs.pmi.erase(),
                    Screen::HouseAppreciation => self.inputs.house_appreciation.erase(),
                    Screen::LoanTerm => self.inputs.loan_term_years.erase(),
                    Screen::ExtraPrincipal => self.inputs.extra_principal.erase(),
                    _ => {},
                }
                Outcome::Continue
            },
            Action::ToggleMode => {
                match self.screen {
                    Screen::DownPayment => self.inputs.down_payment.toggle(),
                    Screen::PropertyTax => self.inputs.property_tax.toggle(),
                    Screen::Insurance => self.inputs.insurance.toggle(),
                    Screen::Maintenance => self.inputs.maintenance.toggle(),
                    Screen::PMI => self.inputs.pmi.toggle(),
                    _ => {},
                }
                Outcome::Continue
            },
            Action::Advance => {
                self.do_advance();
                Outcome::Continue
            },
            Action::Retreat => {
                match self.screen {
                    Screen::HouseValue => Outcome::Exit,
                    _ => {
                        self.screen = match self.screen {
                            Screen::DownPayment => Screen::HouseValue,
                            Screen::HOAFee => Screen::DownPayment,
                            Screen::InterestRate => Screen::HOAFee,
                            Screen::PropertyTax => Screen::InterestRate,
                            Screen::Insurance => Screen::PropertyTax,
                            Screen::Maintenance => Screen::Insurance,
                            Screen::PMI => Screen::Maintenance,
                            Screen::HouseAppreciation => Screen::PMI,
                            Screen::LoanTerm => Screen::HouseAppreciation,
                            Screen::ExtraPrincipal => Screen::LoanTerm,
                            Screen::Spreadsheet => Screen::ExtraPrincipal,
                            Screen::Summary => Screen::Spreadsheet,
                            Screen::HouseValue => Screen::HouseValue,
                        };
                        Outcome::Continue
                    },
                }
            },
            Action::Cancel => Outcome::Exit,
            Action::Quit => Outcome::Exit,
            Action::NextRow | Action::PreviousRow | Action::Top | Action::Bottom
                | Action::PageForward | Action::PageBackward => {
                if matches!(self.screen, Screen::Spreadsheet) {
                    let len: usize = self.spreadsheet_data.len();
                    let sel: usize = self.selected_row;
                    self.selected_row = match a {
                        Action::NextRow => if sel + 1 < len {
                            sel + 1
                        } else {
                            sel
                        },
                        Action::PreviousRow => if sel > 0 {
                            sel - 1
                        } else {
                            sel
                        },
                        Action::Top => 0,
                        Action::Bottom => if len > 0 {
                            len - 1
                        } else {
                            sel
                        },
                        Action::PageForward => if len > 0 {
                            if sel + 10 < len {
                                sel + 10
                            } else {
                                len - 1
                            }
                        } else {
                            sel
                        },
                        _ => if sel >= 10 {
                            sel - 10
                        } else {
                            0
                        },
                    };
                }
                Outcome::Continue
            },
            Action::ShowSummary => {
                if matches!(self.screen, Screen::Spreadsheet) {
                    self.screen = Screen::Summary;
                }
                Outcome::Continue
            },
            Action::Export => {
                match self.screen {
                    Screen::Spreadsheet | Screen::Summary => Outcome::ExportRequested,
                    _ => Outcome::Continue,
                }
            },
        }
    }

    /// The `Advance` action: gatekeeping, navigation, and — from the last
    /// input step — the one place the engine runs.
    fn do_advance(&mut self)
        requires
            app_wf(*old(self)),
        ensures
            advance_rel(*old(self), *final(self)),
            app_wf(*final(self)),
    {
        let filled: bool = match self.screen {
            Screen::HouseValue => self.inputs.house_value.text.len() > 0,
            Screen::DownPayment => if self.inputs.down_payment.use_percent {
                self.inputs.down_payment.percent.text.len() > 0
            } else {
                self.inputs.down_payment.amount.text.len() > 0
            },
            Screen::HOAFee => self.inputs.hoa_fee.text.len() > 0,
            Screen::InterestRate => self.inputs.interest_rate.text.len() > 0,
            Screen::PropertyTax => if self.inputs.property_tax.use_percent {
                self.inputs.property_tax.percent.text.len() > 0
            } else {
                self.inputs.property_tax.amount.text.len() > 0
            },
            Screen::Insurance => if self.inputs.insurance.use_percent {
                self.inputs.insurance.percent.text.len() > 0
            } else {
                self.inputs.insurance.amount.text.len() > 0
            },
            Screen::Maintenance => if self.inputs.maintenance.use_percent {
                self.inputs.maintenance.percent.text.len() > 0
            } else {
                self.inputs.maintenance.amount.text.len() > 0
            },
            Screen::PMI => if self.inputs.pmi.use_percent {
                self.inputs.pmi.percent.text.len() > 0
            } else {
                self.inputs.pmi.amount.text.len() > 0
            },
            Screen::HouseAppreciation => self.inputs.house_appreciation.text.len() > 0,
            Screen::LoanTerm => self.inputs.loan_term_years.text.len() > 0,
            Screen::ExtraPrincipal => self.inputs.extra_principal.text.len() > 0,
            _ => true,
        };
        if !filled {
            return ;
        }
        match self.screen {
            Screen::HouseValue => {
                self.screen = Screen::DownPayment;
            },
            Screen::DownPayment => {
                self.screen = Screen::HOAFee;
            },
            Screen::HOAFee => {
                self.screen = Screen::InterestRate;
            },
            Screen::InterestRate => {
                self.screen = Screen::PropertyTax;
            },
            Screen::PropertyTax => {
                self.screen = Screen::Insurance;
            },
            Screen::Insurance => {
                self.screen = Screen::Maintenance;
            },
            Screen::Maintenance => {
                self.screen = Screen::PMI;
            },
            Screen::PMI => {
                self.screen = Screen::HouseAppreciation;
            },
            Screen::HouseAppreciation => {
                self.screen = Screen::LoanTerm;
            },
            Screen::LoanTerm => {
                self.screen = Screen::ExtraPrincipal;
            },
            Screen::ExtraPrincipal => {
                match resolve_inputs(&self.inputs) {
                    Ok(params) => {
                        proof {
                            lemma_months_range(params, 0);
                        }
                        let out = calculate_mortgage(&params);
                        self.spreadsheet_data = out.0;
                        self.summary = Some(out.1);
                        self.selected_row = 0;
                        self.compute_failed = false;
                        self.screen = Screen::Spreadsheet;
                    },
                    Err(_) => {
                        self.compute_failed = true;
                    },
                }
            },
            _ => {},
        }
    }
}

/// An `Advance` on an input step whose required field is empty never moves
/// the wizard: the step, the inputs and the results all stay as they were.
pub proof fn lemma_advance_blocked(pre: App, post: App, out: Outcome)
    requires
        transition(pre, Action::Advance, post, out),
        is_input_screen(pre.screen),
        !screen_filled(pre),
    ensures
        post == pre,
        post.screen == pre.screen,
{
}

} // verus!
