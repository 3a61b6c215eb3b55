use home_buyer::wizard::{Action, App, Outcome, Screen};

fn type_text(app: &mut App, s: &str) {
    for b in s.bytes() {
        let out = app.handle_action(Action::CharacterEntered(b));
        assert_eq!(out, Outcome::Continue);
    }
}

/// Types a house value and advances through every remaining step with the
/// pre-filled defaults, triggering the computation.
fn run_to_spreadsheet(app: &mut App) {
    type_text(app, "300000");
    for _ in 0..11 {
        let out = app.handle_action(Action::Advance);
        assert_eq!(out, Outcome::Continue);
    }
}

#[test]
fn session_starts_with_documented_defaults() {
    let app = App::start();
    assert_eq!(app.screen, Screen::HouseValue);
    assert_eq!(app.inputs.house_value.text, b"".to_vec());
    assert_eq!(app.inputs.down_payment.percent.text, b"20".to_vec());
    assert!(app.inputs.down_payment.use_percent);
    assert_eq!(app.inputs.down_payment.amount.text, b"".to_vec());
    assert_eq!(app.inputs.hoa_fee.text, b"0".to_vec());
    assert_eq!(app.inputs.interest_rate.text, b"6.5".to_vec());
    assert_eq!(app.inputs.property_tax.percent.text, b"2".to_vec());
    assert_eq!(app.inputs.property_tax.amount.text, b"".to_vec());
    assert_eq!(app.inputs.insurance.percent.text, b"0.35".to_vec());
    assert_eq!(app.inputs.insurance.amount.text, b"".to_vec());
    assert_eq!(app.inputs.maintenance.percent.text, b"1".to_vec());
    assert_eq!(app.inputs.maintenance.amount.text, b"".to_vec());
    assert_eq!(app.inputs.pmi.percent.text, b"0.5".to_vec());
    assert_eq!(app.inputs.pmi.amount.text, b"".to_vec());
    assert!(app.inputs.property_tax.use_percent);
    assert!(app.inputs.insurance.use_percent);
    assert!(app.inputs.maintenance.use_percent);
    assert!(app.inputs.pmi.use_percent);
    assert_eq!(app.inputs.house_appreciation.text, b"3".to_vec());
    assert_eq!(app.inputs.loan_term_years.text, b"30".to_vec());
    assert_eq!(app.inputs.extra_principal.text, b"0".to_vec());
    assert_eq!(app.spreadsheet_data.len(), 0);
    assert!(app.summary.is_none());
}

#[test]
fn advance_with_empty_field_stays_put() {
    let mut app = App::start();
    let out = app.handle_action(Action::Advance);
    assert_eq!(out, Outcome::Continue);
    assert_eq!(app.screen, Screen::HouseValue);
    assert_eq!(app.spreadsheet_data.len(), 0);
}

#[test]
fn character_filter_ignores_nonconforming_bytes() {
    let mut app = App::start();
    type_text(&mut app, "3a0!x");
    assert_eq!(app.inputs.house_value.text, b"30".to_vec());
    // The loan-term field takes digits only.
    type_text(&mut app, "0000");
    app.handle_action(Action::Advance);
    assert_eq!(app.screen, Screen::DownPayment);
    for _ in 0..8 {
        app.handle_action(Action::Advance);
    }
    assert_eq!(app.screen, Screen::LoanTerm);
    type_text(&mut app, ".5");
    assert_eq!(app.inputs.loan_term_years.text, b"305".to_vec());
}

#[test]
fn minus_only_leads_the_appreciation_field() {
    let mut app = App::start();
    type_text(&mut app, "300000");
    for _ in 0..8 {
        app.handle_action(Action::Advance);
    }
    assert_eq!(app.screen, Screen::HouseAppreciation);
    app.handle_action(Action::Erase);
    assert_eq!(app.inputs.house_appreciation.text, b"".to_vec());
    type_text(&mut app, "-2-5");
    assert_eq!(app.inputs.house_appreciation.text, b"-25".to_vec());
}

#[test]
fn toggling_keeps_both_sides_and_restores_on_retoggle() {
    let mut app = App::start();
    type_text(&mut app, "300000");
    app.handle_action(Action::Advance);
    assert_eq!(app.screen, Screen::DownPayment);
    type_text(&mut app, "5");
    assert_eq!(app.inputs.down_payment.percent.text, b"205".to_vec());
    app.handle_action(Action::ToggleMode);
    assert!(!app.inputs.down_payment.use_percent);
    assert_eq!(app.inputs.down_payment.percent.text, b"205".to_vec());
    assert_eq!(app.inputs.down_payment.amount.text, b"".to_vec());
    type_text(&mut app, "60000");
    app.handle_action(Action::ToggleMode);
    assert!(app.inputs.down_payment.use_percent);
    assert_eq!(app.inputs.down_payment.percent.text, b"205".to_vec());
    assert_eq!(app.inputs.down_payment.amount.text, b"60000".to_vec());
}

#[test]
fn advance_blocked_on_emptied_dual_side() {
    let mut app = App::start();
    type_text(&mut app, "300000");
    app.handle_action(Action::Advance);
    app.handle_action(Action::ToggleMode);
    // The dollar side is empty, so Advance must refuse although the
    // percent side still holds its default.
    let out = app.handle_action(Action::Advance);
    assert_eq!(out, Outcome::Continue);
    assert_eq!(app.screen, Screen::DownPayment);
}

#[test]
fn full_run_opens_the_spreadsheet() {
    let mut app = App::start();
    run_to_spreadsheet(&mut app);
    assert_eq!(app.screen, Screen::Spreadsheet);
    assert!(!app.compute_failed);
    assert_eq!(app.selected_row, 0);
    assert!(app.spreadsheet_data.len() > 0);
    assert!(app.spreadsheet_data.len() <= 360);
    assert!(app.summary.is_some());
}

#[test]
fn malformed_number_keeps_wizard_on_input_step() {
    let mut app = App::start();
    type_text(&mut app, "300000");
    for _ in 0..9 {
        app.handle_action(Action::Advance);
    }
    assert_eq!(app.screen, Screen::LoanTerm);
    app.handle_action(Action::Advance);
    assert_eq!(app.screen, Screen::ExtraPrincipal);
    type_text(&mut app, ".0.");
    let out = app.handle_action(Action::Advance);
    assert_eq!(out, Outcome::Continue);
    assert_eq!(app.screen, Screen::ExtraPrincipal);
    assert!(app.compute_failed);
    assert_eq!(app.inputs.extra_principal.text, b"0.0.".to_vec());
    assert_eq!(app.spreadsheet_data.len(), 0);
    // Correcting the value lets the computation through.
    app.handle_action(Action::Erase);
    app.handle_action(Action::Erase);
    let out = app.handle_action(Action::Advance);
    assert_eq!(out, Outcome::Continue);
    assert_eq!(app.screen, Screen::Spreadsheet);
    assert!(!app.compute_failed);
}

#[test]
fn retreat_from_first_screen_ends_session() {
    let mut app = App::start();
    let out = app.handle_action(Action::Retreat);
    assert_eq!(out, Outcome::Exit);
    assert_eq!(app.screen, Screen::HouseValue);
}

#[test]
fn retreat_walks_backwards() {
    let mut app = App::start();
    type_text(&mut app, "300000");
    app.handle_action(Action::Advance);
    app.handle_action(Action::Advance);
    assert_eq!(app.screen, Screen::HOAFee);
    app.handle_action(Action::Retreat);
    assert_eq!(app.screen, Screen::DownPayment);
    app.handle_action(Action::Retreat);
    assert_eq!(app.screen, Screen::HouseValue);
}

#[test]
fn results_screens_navigate_back_to_inputs() {
    let mut app = App::start();
    run_to_spreadsheet(&mut app);
    app.handle_action(Action::ShowSummary);
    assert_eq!(app.screen, Screen::Summary);
    app.handle_action(Action::Retreat);
    assert_eq!(app.screen, Screen::Spreadsheet);
    app.handle_action(Action::Retreat);
    assert_eq!(app.screen, Screen::ExtraPrincipal);
    // Re-confirming recomputes from scratch.
    let out = app.handle_action(Action::Advance);
    assert_eq!(out, Outcome::Continue);
    assert_eq!(app.screen, Screen::Spreadsheet);
    assert_eq!(app.selected_row, 0);
}

#[test]
fn cursor_navigation_clamps_to_rows() {
    let mut app = App::start();
    run_to_spreadsheet(&mut app);
    let len = app.spreadsheet_data.len();
    app.handle_action(Action::NextRow);
    app.handle_action(Action::NextRow);
    app.handle_action(Action::NextRow);
    assert_eq!(app.selected_row, 3);
    app.handle_action(Action::PreviousRow);
    assert_eq!(app.selected_row, 2);
    app.handle_action(Action::Bottom);
    assert_eq!(app.selected_row, len - 1);
    app.handle_action(Action::NextRow);
    assert_eq!(app.selected_row, len - 1);
    app.handle_action(Action::PageBackward);
    assert_eq!(app.selected_row, len - 11);
    app.handle_action(Action::PageForward);
    assert_eq!(app.selected_row, len - 1);
    app.handle_action(Action::Top);
    assert_eq!(app.selected_row, 0);
    app.handle_action(Action::PreviousRow);
    assert_eq!(app.selected_row, 0);
    app.handle_action(Action::PageBackward);
    assert_eq!(app.selected_row, 0);
}

#[test]
fn navigation_ignored_off_the_spreadsheet() {
    let mut app = App::start();
    app.handle_action(Action::NextRow);
    app.handle_action(Action::Bottom);
    assert_eq!(app.selected_row, 0);
    assert_eq!(app.screen, Screen::HouseValue);
}

#[test]
fn export_requested_only_from_result_screens() {
    let mut app = App::start();
    assert_eq!(app.handle_action(Action::Export), Outcome::Continue);
    run_to_spreadsheet(&mut app);
    let rows_before = app.spreadsheet_data.len();
    assert_eq!(app.handle_action(Action::Export), Outcome::ExportRequested);
    assert_eq!(app.screen, Screen::Spreadsheet);
    assert_eq!(app.spreadsheet_data.len(), rows_before);
    app.handle_action(Action::ShowSummary);
    assert_eq!(app.handle_action(Action::Export), Outcome::ExportRequested);
    assert_eq!(app.screen, Screen::Summary);
}

#[test]
fn cancel_and_quit_end_the_session() {
    let mut app = App::start();
    assert_eq!(app.handle_action(Action::Cancel), Outcome::Exit);
    let mut app2 = App::start();
    run_to_spreadsheet(&mut app2);
    assert_eq!(app2.handle_action(Action::Quit), Outcome::Exit);
}
