use rust_calc::{CalculatorState, Evaluation, Operator, Outcome};

#[test]
fn digits_extend_the_display() {
    let mut state: CalculatorState<f64> = CalculatorState::new();
    assert_eq!(state.type_input("0", "7"), Some("7".to_string()));
    assert_eq!(state.type_input("7", "8"), Some("78".to_string()));
    assert_eq!(state.type_input("78", ","), Some("78,".to_string()));
    assert_eq!(state.type_input("78,", "5"), Some("78,5".to_string()));
}

#[test]
fn a_second_comma_is_ignored() {
    let mut state: CalculatorState<f64> = CalculatorState::new();
    assert_eq!(state.type_input("1,5", ","), None);
}

#[test]
fn a_comma_on_an_empty_number_gets_a_leading_zero() {
    let mut state: CalculatorState<f64> = CalculatorState::new();
    assert_eq!(state.type_input("0", ","), Some("0,".to_string()));
}

#[test]
fn input_after_an_operator_starts_a_new_number() {
    let mut state: CalculatorState<f64> = CalculatorState::new();
    assert!(state.select_operator(Some(12.0), Operator::Add));
    assert_eq!(state.left, Some(12.0));
    assert_eq!(state.operator, Some(Operator::Add));
    assert!(state.replace_display);
    assert_eq!(state.type_input("12", "3"), Some("3".to_string()));
    assert!(!state.replace_display);
    assert_eq!(state.type_input("3", "4"), Some("34".to_string()));
}

#[test]
fn a_comma_after_a_result_gives_zero_comma() {
    let mut state: CalculatorState<f64> = CalculatorState::new();
    assert!(state.finish_evaluation(Outcome::Finite(2.5)));
    assert_eq!(state.type_input("2,5", ","), Some("0,".to_string()));
}

#[test]
fn an_unreadable_display_selects_no_operator() {
    let mut state: CalculatorState<f64> = CalculatorState::new();
    assert!(!state.select_operator(None, Operator::Divide));
    assert_eq!(state.left, None);
    assert_eq!(state.operator, None);
    assert!(!state.replace_display);
}

#[test]
fn evaluation_needs_a_number_and_an_operator() {
    let mut state: CalculatorState<f64> = CalculatorState::new();
    assert!(matches!(state.begin_evaluation(None), Evaluation::InvalidNumber));
    assert!(matches!(state.begin_evaluation(Some(1.0)), Evaluation::Incomplete));
    state.select_operator(Some(8.0), Operator::Divide);
    match state.begin_evaluation(Some(2.0)) {
        Evaluation::Compute { left, operator, right } => {
            assert_eq!(left, 8.0);
            assert_eq!(operator, Operator::Divide);
            assert_eq!(right, 2.0);
        }
        _ => panic!("expected a computation"),
    }
}

#[test]
fn a_finite_result_becomes_the_next_left_operand() {
    let mut state: CalculatorState<f64> = CalculatorState::new();
    state.select_operator(Some(8.0), Operator::Divide);
    assert!(state.finish_evaluation(Outcome::Finite(4.0)));
    assert_eq!(state.left, Some(4.0));
    assert_eq!(state.operator, None);
    assert!(state.replace_display);
}

#[test]
fn a_refused_or_too_large_result_leaves_the_state() {
    let mut state: CalculatorState<f64> = CalculatorState::new();
    state.select_operator(Some(8.0), Operator::Divide);
    assert!(!state.finish_evaluation(Outcome::Refused));
    assert!(!state.finish_evaluation(Outcome::NotFinite));
    assert_eq!(state.left, Some(8.0));
    assert_eq!(state.operator, Some(Operator::Divide));
    assert!(state.replace_display);
}

#[test]
fn backspace_erases_the_last_character() {
    let state: CalculatorState<f64> = CalculatorState::new();
    assert_eq!(state.backspace("123"), Some("12".to_string()));
    assert_eq!(state.backspace("1,5"), Some("1,".to_string()));
    assert_eq!(state.backspace("7"), Some("0".to_string()));
    assert_eq!(state.backspace(""), Some("0".to_string()));
    assert_eq!(state.backspace("-7"), Some("0".to_string()));
    assert_eq!(state.backspace("-75"), Some("-7".to_string()));
    assert_eq!(state.backspace("ı"), Some("".to_string()));
}

#[test]
fn backspace_leaves_a_result_alone() {
    let mut state: CalculatorState<f64> = CalculatorState::new();
    state.finish_evaluation(Outcome::Finite(4.0));
    assert_eq!(state.backspace("4"), None);
}

#[test]
fn clear_returns_to_the_start() {
    let mut state: CalculatorState<f64> = CalculatorState::new();
    state.select_operator(Some(1.0), Operator::Add);
    state.clear();
    assert_eq!(state.left, None);
    assert_eq!(state.operator, None);
    assert!(!state.replace_display);
}
