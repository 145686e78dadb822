use rust_calc::Operator;

#[test]
fn operators_have_their_keypad_signs() {
    assert_eq!(Operator::Add.symbol(), "+");
    assert_eq!(Operator::Subtract.symbol(), "−");
    assert_eq!(Operator::Multiply.symbol(), "×");
    assert_eq!(Operator::Divide.symbol(), "÷");
}
