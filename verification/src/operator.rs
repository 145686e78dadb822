use vstd::prelude::*;

verus! {

/// One of the four arithmetic operations that the calculator offers.
#[derive(Clone, Copy, Debug, PartialEq, Eq, Structural)]
pub enum Operator {
    Add,
    Subtract,
    Multiply,
    Divide,
}

/// The sign by which an operator is shown on the keypad and in the history.
pub open spec fn operator_symbol(op: Operator) -> Seq<char> {
    match op {
        Operator::Add => seq!['+'],
        Operator::Subtract => seq!['\u{2212}'],
        Operator::Multiply => seq!['\u{00d7}'],
        Operator::Divide => seq!['\u{00f7}'],
    }
}

impl Operator {
    /// The sign of the operator: `+`, `−`, `×` or `÷`.
    pub fn symbol(self) -> (s: &'static str)
        ensures
            s@ == operator_symbol(self),
    {
        match self {
            Operator::Add => {
                let s = "+";
                proof { reveal_strlit("+"); }
                s
            },
            Operator::Subtract => {
                let s = "−";
                proof { reveal_strlit("−"); }
                s
            },
            Operator::Multiply => {
                let s = "×";
                proof { reveal_strlit("×"); }
                s
            },
            Operator::Divide => {
                let s = "÷";
                proof { reveal_strlit("÷"); }
                s
            },
        }
    }
}

} // verus!
