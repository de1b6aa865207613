//! Symbolic labels for the rules that generate a successor from its
//! predecessor.

use vstd::prelude::*;

verus! {

/// Which generation rule produced a successor from its predecessor. The
/// extra `NoAction` value is never an edge label inside the ledger: it is
/// the initial value of the side variable that becomes the (unreliable)
/// terminal entry of a reconstructed action sequence.
#[derive(Clone, Copy, Debug, PartialEq, Eq, Structural)]
pub enum Action {
    NoAction,
    HalfLeft,
    HalfRight,
    ConstantLeft,
    ConstantRight,
}

impl Action {
    /// The printable tag of this label.
    pub fn label(&self) -> (r: &'static str)
        ensures
            *self == Action::NoAction ==> r@ == "none"@,
            *self == Action::HalfLeft ==> r@ == "half_left"@,
            *self == Action::HalfRight ==> r@ == "half_right"@,
            *self == Action::ConstantLeft ==> r@ == "constant_left"@,
            *self == Action::ConstantRight ==> r@ == "constant_right"@,
    {
        match self {
            Action::NoAction => "none",
            Action::HalfLeft => "half_left",
            Action::HalfRight => "half_right",
            Action::ConstantLeft => "constant_left",
            Action::ConstantRight => "constant_right",
        }
    }
}

} // verus!
