//! The state of a miku interpreter: its variables and its instructions.
use crate::miku::miku::MikuInstr;
use vstd::prelude::*;

verus! {

/// A variable of the interpreter (it holds nothing yet).
pub struct MikuVar {}

/// An interpreter: its variables and the instructions it runs.
pub struct Interpreter {
    pub variables: Vec<MikuVar>,
    pub instructions: Vec<MikuInstr>,
}

} // verus!
