//! The ways in which assembling a program can fail.

use vstd::prelude::*;

verus! {

/// Why a program was rejected. Every failure ends the run: nothing is recovered.
#[derive(Clone, Copy, Debug, PartialEq, Eq, Structural)]
pub enum AsmError {
    /// The regex engine refused the pattern that strips comments and spaces.
    Pattern,
    /// An address instruction whose operand is neither a decimal number nor a name.
    Operand,
    /// An address above 32767, which does not fit in fifteen bits.
    Range,
    /// A compute instruction without a computation.
    Syntax,
    /// A destination mnemonic that the destination table does not hold.
    Dest,
    /// A computation mnemonic that the computation table does not hold.
    Comp,
    /// A jump mnemonic that the jump table does not hold.
    Jump,
}

impl AsmError {
    /// A one-line description of the failure, naming the stage that found it.
    pub fn message(&self) -> (text: String)
        ensures
            text@ == match *self {
                AsmError::Pattern => "preprocessor: the cleaning pattern was refused"@,
                AsmError::Operand => "address: the operand is neither a number nor a name"@,
                AsmError::Range => "address: the operand does not fit in fifteen bits"@,
                AsmError::Syntax => "compute: the computation is missing"@,
                AsmError::Dest => "compute: unknown destination"@,
                AsmError::Comp => "compute: unknown computation"@,
                AsmError::Jump => "compute: unknown jump"@,
            },
    {
        match self {
            AsmError::Pattern => String::from_str("preprocessor: the cleaning pattern was refused"),
            AsmError::Operand => String::from_str(
                "address: the operand is neither a number nor a name",
            ),
            AsmError::Range => String::from_str(
                "address: the operand does not fit in fifteen bits",
            ),
            AsmError::Syntax => String::from_str("compute: the computation is missing"),
            AsmError::Dest => String::from_str("compute: unknown destination"),
            AsmError::Comp => String::from_str("compute: unknown computation"),
            AsmError::Jump => String::from_str("compute: unknown jump"),
        }
    }
}

} // verus!
