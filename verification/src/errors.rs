//! The error kinds surfaced by analysis and recompilation.
//!
//! Each aborts the pipeline; none is recovered from.

use vstd::prelude::*;

verus! {

#[derive(Copy, Clone, PartialEq, Eq, Structural, Debug)]
pub enum AnalysisError {
    /// Bytes at a reached offset do not form a valid instruction.
    Decode { offset: u16 },
    /// A jump or call target is unbounded at the point of use.
    UnboundedTarget { offset: u16 },
    /// A control transfer leaves the loaded program image.
    TargetOutsideProgram { address: u16 },
    /// A memory access goes through an unlimited segment or offset.
    UnboundedMemory,
    /// A jump target does not begin at a decoded instruction.
    GraphInvariant { offset: u16 },
    /// The decoder produced a mnemonic the recompiler has no lowering for.
    UnsupportedMnemonic,
    /// An instruction carries an operand its mnemonic cannot take.
    InvalidOperand,
}

impl AnalysisError {
    /// A one-line diagnostic label.
    pub fn text(&self) -> (r: &'static str)
        ensures
            r@ == match self {
                AnalysisError::Decode { .. } => "invalid instruction at a reached offset"@,
                AnalysisError::UnboundedTarget { .. } => "unbounded jump or call target"@,
                AnalysisError::TargetOutsideProgram { .. } => "control transfer leaves the program"@,
                AnalysisError::UnboundedMemory => "memory access through an unlimited address"@,
                AnalysisError::GraphInvariant { .. } => "jump target splits no instruction"@,
                AnalysisError::UnsupportedMnemonic => "unsupported mnemonic"@,
                AnalysisError::InvalidOperand => "invalid operand"@,
            },
    {
        match self {
            AnalysisError::Decode { .. } => "invalid instruction at a reached offset",
            AnalysisError::UnboundedTarget { .. } => "unbounded jump or call target",
            AnalysisError::TargetOutsideProgram { .. } => "control transfer leaves the program",
            AnalysisError::UnboundedMemory => "memory access through an unlimited address",
            AnalysisError::GraphInvariant { .. } => "jump target splits no instruction",
            AnalysisError::UnsupportedMnemonic => "unsupported mnemonic",
            AnalysisError::InvalidOperand => "invalid operand",
        }
    }
}

} // verus!
