use vstd::prelude::*;
use crate::value::{ComparisionRequest, RawValue, TypeKind};

verus! {

/// The opcodes the compiler emits.
#[derive(Debug, Clone)]
pub enum Instruction {
    PrintMathB,
    PrintMathBDebug,
    PrintNewLine,
    FlushStdout,
    Quit,
    Compare,
    Return,
    EndConditionalBlock,
    ExecuteIf(ComparisionRequest),
    MakeNewFrame(usize),
    SetLastFrameReady,
    /// Check that `math_b` has a type compatible with the given kind.
    AssertMathBCompatible(TypeKind),
    /// Read a line of input into the intermediate register.
    ReadInput,
    /// Turn `math_b` into a text.
    ConvertToString,
    /// Turn `math_b` into a number.
    ConvertToNum,
    /// Turn `math_b` into an integer.
    ConvertToInt,
    PushValMathA(RawValue),
    PushValMathB(RawValue),
    PushIntermediateToA,
    PushIntermediateToB,
    PushMathBToSeconday,
    ClearSecondary,
    /// Read a global variable into the intermediate register.
    ReadGlobalVarFrom(usize),
    /// Write `math_b` to a global variable.
    WriteGlobalVarTo(usize),
    ReadVarFrom(usize),
    WriteVarTo(usize),
    WriteVarToLast(usize),
    SwapMath,
    ClearMath,
    Add,
    Mul,
    Div,
    Sub,
    /// Save the current pc so that the loop can start over from it.
    AddLoopLabel,
    /// Start the innermost loop over.
    RestoreLoopLabel,
    /// Drop the innermost loop label.
    PopLoopLabel,
    /// Take the step from `math_b` and add it to the given slot on every restore.
    RegisterIncrementOnRestore(usize),
    /// Mark the next text concatenation as the first of its expression.
    SetFirstExpressionOperation,
    /// Create an empty list and put it in `math_b`.
    MakeNewList,
    /// Index the list in the intermediate register with the integer in `math_b`.
    IndexList,
    /// Insert `math_b` into the list in the intermediate register, at the
    /// index in the secondary register, or at the end when that is `Null`.
    AddToListAtIndex,
    /// Remove the element at the index in `math_b` from the list in the
    /// intermediate register.
    RemoveFromListAtIndex,
    /// Write the length of the list in the intermediate register to `math_b`.
    QueryListSize,
    /// Call a plugin with a number of arguments popped from the argument stack.
    CallPlugin(usize, usize),
    /// Push `math_b` onto the plugin argument stack.
    PushMathBPluginArgument,
    IncreaseSkippingLevel,
    Halt,
    /// Release the reference held by a slot of the current frame, if any.
    TryDecrementRefAt(usize),
}

impl RawValue {
    /// A copy of the literal.
    pub fn duplicate(&self) -> (r: RawValue)
        ensures
            r == *self,
    {
        match self {
            RawValue::Text(t) => RawValue::Text(t.clone()),
            RawValue::Number(n) => RawValue::Number(*n),
            RawValue::Integer(i) => RawValue::Integer(*i),
            RawValue::Null => RawValue::Null,
        }
    }
}

impl Instruction {
    /// A copy of the instruction.
    pub fn duplicate(&self) -> (r: Instruction)
        ensures
            r == *self,
    {
        match self {
            Instruction::PrintMathB => Instruction::PrintMathB,
            Instruction::PrintMathBDebug => Instruction::PrintMathBDebug,
            Instruction::PrintNewLine => Instruction::PrintNewLine,
            Instruction::FlushStdout => Instruction::FlushStdout,
            Instruction::Quit => Instruction::Quit,
            Instruction::Compare => Instruction::Compare,
            Instruction::Return => Instruction::Return,
            Instruction::EndConditionalBlock => Instruction::EndConditionalBlock,
            Instruction::ExecuteIf(r) => Instruction::ExecuteIf(*r),
            Instruction::MakeNewFrame(i) => Instruction::MakeNewFrame(*i),
            Instruction::SetLastFrameReady => Instruction::SetLastFrameReady,
            Instruction::AssertMathBCompatible(k) => Instruction::AssertMathBCompatible(*k),
            Instruction::ReadInput => Instruction::ReadInput,
            Instruction::ConvertToString => Instruction::ConvertToString,
            Instruction::ConvertToNum => Instruction::ConvertToNum,
            Instruction::ConvertToInt => Instruction::ConvertToInt,
            Instruction::PushValMathA(v) => Instruction::PushValMathA(v.duplicate()),
            Instruction::PushValMathB(v) => Instruction::PushValMathB(v.duplicate()),
            Instruction::PushIntermediateToA => Instruction::PushIntermediateToA,
            Instruction::PushIntermediateToB => Instruction::PushIntermediateToB,
            Instruction::PushMathBToSeconday => Instruction::PushMathBToSeconday,
            Instruction::ClearSecondary => Instruction::ClearSecondary,
            Instruction::ReadGlobalVarFrom(a) => Instruction::ReadGlobalVarFrom(*a),
            Instruction::WriteGlobalVarTo(a) => Instruction::WriteGlobalVarTo(*a),
            Instruction::ReadVarFrom(a) => Instruction::ReadVarFrom(*a),
            Instruction::WriteVarTo(a) => Instruction::WriteVarTo(*a),
            Instruction::WriteVarToLast(a) => Instruction::WriteVarToLast(*a),
            Instruction::SwapMath => Instruction::SwapMath,
            Instruction::ClearMath => Instruction::ClearMath,
            Instruction::Add => Instruction::Add,
            Instruction::Mul => Instruction::Mul,
            Instruction::Div => Instruction::Div,
            Instruction::Sub => Instruction::Sub,
            Instruction::AddLoopLabel => Instruction::AddLoopLabel,
            Instruction::RestoreLoopLabel => Instruction::RestoreLoopLabel,
            Instruction::PopLoopLabel => Instruction::PopLoopLabel,
            Instruction::RegisterIncrementOnRestore(a) => Instruction::RegisterIncrementOnRestore(*a),
            Instruction::SetFirstExpressionOperation => Instruction::SetFirstExpressionOperation,
            Instruction::MakeNewList => Instruction::MakeNewList,
            Instruction::IndexList => Instruction::IndexList,
            Instruction::AddToListAtIndex => Instruction::AddToListAtIndex,
            Instruction::RemoveFromListAtIndex => Instruction::RemoveFromListAtIndex,
            Instruction::QueryListSize => Instruction::QueryListSize,
            Instruction::CallPlugin(a, n) => Instruction::CallPlugin(*a, *n),
            Instruction::PushMathBPluginArgument => Instruction::PushMathBPluginArgument,
            Instruction::IncreaseSkippingLevel => Instruction::IncreaseSkippingLevel,
            Instruction::Halt => Instruction::Halt,
            Instruction::TryDecrementRefAt(a) => Instruction::TryDecrementRefAt(*a),
        }
    }
}

} // verus!
