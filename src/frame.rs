use vstd::prelude::*;
use crate::value::{Comparision, DynamicValue};

verus! {

/// Number of local slots a new frame gets unless the embedder sets another.
pub const STACK_DEFAULT_SIZE: usize = 128;

/// An active loop: where it starts over, and optionally which slot to step
/// by how much each time it does.
#[derive(Debug, Clone, Copy, PartialEq, Eq, Structural)]
pub struct LoopLabel {
    pub start_pc: usize,
    pub index_address: Option<usize>,
    pub stepping: DynamicValue,
}

impl LoopLabel {
    pub fn new(start_pc: usize) -> (r: LoopLabel)
        ensures
            r == (LoopLabel { start_pc, index_address: None, stepping: DynamicValue::Null }),
    {
        LoopLabel { start_pc, index_address: None, stepping: DynamicValue::Null }
    }
}

/// One invocation record on the call stack.
#[derive(Debug)]
pub struct FunctionFrame {
    pub id: usize,
    pub stack: Vec<DynamicValue>,
    pub program_counter: usize,
    pub last_comparision: Option<Comparision>,
    pub ready: bool,
    pub skip_level: u32,
    pub stack_size: usize,
    /// Number of heap items allocated while this frame was charged for them.
    pub num_special_items: usize,
    pub label_stack: Vec<LoopLabel>,
}

/// A frame as a mathematical value.
pub struct FrameModel {
    pub id: usize,
    pub stack: Seq<DynamicValue>,
    pub pc: usize,
    pub last: Option<Comparision>,
    pub ready: bool,
    pub skip: u32,
    pub stack_size: usize,
    pub specials: usize,
    pub labels: Seq<LoopLabel>,
}

impl View for FunctionFrame {
    type V = FrameModel;

    open spec fn view(&self) -> FrameModel {
        FrameModel {
            id: self.id,
            stack: self.stack@,
            pc: self.program_counter,
            last: self.last_comparision,
            ready: self.ready,
            skip: self.skip_level,
            stack_size: self.stack_size,
            specials: self.num_special_items,
            labels: self.label_stack@,
        }
    }
}

/// A fresh frame for function `id`: `stack_size` slots holding `Null`, not
/// yet ready.
pub open spec fn fresh_frame(id: usize, stack_size: usize) -> FrameModel {
    FrameModel {
        id,
        stack: Seq::new(stack_size as nat, |k: int| DynamicValue::Null),
        pc: 0,
        last: None,
        ready: false,
        skip: 0,
        stack_size,
        specials: 0,
        labels: Seq::empty(),
    }
}

impl FunctionFrame {
    pub fn new(id: usize, stack_size: usize) -> (r: FunctionFrame)
        ensures
            r@ == fresh_frame(id, stack_size),
    {
        let stack = vec![DynamicValue::Null; stack_size];
        let r = FunctionFrame {
            id,
            stack,
            program_counter: 0,
            last_comparision: None,
            ready: false,
            skip_level: 0,
            stack_size,
            num_special_items: 0,
            label_stack: Vec::new(),
        };
        assert(r@.stack =~= fresh_frame(id, stack_size).stack);
        assert(r@.labels =~= fresh_frame(id, stack_size).labels);
        r
    }
}

/// The register file and the global mode flags.
#[derive(Debug, Clone, Copy, PartialEq, Eq, Structural)]
pub struct Registers {
    pub math_a: DynamicValue,
    pub math_b: DynamicValue,
    pub intermediate: DynamicValue,
    pub first_operation: bool,
    pub secondary: DynamicValue,
    pub default_stack_size: usize,
    pub has_quit: bool,
    pub is_interactive: bool,
    pub next_code_index: usize,
    pub next_plugin_index: usize,
}

pub open spec fn initial_registers() -> Registers {
    Registers {
        math_a: DynamicValue::Null,
        math_b: DynamicValue::Null,
        intermediate: DynamicValue::Null,
        first_operation: false,
        secondary: DynamicValue::Null,
        default_stack_size: STACK_DEFAULT_SIZE,
        has_quit: false,
        is_interactive: false,
        next_code_index: 0,
        next_plugin_index: 0,
    }
}

impl Registers {
    pub fn default() -> (r: Registers)
        ensures
            r == initial_registers(),
    {
        Registers {
            math_a: DynamicValue::Null,
            math_b: DynamicValue::Null,
            intermediate: DynamicValue::Null,
            first_operation: false,
            secondary: DynamicValue::Null,
            default_stack_size: STACK_DEFAULT_SIZE,
            has_quit: false,
            is_interactive: false,
            next_code_index: 0,
            next_plugin_index: 0,
        }
    }
}

} // verus!
