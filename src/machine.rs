use vstd::prelude::*;
use crate::frame::{FunctionFrame, LoopLabel, Registers, initial_registers};
use crate::instruction::Instruction;
use crate::protocol::{
    Answer, ArithOp, Fragment, NumberQuery, NumberRequest, Outcome, Pending, Piece, Reply, Step,
    group_view_seq, view_seq,
};
use crate::semantics::{
    Computed, MachineModel, NESTING_LIMIT, allocate, allocate_current, arith, arith_step,
    compare_items, compare_plan, compare_step, control_step, convert_step, current_skip,
    debug_pieces, dispatch, raw_value, insert_at, popped_args, execute_if_step, int_arith, last_ready, last_ready_index, label_step,
    list_step, pieces_text, execute_next, answer_math_b, answer_input, answer_plugin, print_pieces, read_slot, ready_below, register_step, render,
    render_items, restore_step, resume, return_step, set_last, settle, skip_more, step, var_step,
    write_slot,
};
use crate::storage::{ItemValue, SpecialItemData, SpecialStorage};
use crate::text::{integer_text, parse_integer};
use crate::value::{
    check_kind, comparision_matches, Comparision, RawValue, DynamicValue, ExecutionStatus, VmError, handle_of, is_compatible, is_numeric,
    value_handle,
};

verus! {

broadcast use group_view_seq;

/// The interpreter: registers, call stack, code table, heap, plugin
/// arguments, pending output, and the request it waits on, if any.
pub struct VirtualMachine {
    registers: Registers,
    callstack: Vec<FunctionFrame>,
    code: Vec<Vec<Instruction>>,
    special_storage: SpecialStorage,
    plugin_argument_stack: Vec<DynamicValue>,
    output: Vec<Fragment>,
    pending: Option<Pending>,
}

impl View for VirtualMachine {
    type V = MachineModel;

    closed spec fn view(&self) -> MachineModel {
        MachineModel {
            regs: self.registers,
            frames: view_seq(self.callstack@),
            heap: self.special_storage@,
            code: view_seq(self.code@),
            args: self.plugin_argument_stack@,
            output: view_seq(self.output@),
            pending: self.pending,
        }
    }
}

pub open spec fn opt_index(r: Option<usize>) -> Option<int> {
    match r {
        Some(k) => Some(k as int),
        None => None,
    }
}

/// A step's result as a mathematical value.
pub open spec fn step_view(r: Result<Step, VmError>) -> Result<Outcome, VmError> {
    match r {
        Ok(s) => Ok(s@),
        Err(e) => Err(e),
    }
}

/// A status result as a mathematical value.
pub open spec fn status_view(r: Result<ExecutionStatus, VmError>) -> Result<Outcome, VmError> {
    match r {
        Ok(s) => Ok(Outcome::Status(s)),
        Err(e) => Err(e),
    }
}

pub open spec fn unit_view(r: Result<(), VmError>) -> Result<Outcome, VmError> {
    match r {
        Ok(_) => Ok(Outcome::Status(ExecutionStatus::Normal)),
        Err(e) => Err(e),
    }
}

/// The empty machine: no frames, no code, no plugins, an empty heap.
pub open spec fn initial_machine() -> MachineModel {
    MachineModel {
        regs: initial_registers(),
        frames: Seq::empty(),
        heap: crate::storage::StorageModel { items: Seq::empty(), next_id: 0 },
        code: Seq::empty(),
        args: Seq::empty(),
        output: Seq::empty(),
        pending: None,
    }
}

impl VirtualMachine {
    pub fn new() -> (r: VirtualMachine)
        ensures
            r@ == initial_machine(),
            r@.wf(),
    {
        let r = VirtualMachine {
            registers: Registers::default(),
            callstack: Vec::new(),
            code: Vec::new(),
            special_storage: SpecialStorage::new(),
            plugin_argument_stack: Vec::new(),
            output: Vec::new(),
            pending: None,
        };
        assert(r@.frames =~= Seq::empty());
        assert(r@.code =~= Seq::empty());
        assert(r@.output =~= Seq::empty());
        assert(r@.heap.items =~= Seq::empty());
        r
    }

    /// Position of the current frame: the topmost ready one.
    fn get_last_ready_position(&self) -> (r: Option<usize>)
        ensures
            opt_index(r) == last_ready(self@.frames),
            r matches Some(k) ==> k < self@.frames.len(),
    {
        let mut i = self.callstack.len();
        while i > 0
            invariant
                i <= self@.frames.len(),
                ready_below(self@.frames, i as int) == last_ready(self@.frames),
            decreases i,
        {
            if self.callstack[i - 1].ready {
                return Some(i - 1);
            }
            i = i - 1;
        }
        None
    }

    /// Position of the frame charged for new heap items: the top frame if
    /// it is ready, else the one below it.
    fn get_last_ready_index(&self) -> (r: Option<usize>)
        ensures
            opt_index(r) == last_ready_index(self@.frames),
    {
        let n = self.callstack.len();
        if n == 0 {
            None
        } else if n == 1 {
            if self.callstack[0].ready {
                Some(0)
            } else {
                None
            }
        } else if self.callstack[n - 1].ready {
            Some(n - 1)
        } else {
            Some(n - 2)
        }
    }

    fn add_special_item(&mut self, k: usize, data: SpecialItemData) -> (r: Result<u64, VmError>)
        requires
            old(self)@.wf(),
        ensures
            (final(self)@, r) == allocate(old(self)@, k as int, data@),
            final(self)@.wf(),
    {
        if self.callstack.len() <= k {
            return Err(VmError::StateError);
        }
        if self.special_storage.next_id() == u64::MAX {
            return Err(VmError::ResourceError);
        }
        let count = self.callstack[k].num_special_items;
        self.callstack[k].num_special_items = if count == usize::MAX {
            count
        } else {
            count + 1
        };
        let id = self.special_storage.add(data, 0);
        Ok(id)
    }

    fn add_to_current(&mut self, data: SpecialItemData) -> (r: Result<u64, VmError>)
        requires
            old(self)@.wf(),
        ensures
            (final(self)@, r) == allocate_current(old(self)@, data@),
            final(self)@.wf(),
    {
        match self.get_last_ready_index() {
            Some(k) => self.add_special_item(k, data),
            None => Err(VmError::StateError),
        }
    }

    pub fn read_from_id(&self, k: usize, a: usize) -> (r: Result<DynamicValue, VmError>)
        ensures
            r == read_slot(self@, k as int, a),
    {
        if self.callstack.len() <= k {
            return Err(VmError::StateError);
        }
        if self.callstack[k].stack.len() <= a {
            return Err(VmError::ResourceError);
        }
        Ok(self.callstack[k].stack[a])
    }

    fn write_to(&mut self, v: DynamicValue, k: usize, a: usize) -> (r: Result<(), VmError>)
        requires
            old(self)@.wf(),
        ensures
            (final(self)@, r) == write_slot(old(self)@, v, k as int, a),
            final(self)@.wf(),
    {
        if self.callstack.len() <= k {
            return Err(VmError::StateError);
        }
        if self.callstack[k].stack.len() <= a {
            return Err(VmError::ResourceError);
        }
        match value_handle(self.callstack[k].stack[a]) {
            Some(h) => {
                let _ = self.special_storage.decrement_ref(h);
            },
            None => {},
        }
        match value_handle(v) {
            Some(h) => {
                let r = self.special_storage.increment_ref(h);
                if r.is_err() {
                    return Err(VmError::ResourceError);
                }
            },
            None => {},
        }
        self.callstack[k].stack.set(a, v);
        Ok(())
    }

    /// Writes `v` out as text fragments at the end of `out`.
    fn render_into(&self, v: DynamicValue, fuel: u64, out: &mut Vec<Fragment>) -> (r: Result<(), VmError>)
        requires
            self@.wf(),
        ensures
            match render(self@.heap, v, fuel as nat) {
                Ok(p) => r is Ok && view_seq(final(out)@) == view_seq(old(out)@) + p,
                Err(e) => r == Err::<(), VmError>(e),
            },
        decreases fuel, 0nat,
    {
        match v {
            DynamicValue::Integer(i) => {
                out.push(Fragment::Text(integer_text(i)));
            },
            DynamicValue::Number(n) => {
                out.push(Fragment::Number(n));
            },
            DynamicValue::Null => {
                out.push(Fragment::Text("<Null>".to_owned()));
            },
            DynamicValue::Text(h) => match self.special_storage.get_data_ref(h) {
                Some(SpecialItemData::Text(s)) => {
                    out.push(Fragment::Text(s.clone()));
                },
                _ => {
                    return Err(VmError::ResourceError);
                },
            },
            DynamicValue::List(h) => match self.special_storage.get_data_ref(h) {
                Some(SpecialItemData::List(items)) => {
                    if fuel == 0 {
                        return Err(VmError::ResourceError);
                    }
                    out.push(Fragment::Text("[ ".to_owned()));
                    match self.render_items_into(items, fuel - 1, out) {
                        Ok(()) => {},
                        Err(e) => {
                            return Err(e);
                        },
                    }
                    out.push(Fragment::Text(" ]".to_owned()));
                },
                _ => {
                    return Err(VmError::ResourceError);
                },
            },
        }
        Ok(())
    }

    /// Writes out the elements of a list, separated by `, `, texts quoted.
    fn render_items_into(&self, items: &Vec<DynamicValue>, fuel: u64, out: &mut Vec<Fragment>) -> (r: Result<(), VmError>)
        requires
            self@.wf(),
        ensures
            match render_items(self@.heap, items@, fuel as nat) {
                Ok(p) => r is Ok && view_seq(final(out)@) == view_seq(old(out)@) + p,
                Err(e) => r == Err::<(), VmError>(e),
            },
        decreases fuel, items@.len() + 1,
    {
        let mut i: usize = 0;
        assert(items@.take(0) =~= Seq::<DynamicValue>::empty());
        while i < items.len()
            invariant
                self@.wf(),
                i <= items@.len(),
                render_items(self@.heap, items@.take(i as int), fuel as nat) matches Ok(p) && view_seq(
                    out@,
                ) == view_seq(old(out)@) + p,
            decreases items@.len() - i,
        {
            let ghost before = view_seq(out@);
            let ghost prefix = items@.take(i as int);
            let ghost next = items@.take(i + 1);
            assert(next.drop_last() =~= prefix);
            assert(next.last() == items@[i as int]);
            if i > 0 {
                out.push(Fragment::Text(", ".to_owned()));
            }
            let quoted = matches!(items[i], DynamicValue::Text(_));
            if quoted {
                out.push(Fragment::Text("\"".to_owned()));
            }
            match self.render_into(items[i], fuel, out) {
                Ok(()) => {},
                Err(e) => {
                    proof {
                        lemma_render_items_error(self@.heap, items@, fuel as nat, (i + 1) as int);
                        assert(items@.take(items@.len() as int) =~= items@);
                    }
                    return Err(e);
                },
            }
            if quoted {
                out.push(Fragment::Text("\"".to_owned()));
            }
            proof {
                let p = render_items(self@.heap, prefix, fuel as nat)->Ok_0;
                let q = render(self@.heap, items@[i as int], fuel as nat)->Ok_0;
                let sep = if next.len() > 1 { seq![Piece::Text(", "@)] } else { Seq::empty() };
                let qq = if items@[i as int] is Text {
                    seq![Piece::Text("\""@)] + q + seq![Piece::Text("\""@)]
                } else {
                    q
                };
                assert(render_items(self@.heap, next, fuel as nat) == Ok::<Seq<Piece>, VmError>(p + sep + qq));
                assert(view_seq(out@) =~= before + sep + qq);
                assert(view_seq(out@) =~= view_seq(old(out)@) + (p + sep + qq));
            }
            i = i + 1;
        }
        assert(items@.take(items@.len() as int) =~= items@);
        Ok(())
    }

    /// Adds the numeric pairs of comparing `l` with `r` to `pairs` and
    /// returns how the comparison ends if all of them come out equal.
    fn plan_compare(&self, l: DynamicValue, r: DynamicValue, fuel: u64, pairs: &mut Vec<(DynamicValue, DynamicValue)>) -> (res: Result<Comparision, VmError>)
        requires
            self@.wf(),
        ensures
            final(pairs)@ == old(pairs)@ + compare_plan(self@.heap, l, r, fuel as nat).0,
            res == compare_plan(self@.heap, l, r, fuel as nat).1,
        decreases fuel, 0nat,
    {
        match l {
            DynamicValue::Integer(a) => match r {
                DynamicValue::Integer(b) => {
                    assert(pairs@ =~= pairs@ + Seq::<(DynamicValue, DynamicValue)>::empty());
                    if a == b {
                        Ok(Comparision::Equal)
                    } else if a < b {
                        Ok(Comparision::LessThan)
                    } else {
                        Ok(Comparision::MoreThan)
                    }
                },
                DynamicValue::Number(_) => {
                    pairs.push((l, r));
                    assert(pairs@ =~= old(pairs)@ + seq![(l, r)]);
                    Ok(Comparision::Equal)
                },
                _ => {
                    assert(pairs@ =~= pairs@ + Seq::<(DynamicValue, DynamicValue)>::empty());
                    Ok(Comparision::NotEqual)
                },
            },
            DynamicValue::Number(_) => match r {
                DynamicValue::Integer(_) | DynamicValue::Number(_) => {
                    pairs.push((l, r));
                    assert(pairs@ =~= old(pairs)@ + seq![(l, r)]);
                    Ok(Comparision::Equal)
                },
                _ => {
                    assert(pairs@ =~= pairs@ + Seq::<(DynamicValue, DynamicValue)>::empty());
                    Ok(Comparision::NotEqual)
                },
            },
            DynamicValue::Text(a) => {
                assert(pairs@ =~= pairs@ + Seq::<(DynamicValue, DynamicValue)>::empty());
                match r {
                    DynamicValue::Text(b) => {
                        let ls = match self.special_storage.get_data_ref(a) {
                            Some(SpecialItemData::Text(s)) => s,
                            _ => {
                                return Err(VmError::ResourceError);
                            },
                        };
                        let rs = match self.special_storage.get_data_ref(b) {
                            Some(SpecialItemData::Text(s)) => s,
                            _ => {
                                return Err(VmError::ResourceError);
                            },
                        };
                        let llen = ls.as_str().len();
                        let rlen = rs.as_str().len();
                        if llen > rlen {
                            Ok(Comparision::MoreThan)
                        } else if llen < rlen {
                            Ok(Comparision::LessThan)
                        } else if *ls == *rs {
                            Ok(Comparision::Equal)
                        } else {
                            Ok(Comparision::NotEqual)
                        }
                    },
                    _ => Ok(Comparision::NotEqual),
                }
            },
            DynamicValue::List(a) => {
                match r {
                    DynamicValue::List(b) => {
                        let ls = match self.special_storage.get_data_ref(a) {
                            Some(SpecialItemData::List(v)) => v,
                            _ => {
                                assert(pairs@ =~= pairs@ + Seq::<(DynamicValue, DynamicValue)>::empty());
                                return Err(VmError::ResourceError);
                            },
                        };
                        let rs = match self.special_storage.get_data_ref(b) {
                            Some(SpecialItemData::List(v)) => v,
                            _ => {
                                assert(pairs@ =~= pairs@ + Seq::<(DynamicValue, DynamicValue)>::empty());
                                return Err(VmError::ResourceError);
                            },
                        };
                        if ls.len() != rs.len() {
                            assert(pairs@ =~= pairs@ + Seq::<(DynamicValue, DynamicValue)>::empty());
                            Ok(Comparision::NotEqual)
                        } else if fuel == 0 {
                            assert(pairs@ =~= pairs@ + Seq::<(DynamicValue, DynamicValue)>::empty());
                            Err(VmError::ResourceError)
                        } else {
                            self.plan_items(ls, rs, fuel - 1, pairs)
                        }
                    },
                    _ => {
                        assert(pairs@ =~= pairs@ + Seq::<(DynamicValue, DynamicValue)>::empty());
                        Ok(Comparision::NotEqual)
                    },
                }
            },
            DynamicValue::Null => {
                assert(pairs@ =~= pairs@ + Seq::<(DynamicValue, DynamicValue)>::empty());
                match r {
                    DynamicValue::Null => Ok(Comparision::Equal),
                    _ => Ok(Comparision::NotEqual),
                }
            },
        }
    }

    /// The element-wise part of comparing two lists of one length.
    fn plan_items(&self, ls: &Vec<DynamicValue>, rs: &Vec<DynamicValue>, fuel: u64, pairs: &mut Vec<(DynamicValue, DynamicValue)>) -> (res: Result<Comparision, VmError>)
        requires
            self@.wf(),
            ls@.len() == rs@.len(),
        ensures
            final(pairs)@ == old(pairs)@ + compare_items(self@.heap, ls@, rs@, fuel as nat).0,
            res == compare_items(self@.heap, ls@, rs@, fuel as nat).1,
        decreases fuel, ls@.len() + 1,
    {
        let mut i: usize = 0;
        assert(ls@.take(0) =~= Seq::<DynamicValue>::empty());
        assert(pairs@ =~= old(pairs)@ + Seq::<(DynamicValue, DynamicValue)>::empty());
        while i < ls.len()
            invariant
                self@.wf(),
                i <= ls@.len(),
                ls@.len() == rs@.len(),
                pairs@ == old(pairs)@ + compare_items(
                    self@.heap,
                    ls@.take(i as int),
                    rs@.take(i as int),
                    fuel as nat,
                ).0,
                compare_items(self@.heap, ls@.take(i as int), rs@.take(i as int), fuel as nat).1
                    == Ok::<Comparision, VmError>(Comparision::Equal),
            decreases ls@.len() - i,
        {
            assert(ls@.take(i + 1).drop_last() =~= ls@.take(i as int));
            assert(rs@.take(i + 1).drop_last() =~= rs@.take(i as int));
            assert(ls@.take(i + 1).last() == ls@[i as int]);
            assert(rs@.take(i + 1).last() == rs@[i as int]);
            let sub = self.plan_compare(ls[i], rs[i], fuel, pairs);
            proof {
                let p = compare_items(self@.heap, ls@.take(i as int), rs@.take(i as int), fuel as nat).0;
                let q = compare_plan(self@.heap, ls@[i as int], rs@[i as int], fuel as nat).0;
                assert(pairs@ =~= old(pairs)@ + (p + q));
            }
            match sub {
                Ok(Comparision::Equal) => {},
                _ => {
                    proof {
                        lemma_compare_items_stop(self@.heap, ls@, rs@, fuel as nat, (i + 1) as int);
                        assert(ls@.take(ls@.len() as int) =~= ls@);
                        assert(rs@.take(rs@.len() as int) =~= rs@);
                    }
                    return sub;
                },
            }
            i = i + 1;
        }
        assert(ls@.take(ls@.len() as int) =~= ls@);
        assert(rs@.take(rs@.len() as int) =~= rs@);
        Ok(Comparision::Equal)
    }

    /// The result of an arithmetic operator on two numeric operands.
    fn numeric_values(&self, op: ArithOp, l: DynamicValue, r: DynamicValue) -> (res: Result<Evaluated, VmError>)
        requires
            is_numeric(l),
            is_numeric(r),
        ensures
            (self@, evaluated_view(res)) == arith(self@, op, l, r),
    {
        match (l, r) {
            (DynamicValue::Integer(a), DynamicValue::Integer(b)) => {
                let v = match op {
                    ArithOp::Add => a.wrapping_add(b),
                    ArithOp::Sub => a.wrapping_sub(b),
                    ArithOp::Mul => a.wrapping_mul(b),
                    ArithOp::Div => {
                        if b == 0 {
                            return Err(VmError::DomainError);
                        }
                        match a.checked_div(b) {
                            Some(q) => q,
                            None => i64::MIN,
                        }
                    },
                };
                Ok(Evaluated::Value(DynamicValue::Integer(v)))
            },
            _ => Ok(Evaluated::Ask(NumberRequest::Arith(op, l, r))),
        }
    }

    /// `l + r`: numeric addition, or concatenation of two texts or two lists
    /// into a fresh heap item.
    fn add_values(&mut self, l: DynamicValue, r: DynamicValue) -> (res: Result<Evaluated, VmError>)
        requires
            old(self)@.wf(),
        ensures
            (final(self)@, evaluated_view(res)) == arith(old(self)@, ArithOp::Add, l, r),
            final(self)@.wf(),
    {
        if matches!(l, DynamicValue::Null) {
            return Ok(Evaluated::Value(DynamicValue::Null));
        }
        if !is_compatible(l, r) {
            return Err(VmError::TypeError);
        }
        match (l, r) {
            (DynamicValue::Text(a), DynamicValue::Text(b)) => {
                let rs = match self.special_storage.get_data_ref(b) {
                    Some(SpecialItemData::Text(s)) => s.clone(),
                    _ => {
                        return Err(VmError::ResourceError);
                    },
                };
                let ls = match self.special_storage.get_data_ref(a) {
                    Some(SpecialItemData::Text(s)) => s.clone(),
                    _ => {
                        return Err(VmError::ResourceError);
                    },
                };
                let joined = if self.registers.first_operation {
                    ls.concat(rs.as_str())
                } else {
                    rs.concat(ls.as_str())
                };
                self.registers.first_operation = false;
                match self.add_to_current(SpecialItemData::Text(joined)) {
                    Ok(id) => Ok(Evaluated::Value(DynamicValue::Text(id))),
                    Err(e) => Err(e),
                }
            },
            (DynamicValue::List(a), DynamicValue::List(b)) => {
                let mut data: Vec<DynamicValue> = Vec::new();
                match self.special_storage.get_data_ref(a) {
                    Some(SpecialItemData::List(items)) => append_values(&mut data, items),
                    _ => {
                        return Err(VmError::ResourceError);
                    },
                }
                match self.special_storage.get_data_ref(b) {
                    Some(SpecialItemData::List(items)) => append_values(&mut data, items),
                    _ => {
                        return Err(VmError::ResourceError);
                    },
                }
                assert(data@ =~= self@.heap.list(a)->Some_0 + self@.heap.list(b)->Some_0);
                match self.add_to_current(SpecialItemData::List(data)) {
                    Ok(id) => Ok(Evaluated::Value(DynamicValue::List(id))),
                    Err(e) => Err(e),
                }
            },
            _ => self.numeric_values(ArithOp::Add, l, r),
        }
    }

    /// `l - r`, defined on numeric operands only.
    fn sub_values(&self, l: DynamicValue, r: DynamicValue) -> (res: Result<Evaluated, VmError>)
        ensures
            (self@, evaluated_view(res)) == arith(self@, ArithOp::Sub, l, r),
    {
        self.other_values(ArithOp::Sub, l, r)
    }

    /// `l * r`, defined on numeric operands only.
    fn mul_values(&self, l: DynamicValue, r: DynamicValue) -> (res: Result<Evaluated, VmError>)
        ensures
            (self@, evaluated_view(res)) == arith(self@, ArithOp::Mul, l, r),
    {
        self.other_values(ArithOp::Mul, l, r)
    }

    /// `l / r`, defined on numeric operands only; an integer division by
    /// zero fails.
    fn div_values(&self, l: DynamicValue, r: DynamicValue) -> (res: Result<Evaluated, VmError>)
        ensures
            (self@, evaluated_view(res)) == arith(self@, ArithOp::Div, l, r),
    {
        self.other_values(ArithOp::Div, l, r)
    }

    fn other_values(&self, op: ArithOp, l: DynamicValue, r: DynamicValue) -> (res: Result<Evaluated, VmError>)
        requires
            op != ArithOp::Add,
        ensures
            (self@, evaluated_view(res)) == arith(self@, op, l, r),
    {
        if matches!(l, DynamicValue::Null) {
            return Ok(Evaluated::Value(DynamicValue::Null));
        }
        if !is_compatible(l, r) {
            return Err(VmError::TypeError);
        }
        match l {
            DynamicValue::Text(_) | DynamicValue::List(_) => Err(VmError::TypeError),
            _ => self.numeric_values(op, l, r),
        }
    }

    fn apply_arith(&mut self, op: ArithOp, l: DynamicValue, r: DynamicValue) -> (res: Result<Evaluated, VmError>)
        requires
            old(self)@.wf(),
        ensures
            (final(self)@, evaluated_view(res)) == arith(old(self)@, op, l, r),
            final(self)@.wf(),
    {
        match op {
            ArithOp::Add => self.add_values(l, r),
            ArithOp::Sub => self.sub_values(l, r),
            ArithOp::Mul => self.mul_values(l, r),
            ArithOp::Div => self.div_values(l, r),
        }
    }

    fn arith_run(&mut self, op: ArithOp) -> (r: Result<Step, VmError>)
        requires
            old(self)@.wf(),
        ensures
            (final(self)@, step_view(r)) == arith_step(old(self)@, op),
            final(self)@.wf(),
    {
        let l = self.registers.math_a;
        let rv = self.registers.math_b;
        match self.apply_arith(op, l, rv) {
            Ok(Evaluated::Value(v)) => {
                self.registers.math_b = v;
                Ok(Step::Done(ExecutionStatus::Normal))
            },
            Ok(Evaluated::Ask(q)) => {
                self.pending = Some(Pending::MathB);
                Ok(Step::Number(q))
            },
            Err(e) => Err(e),
        }
    }

    fn set_last_comparision(&mut self, c: Comparision) -> (r: Result<(), VmError>)
        requires
            old(self)@.wf(),
        ensures
            (final(self)@, unit_view(r)) == set_last(old(self)@, c),
            final(self)@.wf(),
    {
        let n = self.callstack.len();
        if n == 0 {
            return Err(VmError::StateError);
        }
        self.callstack[n - 1].last_comparision = Some(c);
        Ok(())
    }

    fn compare_run(&mut self) -> (r: Result<Step, VmError>)
        requires
            old(self)@.wf(),
        ensures
            (final(self)@, step_view(r)) == compare_step(old(self)@),
            final(self)@.wf(),
    {
        let l = self.registers.math_a;
        let rv = self.registers.math_b;
        let mut pairs: Vec<(DynamicValue, DynamicValue)> = Vec::new();
        let ending = self.plan_compare(l, rv, NESTING_LIMIT, &mut pairs);
        assert(pairs@ =~= compare_plan(self@.heap, l, rv, NESTING_LIMIT as nat).0);
        let lists = matches!(l, DynamicValue::List(_)) && matches!(rv, DynamicValue::List(_));
        if pairs.len() == 0 {
            let none: Vec<Comparision> = Vec::new();
            match settle_answers(&none, lists, ending) {
                Ok(c) => match self.set_last_comparision(c) {
                    Ok(()) => Ok(Step::Done(ExecutionStatus::Normal)),
                    Err(e) => Err(e),
                },
                Err(e) => Err(e),
            }
        } else {
            self.pending = Some(Pending::Comparison(lists, ending, pairs.len()));
            Ok(Step::Number(NumberRequest::Compare(pairs)))
        }
    }

    /// Adds one to the skip level of the current frame.
    fn increase_skip_level(&mut self) -> (r: Result<(), VmError>)
        requires
            old(self)@.wf(),
        ensures
            (final(self)@, unit_view(r)) == skip_more(old(self)@),
            final(self)@.wf(),
    {
        match self.get_last_ready_position() {
            None => Err(VmError::StateError),
            Some(k) => {
                if self.callstack[k].skip_level == u32::MAX {
                    return Err(VmError::ResourceError);
                }
                self.callstack[k].skip_level = self.callstack[k].skip_level + 1;
                Ok(())
            },
        }
    }

    /// The skip level of the current frame, 0 without one.
    pub fn get_current_skip_level(&self) -> (r: u32)
        ensures
            r == current_skip(self@),
    {
        match self.get_last_ready_position() {
            Some(k) => self.callstack[k].skip_level,
            None => 0,
        }
    }

    /// The fragments `PrintMathBDebug` writes for `v`.
    fn debug_fragments(&self, v: DynamicValue) -> (r: Result<Vec<Fragment>, VmError>)
        requires
            self@.wf(),
        ensures
            match debug_pieces(self@.heap, v) {
                Ok(p) => r matches Ok(f) && view_seq(f@) == p,
                Err(e) => r == Err::<Vec<Fragment>, VmError>(e),
            },
    {
        let mut out: Vec<Fragment> = Vec::new();
        match v {
            DynamicValue::Integer(i) => {
                out.push(Fragment::Text("(Integer) ".to_owned()));
                out.push(Fragment::Text(integer_text(i)));
                out.push(Fragment::Text("\n".to_owned()));
            },
            DynamicValue::Number(n) => {
                out.push(Fragment::Text("(Number) ".to_owned()));
                out.push(Fragment::Number(n));
                out.push(Fragment::Text("\n".to_owned()));
            },
            DynamicValue::Text(h) => match self.special_storage.get_data_ref(h) {
                Some(SpecialItemData::Text(s)) => {
                    out.push(Fragment::Text("(Text) \"".to_owned()));
                    out.push(Fragment::Text(s.clone()));
                    out.push(Fragment::Text("\"\n".to_owned()));
                },
                _ => {
                    return Err(VmError::ResourceError);
                },
            },
            DynamicValue::Null => {
                out.push(Fragment::Text("<Null>\n".to_owned()));
            },
            DynamicValue::List(_) => {
                match self.render_into(v, NESTING_LIMIT, &mut out) {
                    Ok(()) => {},
                    Err(e) => {
                        return Err(e);
                    },
                }
                out.push(Fragment::Text("\n".to_owned()));
            },
        }
        proof {
            if debug_pieces(self@.heap, v) is Ok {
                assert(view_seq(out@) =~= debug_pieces(self@.heap, v)->Ok_0);
            }
        }
        Ok(out)
    }

    /// The fragments `PrintMathB` writes for `v`.
    fn print_fragments(&self, v: DynamicValue) -> (r: Result<Vec<Fragment>, VmError>)
        requires
            self@.wf(),
        ensures
            match print_pieces(self@.heap, v) {
                Ok(p) => r matches Ok(f) && view_seq(f@) == p,
                Err(e) => r == Err::<Vec<Fragment>, VmError>(e),
            },
    {
        let mut out: Vec<Fragment> = Vec::new();
        if matches!(v, DynamicValue::List(_)) {
            out.push(Fragment::Text("(Lista) ".to_owned()));
        }
        match self.render_into(v, NESTING_LIMIT, &mut out) {
            Ok(()) => {},
            Err(e) => {
                return Err(e);
            },
        }
        proof {
            if print_pieces(self@.heap, v) is Ok {
                assert(view_seq(out@) =~= print_pieces(self@.heap, v)->Ok_0);
            }
        }
        Ok(out)
    }

    /// Appends fragments to the pending output.
    fn emit(&mut self, mut frags: Vec<Fragment>)
        ensures
            final(self)@ == old(self)@.emit(view_seq(frags@)),
    {
        self.output.append(&mut frags);
    }

    fn return_run(&mut self) -> (r: Result<Step, VmError>)
        requires
            old(self)@.wf(),
        ensures
            (final(self)@, step_view(r)) == return_step(old(self)@),
            final(self)@.wf(),
    {
        let n = self.callstack.len();
        if n == 1 {
            self.registers.has_quit = true;
            return Ok(Step::Done(ExecutionStatus::Quit));
        }
        if n == 0 {
            return Err(VmError::StateError);
        }
        let ghost before = self.callstack@;
        let _ = self.callstack.pop();
        assert(self.callstack@ =~= before.drop_last());
        assert(self@ == MachineModel { frames: old(self)@.frames.drop_last(), ..old(self)@ });
        let val = self.registers.math_b;
        match self.write_to(val, n - 2, 0) {
            Ok(()) => {},
            Err(e) => {
                return Err(e);
            },
        }
        if self.callstack.len() == 1 && self.registers.is_interactive {
            match self.debug_fragments(val) {
                Ok(f) => self.emit(f),
                Err(e) => {
                    return Err(e);
                },
            }
        }
        Ok(Step::Done(ExecutionStatus::Returned))
    }

    fn execute_if_run(&mut self, req: crate::value::ComparisionRequest) -> (r: Result<Step, VmError>)
        requires
            old(self)@.wf(),
        ensures
            (final(self)@, step_view(r)) == execute_if_step(old(self)@, req),
            final(self)@.wf(),
    {
        let n = self.callstack.len();
        if n == 0 {
            return Err(VmError::StateError);
        }
        let last = match self.callstack[n - 1].last_comparision {
            Some(c) => c,
            None => {
                return Err(VmError::StateError);
            },
        };
        if comparision_matches(req, last) {
            Ok(Step::Done(ExecutionStatus::Normal))
        } else {
            match self.increase_skip_level() {
                Ok(()) => Ok(Step::Done(ExecutionStatus::Normal)),
                Err(e) => Err(e),
            }
        }
    }

    fn restore_run(&mut self) -> (r: Result<Step, VmError>)
        requires
            old(self)@.wf(),
        ensures
            (final(self)@, step_view(r)) == restore_step(old(self)@),
            final(self)@.wf(),
    {
        let k = match self.get_last_ready_position() {
            Some(k) => k,
            None => {
                return Err(VmError::StateError);
            },
        };
        let nl = self.callstack[k].label_stack.len();
        if nl == 0 {
            return Err(VmError::StateError);
        }
        let label = self.callstack[k].label_stack[nl - 1];
        self.callstack[k].program_counter = label.start_pc;
        match label.index_address {
            None => Ok(Step::Done(ExecutionStatus::Normal)),
            Some(a) => {
                let j = match self.get_last_ready_index() {
                    Some(j) => j,
                    None => {
                        return Err(VmError::StateError);
                    },
                };
                let cur = match self.read_from_id(j, a) {
                    Ok(v) => v,
                    Err(e) => {
                        return Err(e);
                    },
                };
                match self.add_values(cur, label.stepping) {
                    Err(e) => Err(e),
                    Ok(Evaluated::Value(v)) => match self.write_to(v, j, a) {
                        Ok(()) => Ok(Step::Done(ExecutionStatus::Normal)),
                        Err(e) => Err(e),
                    },
                    Ok(Evaluated::Ask(q)) => {
                        self.pending = Some(Pending::Slot(j, a));
                        Ok(Step::Number(q))
                    },
                }
            },
        }
    }

    fn label_run(&mut self, inst: Instruction) -> (r: Result<Step, VmError>)
        requires
            old(self)@.wf(),
        ensures
            (final(self)@, step_view(r)) == label_step(old(self)@, inst),
            final(self)@.wf(),
    {
        let k = match self.get_last_ready_position() {
            Some(k) => k,
            None => {
                return Err(VmError::StateError);
            },
        };
        match inst {
            Instruction::AddLoopLabel => {
                let pc = self.callstack[k].program_counter;
                self.callstack[k].label_stack.push(LoopLabel::new(pc));
            },
            Instruction::PopLoopLabel => {
                if self.callstack[k].label_stack.len() == 0 {
                    return Err(VmError::StateError);
                }
                let _ = self.callstack[k].label_stack.pop();
            },
            Instruction::RegisterIncrementOnRestore(a) => {
                let nl = self.callstack[k].label_stack.len();
                if nl == 0 {
                    return Err(VmError::StateError);
                }
                let l = self.callstack[k].label_stack[nl - 1];
                if l.start_pc == usize::MAX {
                    return Err(VmError::ResourceError);
                }
                let stepped = LoopLabel {
                    start_pc: l.start_pc + 1,
                    index_address: Some(a),
                    stepping: self.registers.math_b,
                };
                self.callstack[k].label_stack.set(nl - 1, stepped);
            },
            _ => {},
        }
        Ok(Step::Done(ExecutionStatus::Normal))
    }


    fn list_run(&mut self, inst: Instruction) -> (r: Result<Step, VmError>)
        requires
            old(self)@.wf(),
        ensures
            (final(self)@, step_view(r)) == list_step(old(self)@, inst),
            final(self)@.wf(),
    {
        match inst {
            Instruction::MakeNewList => {
                let empty: Vec<DynamicValue> = Vec::new();
                assert(empty@ =~= Seq::<DynamicValue>::empty());
                match self.add_to_current(SpecialItemData::List(empty)) {
                    Ok(id) => {
                        self.registers.math_b = DynamicValue::List(id);
                    },
                    Err(e) => {
                        return Err(e);
                    },
                }
            },
            Instruction::IndexList => {
                let i = match self.registers.math_b {
                    DynamicValue::Integer(i) => i,
                    _ => {
                        return Err(VmError::TypeError);
                    },
                };
                let h = match self.registers.intermediate {
                    DynamicValue::List(h) => h,
                    _ => {
                        return Err(VmError::TypeError);
                    },
                };
                let v = match self.special_storage.get_data_ref(h) {
                    Some(SpecialItemData::List(items)) => match position_in(i, items.len()) {
                        Some(k) => items[k],
                        None => {
                            return Err(VmError::DomainError);
                        },
                    },
                    _ => {
                        return Err(VmError::ResourceError);
                    },
                };
                self.registers.math_b = v;
            },
            Instruction::AddToListAtIndex => {
                let index = self.registers.secondary;
                let value = self.registers.math_b;
                let h = match self.registers.intermediate {
                    DynamicValue::List(h) => h,
                    _ => {
                        return Err(VmError::TypeError);
                    },
                };
                let ghost pre = self@;
                match self.special_storage.list_mut(h) {
                    Some(list) => match index {
                        DynamicValue::Integer(i) => {
                            match position_in(i, list.len()) {
                                Some(k) => list.insert(k, value),
                                None => list.push(value),
                            }
                        },
                        _ => list.push(value),
                    },
                    None => {
                        return Err(VmError::ResourceError);
                    },
                }
                assert(self@.heap == pre.heap.with_data(
                    h,
                    ItemValue::List(insert_at(pre.heap.list(h)->Some_0, index, value)),
                ));
            },
            Instruction::RemoveFromListAtIndex => {
                let i = match self.registers.math_b {
                    DynamicValue::Integer(i) => i,
                    _ => {
                        return Err(VmError::TypeError);
                    },
                };
                let h = match self.registers.intermediate {
                    DynamicValue::List(h) => h,
                    _ => {
                        return Err(VmError::TypeError);
                    },
                };
                let ghost pre = self@;
                let n = match self.special_storage.get_data_ref(h) {
                    Some(SpecialItemData::List(items)) => items.len(),
                    _ => {
                        return Err(VmError::ResourceError);
                    },
                };
                let k = match position_in(i, n) {
                    Some(k) => k,
                    None => {
                        return Err(VmError::DomainError);
                    },
                };
                match self.special_storage.list_mut(h) {
                    Some(list) => {
                        let _ = list.remove(k);
                    },
                    None => {
                        return Err(VmError::ResourceError);
                    },
                }
                assert(self@.heap == pre.heap.with_data(
                    h,
                    ItemValue::List(pre.heap.list(h)->Some_0.remove(i as int)),
                ));
            },
            Instruction::QueryListSize => {
                let h = match self.registers.intermediate {
                    DynamicValue::List(h) => h,
                    _ => {
                        return Err(VmError::TypeError);
                    },
                };
                let n = match self.special_storage.get_data_ref(h) {
                    Some(SpecialItemData::List(items)) => items.len(),
                    _ => {
                        return Err(VmError::ResourceError);
                    },
                };
                self.registers.math_b = DynamicValue::Integer(n as i64);
            },
            _ => {},
        }
        Ok(Step::Done(ExecutionStatus::Normal))
    }

    fn var_run(&mut self, inst: Instruction) -> (r: Result<Step, VmError>)
        requires
            old(self)@.wf(),
        ensures
            (final(self)@, step_view(r)) == var_step(old(self)@, inst),
            final(self)@.wf(),
    {
        let written = match inst {
            Instruction::ReadGlobalVarFrom(a) => {
                match self.read_from_id(0, a) {
                    Ok(v) => {
                        self.registers.intermediate = v;
                    },
                    Err(e) => {
                        return Err(e);
                    },
                }
                Ok(())
            },
            Instruction::WriteGlobalVarTo(a) => {
                let v = self.registers.math_b;
                self.write_to(v, 0, a)
            },
            Instruction::ReadVarFrom(a) => {
                let k = match self.get_last_ready_index() {
                    Some(k) => k,
                    None => {
                        return Err(VmError::StateError);
                    },
                };
                match self.read_from_id(k, a) {
                    Ok(v) => {
                        self.registers.intermediate = v;
                    },
                    Err(e) => {
                        return Err(e);
                    },
                }
                Ok(())
            },
            Instruction::WriteVarTo(a) => {
                let k = match self.get_last_ready_index() {
                    Some(k) => k,
                    None => {
                        return Err(VmError::StateError);
                    },
                };
                let v = self.registers.math_b;
                self.write_to(v, k, a)
            },
            Instruction::WriteVarToLast(a) => {
                let n = self.callstack.len();
                if n == 0 {
                    return Err(VmError::StateError);
                }
                let v = self.registers.math_b;
                self.write_to(v, n - 1, a)
            },
            Instruction::TryDecrementRefAt(a) => {
                let k = match self.get_last_ready_index() {
                    Some(k) => k,
                    None => {
                        return Err(VmError::StateError);
                    },
                };
                match self.read_from_id(k, a) {
                    Ok(v) => match value_handle(v) {
                        Some(h) => {
                            let _ = self.special_storage.decrement_ref(h);
                        },
                        None => {},
                    },
                    Err(e) => {
                        return Err(e);
                    },
                }
                Ok(())
            },
            _ => Ok(()),
        };
        match written {
            Ok(()) => Ok(Step::Done(ExecutionStatus::Normal)),
            Err(e) => Err(e),
        }
    }

    fn convert_run(&mut self, inst: Instruction) -> (r: Result<Step, VmError>)
        requires
            old(self)@.wf(),
        ensures
            (final(self)@, step_view(r)) == convert_step(old(self)@, inst),
            final(self)@.wf(),
    {
        let v = self.registers.math_b;
        match inst {
            Instruction::ConvertToInt => match v {
                DynamicValue::Text(h) => {
                    let parsed = match self.special_storage.get_data_ref(h) {
                        Some(SpecialItemData::Text(s)) => parse_integer(s.as_str()),
                        _ => {
                            return Err(VmError::ResourceError);
                        },
                    };
                    match parsed {
                        Some(i) => {
                            self.registers.math_b = DynamicValue::Integer(i);
                        },
                        None => {
                            return Err(VmError::TypeError);
                        },
                    }
                },
                DynamicValue::Number(n) => {
                    self.pending = Some(Pending::MathB);
                    return Ok(Step::Number(NumberRequest::ToInteger(n)));
                },
                DynamicValue::Integer(_) => {},
                _ => {
                    return Err(VmError::TypeError);
                },
            },
            Instruction::ConvertToNum => match v {
                DynamicValue::Text(h) => {
                    let text = match self.special_storage.get_data_ref(h) {
                        Some(SpecialItemData::Text(s)) => s.clone(),
                        _ => {
                            return Err(VmError::ResourceError);
                        },
                    };
                    self.pending = Some(Pending::MathB);
                    return Ok(Step::Number(NumberRequest::Parse(text)));
                },
                DynamicValue::Integer(i) => {
                    self.pending = Some(Pending::MathB);
                    return Ok(Step::Number(NumberRequest::FromInteger(i)));
                },
                DynamicValue::Number(_) => {},
                _ => {
                    return Err(VmError::TypeError);
                },
            },
            Instruction::ConvertToString => match v {
                DynamicValue::Text(_) => {},
                _ => {
                    let mut frags: Vec<Fragment> = Vec::new();
                    match self.render_into(v, NESTING_LIMIT, &mut frags) {
                        Ok(()) => {},
                        Err(e) => {
                            return Err(e);
                        },
                    }
                    assert(view_seq(frags@) =~= render(self@.heap, v, NESTING_LIMIT as nat)->Ok_0);
                    match join_fragments(&frags) {
                        Some(s) => match self.add_to_current(SpecialItemData::Text(s)) {
                            Ok(id) => {
                                self.registers.math_b = DynamicValue::Text(id);
                            },
                            Err(e) => {
                                return Err(e);
                            },
                        },
                        None => {
                            self.pending = Some(Pending::NewText);
                            return Ok(Step::Number(NumberRequest::Render(frags)));
                        },
                    }
                },
            },
            _ => {},
        }
        Ok(Step::Done(ExecutionStatus::Normal))
    }

    /// The value a literal becomes; a text is allocated on the heap.
    fn raw_to_dynamic(&mut self, raw: RawValue) -> (r: Result<DynamicValue, VmError>)
        requires
            old(self)@.wf(),
        ensures
            (final(self)@, r) == raw_value(old(self)@, raw),
            final(self)@.wf(),
    {
        match raw {
            RawValue::Text(t) => {
                let k = match self.get_last_ready_index() {
                    Some(k) => k,
                    None => 0,
                };
                match self.add_special_item(k, SpecialItemData::Text(t)) {
                    Ok(id) => Ok(DynamicValue::Text(id)),
                    Err(e) => Err(e),
                }
            },
            RawValue::Number(n) => Ok(DynamicValue::Number(n)),
            RawValue::Integer(i) => Ok(DynamicValue::Integer(i)),
            RawValue::Null => Ok(DynamicValue::Null),
        }
    }

    fn register_run(&mut self, inst: Instruction) -> (r: Result<Step, VmError>)
        requires
            old(self)@.wf(),
        ensures
            (final(self)@, step_view(r)) == register_step(old(self)@, inst),
            final(self)@.wf(),
    {
        match inst {
            Instruction::PushIntermediateToA => {
                self.registers.math_a = self.registers.intermediate;
            },
            Instruction::PushIntermediateToB => {
                self.registers.math_b = self.registers.intermediate;
            },
            Instruction::PushMathBToSeconday => {
                self.registers.secondary = self.registers.math_b;
            },
            Instruction::ClearSecondary => {
                self.registers.secondary = DynamicValue::Null;
            },
            Instruction::SwapMath => {
                let tmp = self.registers.math_b;
                self.registers.math_b = self.registers.math_a;
                self.registers.math_a = tmp;
            },
            Instruction::ClearMath => {
                self.registers.math_a = DynamicValue::Null;
                self.registers.math_b = DynamicValue::Null;
                self.registers.intermediate = DynamicValue::Null;
            },
            Instruction::SetFirstExpressionOperation => {
                self.registers.first_operation = true;
            },
            Instruction::PushMathBPluginArgument => {
                let v = self.registers.math_b;
                self.plugin_argument_stack.push(v);
            },
            Instruction::PushValMathA(raw) => match self.raw_to_dynamic(raw) {
                Ok(v) => {
                    self.registers.math_a = v;
                },
                Err(e) => {
                    return Err(e);
                },
            },
            Instruction::PushValMathB(raw) => match self.raw_to_dynamic(raw) {
                Ok(v) => {
                    self.registers.math_b = v;
                },
                Err(e) => {
                    return Err(e);
                },
            },
            Instruction::AssertMathBCompatible(kind) => {
                if !check_kind(kind, self.registers.math_b) {
                    return Err(VmError::TypeError);
                }
            },
            _ => {},
        }
        Ok(Step::Done(ExecutionStatus::Normal))
    }


    fn control_run(&mut self, inst: Instruction) -> (r: Result<Step, VmError>)
        requires
            old(self)@.wf(),
        ensures
            (final(self)@, step_view(r)) == control_step(old(self)@, inst),
            final(self)@.wf(),
    {
        match inst {
            Instruction::Quit => {
                self.registers.has_quit = true;
                Ok(Step::Done(ExecutionStatus::Quit))
            },
            Instruction::Halt => Ok(Step::Done(ExecutionStatus::Halt)),
            Instruction::Return => self.return_run(),
            Instruction::ExecuteIf(req) => self.execute_if_run(req),
            Instruction::IncreaseSkippingLevel => match self.increase_skip_level() {
                Ok(()) => Ok(Step::Done(ExecutionStatus::Normal)),
                Err(e) => Err(e),
            },
            Instruction::MakeNewFrame(id) => {
                let frame = FunctionFrame::new(id, self.registers.default_stack_size);
                self.callstack.push(frame);
                Ok(Step::Done(ExecutionStatus::Normal))
            },
            Instruction::SetLastFrameReady => {
                let n = self.callstack.len();
                if n == 0 {
                    return Err(VmError::StateError);
                }
                self.callstack[n - 1].ready = true;
                Ok(Step::Done(ExecutionStatus::Normal))
            },
            Instruction::CallPlugin(address, n) => {
                if address >= self.registers.next_plugin_index {
                    return Err(VmError::ResourceError);
                }
                if n > self.plugin_argument_stack.len() {
                    return Err(VmError::StateError);
                }
                let ghost all = self.plugin_argument_stack@;
                let mut args: Vec<DynamicValue> = Vec::new();
                let mut k: usize = 0;
                while k < n
                    invariant
                        k <= n,
                        n <= all.len(),
                        self.plugin_argument_stack@ == all.take(all.len() - k),
                        args@ == popped_args(all, k as int),
                        self@.wf(),
                        self.registers == old(self).registers,
                        self.callstack == old(self).callstack,
                        self.code == old(self).code,
                        self.special_storage == old(self).special_storage,
                        self.output == old(self).output,
                        self.pending == old(self).pending,
                    decreases n - k,
                {
                    match self.plugin_argument_stack.pop() {
                        Some(v) => args.push(v),
                        None => {},
                    }
                    k = k + 1;
                    assert(self.plugin_argument_stack@ =~= all.take(all.len() - k));
                    assert(args@ =~= popped_args(all, k as int));
                }
                self.pending = Some(Pending::Plugin);
                Ok(Step::CallPlugin(address, args))
            },
            Instruction::ReadInput => {
                self.pending = Some(Pending::Input);
                Ok(Step::ReadInput)
            },
            Instruction::PrintMathB => match self.print_fragments(self.registers.math_b) {
                Ok(f) => {
                    self.emit(f);
                    Ok(Step::Done(ExecutionStatus::Normal))
                },
                Err(e) => Err(e),
            },
            Instruction::PrintMathBDebug => match self.debug_fragments(self.registers.math_b) {
                Ok(f) => {
                    self.emit(f);
                    Ok(Step::Done(ExecutionStatus::Normal))
                },
                Err(e) => Err(e),
            },
            Instruction::PrintNewLine => {
                let mut f: Vec<Fragment> = Vec::new();
                f.push(Fragment::Text("\n".to_owned()));
                assert(view_seq(f@) =~= seq![Piece::Text("\n"@)]);
                self.emit(f);
                Ok(Step::Done(ExecutionStatus::Normal))
            },
            _ => Ok(Step::Done(ExecutionStatus::Normal)),
        }
    }

    fn dispatch_run(&mut self, inst: Instruction) -> (r: Result<Step, VmError>)
        requires
            old(self)@.wf(),
        ensures
            (final(self)@, step_view(r)) == dispatch(old(self)@, inst),
            final(self)@.wf(),
    {
        match inst {
            Instruction::Add => self.arith_run(ArithOp::Add),
            Instruction::Sub => self.arith_run(ArithOp::Sub),
            Instruction::Mul => self.arith_run(ArithOp::Mul),
            Instruction::Div => self.arith_run(ArithOp::Div),
            Instruction::Compare => self.compare_run(),
            Instruction::RestoreLoopLabel => self.restore_run(),
            Instruction::AddLoopLabel | Instruction::PopLoopLabel
            | Instruction::RegisterIncrementOnRestore(_) => self.label_run(inst),
            Instruction::MakeNewList | Instruction::IndexList | Instruction::AddToListAtIndex
            | Instruction::RemoveFromListAtIndex | Instruction::QueryListSize => self.list_run(inst),
            Instruction::ReadGlobalVarFrom(_) | Instruction::WriteGlobalVarTo(_)
            | Instruction::ReadVarFrom(_) | Instruction::WriteVarTo(_)
            | Instruction::WriteVarToLast(_) | Instruction::TryDecrementRefAt(_) => self.var_run(inst),
            Instruction::ConvertToInt | Instruction::ConvertToNum | Instruction::ConvertToString => self.convert_run(inst),
            Instruction::Quit | Instruction::Halt | Instruction::Return | Instruction::ExecuteIf(_)
            | Instruction::IncreaseSkippingLevel | Instruction::MakeNewFrame(_)
            | Instruction::SetLastFrameReady | Instruction::CallPlugin(_, _)
            | Instruction::ReadInput | Instruction::PrintMathB | Instruction::PrintMathBDebug
            | Instruction::PrintNewLine => self.control_run(inst),
            _ => self.register_run(inst),
        }
    }

    /// Executes one instruction in the current frame.
    ///
    /// While the current frame skips, only `ExecuteIf` (one level deeper)
    /// and `EndConditionalBlock` (one level up) take effect. A step that needs
    /// number arithmetic, a line of input or a plugin call leaves a request
    /// outstanding; nothing else runs until `resume` answers it.
    pub fn run(&mut self, inst: Instruction) -> (r: Result<Step, VmError>)
        requires
            old(self)@.wf(),
        ensures
            (final(self)@, step_view(r)) == step(old(self)@, inst),
            final(self)@.wf(),
    {
        if self.pending.is_some() {
            return Err(VmError::StateError);
        }
        if self.get_current_skip_level() > 0 {
            let k = match self.get_last_ready_position() {
                Some(k) => k,
                None => {
                    return Err(VmError::StateError);
                },
            };
            match inst {
                Instruction::EndConditionalBlock => {
                    self.callstack[k].skip_level = self.callstack[k].skip_level - 1;
                },
                Instruction::ExecuteIf(_) => {
                    return match self.increase_skip_level() {
                        Ok(()) => Ok(Step::Done(ExecutionStatus::Normal)),
                        Err(e) => Err(e),
                    };
                },
                _ => {},
            }
            return Ok(Step::Done(ExecutionStatus::Normal));
        }
        self.dispatch_run(inst)
    }

    /// Answers the outstanding request with the embedder's result.
    pub fn resume(&mut self, reply: Reply) -> (r: Result<ExecutionStatus, VmError>)
        requires
            old(self)@.wf(),
        ensures
            (final(self)@, status_view(r)) == resume(old(self)@, reply@),
            final(self)@.wf(),
    {
        let p = match self.pending {
            Some(p) => p,
            None => {
                return Err(VmError::StateError);
            },
        };
        self.pending = None;
        let done = match p {
            Pending::MathB => self.answer_math_b(reply),
            Pending::Slot(k, a) => match reply {
                Reply::Number(n) => self.write_to(DynamicValue::Number(n), k, a),
                _ => Err(VmError::StateError),
            },
            Pending::Comparison(lists, ending, count) => match reply {
                Reply::Comparisons(v) => {
                    if v.len() != count {
                        Err(VmError::StateError)
                    } else {
                        match settle_answers(&v, lists, ending) {
                            Ok(c) => self.set_last_comparision(c),
                            Err(e) => Err(e),
                        }
                    }
                },
                _ => Err(VmError::StateError),
            },
            Pending::NewText => match reply {
                Reply::Text(s) => match self.add_to_current(SpecialItemData::Text(s)) {
                    Ok(id) => {
                        self.registers.math_b = DynamicValue::Text(id);
                        Ok(())
                    },
                    Err(e) => Err(e),
                },
                _ => Err(VmError::StateError),
            },
            Pending::Input => self.answer_input(reply),
            Pending::Plugin => self.answer_plugin(reply),
        };
        match done {
            Ok(()) => Ok(ExecutionStatus::Normal),
            Err(e) => Err(e),
        }
    }

    fn answer_math_b(&mut self, reply: Reply) -> (r: Result<(), VmError>)
        requires
            old(self)@.wf(),
        ensures
            (final(self)@, unit_view(r)) == answer_math_b(old(self)@, reply@),
            final(self)@.wf(),
    {
        match reply {
            Reply::Number(n) => {
                self.registers.math_b = DynamicValue::Number(n);
                Ok(())
            },
            Reply::Integer(i) => {
                self.registers.math_b = DynamicValue::Integer(i);
                Ok(())
            },
            Reply::Parsed(Some(n)) => {
                self.registers.math_b = DynamicValue::Number(n);
                Ok(())
            },
            Reply::Parsed(None) => Err(VmError::TypeError),
            _ => Err(VmError::StateError),
        }
    }

    fn answer_input(&mut self, reply: Reply) -> (r: Result<(), VmError>)
        requires
            old(self)@.wf(),
        ensures
            (final(self)@, unit_view(r)) == answer_input(old(self)@, reply@),
            final(self)@.wf(),
    {
        match reply {
            Reply::Input(line) => match self.get_last_ready_index() {
                None => Err(VmError::StateError),
                Some(k) => match line {
                    None => Ok(()),
                    Some(s) => match self.add_special_item(k, SpecialItemData::Text(s)) {
                        Ok(id) => {
                            self.registers.intermediate = DynamicValue::Text(id);
                            Ok(())
                        },
                        Err(e) => Err(e),
                    },
                },
            },
            _ => Err(VmError::StateError),
        }
    }

    fn answer_plugin(&mut self, reply: Reply) -> (r: Result<(), VmError>)
        requires
            old(self)@.wf(),
        ensures
            (final(self)@, unit_view(r)) == answer_plugin(old(self)@, reply@),
            final(self)@.wf(),
    {
        match reply {
            Reply::Plugin(None) => Ok(()),
            Reply::Plugin(Some(v)) => {
                let n = self.callstack.len();
                if n == 0 {
                    return Err(VmError::StateError);
                }
                match self.write_to(v, n - 1, 0) {
                    Err(e) => Err(e),
                    Ok(()) => {
                        if self.registers.is_interactive && self.callstack.len() == 1 {
                            match self.debug_fragments(v) {
                                Ok(f) => {
                                    self.emit(f);
                                    Ok(())
                                },
                                Err(e) => {
                                    self.registers.math_b = v;
                                    Err(e)
                                },
                            }
                        } else {
                            Ok(())
                        }
                    },
                }
            },
            _ => Err(VmError::StateError),
        }
    }

    /// Runs the next instruction of the current function.
    pub fn execute_next_instruction(&mut self) -> (r: Result<Step, VmError>)
        requires
            old(self)@.wf(),
        ensures
            (final(self)@, step_view(r)) == execute_next(old(self)@),
            final(self)@.wf(),
    {
        if self.pending.is_some() || self.callstack.len() == 0 {
            return Err(VmError::StateError);
        }
        let k = match self.get_last_ready_position() {
            Some(k) => k,
            None => {
                return Err(VmError::StateError);
            },
        };
        let id = self.callstack[k].id;
        let pc = self.callstack[k].program_counter;
        if id >= self.code.len() || pc >= self.code[id].len() {
            return Err(VmError::ResourceError);
        }
        let inst = self.code[id][pc].duplicate();
        self.callstack[k].program_counter = pc + 1;
        self.run(inst)
    }

    pub fn set_interactive_mode(&mut self)
        ensures
            final(self)@ == old(self)@.with_regs(
                Registers { is_interactive: true, ..old(self)@.regs },
            ),
    {
        self.registers.is_interactive = true;
    }

    /// Sets how many local slots new frames get.
    pub fn set_stack_size(&mut self, size: usize)
        ensures
            final(self)@ == old(self)@.with_regs(
                Registers { default_stack_size: size, ..old(self)@.regs },
            ),
    {
        self.registers.default_stack_size = size;
    }

    pub fn has_quit(&self) -> (r: bool)
        ensures
            r == self@.regs.has_quit,
    {
        self.registers.has_quit
    }

    pub fn unset_quit(&mut self)
        ensures
            final(self)@ == old(self)@.with_regs(Registers { has_quit: false, ..old(self)@.regs }),
    {
        self.registers.has_quit = false;
    }

    /// The pc of the current frame.
    pub fn get_current_pc(&self) -> (r: Option<usize>)
        ensures
            match last_ready(self@.frames) {
                Some(k) => r == Some(self@.frames[k].pc),
                None => r is None,
            },
    {
        match self.get_last_ready_position() {
            Some(k) => Some(self.callstack[k].program_counter),
            None => None,
        }
    }

    fn set_current_pc(&mut self, pc: usize) -> (r: Result<(), VmError>)
        ensures
            match last_ready(old(self)@.frames) {
                Some(k) => r is Ok && final(self)@ == old(self)@.with_frame(
                    k,
                    crate::frame::FrameModel { pc, ..old(self)@.frames[k] },
                ),
                None => r == Err::<(), VmError>(VmError::StateError) && final(self)@ == old(
                    self,
                )@,
            },
    {
        match self.get_last_ready_position() {
            Some(k) => {
                self.callstack[k].program_counter = pc;
                Ok(())
            },
            None => Err(VmError::StateError),
        }
    }

    /// Moves the current frame's pc one instruction on.
    pub fn increment_pc(&mut self) -> (r: Result<(), VmError>)
        ensures
            match last_ready(old(self)@.frames) {
                Some(k) => if old(self)@.frames[k].pc < usize::MAX {
                    r is Ok && final(self)@ == old(self)@.with_frame(
                        k,
                        crate::frame::FrameModel {
                            pc: (old(self)@.frames[k].pc + 1) as usize,
                            ..old(self)@.frames[k]
                        },
                    )
                } else {
                    r == Err::<(), VmError>(VmError::ResourceError) && final(self)@ == old(self)@
                },
                None => r == Err::<(), VmError>(VmError::StateError) && final(self)@ == old(
                    self,
                )@,
            },
    {
        match self.get_current_pc() {
            Some(pc) => {
                if pc == usize::MAX {
                    return Err(VmError::ResourceError);
                }
                self.set_current_pc(pc + 1)
            },
            None => Err(VmError::StateError),
        }
    }

    /// Moves the current frame's pc one instruction back.
    pub fn decrement_pc(&mut self) -> (r: Result<(), VmError>)
        ensures
            match last_ready(old(self)@.frames) {
                Some(k) => if old(self)@.frames[k].pc > 0 {
                    r is Ok && final(self)@ == old(self)@.with_frame(
                        k,
                        crate::frame::FrameModel {
                            pc: (old(self)@.frames[k].pc - 1) as usize,
                            ..old(self)@.frames[k]
                        },
                    )
                } else {
                    r == Err::<(), VmError>(VmError::ResourceError) && final(self)@ == old(self)@
                },
                None => r == Err::<(), VmError>(VmError::StateError) && final(self)@ == old(
                    self,
                )@,
            },
    {
        match self.get_current_pc() {
            Some(pc) => {
                if pc == 0 {
                    return Err(VmError::ResourceError);
                }
                self.set_current_pc(pc - 1)
            },
            None => Err(VmError::StateError),
        }
    }

    pub fn get_next_code_id(&self) -> (r: usize)
        ensures
            r == self@.regs.next_code_index,
    {
        self.registers.next_code_index
    }

    pub fn get_next_plugin_id(&self) -> (r: usize)
        ensures
            r == self@.regs.next_plugin_index,
    {
        self.registers.next_plugin_index
    }

    /// Registers an empty function body and returns its id.
    pub fn add_new_code(&mut self) -> (r: usize)
        requires
            old(self)@.wf(),
            old(self)@.regs.next_code_index < usize::MAX,
        ensures
            r == old(self)@.regs.next_code_index,
            final(self)@ == (MachineModel {
                regs: Registers { next_code_index: (r + 1) as usize, ..old(self)@.regs },
                code: old(self)@.code.push(Seq::empty()),
                ..old(self)@
            }),
            final(self)@.wf(),
    {
        let id = self.registers.next_code_index;
        self.registers.next_code_index = id + 1;
        let body: Vec<Instruction> = Vec::new();
        assert(body@ =~= Seq::<Instruction>::empty());
        self.code.push(body);
        id
    }

    /// The body of function `id`, for the compiler to fill.
    pub fn get_code_for(&mut self, id: usize) -> (r: Option<&mut Vec<Instruction>>)
        requires
            old(self)@.wf(),
        ensures
            r is Some <==> id < old(self)@.code.len(),
            r matches Some(c) ==> c@ == old(self)@.code[id as int] && final(self)@ == (
            MachineModel { code: old(self)@.code.update(id as int, final(c)@), ..old(self)@ }),
            r is None ==> final(self)@ == old(self)@,
            final(self)@.wf(),
    {
        if self.code.len() <= id {
            None
        } else {
            Some(&mut self.code[id])
        }
    }

    /// Registers a plugin and returns its id; the embedder keeps the plugin
    /// itself under that id.
    pub fn add_new_plugin(&mut self) -> (r: usize)
        requires
            old(self)@.regs.next_plugin_index < usize::MAX,
        ensures
            r == old(self)@.regs.next_plugin_index,
            final(self)@ == old(self)@.with_regs(
                Registers { next_plugin_index: (r + 1) as usize, ..old(self)@.regs },
            ),
    {
        let id = self.registers.next_plugin_index;
        self.registers.next_plugin_index = id + 1;
        id
    }

    pub fn get_registers(&self) -> (r: &Registers)
        ensures
            *r == self@.regs,
    {
        &self.registers
    }

    pub fn get_special_storage_ref(&self) -> (r: &SpecialStorage)
        ensures
            r@ == self@.heap,
    {
        &self.special_storage
    }

    pub fn get_special_storage_mut(&mut self) -> (r: &mut SpecialStorage)
        ensures
            r@ == old(self)@.heap,
            final(self)@ == old(self)@.with_heap(final(r)@),
    {
        &mut self.special_storage
    }

    /// The current frame, for changing in place.
    pub fn get_last_ready_mut(&mut self) -> (r: Option<&mut FunctionFrame>)
        ensures
            match last_ready(old(self)@.frames) {
                Some(k) => r matches Some(f) && f@ == old(self)@.frames[k] && final(self)@
                    == old(self)@.with_frame(k, final(f)@),
                None => r is None && final(self)@ == old(self)@,
            },
    {
        match self.get_last_ready_position() {
            Some(k) => Some(&mut self.callstack[k]),
            None => None,
        }
    }

    /// Slot `address` of frame `index` (0 is the outermost frame).
    pub fn read_slot(&self, index: usize, address: usize) -> (r: Result<DynamicValue, VmError>)
        ensures
            r == read_slot(self@, index as int, address),
    {
        self.read_from_id(index, address)
    }

    /// Number of frames on the call stack.
    pub fn frame_count(&self) -> (r: usize)
        ensures
            r == self@.frames.len(),
    {
        self.callstack.len()
    }

    /// Whether a request waits for `resume`.
    pub fn is_waiting(&self) -> (r: bool)
        ensures
            r == self@.pending is Some,
    {
        self.pending.is_some()
    }

    /// Adds a text to the output.
    pub fn print_string(&mut self, s: &str) -> (r: Result<(), VmError>)
        ensures
            r is Ok,
            final(self)@ == old(self)@.emit(seq![Piece::Text(s@)]),
    {
        let mut f: Vec<Fragment> = Vec::new();
        f.push(Fragment::Text(s.to_owned()));
        assert(view_seq(f@) =~= seq![Piece::Text(s@)]);
        self.emit(f);
        Ok(())
    }

    /// Adds a value to the output as `PrintMathB` writes it.
    pub fn print_value(&mut self, val: DynamicValue) -> (r: Result<(), VmError>)
        requires
            old(self)@.wf(),
        ensures
            match print_pieces(old(self)@.heap, val) {
                Ok(p) => r is Ok && final(self)@ == old(self)@.emit(p),
                Err(e) => r == Err::<(), VmError>(e) && final(self)@ == old(self)@,
            },
    {
        match self.print_fragments(val) {
            Ok(f) => {
                self.emit(f);
                Ok(())
            },
            Err(e) => Err(e),
        }
    }

    /// Hands over the output written so far and clears it.
    pub fn take_output(&mut self) -> (r: Vec<Fragment>)
        ensures
            view_seq(r@) == old(self)@.output,
            final(self)@ == (MachineModel { output: Seq::empty(), ..old(self)@ }),
    {
        let mut out: Vec<Fragment> = Vec::new();
        std::mem::swap(&mut out, &mut self.output);
        assert(view_seq(self.output@) =~= Seq::<Piece>::empty());
        out
    }
}

enum Evaluated {
    Value(DynamicValue),
    Ask(NumberRequest),
}

spec fn evaluated_view(r: Result<Evaluated, VmError>) -> Result<Computed, VmError> {
    match r {
        Ok(Evaluated::Value(v)) => Ok(Computed::Value(v)),
        Ok(Evaluated::Ask(q)) => Ok(Computed::Ask(q@)),
        Err(e) => Err(e),
    }
}

/// The position an integer index denotes in a list of length `len`, if any.
fn position_in(i: i64, len: usize) -> (r: Option<usize>)
    ensures
        r is Some <==> 0 <= i < len,
        r matches Some(k) ==> k == i,
{
    if i < 0 || i as u64 >= len as u64 {
        None
    } else {
        Some(i as usize)
    }
}

/// Copies the values of `src` onto the end of `dst`.
fn append_values(dst: &mut Vec<DynamicValue>, src: &Vec<DynamicValue>)
    ensures
        final(dst)@ == old(dst)@ + src@,
{
    let mut i: usize = 0;
    while i < src.len()
        invariant
            i <= src@.len(),
            dst@ == old(dst)@ + src@.take(i as int),
        decreases src@.len() - i,
    {
        dst.push(src[i]);
        i = i + 1;
        assert(dst@ =~= old(dst)@ + src@.take(i as int));
    }
    assert(src@.take(src@.len() as int) =~= src@);
}

/// Joins fragments into one text when none of them is a number.
fn join_fragments(frags: &Vec<Fragment>) -> (r: Option<String>)
    ensures
        match pieces_text(view_seq(frags@)) {
            Some(t) => r matches Some(s) && s@ == t,
            None => r is None,
        },
{
    let mut out = String::new();
    let mut i: usize = 0;
    assert(view_seq(frags@).take(0) =~= Seq::<Piece>::empty());
    while i < frags.len()
        invariant
            i <= frags@.len(),
            pieces_text(view_seq(frags@).take(i as int)) == Some(out@),
        decreases frags@.len() - i,
    {
        let ghost pre = view_seq(frags@).take(i as int);
        assert(view_seq(frags@).take(i + 1).drop_last() =~= pre);
        match &frags[i] {
            Fragment::Text(t) => {
                out.append(t.as_str());
            },
            Fragment::Number(_) => {
                proof {
                    lemma_pieces_text_none(view_seq(frags@), (i + 1) as int);
                    assert(view_seq(frags@).take(frags@.len() as int) =~= view_seq(frags@));
                }
                return None;
            },
        }
        i = i + 1;
    }
    assert(view_seq(frags@).take(frags@.len() as int) =~= view_seq(frags@));
    Some(out)
}

proof fn lemma_pieces_text_none(p: Seq<Piece>, j: int)
    requires
        0 <= j <= p.len(),
        pieces_text(p.take(j)) is None,
    ensures
        pieces_text(p) is None,
    decreases p.len() - j,
{
    if j < p.len() {
        assert(p.take(j + 1).drop_last() =~= p.take(j));
        lemma_pieces_text_none(p, j + 1);
    } else {
        assert(p.take(j) =~= p);
    }
}

/// The result of a comparison plan given the answers to its numeric pairs.
pub fn settle_answers(answers: &Vec<Comparision>, lists: bool, ending: Result<Comparision, VmError>) -> (r: Result<Comparision, VmError>)
    ensures
        r == settle(answers@, lists, ending),
{
    let mut i: usize = 0;
    assert(answers@.skip(0) =~= answers@);
    while i < answers.len()
        invariant
            i <= answers@.len(),
            settle(answers@, lists, ending) == settle(answers@.skip(i as int), lists, ending),
        decreases answers@.len() - i,
    {
        assert(answers@.skip(i as int)[0] == answers@[i as int]);
        if answers[i] != Comparision::Equal {
            return Ok(
                if lists {
                    Comparision::NotEqual
                } else {
                    answers[i]
                },
            );
        }
        assert(answers@.skip(i as int).drop_first() =~= answers@.skip(i + 1));
        i = i + 1;
    }
    assert(answers@.skip(i as int) =~= Seq::<Comparision>::empty());
    match ending {
        Ok(c) => Ok(
            if lists && c != Comparision::Equal {
                Comparision::NotEqual
            } else {
                c
            },
        ),
        Err(e) => Err(e),
    }
}

/// Once a prefix of a list fails to render, so does every longer prefix.
proof fn lemma_render_items_error(heap: crate::storage::StorageModel, items: Seq<DynamicValue>, fuel: nat, j: int)
    requires
        0 <= j <= items.len(),
        render_items(heap, items.take(j), fuel) is Err,
    ensures
        forall|k: int|
            j <= k <= items.len() ==> #[trigger] render_items(heap, items.take(k), fuel)
                == render_items(heap, items.take(j), fuel),
    decreases items.len() - j,
{
    assert forall|k: int| j <= k <= items.len() implies #[trigger] render_items(
        heap,
        items.take(k),
        fuel,
    ) == render_items(heap, items.take(j), fuel) by {
        lemma_render_items_error_at(heap, items, fuel, j, k);
    }
}

proof fn lemma_render_items_error_at(heap: crate::storage::StorageModel, items: Seq<DynamicValue>, fuel: nat, j: int, k: int)
    requires
        0 <= j <= k <= items.len(),
        render_items(heap, items.take(j), fuel) is Err,
    ensures
        render_items(heap, items.take(k), fuel) == render_items(heap, items.take(j), fuel),
    decreases k - j,
{
    if k > j {
        lemma_render_items_error_at(heap, items, fuel, j, k - 1);
        assert(items.take(k).drop_last() =~= items.take(k - 1));
    }
}

/// Once a prefix of two lists compares as not all equal, longer prefixes
/// give the same plan.
proof fn lemma_compare_items_stop(heap: crate::storage::StorageModel, ls: Seq<DynamicValue>, rs: Seq<DynamicValue>, fuel: nat, j: int)
    requires
        0 <= j <= ls.len(),
        ls.len() == rs.len(),
        compare_items(heap, ls.take(j), rs.take(j), fuel).1 != Ok::<Comparision, VmError>(
            Comparision::Equal,
        ),
    ensures
        forall|k: int|
            j <= k <= ls.len() ==> #[trigger] compare_items(heap, ls.take(k), rs.take(k), fuel)
                == compare_items(heap, ls.take(j), rs.take(j), fuel),
{
    assert forall|k: int| j <= k <= ls.len() implies #[trigger] compare_items(
        heap,
        ls.take(k),
        rs.take(k),
        fuel,
    ) == compare_items(heap, ls.take(j), rs.take(j), fuel) by {
        lemma_compare_items_stop_at(heap, ls, rs, fuel, j, k);
    }
}

proof fn lemma_compare_items_stop_at(heap: crate::storage::StorageModel, ls: Seq<DynamicValue>, rs: Seq<DynamicValue>, fuel: nat, j: int, k: int)
    requires
        0 <= j <= k <= ls.len(),
        ls.len() == rs.len(),
        compare_items(heap, ls.take(j), rs.take(j), fuel).1 != Ok::<Comparision, VmError>(
            Comparision::Equal,
        ),
    ensures
        compare_items(heap, ls.take(k), rs.take(k), fuel) == compare_items(
            heap,
            ls.take(j),
            rs.take(j),
            fuel,
        ),
    decreases k - j,
{
    if k > j {
        lemma_compare_items_stop_at(heap, ls, rs, fuel, j, k - 1);
        assert(ls.take(k).drop_last() =~= ls.take(k - 1));
        assert(rs.take(k).drop_last() =~= rs.take(k - 1));
    }
}

} // verus!
