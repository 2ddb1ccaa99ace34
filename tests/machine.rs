use birl::instruction::Instruction;
use birl::machine::VirtualMachine;
use birl::protocol::{Fragment, NumberRequest, Reply, Step};
use birl::storage::{SpecialItemData, SpecialStorage};
use birl::value::{
    Comparision, ComparisionRequest, DynamicValue, ExecutionStatus, RawValue, TypeKind, VmError,
};

fn ready_machine() -> VirtualMachine {
    let mut vm = VirtualMachine::new();
    vm.add_new_code();
    step_ok(&mut vm, Instruction::MakeNewFrame(0));
    step_ok(&mut vm, Instruction::SetLastFrameReady);
    vm
}

fn step_ok(vm: &mut VirtualMachine, inst: Instruction) {
    match vm.run(inst) {
        Ok(Step::Done(ExecutionStatus::Normal)) => {}
        other => panic!("unexpected step: {:?}", other),
    }
}

fn step_err(vm: &mut VirtualMachine, inst: Instruction) -> VmError {
    match vm.run(inst) {
        Err(e) => e,
        other => panic!("expected an error, got {:?}", other),
    }
}

fn text_of(vm: &VirtualMachine, v: DynamicValue) -> String {
    match v {
        DynamicValue::Text(h) => match vm.get_special_storage_ref().get_data_ref(h) {
            Some(SpecialItemData::Text(s)) => s.clone(),
            other => panic!("not a text item: {:?}", other),
        },
        other => panic!("not a text value: {:?}", other),
    }
}

fn output(vm: &mut VirtualMachine) -> String {
    vm.take_output()
        .iter()
        .map(|f| match f {
            Fragment::Text(s) => s.clone(),
            Fragment::Number(n) => format!("{}", f64::from_bits(*n)),
        })
        .collect()
}

fn set_operands(vm: &mut VirtualMachine, a: RawValue, b: RawValue) {
    step_ok(vm, Instruction::PushValMathA(a));
    step_ok(vm, Instruction::PushValMathB(b));
}

fn compare(vm: &mut VirtualMachine) -> Comparision {
    step_ok(vm, Instruction::Compare);
    for req in [
        ComparisionRequest::Equal,
        ComparisionRequest::Less,
        ComparisionRequest::More,
    ] {
        step_ok(vm, Instruction::ExecuteIf(req));
        let skipped = vm.get_current_skip_level() > 0;
        step_ok(vm, Instruction::EndConditionalBlock);
        if !skipped {
            return match req {
                ComparisionRequest::Equal => Comparision::Equal,
                ComparisionRequest::Less => Comparision::LessThan,
                _ => Comparision::MoreThan,
            };
        }
    }
    Comparision::NotEqual
}

#[test]
fn integer_arithmetic_wraps() {
    let mut vm = VirtualMachine::new();
    set_operands(&mut vm, RawValue::Integer(i64::MAX), RawValue::Integer(1));
    step_ok(&mut vm, Instruction::Add);
    assert_eq!(vm.get_registers().math_b, DynamicValue::Integer(i64::MIN));
    set_operands(&mut vm, RawValue::Integer(i64::MIN), RawValue::Integer(-1));
    step_ok(&mut vm, Instruction::Div);
    assert_eq!(vm.get_registers().math_b, DynamicValue::Integer(i64::MIN));
    set_operands(&mut vm, RawValue::Integer(-7), RawValue::Integer(2));
    step_ok(&mut vm, Instruction::Div);
    assert_eq!(vm.get_registers().math_b, DynamicValue::Integer(-3));
    set_operands(&mut vm, RawValue::Integer(6), RawValue::Integer(7));
    step_ok(&mut vm, Instruction::Mul);
    assert_eq!(vm.get_registers().math_b, DynamicValue::Integer(42));
    set_operands(&mut vm, RawValue::Integer(6), RawValue::Integer(7));
    step_ok(&mut vm, Instruction::Sub);
    assert_eq!(vm.get_registers().math_b, DynamicValue::Integer(-1));
}

#[test]
fn integer_division_by_zero_is_a_domain_error() {
    let mut vm = VirtualMachine::new();
    set_operands(&mut vm, RawValue::Integer(1), RawValue::Integer(0));
    assert_eq!(step_err(&mut vm, Instruction::Div), VmError::DomainError);
}

#[test]
fn null_on_the_left_gives_null_and_incompatible_operands_fail() {
    let mut vm = VirtualMachine::new();
    set_operands(&mut vm, RawValue::Null, RawValue::Integer(3));
    step_ok(&mut vm, Instruction::Add);
    assert_eq!(vm.get_registers().math_b, DynamicValue::Null);
    set_operands(&mut vm, RawValue::Integer(3), RawValue::Null);
    assert_eq!(step_err(&mut vm, Instruction::Add), VmError::TypeError);
    let mut vm = ready_machine();
    set_operands(&mut vm, RawValue::Text("a".to_string()), RawValue::Integer(1));
    assert_eq!(step_err(&mut vm, Instruction::Add), VmError::TypeError);
    set_operands(&mut vm, RawValue::Text("a".to_string()), RawValue::Text("b".to_string()));
    assert_eq!(step_err(&mut vm, Instruction::Sub), VmError::TypeError);
}

#[test]
fn text_concat_without_flag_puts_b_first() {
    let mut vm = ready_machine();
    set_operands(&mut vm, RawValue::Text("hi".to_string()), RawValue::Text(" world".to_string()));
    step_ok(&mut vm, Instruction::Add);
    assert_eq!(text_of(&vm, vm.get_registers().math_b), " worldhi");
}

#[test]
fn mixed_arithmetic_asks_for_number_work() {
    let mut vm = VirtualMachine::new();
    set_operands(&mut vm, RawValue::Integer(3), RawValue::Number(2.0f64.to_bits()));
    match vm.run(Instruction::Mul) {
        Ok(Step::Number(NumberRequest::Arith(_, DynamicValue::Integer(3), DynamicValue::Number(b)))) => {
            assert_eq!(f64::from_bits(b), 2.0)
        }
        other => panic!("unexpected step: {:?}", other),
    }
    assert!(vm.is_waiting());
    assert_eq!(step_err(&mut vm, Instruction::Add), VmError::StateError);
    assert_eq!(vm.resume(Reply::Number(6.0f64.to_bits())), Ok(ExecutionStatus::Normal));
    assert_eq!(vm.get_registers().math_b, DynamicValue::Number(6.0f64.to_bits()));
    assert_eq!(vm.resume(Reply::Number(0)), Err(VmError::StateError));
}

#[test]
fn promotion_sends_the_integer_operand_unchanged() {
    let mut vm = VirtualMachine::new();
    set_operands(&mut vm, RawValue::Integer(7), RawValue::Number(0.25f64.to_bits()));
    let first = format!("{:?}", vm.run(Instruction::Add));
    assert!(first.contains("Integer(7)"));
    vm.resume(Reply::Number(7.25f64.to_bits())).unwrap();
    assert_eq!(vm.get_registers().math_b, DynamicValue::Number(7.25f64.to_bits()));
}

#[test]
fn comparisons_of_integers_texts_lists_and_null() {
    let mut vm = ready_machine();
    set_operands(&mut vm, RawValue::Integer(1), RawValue::Integer(2));
    assert_eq!(compare(&mut vm), Comparision::LessThan);
    set_operands(&mut vm, RawValue::Text("abc".to_string()), RawValue::Text("ab".to_string()));
    assert_eq!(compare(&mut vm), Comparision::MoreThan);
    set_operands(&mut vm, RawValue::Text("abc".to_string()), RawValue::Text("abd".to_string()));
    assert_eq!(compare(&mut vm), Comparision::NotEqual);
    set_operands(&mut vm, RawValue::Text("abc".to_string()), RawValue::Text("abc".to_string()));
    assert_eq!(compare(&mut vm), Comparision::Equal);
    set_operands(&mut vm, RawValue::Null, RawValue::Null);
    assert_eq!(compare(&mut vm), Comparision::Equal);
    set_operands(&mut vm, RawValue::Null, RawValue::Integer(0));
    assert_eq!(compare(&mut vm), Comparision::NotEqual);
}

#[test]
fn comparison_equality_is_symmetric() {
    let values = vec![
        RawValue::Integer(1),
        RawValue::Integer(2),
        RawValue::Text("x".to_string()),
        RawValue::Text("xy".to_string()),
        RawValue::Null,
    ];
    for a in &values {
        for b in &values {
            let mut vm = ready_machine();
            set_operands(&mut vm, a.clone(), b.clone());
            let ab = compare(&mut vm);
            set_operands(&mut vm, b.clone(), a.clone());
            let ba = compare(&mut vm);
            assert_eq!(ab == Comparision::Equal, ba == Comparision::Equal);
        }
    }
}

fn make_list(vm: &mut VirtualMachine, items: Vec<RawValue>, slot: usize) {
    step_ok(vm, Instruction::MakeNewList);
    step_ok(vm, Instruction::WriteVarTo(slot));
    for item in items {
        step_ok(vm, Instruction::ReadVarFrom(slot));
        step_ok(vm, Instruction::ClearSecondary);
        step_ok(vm, Instruction::PushValMathB(item));
        step_ok(vm, Instruction::AddToListAtIndex);
    }
}

#[test]
fn list_operations() {
    let mut vm = ready_machine();
    make_list(&mut vm, vec![RawValue::Integer(1), RawValue::Integer(3)], 1);
    step_ok(&mut vm, Instruction::ReadVarFrom(1));
    step_ok(&mut vm, Instruction::PushValMathB(RawValue::Integer(1)));
    step_ok(&mut vm, Instruction::PushMathBToSeconday);
    step_ok(&mut vm, Instruction::PushValMathB(RawValue::Integer(2)));
    step_ok(&mut vm, Instruction::AddToListAtIndex);
    step_ok(&mut vm, Instruction::QueryListSize);
    assert_eq!(vm.get_registers().math_b, DynamicValue::Integer(3));
    for (i, expected) in [1, 2, 3].iter().enumerate() {
        step_ok(&mut vm, Instruction::PushValMathB(RawValue::Integer(i as i64)));
        step_ok(&mut vm, Instruction::IndexList);
        assert_eq!(vm.get_registers().math_b, DynamicValue::Integer(*expected));
    }
    step_ok(&mut vm, Instruction::PushValMathB(RawValue::Integer(3)));
    assert_eq!(step_err(&mut vm, Instruction::IndexList), VmError::DomainError);
    step_ok(&mut vm, Instruction::PushValMathB(RawValue::Integer(-1)));
    assert_eq!(step_err(&mut vm, Instruction::IndexList), VmError::DomainError);
    step_ok(&mut vm, Instruction::PushValMathB(RawValue::Integer(0)));
    step_ok(&mut vm, Instruction::RemoveFromListAtIndex);
    step_ok(&mut vm, Instruction::QueryListSize);
    assert_eq!(vm.get_registers().math_b, DynamicValue::Integer(2));
    step_ok(&mut vm, Instruction::PushValMathB(RawValue::Integer(5)));
    assert_eq!(step_err(&mut vm, Instruction::RemoveFromListAtIndex), VmError::DomainError);
    step_ok(&mut vm, Instruction::PushValMathB(RawValue::Text("x".to_string())));
    assert_eq!(step_err(&mut vm, Instruction::IndexList), VmError::TypeError);
}

#[test]
fn list_shared_by_handle() {
    let mut vm = ready_machine();
    make_list(&mut vm, vec![], 1);
    step_ok(&mut vm, Instruction::ReadVarFrom(1));
    step_ok(&mut vm, Instruction::PushIntermediateToB);
    step_ok(&mut vm, Instruction::WriteVarTo(2));
    step_ok(&mut vm, Instruction::ReadVarFrom(1));
    step_ok(&mut vm, Instruction::ClearSecondary);
    step_ok(&mut vm, Instruction::PushValMathB(RawValue::Integer(8)));
    step_ok(&mut vm, Instruction::AddToListAtIndex);
    step_ok(&mut vm, Instruction::ReadVarFrom(2));
    step_ok(&mut vm, Instruction::QueryListSize);
    assert_eq!(vm.get_registers().math_b, DynamicValue::Integer(1));
    step_ok(&mut vm, Instruction::PushValMathB(RawValue::Integer(0)));
    step_ok(&mut vm, Instruction::IndexList);
    assert_eq!(vm.get_registers().math_b, DynamicValue::Integer(8));
}

#[test]
fn list_concat_and_comparison() {
    let mut vm = ready_machine();
    make_list(&mut vm, vec![RawValue::Integer(1)], 1);
    make_list(&mut vm, vec![RawValue::Text("a".to_string())], 2);
    step_ok(&mut vm, Instruction::ReadVarFrom(1));
    step_ok(&mut vm, Instruction::PushIntermediateToA);
    step_ok(&mut vm, Instruction::ReadVarFrom(2));
    step_ok(&mut vm, Instruction::PushIntermediateToB);
    step_ok(&mut vm, Instruction::Add);
    step_ok(&mut vm, Instruction::PrintMathB);
    assert_eq!(output(&mut vm), "(Lista) [ 1, \"a\" ]");
    assert_eq!(compare(&mut vm), Comparision::NotEqual);
    step_ok(&mut vm, Instruction::ReadVarFrom(1));
    step_ok(&mut vm, Instruction::PushIntermediateToB);
    assert_eq!(compare(&mut vm), Comparision::Equal);
}

#[test]
fn list_with_numbers_compares_through_requests() {
    let mut vm = ready_machine();
    make_list(&mut vm, vec![RawValue::Number(1.5f64.to_bits())], 1);
    make_list(&mut vm, vec![RawValue::Number(1.5f64.to_bits())], 2);
    step_ok(&mut vm, Instruction::ReadVarFrom(1));
    step_ok(&mut vm, Instruction::PushIntermediateToA);
    step_ok(&mut vm, Instruction::ReadVarFrom(2));
    step_ok(&mut vm, Instruction::PushIntermediateToB);
    match vm.run(Instruction::Compare) {
        Ok(Step::Number(NumberRequest::Compare(pairs))) => assert_eq!(pairs.len(), 1),
        other => panic!("unexpected step: {:?}", other),
    }
    assert_eq!(vm.resume(Reply::Comparisons(vec![Comparision::Equal])), Ok(ExecutionStatus::Normal));
    step_ok(&mut vm, Instruction::ExecuteIf(ComparisionRequest::Equal));
    assert_eq!(vm.get_current_skip_level(), 0);
}

#[test]
fn conversions_between_integers_and_texts() {
    let mut vm = ready_machine();
    for i in [0i64, 42, -17, i64::MAX, i64::MIN] {
        step_ok(&mut vm, Instruction::PushValMathB(RawValue::Integer(i)));
        step_ok(&mut vm, Instruction::ConvertToString);
        assert_eq!(text_of(&vm, vm.get_registers().math_b), i.to_string());
        step_ok(&mut vm, Instruction::ConvertToInt);
        assert_eq!(vm.get_registers().math_b, DynamicValue::Integer(i));
    }
    step_ok(&mut vm, Instruction::PushValMathB(RawValue::Text("+12".to_string())));
    step_ok(&mut vm, Instruction::ConvertToInt);
    assert_eq!(vm.get_registers().math_b, DynamicValue::Integer(12));
    step_ok(&mut vm, Instruction::PushValMathB(RawValue::Text("abc".to_string())));
    assert_eq!(step_err(&mut vm, Instruction::ConvertToInt), VmError::TypeError);
    step_ok(&mut vm, Instruction::PushValMathB(RawValue::Null));
    assert_eq!(step_err(&mut vm, Instruction::ConvertToInt), VmError::TypeError);
}

#[test]
fn number_conversions_go_through_requests() {
    let mut vm = ready_machine();
    let n = 0.25f64;
    step_ok(&mut vm, Instruction::PushValMathB(RawValue::Number(n.to_bits())));
    let text = match vm.run(Instruction::ConvertToString) {
        Ok(Step::Number(NumberRequest::Render(frags))) => {
            assert_eq!(frags.len(), 1);
            format!("{}", n)
        }
        other => panic!("unexpected step: {:?}", other),
    };
    vm.resume(Reply::Text(text)).unwrap();
    assert_eq!(text_of(&vm, vm.get_registers().math_b), "0.25");
    let parsed = match vm.run(Instruction::ConvertToNum) {
        Ok(Step::Number(NumberRequest::Parse(s))) => s.parse::<f64>().ok().map(|f| f.to_bits()),
        other => panic!("unexpected step: {:?}", other),
    };
    vm.resume(Reply::Parsed(parsed)).unwrap();
    assert_eq!(vm.get_registers().math_b, DynamicValue::Number(n.to_bits()));
    step_ok(&mut vm, Instruction::PushValMathB(RawValue::Text("nope".to_string())));
    match vm.run(Instruction::ConvertToNum) {
        Ok(Step::Number(NumberRequest::Parse(_))) => {}
        other => panic!("unexpected step: {:?}", other),
    }
    assert_eq!(vm.resume(Reply::Parsed(None)), Err(VmError::TypeError));
}

#[test]
fn printing_in_plain_and_debug_form() {
    let mut vm = ready_machine();
    step_ok(&mut vm, Instruction::PushValMathB(RawValue::Integer(3)));
    step_ok(&mut vm, Instruction::PrintMathBDebug);
    step_ok(&mut vm, Instruction::PushValMathB(RawValue::Text("hi".to_string())));
    step_ok(&mut vm, Instruction::PrintMathBDebug);
    step_ok(&mut vm, Instruction::PushValMathB(RawValue::Number(3.14f64.to_bits())));
    step_ok(&mut vm, Instruction::PrintMathBDebug);
    step_ok(&mut vm, Instruction::PushValMathB(RawValue::Null));
    step_ok(&mut vm, Instruction::PrintMathBDebug);
    step_ok(&mut vm, Instruction::PrintMathB);
    step_ok(&mut vm, Instruction::PrintNewLine);
    assert_eq!(
        output(&mut vm),
        "(Integer) 3\n(Text) \"hi\"\n(Number) 3.14\n<Null>\n<Null>\n"
    );
}

#[test]
fn return_from_outermost_frame_quits() {
    let mut vm = ready_machine();
    assert!(!vm.has_quit());
    match vm.run(Instruction::Return) {
        Ok(Step::Done(ExecutionStatus::Quit)) => {}
        other => panic!("unexpected step: {:?}", other),
    }
    assert!(vm.has_quit());
    vm.unset_quit();
    assert!(!vm.has_quit());
}

#[test]
fn return_from_inner_frame_writes_slot_zero() {
    let mut vm = ready_machine();
    vm.set_interactive_mode();
    step_ok(&mut vm, Instruction::MakeNewFrame(0));
    step_ok(&mut vm, Instruction::PushValMathB(RawValue::Integer(11)));
    step_ok(&mut vm, Instruction::WriteVarToLast(1));
    assert_eq!(vm.read_slot(1, 1), Ok(DynamicValue::Integer(11)));
    step_ok(&mut vm, Instruction::SetLastFrameReady);
    step_ok(&mut vm, Instruction::PushValMathB(RawValue::Integer(5)));
    match vm.run(Instruction::Return) {
        Ok(Step::Done(ExecutionStatus::Returned)) => {}
        other => panic!("unexpected step: {:?}", other),
    }
    assert_eq!(vm.frame_count(), 1);
    assert_eq!(vm.read_slot(0, 0), Ok(DynamicValue::Integer(5)));
    assert_eq!(output(&mut vm), "(Integer) 5\n");
}

#[test]
fn nested_conditionals_skip_and_return_to_zero() {
    let mut vm = ready_machine();
    set_operands(&mut vm, RawValue::Integer(1), RawValue::Integer(2));
    step_ok(&mut vm, Instruction::Compare);
    step_ok(&mut vm, Instruction::ExecuteIf(ComparisionRequest::Equal));
    assert_eq!(vm.get_current_skip_level(), 1);
    step_ok(&mut vm, Instruction::ExecuteIf(ComparisionRequest::NotEqual));
    assert_eq!(vm.get_current_skip_level(), 2);
    step_ok(&mut vm, Instruction::PrintMathB);
    step_ok(&mut vm, Instruction::EndConditionalBlock);
    assert_eq!(vm.get_current_skip_level(), 1);
    step_ok(&mut vm, Instruction::EndConditionalBlock);
    assert_eq!(vm.get_current_skip_level(), 0);
    step_ok(&mut vm, Instruction::EndConditionalBlock);
    assert_eq!(vm.get_current_skip_level(), 0);
    step_ok(&mut vm, Instruction::IncreaseSkippingLevel);
    assert_eq!(vm.get_current_skip_level(), 1);
    assert_eq!(output(&mut vm), "");
}

#[test]
fn execute_if_without_comparison_is_a_state_error() {
    let mut vm = ready_machine();
    assert_eq!(
        step_err(&mut vm, Instruction::ExecuteIf(ComparisionRequest::LessOrEqual)),
        VmError::StateError
    );
    let mut vm = VirtualMachine::new();
    set_operands(&mut vm, RawValue::Integer(1), RawValue::Integer(1));
    assert_eq!(step_err(&mut vm, Instruction::Compare), VmError::StateError);
    assert_eq!(step_err(&mut vm, Instruction::RestoreLoopLabel), VmError::StateError);
}

#[test]
fn slot_and_plugin_addresses_are_checked() {
    let mut vm = ready_machine();
    assert_eq!(step_err(&mut vm, Instruction::WriteVarTo(10_000)), VmError::ResourceError);
    assert_eq!(step_err(&mut vm, Instruction::ReadVarFrom(10_000)), VmError::ResourceError);
    assert_eq!(step_err(&mut vm, Instruction::CallPlugin(0, 0)), VmError::ResourceError);
    let id = vm.add_new_plugin();
    assert_eq!(step_err(&mut vm, Instruction::CallPlugin(id, 1)), VmError::StateError);
}

#[test]
fn type_assertions() {
    let mut vm = VirtualMachine::new();
    step_ok(&mut vm, Instruction::PushValMathB(RawValue::Integer(1)));
    step_ok(&mut vm, Instruction::AssertMathBCompatible(TypeKind::Number));
    step_ok(&mut vm, Instruction::AssertMathBCompatible(TypeKind::Integer));
    assert_eq!(step_err(&mut vm, Instruction::AssertMathBCompatible(TypeKind::Text)), VmError::TypeError);
    step_ok(&mut vm, Instruction::PushValMathB(RawValue::Null));
    assert_eq!(step_err(&mut vm, Instruction::AssertMathBCompatible(TypeKind::List)), VmError::TypeError);
}

#[test]
fn reference_counts_follow_slot_writes() {
    let mut vm = ready_machine();
    step_ok(&mut vm, Instruction::PushValMathB(RawValue::Text("t".to_string())));
    let h = match vm.get_registers().math_b {
        DynamicValue::Text(h) => h,
        other => panic!("not a text: {:?}", other),
    };
    assert_eq!(vm.get_special_storage_ref().get_ref(h).unwrap().ref_count(), 0);
    step_ok(&mut vm, Instruction::WriteVarTo(1));
    step_ok(&mut vm, Instruction::WriteVarTo(2));
    assert_eq!(vm.get_special_storage_ref().get_ref(h).unwrap().ref_count(), 2);
    step_ok(&mut vm, Instruction::PushValMathB(RawValue::Integer(0)));
    step_ok(&mut vm, Instruction::WriteVarTo(1));
    assert_eq!(vm.get_special_storage_ref().get_ref(h).unwrap().ref_count(), 1);
    step_ok(&mut vm, Instruction::TryDecrementRefAt(2));
    assert!(vm.get_special_storage_ref().get_ref(h).is_none());
}

#[test]
fn heap_handles_are_never_reused() {
    let mut heap = SpecialStorage::new();
    let a = heap.add(SpecialItemData::Text("a".to_string()), 1);
    let b = heap.add(SpecialItemData::List(vec![]), 0);
    assert_eq!((a, b), (0, 1));
    assert_eq!(heap.increment_ref(a), Ok(()));
    assert_eq!(heap.get_ref(a).unwrap().ref_count(), 2);
    assert_eq!(heap.decrement_ref(a), Ok(()));
    assert_eq!(heap.decrement_ref(a), Ok(()));
    assert!(heap.get_data_ref(a).is_none());
    assert_eq!(heap.decrement_ref(a), Ok(()));
    assert_eq!(heap.increment_ref(a), Err(VmError::ResourceError));
    let c = heap.add(SpecialItemData::Text("c".to_string()), 0);
    assert_eq!(c, 2);
    assert_eq!(heap.get_data_ref(c).unwrap().try_into_str(), Some("c"));
    assert!(heap.get_data_ref(b).unwrap().try_into_str().is_none());
    assert_eq!(heap.get_data_ref(b).unwrap().try_into_list().map(|l| l.len()), Some(0));
}

#[test]
fn pc_moves_by_one_per_instruction() {
    let mut vm = VirtualMachine::new();
    let id = vm.add_new_code();
    vm.get_code_for(id).unwrap().extend(vec![
        Instruction::PushValMathB(RawValue::Integer(1)),
        Instruction::SwapMath,
        Instruction::ClearMath,
    ]);
    step_ok(&mut vm, Instruction::MakeNewFrame(id));
    step_ok(&mut vm, Instruction::SetLastFrameReady);
    for expected in 1..=3 {
        match vm.execute_next_instruction() {
            Ok(Step::Done(ExecutionStatus::Normal)) => {}
            other => panic!("unexpected step: {:?}", other),
        }
        assert_eq!(vm.get_current_pc(), Some(expected));
    }
    assert_eq!(vm.execute_next_instruction().err(), Some(VmError::ResourceError));
    assert_eq!(vm.decrement_pc(), Ok(()));
    assert_eq!(vm.get_current_pc(), Some(2));
}

#[test]
fn read_input_and_comparison_names() {
    let mut vm = ready_machine();
    match vm.run(Instruction::ReadInput) {
        Ok(Step::ReadInput) => {}
        other => panic!("unexpected step: {:?}", other),
    }
    vm.resume(Reply::Input(Some("line".to_string()))).unwrap();
    assert_eq!(text_of(&vm, vm.get_registers().intermediate), "line");
    assert_eq!(Comparision::Equal.name(), "Igual");
    assert_eq!(Comparision::MoreThan.name(), "Maior");
    assert_eq!(VmError::DomainError.describe(), "domain error");
}
