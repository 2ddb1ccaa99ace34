use birl::instruction::Instruction;
use birl::machine::VirtualMachine;
use birl::protocol::{ArithOp, Fragment, NumberRequest, Reply, Step};
use birl::storage::SpecialItemData;
use birl::value::{ComparisionRequest, DynamicValue, ExecutionStatus, RawValue};

fn ready_machine() -> VirtualMachine {
    let mut vm = VirtualMachine::new();
    let id = vm.add_new_code();
    assert_eq!(id, 0);
    run_ok(&mut vm, Instruction::MakeNewFrame(0));
    run_ok(&mut vm, Instruction::SetLastFrameReady);
    vm
}

fn run_ok(vm: &mut VirtualMachine, inst: Instruction) {
    match vm.run(inst) {
        Ok(Step::Done(ExecutionStatus::Normal)) => {}
        other => panic!("unexpected step: {:?}", other),
    }
}

fn text_of(vm: &VirtualMachine, v: DynamicValue) -> String {
    match v {
        DynamicValue::Text(h) => match vm.get_special_storage_ref().get_data_ref(h) {
            Some(SpecialItemData::Text(s)) => s.clone(),
            other => panic!("not a text item: {:?}", other),
        },
        other => panic!("not a text value: {:?}", other),
    }
}

fn output_text(vm: &mut VirtualMachine) -> Vec<String> {
    vm.take_output()
        .into_iter()
        .map(|f| match f {
            Fragment::Text(s) => s,
            Fragment::Number(n) => format!("{}", f64::from_bits(n)),
        })
        .collect()
}

#[test]
fn integer_add() {
    let mut vm = VirtualMachine::new();
    run_ok(&mut vm, Instruction::PushValMathA(RawValue::Integer(2)));
    run_ok(&mut vm, Instruction::PushValMathB(RawValue::Integer(3)));
    run_ok(&mut vm, Instruction::Add);
    assert_eq!(vm.get_registers().math_b, DynamicValue::Integer(5));
}

#[test]
fn mixed_add() {
    let mut vm = VirtualMachine::new();
    run_ok(&mut vm, Instruction::PushValMathA(RawValue::Integer(2)));
    run_ok(&mut vm, Instruction::PushValMathB(RawValue::Number(0.5f64.to_bits())));
    let request = vm.run(Instruction::Add);
    let sum = match request {
        Ok(Step::Number(NumberRequest::Arith(ArithOp::Add, DynamicValue::Integer(a), DynamicValue::Number(b)))) => {
            (a as f64) + f64::from_bits(b)
        }
        other => panic!("unexpected step: {:?}", other),
    };
    assert_eq!(vm.resume(Reply::Number(sum.to_bits())), Ok(ExecutionStatus::Normal));
    assert_eq!(vm.get_registers().math_b, DynamicValue::Number(2.5f64.to_bits()));
}

#[test]
fn text_concat_with_flag() {
    let mut vm = ready_machine();
    run_ok(&mut vm, Instruction::PushValMathA(RawValue::Text("hi".to_string())));
    run_ok(&mut vm, Instruction::PushValMathB(RawValue::Text(" world".to_string())));
    let a = vm.get_registers().math_a;
    let b = vm.get_registers().math_b;
    run_ok(&mut vm, Instruction::SetFirstExpressionOperation);
    run_ok(&mut vm, Instruction::Add);
    let r = vm.get_registers().math_b;
    assert_ne!(r, a);
    assert_ne!(r, b);
    assert_eq!(text_of(&vm, r), "hi world");
    assert!(!vm.get_registers().first_operation);
}

#[test]
fn conditional_skip() {
    let mut vm = ready_machine();
    for inst in vec![
        Instruction::PushValMathA(RawValue::Integer(1)),
        Instruction::PushValMathB(RawValue::Integer(1)),
        Instruction::Compare,
        Instruction::ExecuteIf(ComparisionRequest::Equal),
        Instruction::PrintMathB,
        Instruction::EndConditionalBlock,
    ] {
        run_ok(&mut vm, inst);
    }
    assert_eq!(output_text(&mut vm), vec!["1".to_string()]);

    let mut vm = ready_machine();
    for inst in vec![
        Instruction::PushValMathA(RawValue::Integer(2)),
        Instruction::PushValMathB(RawValue::Integer(1)),
        Instruction::Compare,
        Instruction::ExecuteIf(ComparisionRequest::Equal),
        Instruction::PrintMathB,
        Instruction::EndConditionalBlock,
    ] {
        run_ok(&mut vm, inst);
    }
    assert!(output_text(&mut vm).is_empty());
    assert_eq!(vm.get_current_skip_level(), 0);
}

#[test]
fn loop_countdown() {
    let mut vm = VirtualMachine::new();
    let id = vm.add_new_code();
    {
        let code = vm.get_code_for(id).unwrap();
        code.extend(vec![
            Instruction::PushValMathB(RawValue::Integer(3)),
            Instruction::WriteVarTo(0),
            Instruction::PushValMathB(RawValue::Integer(-1)),
            Instruction::AddLoopLabel,
            Instruction::RegisterIncrementOnRestore(0),
            Instruction::ReadVarFrom(0),
            Instruction::PushIntermediateToA,
            Instruction::PushValMathB(RawValue::Integer(0)),
            Instruction::Compare,
            Instruction::ExecuteIf(ComparisionRequest::More),
            Instruction::PushIntermediateToB,
            Instruction::PrintMathB,
            Instruction::PrintNewLine,
            Instruction::EndConditionalBlock,
            Instruction::ExecuteIf(ComparisionRequest::LessOrEqual),
            Instruction::Halt,
            Instruction::EndConditionalBlock,
            Instruction::RestoreLoopLabel,
        ]);
    }
    run_ok(&mut vm, Instruction::MakeNewFrame(id));
    run_ok(&mut vm, Instruction::SetLastFrameReady);
    let mut steps = 0;
    loop {
        steps += 1;
        assert!(steps < 1000);
        match vm.execute_next_instruction() {
            Ok(Step::Done(ExecutionStatus::Normal)) => {}
            Ok(Step::Done(ExecutionStatus::Halt)) => break,
            other => panic!("unexpected step: {:?}", other),
        }
    }
    assert_eq!(output_text(&mut vm).concat(), "3\n2\n1\n");
    assert_eq!(vm.read_slot(0, 0), Ok(DynamicValue::Integer(0)));
}

#[test]
fn plugin_roundtrip() {
    let mut vm = ready_machine();
    let plugin = vm.add_new_plugin();
    run_ok(&mut vm, Instruction::PushValMathB(RawValue::Integer(4)));
    run_ok(&mut vm, Instruction::PushMathBPluginArgument);
    run_ok(&mut vm, Instruction::PushValMathB(RawValue::Integer(5)));
    run_ok(&mut vm, Instruction::PushMathBPluginArgument);
    let args = match vm.run(Instruction::CallPlugin(plugin, 2)) {
        Ok(Step::CallPlugin(p, args)) => {
            assert_eq!(p, plugin);
            args
        }
        other => panic!("unexpected step: {:?}", other),
    };
    assert_eq!(args, vec![DynamicValue::Integer(5), DynamicValue::Integer(4)]);
    let sum: i64 = args
        .iter()
        .map(|a| match a {
            DynamicValue::Integer(i) => *i,
            _ => 0,
        })
        .sum();
    assert_eq!(vm.resume(Reply::Plugin(Some(DynamicValue::Integer(sum)))), Ok(ExecutionStatus::Normal));
    assert_eq!(vm.read_slot(0, 0), Ok(DynamicValue::Integer(9)));
}
