//! Properties of the interpreter as a whole, proved from its semantics.
use vstd::prelude::*;
use crate::frame::FrameModel;
use crate::frame::Registers;
use crate::instruction::Instruction;
use crate::machine::initial_machine;
use crate::protocol::ArithOp;
use crate::protocol::{Answer, Outcome, Pending};
use crate::semantics::{
    Computed, read_slot, restore_step, resume,
    MachineModel, NESTING_LIMIT, allocate, allocate_current, arith, arith_step, control_step,
    convert_step, dispatch, execute_next, list_step, register_step, return_step, var_step,
    write_slot, compare_items, compare_plan, current_skip, insert_at,
    last_ready, last_ready_index, pieces_text, execute_if_step, ready_below, render, settle, skip_more, step,
};
use crate::storage::{ItemValue, StorageModel};
use crate::text::{int_text, lemma_int_text_round_trip};
use crate::value::{Comparision, DynamicValue, ExecutionStatus, RawValue, VmError, handle_of};

verus! {

/// Frames with the same ready flags have the same current frame.
pub proof fn lemma_ready_below_same_flags(a: Seq<FrameModel>, b: Seq<FrameModel>, n: int)
    requires
        a.len() == b.len(),
        n <= a.len(),
        forall|j: int| 0 <= j < a.len() ==> #[trigger] a[j].ready == b[j].ready,
    ensures
        ready_below(a, n) == ready_below(b, n),
    decreases n,
{
    if n > 0 {
        lemma_ready_below_same_flags(a, b, n - 1);
    }
}

proof fn lemma_ready_below_bound(a: Seq<FrameModel>, n: int)
    requires
        n <= a.len(),
    ensures
        ready_below(a, n) matches Some(k) ==> 0 <= k < n && a[k].ready,
    decreases n,
{
    if n > 0 {
        lemma_ready_below_bound(a, n - 1);
    }
}

/// A freshly added item is found under the handle it was given.
proof fn lemma_added_item(heap: StorageModel, data: ItemValue, refs: u64)
    requires
        heap.wf(),
        heap.next_id < u64::MAX,
    ensures
        heap.added(data, refs).wf(),
        heap.added(data, refs).contains(heap.next_id),
        heap.added(data, refs).item(heap.next_id).data == data,
{
    let h2 = heap.added(data, refs);
    let last = heap.items.len() as int;
    assert(h2.items[last].id == heap.next_id);
    assert(h2.contains(heap.next_id));
    let k = h2.index(heap.next_id);
    if k != last {
        assert(h2.items[k].id < h2.items[last].id);
    }
}

/// Replacing the data under a contained handle is seen under that handle.
proof fn lemma_with_data_item(heap: StorageModel, h: u64, d: ItemValue)
    requires
        heap.wf(),
        heap.contains(h),
    ensures
        heap.with_data(h, d).wf(),
        heap.with_data(h, d).contains(h),
        heap.with_data(h, d).item(h).data == d,
{
    let h2 = heap.with_data(h, d);
    let i = heap.index(h);
    assert(h2.items[i].id == h);
    assert(h2.contains(h));
    let k = h2.index(h);
    if k != i {
        if k < i {
            assert(h2.items[k].id < h2.items[i].id);
        } else {
            assert(h2.items[i].id < h2.items[k].id);
        }
    }
}

/// `Return` from the outermost frame sets `has_quit` and yields `Quit`.
pub proof fn lemma_return_to_quit(m: MachineModel)
    requires
        m.pending is None,
        m.frames.len() == 1,
        current_skip(m) == 0,
    ensures
        step(m, Instruction::Return).1 == Ok::<Outcome, VmError>(
            Outcome::Status(ExecutionStatus::Quit),
        ),
        step(m, Instruction::Return).0.regs.has_quit,
{
}

/// The conditional instructions move the current frame's skip level by at
/// most one: `EndConditionalBlock` lowers a positive level and leaves 0 at
/// 0, `ExecuteIf` keeps or raises it, `IncreaseSkippingLevel` raises it
/// when it succeeds outside a skipped block. So the level never drops below
/// zero.
pub proof fn lemma_skip_level_steps(m: MachineModel, inst: Instruction)
    requires
        m.pending is None,
        inst is ExecuteIf || inst is IncreaseSkippingLevel || inst is EndConditionalBlock,
    ensures
        ({
            let s = current_skip(m) as int;
            let (m2, r) = step(m, inst);
            let s2 = current_skip(m2) as int;
            &&& inst is EndConditionalBlock ==> s2 == if s > 0 {
                s - 1
            } else {
                0
            }
            &&& inst is ExecuteIf ==> s2 == s || s2 == s + 1
            &&& inst is IncreaseSkippingLevel ==> (s == 0 && r is Ok ==> s2 == s + 1) && (s > 0
                || r is Err ==> s2 == s)
            &&& s2 >= 0
        }),
{
    lemma_ready_below_bound(m.frames, m.frames.len() as int);
    lemma_skip_more(m);
    if current_skip(m) > 0 {
        let k = last_ready(m.frames)->Some_0;
        let f = m.frames[k];
        match inst {
            Instruction::EndConditionalBlock => {
                lemma_current_skip_update(m, k, FrameModel { skip: (f.skip - 1) as u32, ..f });
            },
            Instruction::ExecuteIf(_) => {
                assert(step(m, inst) == skip_more(m));
            },
            _ => {
                assert(step(m, inst).0 == m);
            },
        }
    } else {
        match inst {
            Instruction::EndConditionalBlock => {
                assert(step(m, inst).0 == m);
            },
            Instruction::ExecuteIf(req) => {
                assert(step(m, inst) == execute_if_step(m, req));
            },
            _ => {
                assert(step(m, inst) == skip_more(m));
            },
        }
    }
}

/// Changing the current frame without touching its ready flag changes the
/// skip level to the new frame's.
proof fn lemma_current_skip_update(m: MachineModel, k: int, f: FrameModel)
    requires
        last_ready(m.frames) == Some(k),
        f.ready == m.frames[k].ready,
    ensures
        last_ready(m.with_frame(k, f).frames) == Some(k),
        current_skip(m.with_frame(k, f)) == f.skip,
{
    lemma_ready_below_bound(m.frames, m.frames.len() as int);
    let m2 = m.with_frame(k, f);
    assert forall|j: int| 0 <= j < m.frames.len() implies #[trigger] m.frames[j].ready
        == m2.frames[j].ready by {}
    lemma_ready_below_same_flags(m.frames, m2.frames, m.frames.len() as int);
}

proof fn lemma_skip_more(m: MachineModel)
    ensures
        skip_more(m).1 is Ok ==> current_skip(skip_more(m).0) == current_skip(m) + 1,
        skip_more(m).1 is Err ==> skip_more(m).0 == m,
{
    lemma_ready_below_bound(m.frames, m.frames.len() as int);
    if let Some(k) = last_ready(m.frames) {
        let f = m.frames[k];
        if f.skip < u32::MAX {
            lemma_current_skip_update(m, k, FrameModel { skip: (f.skip + 1) as u32, ..f });
        }
    }
}

/// A list is shared by handle: after `AddToListAtIndex` every slot that
/// holds the list's handle sees the inserted element.
pub proof fn lemma_list_identity(m: MachineModel, h: u64, j: int, a: int)
    requires
        m.wf(),
        m.pending is None,
        current_skip(m) == 0,
        m.regs.intermediate == DynamicValue::List(h),
        m.heap.list(h) is Some,
        0 <= j < m.frames.len(),
        0 <= a < m.frames[j].stack.len(),
        m.frames[j].stack[a] == DynamicValue::List(h),
    ensures
        ({
            let (m2, r) = step(m, Instruction::AddToListAtIndex);
            &&& r == Ok::<Outcome, VmError>(Outcome::Status(ExecutionStatus::Normal))
            &&& m2.frames[j].stack[a] == DynamicValue::List(h)
            &&& m2.heap.list(h) == Some(
                insert_at(m.heap.list(h)->Some_0, m.regs.secondary, m.regs.math_b),
            )
        }),
{
    let l = m.heap.list(h)->Some_0;
    let d = ItemValue::List(insert_at(l, m.regs.secondary, m.regs.math_b));
    lemma_with_data_item(m.heap, h, d);
}

/// Converting an integer to text and the text back to an integer gives the
/// integer back.
pub proof fn lemma_integer_string_round_trip(m: MachineModel, i: i64)
    requires
        m.wf(),
        m.pending is None,
        current_skip(m) == 0,
        m.regs.math_b == DynamicValue::Integer(i),
        last_ready_index(m.frames) is Some,
        m.heap.next_id < u64::MAX,
    ensures
        ({
            let (m1, r1) = step(m, Instruction::ConvertToString);
            let (m2, r2) = step(m1, Instruction::ConvertToInt);
            &&& r1 == Ok::<Outcome, VmError>(Outcome::Status(ExecutionStatus::Normal))
            &&& m1.regs.math_b is Text
            &&& r2 == Ok::<Outcome, VmError>(Outcome::Status(ExecutionStatus::Normal))
            &&& m2.regs.math_b == DynamicValue::Integer(i)
        }),
{
    let t = int_text(i as int);
    let p = seq![crate::protocol::Piece::Text(t)];
    assert(p.drop_last() =~= Seq::<crate::protocol::Piece>::empty());
    assert(Seq::<char>::empty() + t =~= t);
    lemma_added_item(m.heap, ItemValue::Text(t), 0);
    lemma_int_text_round_trip(i);
    assert(render(m.heap, DynamicValue::Integer(i), NESTING_LIMIT as nat) == Ok::<
        Seq<crate::protocol::Piece>,
        VmError,
    >(p));
    assert(pieces_text(p.drop_last()) == Some(Seq::<char>::empty()));
    assert(pieces_text(p) == Some(t));
    let (m1, r1) = step(m, Instruction::ConvertToString);
    let k = last_ready_index(m.frames)->Some_0;
    let h = m.heap.next_id;
    assert(m1.heap == m.heap.added(ItemValue::Text(t), 0));
    assert(m1.regs.math_b == DynamicValue::Text(h));
    assert(m1.heap.text(h) == Some(t));
    assert(m1.frames.len() == m.frames.len());
    assert forall|j: int| 0 <= j < m.frames.len() implies #[trigger] m.frames[j].ready
        == m1.frames[j].ready by {}
    lemma_ready_below_same_flags(m.frames, m1.frames, m.frames.len() as int);
    lemma_ready_below_bound(m.frames, m.frames.len() as int);
}

/// The pairs of a sequence with their sides exchanged.
pub open spec fn swapped(p: Seq<(DynamicValue, DynamicValue)>) -> Seq<(DynamicValue, DynamicValue)> {
    Seq::new(p.len(), |k: int| (p[k].1, p[k].0))
}

/// Comparing `y` with `x` meets the same numeric pairs as comparing `x`
/// with `y`, each with its sides exchanged, and ends in `Equal` exactly when
/// the other does.
pub proof fn lemma_compare_plan_symmetric(heap: StorageModel, x: DynamicValue, y: DynamicValue, fuel: nat)
    ensures
        compare_plan(heap, y, x, fuel).0 == swapped(compare_plan(heap, x, y, fuel).0),
        (compare_plan(heap, x, y, fuel).1 == Ok::<Comparision, VmError>(Comparision::Equal)) <==> (
        compare_plan(heap, y, x, fuel).1 == Ok::<Comparision, VmError>(Comparision::Equal)),
    decreases fuel, 0nat,
{
    let e = Seq::<(DynamicValue, DynamicValue)>::empty();
    assert(swapped(e) =~= e);
    assert(swapped(seq![(x, y)]) =~= seq![(y, x)]);
    match (x, y) {
        (DynamicValue::List(a), DynamicValue::List(b)) => {
            if heap.list(a) is Some && heap.list(b) is Some {
                let ls = heap.list(a)->Some_0;
                let rs = heap.list(b)->Some_0;
                if ls.len() == rs.len() && fuel > 0 {
                    lemma_compare_items_symmetric(heap, ls, rs, (fuel - 1) as nat);
                }
            }
        },
        _ => {},
    }
}

proof fn lemma_compare_items_symmetric(heap: StorageModel, ls: Seq<DynamicValue>, rs: Seq<DynamicValue>, fuel: nat)
    requires
        ls.len() == rs.len(),
    ensures
        compare_items(heap, rs, ls, fuel).0 == swapped(compare_items(heap, ls, rs, fuel).0),
        (compare_items(heap, ls, rs, fuel).1 == Ok::<Comparision, VmError>(Comparision::Equal)) <==> (
        compare_items(heap, rs, ls, fuel).1 == Ok::<Comparision, VmError>(Comparision::Equal)),
    decreases fuel, ls.len() + 1,
{
    if ls.len() == 0 {
        assert(swapped(Seq::<(DynamicValue, DynamicValue)>::empty()) =~= Seq::<
            (DynamicValue, DynamicValue),
        >::empty());
    } else {
        lemma_compare_items_symmetric(heap, ls.drop_last(), rs.drop_last(), fuel);
        lemma_compare_plan_symmetric(heap, ls.last(), rs.last(), fuel);
        let (p, e) = compare_items(heap, ls.drop_last(), rs.drop_last(), fuel);
        let (q, f) = compare_plan(heap, ls.last(), rs.last(), fuel);
        assert(swapped(p + q) =~= swapped(p) + swapped(q));
    }
}

/// A plan settles to `Equal` exactly when every answer is `Equal` and the
/// plan ends in `Equal`.
pub proof fn lemma_settle_equal(answers: Seq<Comparision>, lists: bool, ending: Result<Comparision, VmError>)
    ensures
        (settle(answers, lists, ending) == Ok::<Comparision, VmError>(Comparision::Equal)) <==> ((
        forall|k: int| 0 <= k < answers.len() ==> answers[k] == Comparision::Equal) && ending
            == Ok::<Comparision, VmError>(Comparision::Equal)),
    decreases answers.len(),
{
    if answers.len() > 0 {
        lemma_settle_equal(answers.drop_first(), lists, ending);
        if answers[0] == Comparision::Equal {
            assert forall|k: int| 0 <= k < answers.len() && (forall|k2: int|
                0 <= k2 < answers.drop_first().len() ==> answers.drop_first()[k2]
                    == Comparision::Equal) implies answers[k] == Comparision::Equal by {
                if k > 0 {
                    assert(answers[k] == answers.drop_first()[k - 1]);
                }
            }
        }
    }
}

/// `Compare(x, y)` records `Equal` exactly when `Compare(y, x)` does,
/// given answers to the numeric pairs that agree on which pairs are equal
/// (as IEEE-754 comparison does when the sides are exchanged).
pub proof fn lemma_compare_equality_symmetric(
    heap: StorageModel,
    x: DynamicValue,
    y: DynamicValue,
    answers_xy: Seq<Comparision>,
    answers_yx: Seq<Comparision>,
    fuel: nat,
)
    requires
        answers_xy.len() == compare_plan(heap, x, y, fuel).0.len(),
        answers_yx.len() == answers_xy.len(),
        forall|k: int|
            0 <= k < answers_xy.len() ==> (#[trigger] answers_xy[k] == Comparision::Equal) <==> (
            answers_yx[k] == Comparision::Equal),
    ensures
        compare_plan(heap, y, x, fuel).0 == swapped(compare_plan(heap, x, y, fuel).0),
        (settle(answers_xy, x is List && y is List, compare_plan(heap, x, y, fuel).1) == Ok::<
            Comparision,
            VmError,
        >(Comparision::Equal)) <==> (settle(
            answers_yx,
            y is List && x is List,
            compare_plan(heap, y, x, fuel).1,
        ) == Ok::<Comparision, VmError>(Comparision::Equal)),
{
    lemma_compare_plan_symmetric(heap, x, y, fuel);
    lemma_settle_equal(answers_xy, x is List && y is List, compare_plan(heap, x, y, fuel).1);
    lemma_settle_equal(answers_yx, y is List && x is List, compare_plan(heap, y, x, fuel).1);
    if forall|k: int| 0 <= k < answers_yx.len() ==> answers_yx[k] == Comparision::Equal {
        assert forall|k: int| 0 <= k < answers_xy.len() implies answers_xy[k]
            == Comparision::Equal by {
            assert(answers_yx[k] == Comparision::Equal);
        }
    }
    if forall|k: int| 0 <= k < answers_xy.len() ==> answers_xy[k] == Comparision::Equal {
        assert forall|k: int| 0 <= k < answers_yx.len() implies answers_yx[k]
            == Comparision::Equal by {
            assert(answers_xy[k] == Comparision::Equal);
        }
    }
}

/// Every frame present in both states has the same pc.
pub open spec fn pcs_kept(a: MachineModel, b: MachineModel) -> bool {
    forall|j: int|
        0 <= j < a.frames.len() && j < b.frames.len() ==> #[trigger] b.frames[j].pc
            == a.frames[j].pc
}

proof fn lemma_allocate_keeps_pcs(m: MachineModel, k: int, d: ItemValue)
    ensures
        pcs_kept(m, allocate(m, k, d).0),
        allocate(m, k, d).0.frames.len() == m.frames.len(),
{
}

proof fn lemma_write_keeps_pcs(m: MachineModel, v: DynamicValue, k: int, a: usize)
    ensures
        pcs_kept(m, write_slot(m, v, k, a).0),
        write_slot(m, v, k, a).0.frames.len() == m.frames.len(),
{
}

proof fn lemma_arith_keeps_pcs(m: MachineModel, op: ArithOp, l: DynamicValue, r: DynamicValue)
    ensures
        pcs_kept(m, arith(m, op, l, r).0),
        arith(m, op, l, r).0.frames.len() == m.frames.len(),
{
    if let Some(k) = last_ready_index(m.frames) {
        let m1 = m.with_regs(Registers { first_operation: false, ..m.regs });
        lemma_allocate_keeps_pcs(m1, k, ItemValue::Text(Seq::empty()));
        if l is Text && r is Text && m.heap.text(l->Text_0) is Some && m.heap.text(r->Text_0) is Some {
            let ls = m.heap.text(l->Text_0)->Some_0;
            let rs = m.heap.text(r->Text_0)->Some_0;
            lemma_allocate_keeps_pcs(m1, k, ItemValue::Text(ls + rs));
            lemma_allocate_keeps_pcs(m1, k, ItemValue::Text(rs + ls));
        }
        if l is List && r is List && m.heap.list(l->List_0) is Some && m.heap.list(r->List_0) is Some {
            let ls = m.heap.list(l->List_0)->Some_0;
            let rs = m.heap.list(r->List_0)->Some_0;
            lemma_allocate_keeps_pcs(m, k, ItemValue::List(ls + rs));
        }
    }
}

proof fn lemma_allocate_current_keeps_pcs(m: MachineModel, d: ItemValue)
    ensures
        pcs_kept(m, allocate_current(m, d).0),
        allocate_current(m, d).0.frames.len() == m.frames.len(),
{
    if let Some(k) = last_ready_index(m.frames) {
        lemma_allocate_keeps_pcs(m, k, d);
    }
}

proof fn lemma_arith_step_keeps_pcs(m: MachineModel, op: ArithOp)
    ensures
        pcs_kept(m, arith_step(m, op).0),
{
    lemma_arith_keeps_pcs(m, op, m.regs.math_a, m.regs.math_b);
}

proof fn lemma_list_step_keeps_pcs(m: MachineModel, inst: Instruction)
    ensures
        pcs_kept(m, list_step(m, inst).0),
{
    lemma_allocate_current_keeps_pcs(m, ItemValue::List(Seq::empty()));
}

proof fn lemma_var_step_keeps_pcs(m: MachineModel, inst: Instruction)
    ensures
        pcs_kept(m, var_step(m, inst).0),
{
    match inst {
        Instruction::WriteGlobalVarTo(a) => lemma_write_keeps_pcs(m, m.regs.math_b, 0, a),
        Instruction::WriteVarTo(a) => {
            if let Some(k) = last_ready_index(m.frames) {
                lemma_write_keeps_pcs(m, m.regs.math_b, k, a);
            }
        },
        Instruction::WriteVarToLast(a) => lemma_write_keeps_pcs(
            m,
            m.regs.math_b,
            m.frames.len() - 1,
            a,
        ),
        _ => {},
    }
}

proof fn lemma_convert_step_keeps_pcs(m: MachineModel, inst: Instruction)
    ensures
        pcs_kept(m, convert_step(m, inst).0),
{
    if let Ok(p) = render(m.heap, m.regs.math_b, NESTING_LIMIT as nat) {
        if let Some(t) = pieces_text(p) {
            lemma_allocate_current_keeps_pcs(m, ItemValue::Text(t));
        }
    }
}

proof fn lemma_register_step_keeps_pcs(m: MachineModel, inst: Instruction)
    ensures
        pcs_kept(m, register_step(m, inst).0),
{
    match inst {
        Instruction::PushValMathA(RawValue::Text(t)) | Instruction::PushValMathB(RawValue::Text(t)) => {
            let k = match last_ready_index(m.frames) {
                Some(k) => k,
                None => 0,
            };
            lemma_allocate_keeps_pcs(m, k, ItemValue::Text(t@));
        },
        _ => {},
    }
}

proof fn lemma_control_step_keeps_pcs(m: MachineModel, inst: Instruction)
    ensures
        pcs_kept(m, control_step(m, inst).0),
{
    match inst {
        Instruction::Return => {
            assert(control_step(m, inst) == return_step(m));
            if m.frames.len() > 1 {
                let popped = MachineModel { frames: m.frames.drop_last(), ..m };
                lemma_write_keeps_pcs(popped, m.regs.math_b, popped.frames.len() - 1, 0);
                let m1 = write_slot(popped, m.regs.math_b, popped.frames.len() - 1, 0).0;
                assert(control_step(m, inst) == return_step(m));
                let m2 = control_step(m, inst).0;
                assert(m2.frames == m1.frames);
                assert forall|j: int|
                    0 <= j < m.frames.len() && j < m2.frames.len() implies #[trigger] m2.frames[j].pc
                    == m.frames[j].pc by {
                    assert(popped.frames[j] == m.frames[j]);
                    assert(m1.frames[j].pc == popped.frames[j].pc);
                }
            }
        },
        Instruction::MakeNewFrame(id) => {
            assert(pcs_kept(m, control_step(m, inst).0));
        },
        Instruction::ExecuteIf(req) => {
            assert(control_step(m, inst) == execute_if_step(m, req));
            lemma_skip_more_keeps_pcs(m);
        },
        Instruction::IncreaseSkippingLevel => {
            lemma_skip_more_keeps_pcs(m);
        },
        Instruction::SetLastFrameReady => {
            let m2 = control_step(m, inst).0;
            assert forall|j: int|
                0 <= j < m.frames.len() && j < m2.frames.len() implies #[trigger] m2.frames[j].pc
                == m.frames[j].pc by {
                if j == m.frames.len() - 1 {
                }
            }
        },
        _ => {},
    }
}

proof fn lemma_skip_more_keeps_pcs(m: MachineModel)
    ensures
        pcs_kept(m, skip_more(m).0),
{
    lemma_ready_below_bound(m.frames, m.frames.len() as int);
    let m2 = skip_more(m).0;
    assert forall|j: int|
        0 <= j < m.frames.len() && j < m2.frames.len() implies #[trigger] m2.frames[j].pc
        == m.frames[j].pc by {
        if let Some(k) = last_ready(m.frames) {
            if j == k {
            }
        }
    }
}

/// Every instruction but `RestoreLoopLabel` leaves the pc of every frame
/// that it does not remove as it was.
pub proof fn lemma_step_keeps_pcs(m: MachineModel, inst: Instruction)
    requires
        !(inst is RestoreLoopLabel),
    ensures
        pcs_kept(m, step(m, inst).0),
{
    lemma_ready_below_bound(m.frames, m.frames.len() as int);
    if m.pending is None && current_skip(m) > 0 {
        let k = last_ready(m.frames)->Some_0;
        let m2 = step(m, inst).0;
        assert forall|j: int|
            0 <= j < m.frames.len() && j < m2.frames.len() implies #[trigger] m2.frames[j].pc
            == m.frames[j].pc by {
            if j == k {
            }
        }
    }
    if m.pending is None && current_skip(m) == 0 {
        assert(step(m, inst) == dispatch(m, inst));
        match inst {
            Instruction::Add => lemma_arith_step_keeps_pcs(m, ArithOp::Add),
            Instruction::Sub => lemma_arith_step_keeps_pcs(m, ArithOp::Sub),
            Instruction::Mul => lemma_arith_step_keeps_pcs(m, ArithOp::Mul),
            Instruction::Div => lemma_arith_step_keeps_pcs(m, ArithOp::Div),
            Instruction::Compare => {},
            Instruction::AddLoopLabel | Instruction::PopLoopLabel
            | Instruction::RegisterIncrementOnRestore(_) => {},
            Instruction::MakeNewList | Instruction::IndexList | Instruction::AddToListAtIndex
            | Instruction::RemoveFromListAtIndex | Instruction::QueryListSize => lemma_list_step_keeps_pcs(m, inst),
            Instruction::ReadGlobalVarFrom(_) | Instruction::WriteGlobalVarTo(_)
            | Instruction::ReadVarFrom(_) | Instruction::WriteVarTo(_)
            | Instruction::WriteVarToLast(_) | Instruction::TryDecrementRefAt(_) => lemma_var_step_keeps_pcs(m, inst),
            Instruction::ConvertToInt | Instruction::ConvertToNum | Instruction::ConvertToString => lemma_convert_step_keeps_pcs(m, inst),
            Instruction::Quit | Instruction::Halt | Instruction::Return | Instruction::ExecuteIf(_)
            | Instruction::IncreaseSkippingLevel | Instruction::MakeNewFrame(_)
            | Instruction::SetLastFrameReady | Instruction::CallPlugin(_, _)
            | Instruction::ReadInput | Instruction::PrintMathB | Instruction::PrintMathBDebug
            | Instruction::PrintNewLine => lemma_control_step_keeps_pcs(m, inst),
            _ => lemma_register_step_keeps_pcs(m, inst),
        }
    }
}

/// Outside loops the pc moves by exactly one per executed instruction: the
/// frame that executes an instruction other than `RestoreLoopLabel` ends
/// one past it, unless the instruction removed that frame.
pub proof fn lemma_pc_advances(m: MachineModel)
    requires
        m.pending is None,
        last_ready(m.frames) is Some,
        ({
            let f = m.frames[last_ready(m.frames)->Some_0];
            f.id < m.code.len() && f.pc < m.code[f.id as int].len() && f.pc < usize::MAX && !(
            m.code[f.id as int][f.pc as int] is RestoreLoopLabel)
        }),
    ensures
        ({
            let k = last_ready(m.frames)->Some_0;
            let m2 = execute_next(m).0;
            k < m2.frames.len() ==> m2.frames[k].pc == m.frames[k].pc + 1
        }),
{
    lemma_ready_below_bound(m.frames, m.frames.len() as int);
    let k = last_ready(m.frames)->Some_0;
    let f = m.frames[k];
    let m1 = m.with_frame(k, FrameModel { pc: (f.pc + 1) as usize, ..f });
    assert(execute_next(m) == step(m1, m.code[f.id as int][f.pc as int]));
    lemma_step_keeps_pcs(m1, m.code[f.id as int][f.pc as int]);
}

/// Every item of `a` is still in `b`.
pub open spec fn items_kept(a: StorageModel, b: StorageModel) -> bool {
    forall|h: u64| #[trigger] a.contains(h) ==> b.contains(h)
}

/// Every item of `a` is still in `b`, unless its count was at most one.
pub open spec fn items_released(a: StorageModel, b: StorageModel) -> bool {
    forall|h: u64| #[trigger] a.contains(h) ==> b.contains(h) || a.item(h).refs <= 1
}

/// Every item of `a` is still in `b`, with the same count.
pub open spec fn items_same(a: StorageModel, b: StorageModel) -> bool {
    forall|h: u64| #[trigger] a.contains(h) ==> b.contains(h) && b.item(h).refs == a.item(h).refs
}

proof fn lemma_index_stable(a: StorageModel, b: StorageModel, h: u64)
    requires
        a.wf(),
        b.wf(),
        a.contains(h),
        a.index(h) < b.items.len(),
        b.items[a.index(h)] == a.items[a.index(h)],
    ensures
        b.contains(h),
        b.item(h) == a.item(h),
{
    let i = a.index(h);
    assert(b.items[i].id == h);
    let k = b.index(h);
    if k < i {
        assert(b.items[k].id < b.items[i].id);
    } else if k > i {
        assert(b.items[i].id < b.items[k].id);
    }
}

proof fn lemma_added_same(heap: StorageModel, d: ItemValue, refs: u64)
    requires
        heap.wf(),
        heap.next_id < u64::MAX,
    ensures
        items_same(heap, heap.added(d, refs)),
        heap.added(d, refs).wf(),
{
    lemma_added_item(heap, d, refs);
    assert forall|h: u64| #[trigger] heap.contains(h) implies heap.added(d, refs).contains(h)
        && heap.added(d, refs).item(h).refs == heap.item(h).refs by {
        lemma_index_stable(heap, heap.added(d, refs), h);
    }
}

proof fn lemma_with_data_same(heap: StorageModel, x: u64, d: ItemValue)
    requires
        heap.wf(),
        heap.contains(x),
    ensures
        items_same(heap, heap.with_data(x, d)),
        heap.with_data(x, d).wf(),
{
    lemma_with_data_item(heap, x, d);
    let h2 = heap.with_data(x, d);
    assert forall|h: u64| #[trigger] heap.contains(h) implies h2.contains(h) && h2.item(h).refs
        == heap.item(h).refs by {
        let i = heap.index(h);
        assert(h2.items[i].id == h);
        let k = h2.index(h);
        if k < i {
            assert(h2.items[k].id < h2.items[i].id);
        } else if k > i {
            assert(h2.items[i].id < h2.items[k].id);
        }
    }
}

proof fn lemma_incremented_keeps(heap: StorageModel, x: u64)
    requires
        heap.contains(x),
    ensures
        items_kept(heap, heap.incremented(x)),
{
    let h2 = heap.incremented(x);
    assert forall|h: u64| #[trigger] heap.contains(h) implies h2.contains(h) by {
        let i = heap.index(h);
        assert(h2.items[i].id == h);
    }
}

proof fn lemma_decremented_releases(heap: StorageModel, x: u64)
    requires
        heap.wf(),
    ensures
        items_released(heap, heap.decremented(x)),
        heap.decremented(x).wf(),
{
    let h2 = heap.decremented(x);
    if heap.contains(x) {
        let ix = heap.index(x);
        assert forall|h: u64| #[trigger] heap.contains(h) implies h2.contains(h) || heap.item(h).refs
            <= 1 by {
            let i = heap.index(h);
            if heap.item(x).refs <= 1 {
                if i != ix {
                    let i2 = if i < ix {
                        i
                    } else {
                        i - 1
                    };
                    assert(h2.items[i2].id == h);
                } else {
                    assert(heap.items[i].id == heap.items[ix].id);
                }
            } else {
                assert(h2.items[i].id == h);
            }
        }
        if heap.item(x).refs <= 1 {
            assert forall|a: int, b: int| 0 <= a < b < h2.items.len() implies #[trigger] h2.items[a].id
                < #[trigger] h2.items[b].id by {
                let a2 = if a < ix {
                    a
                } else {
                    a + 1
                };
                let b2 = if b < ix {
                    b
                } else {
                    b + 1
                };
                assert(h2.items[a] == heap.items[a2]);
                assert(h2.items[b] == heap.items[b2]);
            }
            assert forall|a: int| 0 <= a < h2.items.len() implies #[trigger] h2.items[a].id
                < h2.next_id by {
                let a2 = if a < ix {
                    a
                } else {
                    a + 1
                };
                assert(h2.items[a] == heap.items[a2]);
            }
        }
    }
}

proof fn lemma_allocate_same(m: MachineModel, k: int, d: ItemValue)
    requires
        m.heap.wf(),
    ensures
        items_same(m.heap, allocate(m, k, d).0.heap),
        allocate(m, k, d).0.heap.wf(),
{
    if m.heap.next_id < u64::MAX {
        lemma_added_same(m.heap, d, 0);
    }
}

proof fn lemma_allocate_current_same(m: MachineModel, d: ItemValue)
    requires
        m.heap.wf(),
    ensures
        items_same(m.heap, allocate_current(m, d).0.heap),
        allocate_current(m, d).0.heap.wf(),
{
    if let Some(k) = last_ready_index(m.frames) {
        lemma_allocate_same(m, k, d);
    }
}

proof fn lemma_write_releases(m: MachineModel, v: DynamicValue, k: int, a: usize)
    requires
        m.heap.wf(),
    ensures
        items_released(m.heap, write_slot(m, v, k, a).0.heap),
        write_slot(m, v, k, a).0.heap.wf(),
{
    if 0 <= k < m.frames.len() && a < m.frames[k].stack.len() {
        let released = match handle_of(m.frames[k].stack[a as int]) {
            Some(h) => m.heap.decremented(h),
            None => m.heap,
        };
        if let Some(h) = handle_of(m.frames[k].stack[a as int]) {
            lemma_decremented_releases(m.heap, h);
        }
        if let Some(h) = handle_of(v) {
            if released.can_increment(h) {
                lemma_incremented_keeps(released, h);
                let h3 = released.incremented(h);
                let i = released.index(h);
                assert(h3.items =~= released.items.update(i, h3.items[i]));
            }
        }
    }
}

proof fn lemma_arith_same(m: MachineModel, op: ArithOp, l: DynamicValue, r: DynamicValue)
    requires
        m.heap.wf(),
    ensures
        items_same(m.heap, arith(m, op, l, r).0.heap),
        arith(m, op, l, r).0.heap.wf(),
{
    let m1 = m.with_regs(Registers { first_operation: false, ..m.regs });
    if l is Text && r is Text && m.heap.text(l->Text_0) is Some && m.heap.text(r->Text_0) is Some {
        let ls = m.heap.text(l->Text_0)->Some_0;
        let rs = m.heap.text(r->Text_0)->Some_0;
        lemma_allocate_current_same(m1, ItemValue::Text(ls + rs));
        lemma_allocate_current_same(m1, ItemValue::Text(rs + ls));
    }
    if l is List && r is List && m.heap.list(l->List_0) is Some && m.heap.list(r->List_0) is Some {
        let ls = m.heap.list(l->List_0)->Some_0;
        let rs = m.heap.list(r->List_0)->Some_0;
        lemma_allocate_current_same(m, ItemValue::List(ls + rs));
    }
}

proof fn lemma_same_then_released(a: StorageModel, b: StorageModel, c: StorageModel)
    requires
        items_same(a, b),
        items_released(b, c),
    ensures
        items_released(a, c),
{
    assert forall|h: u64| #[trigger] a.contains(h) implies c.contains(h) || a.item(h).refs <= 1 by {
        assert(b.contains(h));
    }
}

proof fn lemma_restore_releases(m: MachineModel)
    requires
        m.heap.wf(),
    ensures
        items_released(m.heap, restore_step(m).0.heap),
{
    lemma_ready_below_bound(m.frames, m.frames.len() as int);
    if let Some(k) = last_ready(m.frames) {
        let f = m.frames[k];
        if f.labels.len() > 0 {
            let label = f.labels.last();
            let m1 = m.with_frame(k, FrameModel { pc: label.start_pc, ..f });
            if let Some(a) = label.index_address {
                if let Some(j) = last_ready_index(m1.frames) {
                    if let Ok(cur) = read_slot(m1, j, a) {
                        lemma_arith_same(m1, ArithOp::Add, cur, label.stepping);
                        let m2 = arith(m1, ArithOp::Add, cur, label.stepping).0;
                        if let Ok(Computed::Value(v)) = arith(m1, ArithOp::Add, cur, label.stepping).1 {
                            lemma_write_releases(m2, v, j, a);
                            lemma_same_then_released(m.heap, m2.heap, write_slot(m2, v, j, a).0.heap);
                        }
                    }
                }
            }
        }
    }
}

/// A heap handle stays valid until its count reaches zero: executing an
/// instruction removes an item from the heap only by releasing a reference
/// to it while its count is at most one.
pub proof fn lemma_handles_stay_valid(m: MachineModel, inst: Instruction)
    requires
        m.wf(),
    ensures
        items_released(m.heap, step(m, inst).0.heap),
{
    let m2 = step(m, inst).0;
    if m.pending is Some || current_skip(m) > 0 {
        assert(m2.heap == m.heap);
    } else {
        assert(step(m, inst) == dispatch(m, inst));
        match inst {
            Instruction::Add => lemma_arith_same(m, ArithOp::Add, m.regs.math_a, m.regs.math_b),
            Instruction::Sub => lemma_arith_same(m, ArithOp::Sub, m.regs.math_a, m.regs.math_b),
            Instruction::Mul => lemma_arith_same(m, ArithOp::Mul, m.regs.math_a, m.regs.math_b),
            Instruction::Div => lemma_arith_same(m, ArithOp::Div, m.regs.math_a, m.regs.math_b),
            Instruction::RestoreLoopLabel => lemma_restore_releases(m),
            Instruction::MakeNewList => lemma_allocate_current_same(m, ItemValue::List(Seq::empty())),
            Instruction::AddToListAtIndex => {
                if let DynamicValue::List(h) = m.regs.intermediate {
                    if let Some(l) = m.heap.list(h) {
                        lemma_with_data_same(
                            m.heap,
                            h,
                            ItemValue::List(insert_at(l, m.regs.secondary, m.regs.math_b)),
                        );
                    }
                }
            },
            Instruction::RemoveFromListAtIndex => {
                if let (DynamicValue::Integer(i), DynamicValue::List(h)) = (
                    m.regs.math_b,
                    m.regs.intermediate,
                ) {
                    if let Some(l) = m.heap.list(h) {
                        lemma_with_data_same(m.heap, h, ItemValue::List(l.remove(i as int)));
                    }
                }
            },
            Instruction::WriteGlobalVarTo(a) => lemma_write_releases(m, m.regs.math_b, 0, a),
            Instruction::WriteVarTo(a) => {
                if let Some(k) = last_ready_index(m.frames) {
                    lemma_write_releases(m, m.regs.math_b, k, a);
                }
            },
            Instruction::WriteVarToLast(a) => lemma_write_releases(
                m,
                m.regs.math_b,
                m.frames.len() - 1,
                a,
            ),
            Instruction::TryDecrementRefAt(a) => {
                if let Some(k) = last_ready_index(m.frames) {
                    if let Ok(v) = read_slot(m, k, a) {
                        if let Some(h) = handle_of(v) {
                            lemma_decremented_releases(m.heap, h);
                        }
                    }
                }
            },
            Instruction::ConvertToString => {
                if let Ok(p) = render(m.heap, m.regs.math_b, NESTING_LIMIT as nat) {
                    if let Some(t) = pieces_text(p) {
                        lemma_allocate_current_same(m, ItemValue::Text(t));
                    }
                }
            },
            Instruction::PushValMathA(RawValue::Text(t)) | Instruction::PushValMathB(RawValue::Text(t)) => {
                let k = match last_ready_index(m.frames) {
                    Some(k) => k,
                    None => 0,
                };
                lemma_allocate_same(m, k, ItemValue::Text(t@));
            },
            Instruction::Return => {
                assert(control_step(m, inst) == return_step(m));
                if m.frames.len() > 1 {
                    let popped = MachineModel { frames: m.frames.drop_last(), ..m };
                    lemma_write_releases(popped, m.regs.math_b, popped.frames.len() - 1, 0);
                }
            },
            _ => {
                assert(m2.heap == m.heap);
            },
        }
    }
}

/// The same holds when the embedder's answer completes an instruction.
pub proof fn lemma_handles_stay_valid_on_resume(m: MachineModel, a: Answer)
    requires
        m.wf(),
    ensures
        items_released(m.heap, resume(m, a).0.heap),
{
    if let Some(p) = m.pending {
        let m0 = m.with_pending(None);
        match p {
            Pending::Slot(k, addr) => {
                if let Answer::Number(n) = a {
                    lemma_write_releases(m0, DynamicValue::Number(n), k as int, addr);
                }
            },
            Pending::NewText => {
                if let Answer::Text(t) = a {
                    lemma_allocate_current_same(m0, ItemValue::Text(t));
                }
            },
            Pending::Input => {
                if let Answer::Input(Some(t)) = a {
                    if let Some(k) = last_ready_index(m0.frames) {
                        lemma_allocate_same(m0, k, ItemValue::Text(t));
                    }
                }
            },
            Pending::Plugin => {
                if let Answer::Plugin(Some(v)) = a {
                    if m0.frames.len() > 0 {
                        lemma_write_releases(m0, v, m0.frames.len() - 1, 0);
                    }
                }
            },
            _ => {},
        }
    }
}

/// Whether a value carries the heap handle `h`.
pub open spec fn holds(v: DynamicValue, h: u64) -> bool {
    handle_of(v) == Some(h)
}

/// How many slots of a stack hold `h`.
pub open spec fn count_in(s: Seq<DynamicValue>, h: u64) -> nat
    decreases s.len(),
{
    if s.len() == 0 {
        0
    } else {
        count_in(s.drop_last(), h) + if holds(s.last(), h) {
            1nat
        } else {
            0nat
        }
    }
}

/// How many slots of all frames hold `h`.
pub open spec fn occurrences(frames: Seq<FrameModel>, h: u64) -> nat
    decreases frames.len(),
{
    if frames.len() == 0 {
        0
    } else {
        occurrences(frames.drop_last(), h) + count_in(frames.last().stack, h)
    }
}

/// Every handle held in a slot names a live item whose count is at least
/// the number of slots that hold it.
pub open spec fn slots_counted(m: MachineModel) -> bool {
    forall|h: u64|
        #[trigger] occurrences(m.frames, h) > 0 ==> m.heap.contains(h) && m.heap.item(h).refs
            >= occurrences(m.frames, h)
}

/// Every text or list slot of every frame resolves to a live heap item.
pub open spec fn no_dangling_slots(m: MachineModel) -> bool {
    forall|j: int, a: int|
        0 <= j < m.frames.len() && 0 <= a < m.frames[j].stack.len() && #[trigger] handle_of(
            m.frames[j].stack[a],
        ) is Some ==> m.heap.contains(handle_of(m.frames[j].stack[a])->Some_0)
}

proof fn lemma_count_update(s: Seq<DynamicValue>, a: int, v: DynamicValue, h: u64)
    requires
        0 <= a < s.len(),
    ensures
        count_in(s.update(a, v), h) as int == count_in(s, h) as int - (if holds(s[a], h) {
            1int
        } else {
            0int
        }) + (if holds(v, h) {
            1int
        } else {
            0int
        }),
    decreases s.len(),
{
    if a == s.len() - 1 {
        assert(s.update(a, v).drop_last() =~= s.drop_last());
    } else {
        lemma_count_update(s.drop_last(), a, v, h);
        assert(s.update(a, v).drop_last() =~= s.drop_last().update(a, v));
    }
}

proof fn lemma_count_positive(s: Seq<DynamicValue>, a: int, h: u64)
    requires
        0 <= a < s.len(),
        holds(s[a], h),
    ensures
        count_in(s, h) >= 1,
    decreases s.len(),
{
    if a < s.len() - 1 {
        lemma_count_positive(s.drop_last(), a, h);
    }
}

proof fn lemma_count_nulls(n: nat, h: u64)
    ensures
        count_in(Seq::new(n, |k: int| DynamicValue::Null), h) == 0,
    decreases n,
{
    if n > 0 {
        lemma_count_nulls((n - 1) as nat, h);
        assert(Seq::new(n, |k: int| DynamicValue::Null).drop_last() =~= Seq::new(
            (n - 1) as nat,
            |k: int| DynamicValue::Null,
        ));
    }
}

proof fn lemma_occurrences_update(frames: Seq<FrameModel>, k: int, f: FrameModel, h: u64)
    requires
        0 <= k < frames.len(),
    ensures
        occurrences(frames.update(k, f), h) as int == occurrences(frames, h) as int - count_in(
            frames[k].stack,
            h,
        ) as int + count_in(f.stack, h) as int,
    decreases frames.len(),
{
    if k == frames.len() - 1 {
        assert(frames.update(k, f).drop_last() =~= frames.drop_last());
    } else {
        lemma_occurrences_update(frames.drop_last(), k, f, h);
        assert(frames.update(k, f).drop_last() =~= frames.drop_last().update(k, f));
    }
}

proof fn lemma_occurrences_counted(frames: Seq<FrameModel>, j: int, h: u64)
    requires
        0 <= j < frames.len(),
    ensures
        occurrences(frames, h) >= count_in(frames[j].stack, h),
    decreases frames.len(),
{
    if j < frames.len() - 1 {
        lemma_occurrences_counted(frames.drop_last(), j, h);
    }
}

proof fn lemma_occurrences_same_stacks(a: Seq<FrameModel>, b: Seq<FrameModel>, h: u64)
    requires
        a.len() == b.len(),
        forall|j: int| 0 <= j < a.len() ==> #[trigger] a[j].stack == b[j].stack,
    ensures
        occurrences(a, h) == occurrences(b, h),
    decreases a.len(),
{
    if a.len() > 0 {
        lemma_occurrences_same_stacks(a.drop_last(), b.drop_last(), h);
    }
}

/// The counting invariant rules out dangling slots.
pub proof fn lemma_counted_slots_resolve(m: MachineModel)
    requires
        slots_counted(m),
    ensures
        no_dangling_slots(m),
{
    assert forall|j: int, a: int|
        0 <= j < m.frames.len() && 0 <= a < m.frames[j].stack.len() && #[trigger] handle_of(
            m.frames[j].stack[a],
        ) is Some implies m.heap.contains(handle_of(m.frames[j].stack[a])->Some_0) by {
        let h = handle_of(m.frames[j].stack[a])->Some_0;
        lemma_count_positive(m.frames[j].stack, a, h);
        lemma_occurrences_counted(m.frames, j, h);
    }
}

/// States whose stacks agree and whose heaps keep every item with its count
/// keep the invariant.
proof fn lemma_counted_same(m: MachineModel, m2: MachineModel)
    requires
        slots_counted(m),
        m.frames.len() == m2.frames.len(),
        forall|j: int| 0 <= j < m.frames.len() ==> #[trigger] m.frames[j].stack == m2.frames[j].stack,
        items_same(m.heap, m2.heap),
    ensures
        slots_counted(m2),
{
    assert forall|h: u64| #[trigger] occurrences(m2.frames, h) > 0 implies m2.heap.contains(h)
        && m2.heap.item(h).refs >= occurrences(m2.frames, h) by {
        lemma_occurrences_same_stacks(m.frames, m2.frames, h);
    }
}

proof fn lemma_counted_allocate(m: MachineModel, k: int, d: ItemValue)
    requires
        m.heap.wf(),
        slots_counted(m),
    ensures
        slots_counted(allocate(m, k, d).0),
{
    lemma_allocate_same(m, k, d);
    let m2 = allocate(m, k, d).0;
    assert forall|j: int| 0 <= j < m.frames.len() implies #[trigger] m.frames[j].stack
        == m2.frames[j].stack by {}
    lemma_counted_same(m, m2);
}

proof fn lemma_counted_allocate_current(m: MachineModel, d: ItemValue)
    requires
        m.heap.wf(),
        slots_counted(m),
    ensures
        slots_counted(allocate_current(m, d).0),
{
    if let Some(k) = last_ready_index(m.frames) {
        lemma_counted_allocate(m, k, d);
    }
}

proof fn lemma_counted_write(m: MachineModel, v: DynamicValue, k: int, a: usize)
    requires
        m.heap.wf(),
        slots_counted(m),
        write_slot(m, v, k, a).1 is Ok,
    ensures
        slots_counted(write_slot(m, v, k, a).0),
{
    let m2 = write_slot(m, v, k, a).0;
    let f = m.frames[k];
    let old = f.stack[a as int];
    let released = match handle_of(old) {
        Some(x) => m.heap.decremented(x),
        None => m.heap,
    };
    if let Some(x) = handle_of(old) {
        lemma_decremented_releases(m.heap, x);
    }
    assert forall|h: u64| #[trigger] occurrences(m2.frames, h) > 0 implies m2.heap.contains(h)
        && m2.heap.item(h).refs >= occurrences(m2.frames, h) by {
        lemma_count_update(f.stack, a as int, v, h);
        lemma_occurrences_update(m.frames, k, FrameModel { stack: f.stack.update(a as int, v), ..f }, h);
        lemma_occurrences_counted(m.frames, k, h);
        lemma_count_positive_if(f.stack, a as int, h);
        assert(m2.frames == m.frames.update(k, FrameModel { stack: f.stack.update(a as int, v), ..f }));
        lemma_heap_after_write(m.heap, handle_of(old), handle_of(v), h);
    }
}

proof fn lemma_count_positive_if(s: Seq<DynamicValue>, a: int, h: u64)
    requires
        0 <= a < s.len(),
    ensures
        holds(s[a], h) ==> count_in(s, h) >= 1,
{
    if holds(s[a], h) {
        lemma_count_positive(s, a, h);
    }
}

/// What a slot write does to the count of one handle: the old value's
/// reference is released, then one to the new value taken.
proof fn lemma_heap_after_write(heap: StorageModel, old: Option<u64>, new: Option<u64>, h: u64)
    requires
        heap.wf(),
        ({
            let released = match old {
                Some(x) => heap.decremented(x),
                None => heap,
            };
            new matches Some(y) ==> released.can_increment(y)
        }),
    ensures
        ({
            let released = match old {
                Some(x) => heap.decremented(x),
                None => heap,
            };
            let after = match new {
                Some(y) => released.incremented(y),
                None => released,
            };
            let before_refs = if heap.contains(h) {
                heap.item(h).refs as int
            } else {
                0int
            };
            let minus = if old == Some(h) {
                1int
            } else {
                0int
            };
            let plus = if new == Some(h) {
                1int
            } else {
                0int
            };
            &&& after.wf()
            &&& (after.contains(h) ==> after.item(h).refs as int >= before_refs - minus + plus)
            &&& (new == Some(h) ==> after.contains(h))
            &&& (heap.contains(h) && before_refs - minus + plus > 0 ==> after.contains(h))
        }),
{
    let released = match old {
        Some(x) => heap.decremented(x),
        None => heap,
    };
    if let Some(x) = old {
        lemma_decremented_releases(heap, x);
        if heap.contains(h) {
            if heap.contains(x) {
                let ix = heap.index(x);
                let i = heap.index(h);
                if heap.item(x).refs <= 1 {
                    if i != ix {
                        let i2 = if i < ix {
                            i
                        } else {
                            i - 1
                        };
                        assert(released.items[i2] == heap.items[i]);
                        lemma_index_stable_at(heap, released, h, i2);
                    }
                } else {
                    assert(released.items[i].id == heap.items[i].id);
                    lemma_index_stable_at(heap, released, h, i);
                }
            } else {
                assert(released == heap);
            }
        }
    }
    if let Some(y) = new {
        let after = released.incremented(y);
        let iy = released.index(y);
        assert(after.items =~= released.items.update(iy, after.items[iy]));
        if released.contains(h) {
            let i = released.index(h);
            assert(after.items[i].id == h);
            lemma_index_stable_at(released, after, h, i);
        }
    }
}

proof fn lemma_index_stable_at(a: StorageModel, b: StorageModel, h: u64, i: int)
    requires
        a.wf(),
        b.wf(),
        a.contains(h),
        0 <= i < b.items.len(),
        b.items[i].id == h,
        b.items[i].refs == a.item(h).refs || b.items[i].refs == a.item(h).refs + 1 || b.items[i].refs
            == a.item(h).refs - 1,
    ensures
        b.contains(h),
        b.index(h) == i,
{
    let k = b.index(h);
    if k < i {
        assert(b.items[k].id < b.items[i].id);
    } else if k > i {
        assert(b.items[i].id < b.items[k].id);
    }
}

proof fn lemma_counted_same_heap_stacks(m: MachineModel, m2: MachineModel)
    requires
        slots_counted(m),
        m2.heap == m.heap,
        m2.frames.len() == m.frames.len(),
        forall|j: int| 0 <= j < m.frames.len() ==> #[trigger] m.frames[j].stack == m2.frames[j].stack,
    ensures
        slots_counted(m2),
{
    lemma_counted_same(m, m2);
}

proof fn lemma_counted_pop(m: MachineModel)
    requires
        slots_counted(m),
        m.frames.len() > 0,
    ensures
        slots_counted(MachineModel { frames: m.frames.drop_last(), ..m }),
{
    let m2 = MachineModel { frames: m.frames.drop_last(), ..m };
    assert forall|h: u64| #[trigger] occurrences(m2.frames, h) > 0 implies m2.heap.contains(h)
        && m2.heap.item(h).refs >= occurrences(m2.frames, h) by {
        assert(occurrences(m.frames, h) >= occurrences(m2.frames, h));
    }
}

proof fn lemma_counted_restore(m: MachineModel)
    requires
        m.heap.wf(),
        slots_counted(m),
        restore_step(m).1 is Ok,
    ensures
        slots_counted(restore_step(m).0),
{
    lemma_ready_below_bound(m.frames, m.frames.len() as int);
    let k = last_ready(m.frames)->Some_0;
    let f = m.frames[k];
    let label = f.labels.last();
    let m1 = m.with_frame(k, FrameModel { pc: label.start_pc, ..f });
    lemma_counted_same_heap_stacks(m, m1);
    if let Some(a) = label.index_address {
        let j = last_ready_index(m1.frames)->Some_0;
        let cur = read_slot(m1, j, a)->Ok_0;
        lemma_arith_same(m1, ArithOp::Add, cur, label.stepping);
        let m2 = arith(m1, ArithOp::Add, cur, label.stepping).0;
        assert forall|i: int| 0 <= i < m1.frames.len() implies #[trigger] m1.frames[i].stack
            == m2.frames[i].stack by {}
        lemma_counted_same(m1, m2);
        if let Ok(Computed::Value(v)) = arith(m1, ArithOp::Add, cur, label.stepping).1 {
            lemma_counted_write(m2, v, j, a);
        }
    }
}

proof fn lemma_counted_unchanged(m: MachineModel, m2: MachineModel)
    requires
        slots_counted(m),
        m2.heap == m.heap,
        m2.frames.len() == m.frames.len(),
        forall|i: int| 0 <= i < m.frames.len() ==> #[trigger] m2.frames[i].stack == m.frames[i].stack,
    ensures
        slots_counted(m2),
{
    lemma_counted_same(m, m2);
}

proof fn lemma_counted_arith_step(m: MachineModel, op: ArithOp)
    requires
        m.heap.wf(),
        slots_counted(m),
    ensures
        slots_counted(arith_step(m, op).0),
{
    lemma_arith_same(m, op, m.regs.math_a, m.regs.math_b);
    let m1 = arith(m, op, m.regs.math_a, m.regs.math_b).0;
    let m2 = arith_step(m, op).0;
    assert forall|i: int| 0 <= i < m.frames.len() implies #[trigger] m2.frames[i].stack
        == m.frames[i].stack by {}
    lemma_counted_same(m, m2);
}

proof fn lemma_counted_list_step(m: MachineModel, inst: Instruction)
    requires
        m.heap.wf(),
        slots_counted(m),
        list_step(m, inst).1 is Ok,
    ensures
        slots_counted(list_step(m, inst).0),
{
    let m2 = list_step(m, inst).0;
    match inst {
        Instruction::MakeNewList => {
            lemma_counted_allocate_current(m, ItemValue::List(Seq::empty()));
            let m1 = allocate_current(m, ItemValue::List(Seq::empty())).0;
            lemma_counted_unchanged(m1, m2);
        },
        Instruction::AddToListAtIndex | Instruction::RemoveFromListAtIndex => {
            let h = m.regs.intermediate->List_0;
            let l = m.heap.list(h)->Some_0;
            let d = if inst is AddToListAtIndex {
                ItemValue::List(insert_at(l, m.regs.secondary, m.regs.math_b))
            } else {
                ItemValue::List(l.remove(m.regs.math_b->Integer_0 as int))
            };
            lemma_with_data_same(m.heap, h, d);
            assert(m2.heap == m.heap.with_data(h, d));
            assert forall|i: int| 0 <= i < m.frames.len() implies #[trigger] m2.frames[i].stack
                == m.frames[i].stack by {}
            lemma_counted_same(m, m2);
        },
        _ => lemma_counted_unchanged(m, m2),
    }
}

proof fn lemma_counted_var_step(m: MachineModel, inst: Instruction)
    requires
        m.heap.wf(),
        slots_counted(m),
        !(inst is TryDecrementRefAt),
        var_step(m, inst).1 is Ok,
    ensures
        slots_counted(var_step(m, inst).0),
{
    let m2 = var_step(m, inst).0;
    match inst {
        Instruction::WriteGlobalVarTo(a) => lemma_counted_write(m, m.regs.math_b, 0, a),
        Instruction::WriteVarTo(a) => lemma_counted_write(
            m,
            m.regs.math_b,
            last_ready_index(m.frames)->Some_0,
            a,
        ),
        Instruction::WriteVarToLast(a) => lemma_counted_write(
            m,
            m.regs.math_b,
            m.frames.len() - 1,
            a,
        ),
        _ => lemma_counted_unchanged(m, m2),
    }
}

proof fn lemma_counted_convert_step(m: MachineModel, inst: Instruction)
    requires
        m.heap.wf(),
        slots_counted(m),
        convert_step(m, inst).1 is Ok,
    ensures
        slots_counted(convert_step(m, inst).0),
{
    let m2 = convert_step(m, inst).0;
    if inst is ConvertToString && !(m.regs.math_b is Text) {
        let p = render(m.heap, m.regs.math_b, NESTING_LIMIT as nat)->Ok_0;
        if let Some(t) = pieces_text(p) {
            lemma_counted_allocate_current(m, ItemValue::Text(t));
            let m1 = allocate_current(m, ItemValue::Text(t)).0;
            lemma_counted_unchanged(m1, m2);
        } else {
            lemma_counted_unchanged(m, m2);
        }
    } else {
        lemma_counted_unchanged(m, m2);
    }
}

proof fn lemma_counted_register_step(m: MachineModel, inst: Instruction)
    requires
        m.heap.wf(),
        slots_counted(m),
        register_step(m, inst).1 is Ok,
    ensures
        slots_counted(register_step(m, inst).0),
{
    let m2 = register_step(m, inst).0;
    match inst {
        Instruction::PushValMathA(RawValue::Text(t)) | Instruction::PushValMathB(RawValue::Text(t)) => {
            let k = match last_ready_index(m.frames) {
                Some(k) => k,
                None => 0,
            };
            lemma_counted_allocate(m, k, ItemValue::Text(t@));
            let m1 = allocate(m, k, ItemValue::Text(t@)).0;
            lemma_counted_unchanged(m1, m2);
        },
        _ => lemma_counted_unchanged(m, m2),
    }
}

proof fn lemma_counted_control_step(m: MachineModel, inst: Instruction)
    requires
        m.heap.wf(),
        slots_counted(m),
        control_step(m, inst).1 is Ok,
    ensures
        slots_counted(control_step(m, inst).0),
{
    lemma_ready_below_bound(m.frames, m.frames.len() as int);
    let m2 = control_step(m, inst).0;
    match inst {
        Instruction::Return => {
            assert(control_step(m, inst) == return_step(m));
            if m.frames.len() > 1 {
                let popped = MachineModel { frames: m.frames.drop_last(), ..m };
                lemma_counted_pop(m);
                lemma_counted_write(popped, m.regs.math_b, popped.frames.len() - 1, 0);
                let m1 = write_slot(popped, m.regs.math_b, popped.frames.len() - 1, 0).0;
                lemma_counted_unchanged(m1, m2);
            } else {
                lemma_counted_unchanged(m, m2);
            }
        },
        Instruction::MakeNewFrame(id) => {
            let f = crate::frame::fresh_frame(id, m.regs.default_stack_size);
            let n = m.regs.default_stack_size as nat;
            assert(f.stack =~= Seq::new(n, |k: int| DynamicValue::Null));
            assert(m2.frames == m.frames.push(f));
            assert(m2.frames.drop_last() =~= m.frames);
            assert forall|h: u64| #[trigger] occurrences(m2.frames, h) > 0 implies m2.heap.contains(h)
                && m2.heap.item(h).refs >= occurrences(m2.frames, h) by {
                lemma_count_nulls(n, h);
                assert(occurrences(m2.frames, h) == occurrences(m.frames, h) + count_in(f.stack, h));
            }
        },
        Instruction::ExecuteIf(req) => {
            assert(control_step(m, inst) == execute_if_step(m, req));
            lemma_counted_unchanged(m, m2);
        },
        _ => lemma_counted_unchanged(m, m2),
    }
}

/// No slot dangles: every text or list slot resolves to a live heap item.
/// This is kept by every instruction that succeeds, except
/// `TryDecrementRefAt`, which releases a slot's reference while the slot
/// still holds the handle.
pub proof fn lemma_no_dangling_slots(m: MachineModel, inst: Instruction)
    requires
        m.wf(),
        slots_counted(m),
        !(inst is TryDecrementRefAt),
        step(m, inst).1 is Ok,
    ensures
        slots_counted(step(m, inst).0),
        no_dangling_slots(step(m, inst).0),
{
    let m2 = step(m, inst).0;
    lemma_ready_below_bound(m.frames, m.frames.len() as int);
    if m.pending is Some || current_skip(m) > 0 {
        lemma_counted_unchanged(m, m2);
    } else {
        assert(step(m, inst) == dispatch(m, inst));
        match inst {
            Instruction::Add => lemma_counted_arith_step(m, ArithOp::Add),
            Instruction::Sub => lemma_counted_arith_step(m, ArithOp::Sub),
            Instruction::Mul => lemma_counted_arith_step(m, ArithOp::Mul),
            Instruction::Div => lemma_counted_arith_step(m, ArithOp::Div),
            Instruction::Compare => lemma_counted_unchanged(m, m2),
            Instruction::RestoreLoopLabel => lemma_counted_restore(m),
            Instruction::AddLoopLabel | Instruction::PopLoopLabel
            | Instruction::RegisterIncrementOnRestore(_) => lemma_counted_unchanged(m, m2),
            Instruction::MakeNewList | Instruction::IndexList | Instruction::AddToListAtIndex
            | Instruction::RemoveFromListAtIndex | Instruction::QueryListSize => lemma_counted_list_step(m, inst),
            Instruction::ReadGlobalVarFrom(_) | Instruction::WriteGlobalVarTo(_)
            | Instruction::ReadVarFrom(_) | Instruction::WriteVarTo(_)
            | Instruction::WriteVarToLast(_) | Instruction::TryDecrementRefAt(_) => lemma_counted_var_step(m, inst),
            Instruction::ConvertToInt | Instruction::ConvertToNum | Instruction::ConvertToString => lemma_counted_convert_step(m, inst),
            Instruction::Quit | Instruction::Halt | Instruction::Return | Instruction::ExecuteIf(_)
            | Instruction::IncreaseSkippingLevel | Instruction::MakeNewFrame(_)
            | Instruction::SetLastFrameReady | Instruction::CallPlugin(_, _)
            | Instruction::ReadInput | Instruction::PrintMathB | Instruction::PrintMathBDebug
            | Instruction::PrintNewLine => lemma_counted_control_step(m, inst),
            _ => lemma_counted_register_step(m, inst),
        }
    }
    lemma_counted_slots_resolve(m2);
}

/// A new machine holds no slots, so the invariant starts out true.
pub proof fn lemma_initially_counted()
    ensures
        slots_counted(initial_machine()),
{
}

/// Completing an instruction with the embedder's answer keeps the
/// invariant when it succeeds.
pub proof fn lemma_no_dangling_slots_on_resume(m: MachineModel, a: Answer)
    requires
        m.wf(),
        slots_counted(m),
        resume(m, a).1 is Ok,
    ensures
        slots_counted(resume(m, a).0),
        no_dangling_slots(resume(m, a).0),
{
    let m2 = resume(m, a).0;
    let p = m.pending->Some_0;
    let m0 = m.with_pending(None);
    lemma_counted_unchanged(m, m0);
    match p {
        Pending::Slot(k, addr) => {
            lemma_counted_write(m0, DynamicValue::Number(a->Number_0), k as int, addr);
        },
        Pending::NewText => {
            lemma_counted_allocate_current(m0, ItemValue::Text(a->Text_0));
            let m1 = allocate_current(m0, ItemValue::Text(a->Text_0)).0;
            lemma_counted_unchanged(m1, m2);
        },
        Pending::Input => {
            if let Answer::Input(Some(t)) = a {
                let k = last_ready_index(m0.frames)->Some_0;
                lemma_counted_allocate(m0, k, ItemValue::Text(t));
                let m1 = allocate(m0, k, ItemValue::Text(t)).0;
                lemma_counted_unchanged(m1, m2);
            } else {
                lemma_counted_unchanged(m0, m2);
            }
        },
        Pending::Plugin => {
            if let Answer::Plugin(Some(v)) = a {
                lemma_counted_write(m0, v, m0.frames.len() - 1, 0);
                let m1 = write_slot(m0, v, m0.frames.len() - 1, 0).0;
                lemma_counted_unchanged(m1, m2);
            } else {
                lemma_counted_unchanged(m0, m2);
            }
        },
        Pending::Comparison(_, _, _) => {
            assert forall|i: int| 0 <= i < m0.frames.len() implies #[trigger] m2.frames[i].stack
                == m0.frames[i].stack by {}
            lemma_counted_unchanged(m0, m2);
        },
        _ => lemma_counted_unchanged(m0, m2),
    }
    lemma_counted_slots_resolve(m2);
}

} // verus!
