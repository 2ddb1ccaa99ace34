//! What the interpreter does, stated over mathematical models.
use vstd::prelude::*;
use vstd::utf8::encode_utf8;
use crate::frame::{FrameModel, LoopLabel, Registers, fresh_frame};
use crate::instruction::Instruction;
use crate::protocol::{Answer, ArithOp, NumberQuery, Outcome, Pending, Piece};
use crate::storage::{ItemValue, StorageModel};
use crate::text::{int_of_text, int_text};
use crate::value::{
    Comparision, DynamicValue, ExecutionStatus, RawValue, VmError, compatible, handle_of,
    kind_accepts, request_matches,
};

verus! {

/// How deeply lists may nest inside one another when they are compared or
/// rendered; deeper nesting (or a list that contains itself) is an error.
pub const NESTING_LIMIT: u64 = 256;

/// The whole machine as a mathematical value.
pub struct MachineModel {
    pub regs: Registers,
    pub frames: Seq<FrameModel>,
    pub heap: StorageModel,
    pub code: Seq<Seq<Instruction>>,
    pub args: Seq<DynamicValue>,
    pub output: Seq<Piece>,
    pub pending: Option<Pending>,
}

/// A machine state together with what one operation reported.
pub type Stepped = (MachineModel, Result<Outcome, VmError>);

impl MachineModel {
    pub open spec fn wf(self) -> bool {
        &&& self.heap.wf()
        &&& self.code.len() == self.regs.next_code_index
    }

    pub open spec fn with_regs(self, regs: Registers) -> MachineModel {
        MachineModel { regs, ..self }
    }

    pub open spec fn with_math_b(self, v: DynamicValue) -> MachineModel {
        MachineModel { regs: Registers { math_b: v, ..self.regs }, ..self }
    }

    pub open spec fn with_frame(self, k: int, f: FrameModel) -> MachineModel {
        MachineModel { frames: self.frames.update(k, f), ..self }
    }

    pub open spec fn with_heap(self, heap: StorageModel) -> MachineModel {
        MachineModel { heap, ..self }
    }

    pub open spec fn with_pending(self, p: Option<Pending>) -> MachineModel {
        MachineModel { pending: p, ..self }
    }

    pub open spec fn emit(self, pieces: Seq<Piece>) -> MachineModel {
        MachineModel { output: self.output + pieces, ..self }
    }
}

pub open spec fn normal(m: MachineModel) -> Stepped {
    (m, Ok(Outcome::Status(ExecutionStatus::Normal)))
}

pub open spec fn fail(m: MachineModel, e: VmError) -> Stepped {
    (m, Err(e))
}

/// The topmost ready frame among the first `n`.
pub open spec fn ready_below(frames: Seq<FrameModel>, n: int) -> Option<int>
    decreases n,
{
    if n <= 0 {
        None
    } else if frames[n - 1].ready {
        Some(n - 1)
    } else {
        ready_below(frames, n - 1)
    }
}

/// The current frame: the topmost one that is ready.
pub open spec fn last_ready(frames: Seq<FrameModel>) -> Option<int> {
    ready_below(frames, frames.len() as int)
}

/// The frame charged for new heap items and addressed by local reads and
/// writes: the top frame if it is ready, else the one below it.
pub open spec fn last_ready_index(frames: Seq<FrameModel>) -> Option<int> {
    if frames.len() == 0 {
        None
    } else if frames.len() == 1 {
        if frames[0].ready {
            Some(0)
        } else {
            None
        }
    } else if frames.last().ready {
        Some(frames.len() - 1)
    } else {
        Some(frames.len() - 2)
    }
}

/// The skip level of the current frame, 0 without one.
pub open spec fn current_skip(m: MachineModel) -> u32 {
    match last_ready(m.frames) {
        Some(k) => m.frames[k].skip,
        None => 0,
    }
}

pub open spec fn bump(n: usize) -> usize {
    if n == usize::MAX {
        n
    } else {
        (n + 1) as usize
    }
}

/// Allocates `data` on the heap with count 0, charged to frame `k`.
pub open spec fn allocate(m: MachineModel, k: int, data: ItemValue) -> (MachineModel, Result<u64, VmError>) {
    if k < 0 || k >= m.frames.len() {
        (m, Err(VmError::StateError))
    } else if m.heap.next_id == u64::MAX {
        (m, Err(VmError::ResourceError))
    } else {
        let f = m.frames[k];
        (
            m.with_frame(k, FrameModel { specials: bump(f.specials), ..f }).with_heap(
                m.heap.added(data, 0),
            ),
            Ok(m.heap.next_id),
        )
    }
}

/// Allocates `data`, charged to the frame that `last_ready_index` names.
pub open spec fn allocate_current(m: MachineModel, data: ItemValue) -> (MachineModel, Result<u64, VmError>) {
    match last_ready_index(m.frames) {
        Some(k) => allocate(m, k, data),
        None => (m, Err(VmError::StateError)),
    }
}

/// Reads slot `a` of frame `k`.
pub open spec fn read_slot(m: MachineModel, k: int, a: usize) -> Result<DynamicValue, VmError> {
    if k < 0 || k >= m.frames.len() {
        Err(VmError::StateError)
    } else if a >= m.frames[k].stack.len() {
        Err(VmError::ResourceError)
    } else {
        Ok(m.frames[k].stack[a as int])
    }
}

/// Writes `v` to slot `a` of frame `k`: the reference of the old value is
/// released, one to the new value taken, then the slot overwritten.
pub open spec fn write_slot(m: MachineModel, v: DynamicValue, k: int, a: usize) -> (MachineModel, Result<(), VmError>) {
    if k < 0 || k >= m.frames.len() {
        (m, Err(VmError::StateError))
    } else if a >= m.frames[k].stack.len() {
        (m, Err(VmError::ResourceError))
    } else {
        let f = m.frames[k];
        let released = match handle_of(f.stack[a as int]) {
            Some(h) => m.heap.decremented(h),
            None => m.heap,
        };
        match handle_of(v) {
            Some(h) => if released.can_increment(h) {
                (
                    m.with_heap(released.incremented(h)).with_frame(
                        k,
                        FrameModel { stack: f.stack.update(a as int, v), ..f },
                    ),
                    Ok(()),
                )
            } else {
                (m.with_heap(released), Err(VmError::ResourceError))
            },
            None => (
                m.with_heap(released).with_frame(
                    k,
                    FrameModel { stack: f.stack.update(a as int, v), ..f },
                ),
                Ok(()),
            ),
        }
    }
}

pub open spec fn lift(r: (MachineModel, Result<(), VmError>)) -> Stepped {
    match r.1 {
        Ok(_) => normal(r.0),
        Err(e) => fail(r.0, e),
    }
}

// ---------------------------------------------------------------------------
// Rendering values as text
/// A value written out as text pieces; a list as `[ a, b ]`, with its text
/// elements quoted.
pub open spec fn render(heap: StorageModel, v: DynamicValue, fuel: nat) -> Result<Seq<Piece>, VmError>
    decreases fuel, 0nat,
{
    match v {
        DynamicValue::Integer(i) => Ok(seq![Piece::Text(int_text(i as int))]),
        DynamicValue::Number(n) => Ok(seq![Piece::Number(n)]),
        DynamicValue::Null => Ok(seq![Piece::Text("<Null>"@)]),
        DynamicValue::Text(h) => match heap.text(h) {
            Some(s) => Ok(seq![Piece::Text(s)]),
            None => Err(VmError::ResourceError),
        },
        DynamicValue::List(h) => match heap.list(h) {
            None => Err(VmError::ResourceError),
            Some(items) => if fuel == 0 {
                Err(VmError::ResourceError)
            } else {
                match render_items(heap, items, (fuel - 1) as nat) {
                    Ok(p) => Ok(seq![Piece::Text("[ "@)] + p + seq![Piece::Text(" ]"@)]),
                    Err(e) => Err(e),
                }
            },
        },
    }
}

/// The elements of a list written out, separated by `, `.
pub open spec fn render_items(heap: StorageModel, items: Seq<DynamicValue>, fuel: nat) -> Result<Seq<Piece>, VmError>
    decreases fuel, items.len() + 1,
{
    if items.len() == 0 {
        Ok(Seq::empty())
    } else {
        match render_items(heap, items.drop_last(), fuel) {
            Err(e) => Err(e),
            Ok(p) => match render(heap, items.last(), fuel) {
                Err(e) => Err(e),
                Ok(q) => {
                    let sep = if items.len() > 1 {
                        seq![Piece::Text(", "@)]
                    } else {
                        Seq::empty()
                    };
                    let quoted = if items.last() is Text {
                        seq![Piece::Text("\""@)] + q + seq![Piece::Text("\""@)]
                    } else {
                        q
                    };
                    Ok(p + sep + quoted)
                },
            },
        }
    }
}

/// The text that pieces join into, when none of them is a number.
pub open spec fn pieces_text(p: Seq<Piece>) -> Option<Seq<char>>
    decreases p.len(),
{
    if p.len() == 0 {
        Some(Seq::empty())
    } else {
        match pieces_text(p.drop_last()) {
            None => None,
            Some(s) => match p.last() {
                Piece::Text(t) => Some(s + t),
                Piece::Number(_) => None,
            },
        }
    }
}

/// What `PrintMathB` writes for a value.
pub open spec fn print_pieces(heap: StorageModel, v: DynamicValue) -> Result<Seq<Piece>, VmError> {
    match v {
        DynamicValue::List(_) => match render(heap, v, NESTING_LIMIT as nat) {
            Ok(p) => Ok(seq![Piece::Text("(Lista) "@)] + p),
            Err(e) => Err(e),
        },
        _ => render(heap, v, NESTING_LIMIT as nat),
    }
}

/// What `PrintMathBDebug` writes for a value: tagged with its type, then a
/// line break.
pub open spec fn debug_pieces(heap: StorageModel, v: DynamicValue) -> Result<Seq<Piece>, VmError> {
    match v {
        DynamicValue::Integer(i) => Ok(
            seq![Piece::Text("(Integer) "@), Piece::Text(int_text(i as int)), Piece::Text("\n"@)],
        ),
        DynamicValue::Number(n) => Ok(
            seq![Piece::Text("(Number) "@), Piece::Number(n), Piece::Text("\n"@)],
        ),
        DynamicValue::Text(h) => match heap.text(h) {
            Some(s) => Ok(
                seq![Piece::Text("(Text) \""@), Piece::Text(s), Piece::Text("\"\n"@)],
            ),
            None => Err(VmError::ResourceError),
        },
        DynamicValue::Null => Ok(seq![Piece::Text("<Null>\n"@)]),
        DynamicValue::List(_) => match render(heap, v, NESTING_LIMIT as nat) {
            Ok(p) => Ok(p + seq![Piece::Text("\n"@)]),
            Err(e) => Err(e),
        },
    }
}

// ---------------------------------------------------------------------------
// Comparison
pub open spec fn int_order(a: i64, b: i64) -> Comparision {
    if a == b {
        Comparision::Equal
    } else if a < b {
        Comparision::LessThan
    } else {
        Comparision::MoreThan
    }
}

/// The length of a text in bytes of UTF-8, as `str::len` reports it.
pub open spec fn byte_len(s: Seq<char>) -> usize {
    encode_utf8(s).len() as usize
}

/// Texts order by their length in bytes; texts of one length are equal or
/// not, never ordered.
pub open spec fn text_order(l: Seq<char>, r: Seq<char>) -> Comparision {
    let ll = byte_len(l);
    let rl = byte_len(r);
    if ll > rl {
        Comparision::MoreThan
    } else if ll < rl {
        Comparision::LessThan
    } else if l == r {
        Comparision::Equal
    } else {
        Comparision::NotEqual
    }
}

/// A comparison plan: the numeric pairs whose order only IEEE-754 arithmetic
/// decides, in the order the comparison meets them, and how the comparison
/// ends when all of them come out equal.
pub type Plan = (Seq<(DynamicValue, DynamicValue)>, Result<Comparision, VmError>);

pub open spec fn compare_plan(heap: StorageModel, l: DynamicValue, r: DynamicValue, fuel: nat) -> Plan
    decreases fuel, 0nat,
{
    match l {
        DynamicValue::Integer(a) => match r {
            DynamicValue::Integer(b) => (Seq::empty(), Ok(int_order(a, b))),
            DynamicValue::Number(_) => (seq![(l, r)], Ok(Comparision::Equal)),
            _ => (Seq::empty(), Ok(Comparision::NotEqual)),
        },
        DynamicValue::Number(_) => match r {
            DynamicValue::Integer(_) | DynamicValue::Number(_) => (
                seq![(l, r)],
                Ok(Comparision::Equal),
            ),
            _ => (Seq::empty(), Ok(Comparision::NotEqual)),
        },
        DynamicValue::Text(a) => match r {
            DynamicValue::Text(b) => match heap.text(a) {
                None => (Seq::empty(), Err(VmError::ResourceError)),
                Some(ls) => match heap.text(b) {
                    None => (Seq::empty(), Err(VmError::ResourceError)),
                    Some(rs) => (Seq::empty(), Ok(text_order(ls, rs))),
                },
            },
            _ => (Seq::empty(), Ok(Comparision::NotEqual)),
        },
        DynamicValue::List(a) => match r {
            DynamicValue::List(b) => match heap.list(a) {
                None => (Seq::empty(), Err(VmError::ResourceError)),
                Some(ls) => match heap.list(b) {
                    None => (Seq::empty(), Err(VmError::ResourceError)),
                    Some(rs) => if ls.len() != rs.len() {
                        (Seq::empty(), Ok(Comparision::NotEqual))
                    } else if fuel == 0 {
                        (Seq::empty(), Err(VmError::ResourceError))
                    } else {
                        compare_items(heap, ls, rs, (fuel - 1) as nat)
                    },
                },
            },
            _ => (Seq::empty(), Ok(Comparision::NotEqual)),
        },
        DynamicValue::Null => match r {
            DynamicValue::Null => (Seq::empty(), Ok(Comparision::Equal)),
            _ => (Seq::empty(), Ok(Comparision::NotEqual)),
        },
    }
}

/// Element-wise plan for two lists of one length; it stops at the first
/// element that is known to differ or fails.
pub open spec fn compare_items(heap: StorageModel, ls: Seq<DynamicValue>, rs: Seq<DynamicValue>, fuel: nat) -> Plan
    decreases fuel, ls.len() + 1,
{
    if ls.len() == 0 {
        (Seq::empty(), Ok(Comparision::Equal))
    } else {
        let (p, e) = compare_items(heap, ls.drop_last(), rs.drop_last(), fuel);
        if e != Ok::<Comparision, VmError>(Comparision::Equal) {
            (p, e)
        } else {
            let (q, f) = compare_plan(heap, ls.last(), rs.last(), fuel);
            (p + q, f)
        }
    }
}

/// The result of a plan given the answers to its numeric pairs. Between
/// lists any difference is `NotEqual`.
pub open spec fn settle(answers: Seq<Comparision>, lists: bool, ending: Result<Comparision, VmError>) -> Result<Comparision, VmError>
    decreases answers.len(),
{
    if answers.len() == 0 {
        match ending {
            Ok(c) => Ok(
                if lists && c != Comparision::Equal {
                    Comparision::NotEqual
                } else {
                    c
                },
            ),
            Err(e) => Err(e),
        }
    } else if answers[0] != Comparision::Equal {
        Ok(
            if lists {
                Comparision::NotEqual
            } else {
                answers[0]
            },
        )
    } else {
        settle(answers.drop_first(), lists, ending)
    }
}

/// Records a comparison result in the top frame.
pub open spec fn set_last(m: MachineModel, c: Comparision) -> Stepped {
    if m.frames.len() == 0 {
        fail(m, VmError::StateError)
    } else {
        let f = m.frames.last();
        normal(m.with_frame(m.frames.len() - 1, FrameModel { last: Some(c), ..f }))
    }
}

pub open spec fn compare_step(m: MachineModel) -> Stepped {
    let l = m.regs.math_a;
    let r = m.regs.math_b;
    let (pairs, ending) = compare_plan(m.heap, l, r, NESTING_LIMIT as nat);
    let lists = l is List && r is List;
    if pairs.len() == 0 {
        match settle(Seq::empty(), lists, ending) {
            Ok(c) => set_last(m, c),
            Err(e) => fail(m, e),
        }
    } else {
        (
            m.with_pending(Some(Pending::Comparison(lists, ending, pairs.len() as usize))),
            Ok(Outcome::Number(NumberQuery::Compare(pairs))),
        )
    }
}

// ---------------------------------------------------------------------------
// Arithmetic
/// Integer arithmetic with the wrapping semantics of `i64`; `None` for a
/// division by zero.
pub open spec fn int_arith(op: ArithOp, a: i64, b: i64) -> Option<i64> {
    match op {
        ArithOp::Add => Some(a.wrapping_add(b)),
        ArithOp::Sub => Some(a.wrapping_sub(b)),
        ArithOp::Mul => Some(a.wrapping_mul(b)),
        ArithOp::Div => if b == 0 {
            None
        } else {
            match a.checked_div(b) {
                Some(q) => Some(q),
                None => Some(i64::MIN),
            }
        },
    }
}

/// The result of an operator: a value, or a request for number arithmetic.
pub enum Computed {
    Value(DynamicValue),
    Ask(NumberQuery),
}

/// Applies `op` to `l` and `r`. A `Null` on the left gives `Null`; text and
/// list `+` concatenate into a fresh heap item.
pub open spec fn arith(m: MachineModel, op: ArithOp, l: DynamicValue, r: DynamicValue) -> (MachineModel, Result<Computed, VmError>) {
    if l is Null {
        (m, Ok(Computed::Value(DynamicValue::Null)))
    } else if !compatible(l, r) {
        (m, Err(VmError::TypeError))
    } else {
        match (l, r) {
            (DynamicValue::Integer(a), DynamicValue::Integer(b)) => match int_arith(op, a, b) {
                Some(v) => (m, Ok(Computed::Value(DynamicValue::Integer(v)))),
                None => (m, Err(VmError::DomainError)),
            },
            (DynamicValue::Text(a), DynamicValue::Text(b)) => if op != ArithOp::Add {
                (m, Err(VmError::TypeError))
            } else {
                match m.heap.text(b) {
                    None => (m, Err(VmError::ResourceError)),
                    Some(rs) => match m.heap.text(a) {
                        None => (m, Err(VmError::ResourceError)),
                        Some(ls) => {
                            let joined = if m.regs.first_operation {
                                ls + rs
                            } else {
                                rs + ls
                            };
                            let m1 = m.with_regs(Registers { first_operation: false, ..m.regs });
                            let (m2, id) = allocate_current(m1, ItemValue::Text(joined));
                            match id {
                                Ok(id) => (m2, Ok(Computed::Value(DynamicValue::Text(id)))),
                                Err(e) => (m2, Err(e)),
                            }
                        },
                    },
                }
            },
            (DynamicValue::List(a), DynamicValue::List(b)) => if op != ArithOp::Add {
                (m, Err(VmError::TypeError))
            } else {
                match m.heap.list(a) {
                    None => (m, Err(VmError::ResourceError)),
                    Some(ls) => match m.heap.list(b) {
                        None => (m, Err(VmError::ResourceError)),
                        Some(rs) => {
                            let (m2, id) = allocate_current(m, ItemValue::List(ls + rs));
                            match id {
                                Ok(id) => (m2, Ok(Computed::Value(DynamicValue::List(id)))),
                                Err(e) => (m2, Err(e)),
                            }
                        },
                    },
                }
            },
            _ => (m, Ok(Computed::Ask(NumberQuery::Arith(op, l, r)))),
        }
    }
}

pub open spec fn arith_step(m: MachineModel, op: ArithOp) -> Stepped {
    let (m1, r) = arith(m, op, m.regs.math_a, m.regs.math_b);
    match r {
        Ok(Computed::Value(v)) => normal(m1.with_math_b(v)),
        Ok(Computed::Ask(q)) => (m1.with_pending(Some(Pending::MathB)), Ok(Outcome::Number(q))),
        Err(e) => fail(m1, e),
    }
}

// ---------------------------------------------------------------------------
// Frames, skipping and loops
/// Adds one to the skip level of the current frame.
pub open spec fn skip_more(m: MachineModel) -> Stepped {
    match last_ready(m.frames) {
        None => fail(m, VmError::StateError),
        Some(k) => if m.frames[k].skip == u32::MAX {
            fail(m, VmError::ResourceError)
        } else {
            let f = m.frames[k];
            normal(m.with_frame(k, FrameModel { skip: (f.skip + 1) as u32, ..f }))
        },
    }
}

pub open spec fn execute_if_step(m: MachineModel, req: crate::value::ComparisionRequest) -> Stepped {
    if m.frames.len() == 0 {
        fail(m, VmError::StateError)
    } else {
        match m.frames.last().last {
            None => fail(m, VmError::StateError),
            Some(c) => if request_matches(req, c) {
                normal(m)
            } else {
                skip_more(m)
            },
        }
    }
}

pub open spec fn return_step(m: MachineModel) -> Stepped {
    if m.frames.len() == 1 {
        (
            m.with_regs(Registers { has_quit: true, ..m.regs }),
            Ok(Outcome::Status(ExecutionStatus::Quit)),
        )
    } else if m.frames.len() == 0 {
        fail(m, VmError::StateError)
    } else {
        let popped = MachineModel { frames: m.frames.drop_last(), ..m };
        let (m1, w) = write_slot(popped, m.regs.math_b, popped.frames.len() - 1, 0);
        match w {
            Err(e) => fail(m1, e),
            Ok(_) => if m1.frames.len() == 1 && m1.regs.is_interactive {
                match debug_pieces(m1.heap, m1.regs.math_b) {
                    Ok(p) => (m1.emit(p), Ok(Outcome::Status(ExecutionStatus::Returned))),
                    Err(e) => fail(m1, e),
                }
            } else {
                (m1, Ok(Outcome::Status(ExecutionStatus::Returned)))
            },
        }
    }
}

pub open spec fn restore_step(m: MachineModel) -> Stepped {
    match last_ready(m.frames) {
        None => fail(m, VmError::StateError),
        Some(k) => {
            let f = m.frames[k];
            if f.labels.len() == 0 {
                fail(m, VmError::StateError)
            } else {
                let label = f.labels.last();
                let m1 = m.with_frame(k, FrameModel { pc: label.start_pc, ..f });
                match label.index_address {
                    None => normal(m1),
                    Some(a) => match last_ready_index(m1.frames) {
                        None => fail(m1, VmError::StateError),
                        Some(j) => match read_slot(m1, j, a) {
                            Err(e) => fail(m1, e),
                            Ok(cur) => {
                                let (m2, r) = arith(m1, ArithOp::Add, cur, label.stepping);
                                match r {
                                    Err(e) => fail(m2, e),
                                    Ok(Computed::Value(v)) => lift(write_slot(m2, v, j, a)),
                                    Ok(Computed::Ask(q)) => (
                                        m2.with_pending(Some(Pending::Slot(j as usize, a))),
                                        Ok(Outcome::Number(q)),
                                    ),
                                }
                            },
                        },
                    },
                }
            }
        },
    }
}

pub open spec fn label_step(m: MachineModel, inst: Instruction) -> Stepped {
    match last_ready(m.frames) {
        None => fail(m, VmError::StateError),
        Some(k) => {
            let f = m.frames[k];
            match inst {
                Instruction::AddLoopLabel => normal(
                    m.with_frame(
                        k,
                        FrameModel {
                            labels: f.labels.push(
                                LoopLabel {
                                    start_pc: f.pc,
                                    index_address: None,
                                    stepping: DynamicValue::Null,
                                },
                            ),
                            ..f
                        },
                    ),
                ),
                Instruction::PopLoopLabel => if f.labels.len() == 0 {
                    fail(m, VmError::StateError)
                } else {
                    normal(m.with_frame(k, FrameModel { labels: f.labels.drop_last(), ..f }))
                },
                Instruction::RegisterIncrementOnRestore(a) => if f.labels.len() == 0 {
                    fail(m, VmError::StateError)
                } else if f.labels.last().start_pc == usize::MAX {
                    fail(m, VmError::ResourceError)
                } else {
                    let l = f.labels.last();
                    let l2 = LoopLabel {
                        start_pc: (l.start_pc + 1) as usize,
                        index_address: Some(a),
                        stepping: m.regs.math_b,
                    };
                    normal(
                        m.with_frame(
                            k,
                            FrameModel { labels: f.labels.update(f.labels.len() - 1, l2), ..f },
                        ),
                    )
                },
                _ => normal(m),
            }
        },
    }
}

// ---------------------------------------------------------------------------
// Lists
/// Where `AddToListAtIndex` puts a value: at a non-negative index inside the
/// list, else at its end.
pub open spec fn insert_at(l: Seq<DynamicValue>, index: DynamicValue, v: DynamicValue) -> Seq<DynamicValue> {
    match index {
        DynamicValue::Integer(i) => if 0 <= i < l.len() {
            l.insert(i as int, v)
        } else {
            l.push(v)
        },
        _ => l.push(v),
    }
}

pub open spec fn list_step(m: MachineModel, inst: Instruction) -> Stepped {
    match inst {
        Instruction::MakeNewList => {
            let (m1, id) = allocate_current(m, ItemValue::List(Seq::empty()));
            match id {
                Ok(id) => normal(m1.with_math_b(DynamicValue::List(id))),
                Err(e) => fail(m1, e),
            }
        },
        Instruction::IndexList => match m.regs.math_b {
            DynamicValue::Integer(i) => match m.regs.intermediate {
                DynamicValue::List(h) => match m.heap.list(h) {
                    None => fail(m, VmError::ResourceError),
                    Some(l) => if i < 0 || i >= l.len() {
                        fail(m, VmError::DomainError)
                    } else {
                        normal(m.with_math_b(l[i as int]))
                    },
                },
                _ => fail(m, VmError::TypeError),
            },
            _ => fail(m, VmError::TypeError),
        },
        Instruction::AddToListAtIndex => match m.regs.intermediate {
            DynamicValue::List(h) => match m.heap.list(h) {
                None => fail(m, VmError::ResourceError),
                Some(l) => normal(
                    m.with_heap(
                        m.heap.with_data(
                            h,
                            ItemValue::List(insert_at(l, m.regs.secondary, m.regs.math_b)),
                        ),
                    ),
                ),
            },
            _ => fail(m, VmError::TypeError),
        },
        Instruction::RemoveFromListAtIndex => match m.regs.math_b {
            DynamicValue::Integer(i) => match m.regs.intermediate {
                DynamicValue::List(h) => match m.heap.list(h) {
                    None => fail(m, VmError::ResourceError),
                    Some(l) => if i < 0 || i >= l.len() {
                        fail(m, VmError::DomainError)
                    } else {
                        normal(m.with_heap(m.heap.with_data(h, ItemValue::List(l.remove(i as int)))))
                    },
                },
                _ => fail(m, VmError::TypeError),
            },
            _ => fail(m, VmError::TypeError),
        },
        Instruction::QueryListSize => match m.regs.intermediate {
            DynamicValue::List(h) => match m.heap.list(h) {
                None => fail(m, VmError::ResourceError),
                Some(l) => normal(m.with_math_b(DynamicValue::Integer(l.len() as i64))),
            },
            _ => fail(m, VmError::TypeError),
        },
        _ => normal(m),
    }
}

// ---------------------------------------------------------------------------
// Variables
pub open spec fn var_step(m: MachineModel, inst: Instruction) -> Stepped {
    match inst {
        Instruction::ReadGlobalVarFrom(a) => match read_slot(m, 0, a) {
            Ok(v) => normal(m.with_regs(Registers { intermediate: v, ..m.regs })),
            Err(e) => fail(m, e),
        },
        Instruction::WriteGlobalVarTo(a) => lift(write_slot(m, m.regs.math_b, 0, a)),
        Instruction::ReadVarFrom(a) => match last_ready_index(m.frames) {
            None => fail(m, VmError::StateError),
            Some(k) => match read_slot(m, k, a) {
                Ok(v) => normal(m.with_regs(Registers { intermediate: v, ..m.regs })),
                Err(e) => fail(m, e),
            },
        },
        Instruction::WriteVarTo(a) => match last_ready_index(m.frames) {
            None => fail(m, VmError::StateError),
            Some(k) => lift(write_slot(m, m.regs.math_b, k, a)),
        },
        Instruction::WriteVarToLast(a) => lift(
            write_slot(m, m.regs.math_b, m.frames.len() - 1, a),
        ),
        Instruction::TryDecrementRefAt(a) => match last_ready_index(m.frames) {
            None => fail(m, VmError::StateError),
            Some(k) => match read_slot(m, k, a) {
                Err(e) => fail(m, e),
                Ok(v) => match handle_of(v) {
                    Some(h) => normal(m.with_heap(m.heap.decremented(h))),
                    None => normal(m),
                },
            },
        },
        _ => normal(m),
    }
}

// ---------------------------------------------------------------------------
// Conversions
pub open spec fn convert_step(m: MachineModel, inst: Instruction) -> Stepped {
    let v = m.regs.math_b;
    match inst {
        Instruction::ConvertToInt => match v {
            DynamicValue::Text(h) => match m.heap.text(h) {
                None => fail(m, VmError::ResourceError),
                Some(s) => match int_of_text(s) {
                    Some(i) => normal(m.with_math_b(DynamicValue::Integer(i))),
                    None => fail(m, VmError::TypeError),
                },
            },
            DynamicValue::Number(n) => (
                m.with_pending(Some(Pending::MathB)),
                Ok(Outcome::Number(NumberQuery::ToInteger(n))),
            ),
            DynamicValue::Integer(_) => normal(m),
            _ => fail(m, VmError::TypeError),
        },
        Instruction::ConvertToNum => match v {
            DynamicValue::Text(h) => match m.heap.text(h) {
                None => fail(m, VmError::ResourceError),
                Some(s) => (
                    m.with_pending(Some(Pending::MathB)),
                    Ok(Outcome::Number(NumberQuery::Parse(s))),
                ),
            },
            DynamicValue::Integer(i) => (
                m.with_pending(Some(Pending::MathB)),
                Ok(Outcome::Number(NumberQuery::FromInteger(i))),
            ),
            DynamicValue::Number(_) => normal(m),
            _ => fail(m, VmError::TypeError),
        },
        Instruction::ConvertToString => match v {
            DynamicValue::Text(_) => normal(m),
            _ => match render(m.heap, v, NESTING_LIMIT as nat) {
                Err(e) => fail(m, e),
                Ok(p) => match pieces_text(p) {
                    Some(s) => {
                        let (m1, id) = allocate_current(m, ItemValue::Text(s));
                        match id {
                            Ok(id) => normal(m1.with_math_b(DynamicValue::Text(id))),
                            Err(e) => fail(m1, e),
                        }
                    },
                    None => (
                        m.with_pending(Some(Pending::NewText)),
                        Ok(Outcome::Number(NumberQuery::Render(p))),
                    ),
                },
            },
        },
        _ => normal(m),
    }
}

/// The value a literal becomes; a text is allocated, charged to the frame
/// `last_ready_index` names, or to the first frame without one.
pub open spec fn raw_value(m: MachineModel, raw: RawValue) -> (MachineModel, Result<DynamicValue, VmError>) {
    match raw {
        RawValue::Text(t) => {
            let k = match last_ready_index(m.frames) {
                Some(k) => k,
                None => 0,
            };
            let (m1, id) = allocate(m, k, ItemValue::Text(t@));
            match id {
                Ok(id) => (m1, Ok(DynamicValue::Text(id))),
                Err(e) => (m1, Err(e)),
            }
        },
        RawValue::Number(n) => (m, Ok(DynamicValue::Number(n))),
        RawValue::Integer(i) => (m, Ok(DynamicValue::Integer(i))),
        RawValue::Null => (m, Ok(DynamicValue::Null)),
    }
}

/// The plugin arguments taken by a call with `n` arguments: the last pushed
/// comes first.
pub open spec fn popped_args(args: Seq<DynamicValue>, n: int) -> Seq<DynamicValue> {
    Seq::new(n as nat, |k: int| args[args.len() - 1 - k])
}

// ---------------------------------------------------------------------------
// Registers and the rest
pub open spec fn register_step(m: MachineModel, inst: Instruction) -> Stepped {
    let r = m.regs;
    match inst {
        Instruction::PushIntermediateToA => normal(m.with_regs(Registers { math_a: r.intermediate, ..r })),
        Instruction::PushIntermediateToB => normal(m.with_regs(Registers { math_b: r.intermediate, ..r })),
        Instruction::PushMathBToSeconday => normal(m.with_regs(Registers { secondary: r.math_b, ..r })),
        Instruction::ClearSecondary => normal(m.with_regs(Registers { secondary: DynamicValue::Null, ..r })),
        Instruction::SwapMath => normal(m.with_regs(Registers { math_a: r.math_b, math_b: r.math_a, ..r })),
        Instruction::ClearMath => normal(
            m.with_regs(
                Registers {
                    math_a: DynamicValue::Null,
                    math_b: DynamicValue::Null,
                    intermediate: DynamicValue::Null,
                    ..r
                },
            ),
        ),
        Instruction::SetFirstExpressionOperation => normal(m.with_regs(Registers { first_operation: true, ..r })),
        Instruction::PushMathBPluginArgument => normal(MachineModel { args: m.args.push(r.math_b), ..m }),
        Instruction::PushValMathA(raw) => {
            let (m1, v) = raw_value(m, raw);
            match v {
                Ok(v) => normal(m1.with_regs(Registers { math_a: v, ..m1.regs })),
                Err(e) => fail(m1, e),
            }
        },
        Instruction::PushValMathB(raw) => {
            let (m1, v) = raw_value(m, raw);
            match v {
                Ok(v) => normal(m1.with_math_b(v)),
                Err(e) => fail(m1, e),
            }
        },
        Instruction::AssertMathBCompatible(kind) => if kind_accepts(kind, r.math_b) {
            normal(m)
        } else {
            fail(m, VmError::TypeError)
        },
        _ => normal(m),
    }
}

pub open spec fn control_step(m: MachineModel, inst: Instruction) -> Stepped {
    match inst {
        Instruction::Quit => (
            m.with_regs(Registers { has_quit: true, ..m.regs }),
            Ok(Outcome::Status(ExecutionStatus::Quit)),
        ),
        Instruction::Halt => (m, Ok(Outcome::Status(ExecutionStatus::Halt))),
        Instruction::Return => return_step(m),
        Instruction::ExecuteIf(req) => execute_if_step(m, req),
        Instruction::IncreaseSkippingLevel => skip_more(m),
        Instruction::MakeNewFrame(id) => normal(
            MachineModel {
                frames: m.frames.push(fresh_frame(id, m.regs.default_stack_size)),
                ..m
            },
        ),
        Instruction::SetLastFrameReady => if m.frames.len() == 0 {
            fail(m, VmError::StateError)
        } else {
            let f = m.frames.last();
            normal(m.with_frame(m.frames.len() - 1, FrameModel { ready: true, ..f }))
        },
        Instruction::CallPlugin(address, n) => if address >= m.regs.next_plugin_index {
            fail(m, VmError::ResourceError)
        } else if n > m.args.len() {
            fail(m, VmError::StateError)
        } else {
            (
                MachineModel {
                    args: m.args.take(m.args.len() - n),
                    pending: Some(Pending::Plugin),
                    ..m
                },
                Ok(Outcome::Plugin(address, popped_args(m.args, n as int))),
            )
        },
        Instruction::ReadInput => (m.with_pending(Some(Pending::Input)), Ok(Outcome::Input)),
        Instruction::PrintMathB => match print_pieces(m.heap, m.regs.math_b) {
            Ok(p) => normal(m.emit(p)),
            Err(e) => fail(m, e),
        },
        Instruction::PrintMathBDebug => match debug_pieces(m.heap, m.regs.math_b) {
            Ok(p) => normal(m.emit(p)),
            Err(e) => fail(m, e),
        },
        Instruction::PrintNewLine => normal(m.emit(seq![Piece::Text("\n"@)])),
        _ => normal(m),
    }
}

/// One instruction executed while nothing is skipped.
pub open spec fn dispatch(m: MachineModel, inst: Instruction) -> Stepped {
    match inst {
        Instruction::Add => arith_step(m, ArithOp::Add),
        Instruction::Sub => arith_step(m, ArithOp::Sub),
        Instruction::Mul => arith_step(m, ArithOp::Mul),
        Instruction::Div => arith_step(m, ArithOp::Div),
        Instruction::Compare => compare_step(m),
        Instruction::RestoreLoopLabel => restore_step(m),
        Instruction::AddLoopLabel | Instruction::PopLoopLabel | Instruction::RegisterIncrementOnRestore(
            _,
        ) => label_step(m, inst),
        Instruction::MakeNewList | Instruction::IndexList | Instruction::AddToListAtIndex
        | Instruction::RemoveFromListAtIndex | Instruction::QueryListSize => list_step(m, inst),
        Instruction::ReadGlobalVarFrom(_) | Instruction::WriteGlobalVarTo(_)
        | Instruction::ReadVarFrom(_) | Instruction::WriteVarTo(_) | Instruction::WriteVarToLast(_)
        | Instruction::TryDecrementRefAt(_) => var_step(m, inst),
        Instruction::ConvertToInt | Instruction::ConvertToNum | Instruction::ConvertToString => convert_step(m, inst),
        Instruction::Quit | Instruction::Halt | Instruction::Return | Instruction::ExecuteIf(_)
        | Instruction::IncreaseSkippingLevel | Instruction::MakeNewFrame(_)
        | Instruction::SetLastFrameReady | Instruction::CallPlugin(_, _) | Instruction::ReadInput
        | Instruction::PrintMathB | Instruction::PrintMathBDebug | Instruction::PrintNewLine => control_step(m, inst),
        _ => register_step(m, inst),
    }
}

/// One instruction. While a request is outstanding nothing runs. While the
/// current frame skips, only `ExecuteIf` (one level deeper) and
/// `EndConditionalBlock` (one level up) have an effect.
pub open spec fn step(m: MachineModel, inst: Instruction) -> Stepped {
    if m.pending is Some {
        fail(m, VmError::StateError)
    } else if current_skip(m) > 0 {
        let k = last_ready(m.frames)->Some_0;
        let f = m.frames[k];
        match inst {
            Instruction::EndConditionalBlock => normal(
                m.with_frame(k, FrameModel { skip: (f.skip - 1) as u32, ..f }),
            ),
            Instruction::ExecuteIf(_) => skip_more(m),
            _ => normal(m),
        }
    } else {
        dispatch(m, inst)
    }
}

/// Hands the embedder's answer to the outstanding request.
pub open spec fn resume(m: MachineModel, a: Answer) -> Stepped {
    match m.pending {
        None => fail(m, VmError::StateError),
        Some(p) => {
            let m0 = m.with_pending(None);
            match p {
                Pending::MathB => answer_math_b(m0, a),
                Pending::Slot(k, addr) => match a {
                    Answer::Number(n) => lift(write_slot(m0, DynamicValue::Number(n), k as int, addr)),
                    _ => fail(m0, VmError::StateError),
                },
                Pending::Comparison(lists, ending, count) => answer_comparison(m0, lists, ending, count, a),
                Pending::NewText => answer_text(m0, a),
                Pending::Input => answer_input(m0, a),
                Pending::Plugin => answer_plugin(m0, a),
            }
        },
    }
}

pub open spec fn answer_math_b(m0: MachineModel, a: Answer) -> Stepped {
    match a {
        Answer::Number(n) => normal(m0.with_math_b(DynamicValue::Number(n))),
        Answer::Integer(i) => normal(m0.with_math_b(DynamicValue::Integer(i))),
        Answer::Parsed(Some(n)) => normal(m0.with_math_b(DynamicValue::Number(n))),
        Answer::Parsed(None) => fail(m0, VmError::TypeError),
        _ => fail(m0, VmError::StateError),
    }
}

pub open spec fn answer_comparison(m0: MachineModel, lists: bool, ending: Result<Comparision, VmError>, count: usize, a: Answer) -> Stepped {
    match a {
        Answer::Comparisons(v) => if v.len() != count {
            fail(m0, VmError::StateError)
        } else {
            match settle(v, lists, ending) {
                Ok(c) => set_last(m0, c),
                Err(e) => fail(m0, e),
            }
        },
        _ => fail(m0, VmError::StateError),
    }
}

pub open spec fn answer_text(m0: MachineModel, a: Answer) -> Stepped {
    match a {
        Answer::Text(s) => {
            let (m1, id) = allocate_current(m0, ItemValue::Text(s));
            match id {
                Ok(id) => normal(m1.with_math_b(DynamicValue::Text(id))),
                Err(e) => fail(m1, e),
            }
        },
        _ => fail(m0, VmError::StateError),
    }
}

pub open spec fn answer_input(m0: MachineModel, a: Answer) -> Stepped {
    match a {
        Answer::Input(line) => match last_ready_index(m0.frames) {
            None => fail(m0, VmError::StateError),
            Some(k) => match line {
                None => normal(m0),
                Some(s) => {
                    let (m1, id) = allocate(m0, k, ItemValue::Text(s));
                    match id {
                        Ok(id) => normal(
                            m1.with_regs(Registers { intermediate: DynamicValue::Text(id), ..m1.regs }),
                        ),
                        Err(e) => fail(m1, e),
                    }
                },
            },
        },
        _ => fail(m0, VmError::StateError),
    }
}

/// A plugin's result goes to slot 0 of the top frame; at global scope in
/// interactive mode it is also echoed in debug form.
pub open spec fn answer_plugin(m0: MachineModel, a: Answer) -> Stepped {
    match a {
        Answer::Plugin(None) => normal(m0),
        Answer::Plugin(Some(v)) => if m0.frames.len() == 0 {
            fail(m0, VmError::StateError)
        } else {
            let (m1, w) = write_slot(m0, v, m0.frames.len() - 1, 0);
            match w {
                Err(e) => fail(m1, e),
                Ok(_) => if m1.regs.is_interactive && m1.frames.len() == 1 {
                    match debug_pieces(m1.heap, v) {
                        Ok(p) => normal(m1.emit(p)),
                        Err(e) => fail(m1.with_math_b(v), e),
                    }
                } else {
                    normal(m1)
                },
            }
        },
        _ => fail(m0, VmError::StateError),
    }
}

/// Fetches the instruction at the current frame's pc, moves the pc past
/// it, and executes it.
pub open spec fn execute_next(m: MachineModel) -> Stepped {
    if m.pending is Some || m.frames.len() == 0 {
        fail(m, VmError::StateError)
    } else {
        match last_ready(m.frames) {
            None => fail(m, VmError::StateError),
            Some(k) => {
                let f = m.frames[k];
                if f.id >= m.code.len() || f.pc >= m.code[f.id as int].len() {
                    fail(m, VmError::ResourceError)
                } else {
                    step(
                        m.with_frame(k, FrameModel { pc: (f.pc + 1) as usize, ..f }),
                        m.code[f.id as int][f.pc as int],
                    )
                }
            },
        }
    }
}

} // verus!
