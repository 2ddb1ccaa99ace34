use vstd::prelude::*;
use crate::value::{Comparision, DynamicValue, ExecutionStatus, VmError};

verus! {

/// The four binary arithmetic operators.
#[derive(Debug, Clone, Copy, PartialEq, Eq, Structural)]
pub enum ArithOp {
    Add,
    Sub,
    Mul,
    Div,
}

/// A piece of output or of a rendered value: text, or a number that the
/// embedder formats in its ordinary decimal form.
#[derive(Debug, Clone)]
pub enum Fragment {
    Text(String),
    Number(u64),
}

/// A fragment as a mathematical value.
pub enum Piece {
    Text(Seq<char>),
    Number(u64),
}

impl View for Fragment {
    type V = Piece;

    open spec fn view(&self) -> Piece {
        match self {
            Fragment::Text(s) => Piece::Text(s@),
            Fragment::Number(n) => Piece::Number(*n),
        }
    }
}

/// Work on IEEE-754 numbers that the embedder carries out.
#[derive(Debug)]
pub enum NumberRequest {
    /// `left op right` under numeric promotion; at least one is a `Number`.
    Arith(ArithOp, DynamicValue, DynamicValue),
    /// Compare each pair numerically, after promotion.
    Compare(Vec<(DynamicValue, DynamicValue)>),
    /// The number nearest to an integer.
    FromInteger(i64),
    /// A number cast to an integer, saturating.
    ToInteger(u64),
    /// Parse a text as a number.
    Parse(String),
    /// Join the fragments into one text.
    Render(Vec<Fragment>),
}

/// A number request as a mathematical value.
pub enum NumberQuery {
    Arith(ArithOp, DynamicValue, DynamicValue),
    Compare(Seq<(DynamicValue, DynamicValue)>),
    FromInteger(i64),
    ToInteger(u64),
    Parse(Seq<char>),
    Render(Seq<Piece>),
}

/// The views of a sequence's elements.
pub open spec fn view_seq<T: View>(s: Seq<T>) -> Seq<T::V> {
    Seq::new(s.len(), |i: int| s[i]@)
}

pub broadcast proof fn lemma_view_seq_update<T: View>(s: Seq<T>, i: int, x: T)
    requires
        0 <= i < s.len(),
    ensures
        #[trigger] view_seq(s.update(i, x)) == view_seq(s).update(i, x@),
{
    assert(view_seq(s.update(i, x)) =~= view_seq(s).update(i, x@));
}

pub broadcast proof fn lemma_view_seq_push<T: View>(s: Seq<T>, x: T)
    ensures
        #[trigger] view_seq(s.push(x)) == view_seq(s).push(x@),
{
    assert(view_seq(s.push(x)) =~= view_seq(s).push(x@));
}

pub broadcast proof fn lemma_view_seq_drop_last<T: View>(s: Seq<T>)
    requires
        s.len() > 0,
    ensures
        #[trigger] view_seq(s.drop_last()) == view_seq(s).drop_last(),
{
    assert(view_seq(s.drop_last()) =~= view_seq(s).drop_last());
}

pub broadcast proof fn lemma_view_seq_add<T: View>(s: Seq<T>, t: Seq<T>)
    ensures
        #[trigger] view_seq(s + t) == view_seq(s) + view_seq(t),
{
    assert(view_seq(s + t) =~= view_seq(s) + view_seq(t));
}

pub broadcast group group_view_seq {
    lemma_view_seq_add,
    lemma_view_seq_update,
    lemma_view_seq_push,
    lemma_view_seq_drop_last,
}

impl View for NumberRequest {
    type V = NumberQuery;

    open spec fn view(&self) -> NumberQuery {
        match self {
            NumberRequest::Arith(op, l, r) => NumberQuery::Arith(*op, *l, *r),
            NumberRequest::Compare(v) => NumberQuery::Compare(v@),
            NumberRequest::FromInteger(i) => NumberQuery::FromInteger(*i),
            NumberRequest::ToInteger(n) => NumberQuery::ToInteger(*n),
            NumberRequest::Parse(s) => NumberQuery::Parse(s@),
            NumberRequest::Render(v) => NumberQuery::Render(view_seq(v@)),
        }
    }
}

/// What executing an instruction leads to: a finished step, or work that
/// only the embedder can do, after which it calls `resume`.
#[derive(Debug)]
pub enum Step {
    Done(ExecutionStatus),
    Number(NumberRequest),
    /// Read one line of input, without its line delimiter.
    ReadInput,
    /// Call the plugin with this id on these arguments.
    CallPlugin(usize, Vec<DynamicValue>),
}

/// A step as a mathematical value.
pub enum Outcome {
    Status(ExecutionStatus),
    Number(NumberQuery),
    Input,
    Plugin(usize, Seq<DynamicValue>),
}

impl View for Step {
    type V = Outcome;

    open spec fn view(&self) -> Outcome {
        match self {
            Step::Done(s) => Outcome::Status(*s),
            Step::Number(q) => Outcome::Number(q@),
            Step::ReadInput => Outcome::Input,
            Step::CallPlugin(a, v) => Outcome::Plugin(*a, v@),
        }
    }
}

/// The embedder's answer to a step that asked for outside work.
#[derive(Debug)]
pub enum Reply {
    Number(u64),
    Integer(i64),
    Parsed(Option<u64>),
    Comparisons(Vec<Comparision>),
    Text(String),
    Input(Option<String>),
    Plugin(Option<DynamicValue>),
}

/// A reply as a mathematical value.
pub enum Answer {
    Number(u64),
    Integer(i64),
    Parsed(Option<u64>),
    Comparisons(Seq<Comparision>),
    Text(Seq<char>),
    Input(Option<Seq<char>>),
    Plugin(Option<DynamicValue>),
}

impl View for Reply {
    type V = Answer;

    open spec fn view(&self) -> Answer {
        match self {
            Reply::Number(n) => Answer::Number(*n),
            Reply::Integer(i) => Answer::Integer(*i),
            Reply::Parsed(p) => Answer::Parsed(*p),
            Reply::Comparisons(v) => Answer::Comparisons(v@),
            Reply::Text(s) => Answer::Text(s@),
            Reply::Input(l) => Answer::Input(
                match l {
                    Some(s) => Some(s@),
                    None => None,
                },
            ),
            Reply::Plugin(v) => Answer::Plugin(*v),
        }
    }
}

/// Where the answer to an outstanding request goes.
#[derive(Debug, Clone, Copy)]
pub enum Pending {
    /// A number or an integer for `math_b`.
    MathB,
    /// A number for a slot: frame index and address.
    Slot(usize, usize),
    /// The answers to a comparison plan: whether the operands were lists, how
    /// the plan ended, and how many answers it asked for.
    Comparison(bool, Result<Comparision, VmError>, usize),
    /// A rendered text to allocate into `math_b`.
    NewText,
    /// A line of input for the intermediate register.
    Input,
    /// The result of a plugin call.
    Plugin,
}

} // verus!
