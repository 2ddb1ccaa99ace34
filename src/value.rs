use vstd::prelude::*;

verus! {

/// The host integer type of the interpreted language.
pub type IntegerType = i64;

/// Outcome of comparing two dynamic values.
#[derive(Debug, Clone, Copy, PartialEq, Eq, Structural)]
pub enum Comparision {
    Equal,
    NotEqual,
    LessThan,
    MoreThan,
}

/// The condition that an `ExecuteIf` tests against the last comparison.
#[derive(Debug, Clone, Copy, PartialEq, Eq, Structural)]
pub enum ComparisionRequest {
    Equal,
    NotEqual,
    Less,
    LessOrEqual,
    More,
    MoreOrEqual,
}

/// The declared kind that `AssertMathBCompatible` checks a value against.
#[derive(Debug, Clone, Copy, PartialEq, Eq, Structural)]
pub enum TypeKind {
    Text,
    Integer,
    Number,
    List,
}

/// A dynamically typed value. `Number` holds the bit pattern of an IEEE-754
/// binary64 value; `Text` and `List` hold handles into the heap.
#[derive(Debug, Clone, Copy, PartialEq, Eq, Structural)]
pub enum DynamicValue {
    Integer(IntegerType),
    Number(u64),
    Text(u64),
    List(u64),
    Null,
}

/// A literal as the compiler emits it.
#[derive(Debug, Clone)]
pub enum RawValue {
    Text(String),
    Number(u64),
    Integer(IntegerType),
    Null,
}

/// What one executed instruction reports to the driver.
#[derive(Debug, Clone, Copy, PartialEq, Eq, Structural)]
pub enum ExecutionStatus {
    Normal,
    Quit,
    Returned,
    Halt,
}

/// The categories of failure that an instruction can report.
#[derive(Debug, Clone, Copy, PartialEq, Eq, Structural)]
pub enum VmError {
    /// Incompatible operand types, a failed type assertion or conversion.
    TypeError,
    /// Division by zero or an index outside a list.
    DomainError,
    /// No function executing, no comparison or loop label to use, or a
    /// request answered that was not asked.
    StateError,
    /// An invalid heap handle, slot address, function or plugin id, or an
    /// exhausted counter.
    ResourceError,
    /// A failed read or write of the configured input or output.
    IoError,
}

impl Comparision {
    /// The name under which a comparison result is shown to users.
    pub fn name(&self) -> (r: &'static str)
        ensures
            r@ == comparision_name(*self),
    {
        match self {
            Comparision::Equal => "Igual",
            Comparision::NotEqual => "Diferente",
            Comparision::LessThan => "Menor",
            Comparision::MoreThan => "Maior",
        }
    }
}

pub open spec fn comparision_name(c: Comparision) -> Seq<char> {
    match c {
        Comparision::Equal => "Igual"@,
        Comparision::NotEqual => "Diferente"@,
        Comparision::LessThan => "Menor"@,
        Comparision::MoreThan => "Maior"@,
    }
}

impl VmError {
    /// A short description of the error category.
    pub fn describe(&self) -> (r: &'static str)
        ensures
            r@ == error_description(*self),
    {
        match self {
            VmError::TypeError => "type error",
            VmError::DomainError => "domain error",
            VmError::StateError => "state error",
            VmError::ResourceError => "resource error",
            VmError::IoError => "input/output error",
        }
    }
}

pub open spec fn error_description(e: VmError) -> Seq<char> {
    match e {
        VmError::TypeError => "type error"@,
        VmError::DomainError => "domain error"@,
        VmError::StateError => "state error"@,
        VmError::ResourceError => "resource error"@,
        VmError::IoError => "input/output error"@,
    }
}

/// Whether a comparison result satisfies the requested condition.
pub open spec fn request_matches(req: ComparisionRequest, last: Comparision) -> bool {
    match req {
        ComparisionRequest::Equal => last == Comparision::Equal,
        ComparisionRequest::NotEqual => last != Comparision::Equal,
        ComparisionRequest::Less => last == Comparision::LessThan,
        ComparisionRequest::LessOrEqual => last == Comparision::LessThan || last
            == Comparision::Equal,
        ComparisionRequest::More => last == Comparision::MoreThan,
        ComparisionRequest::MoreOrEqual => last == Comparision::MoreThan || last
            == Comparision::Equal,
    }
}

/// Decides `request_matches` for a concrete comparison.
pub fn comparision_matches(req: ComparisionRequest, last: Comparision) -> (r: bool)
    ensures
        r == request_matches(req, last),
{
    match req {
        ComparisionRequest::Equal => last == Comparision::Equal,
        ComparisionRequest::NotEqual => last != Comparision::Equal,
        ComparisionRequest::Less => last == Comparision::LessThan,
        ComparisionRequest::LessOrEqual => last == Comparision::LessThan || last
            == Comparision::Equal,
        ComparisionRequest::More => last == Comparision::MoreThan,
        ComparisionRequest::MoreOrEqual => last == Comparision::MoreThan || last
            == Comparision::Equal,
    }
}

/// Numeric operands: integers and numbers in any mix.
pub open spec fn is_numeric(v: DynamicValue) -> bool {
    v is Integer || v is Number
}

/// Operands that a binary operator accepts together: both numeric, both
/// text, or both lists.
pub open spec fn compatible(left: DynamicValue, right: DynamicValue) -> bool {
    (is_numeric(left) && is_numeric(right)) || (left is Text && right is Text) || (
    left is List && right is List)
}

/// Decides `compatible`.
pub fn is_compatible(left: DynamicValue, right: DynamicValue) -> (r: bool)
    ensures
        r == compatible(left, right),
{
    match left {
        DynamicValue::Integer(_) | DynamicValue::Number(_) => match right {
            DynamicValue::Integer(_) | DynamicValue::Number(_) => true,
            _ => false,
        },
        DynamicValue::Text(_) => match right {
            DynamicValue::Text(_) => true,
            _ => false,
        },
        DynamicValue::List(_) => match right {
            DynamicValue::List(_) => true,
            _ => false,
        },
        DynamicValue::Null => false,
    }
}

/// Whether a value passes `AssertMathBCompatible(kind)`; an integer is
/// accepted where a number is asked for.
pub open spec fn kind_accepts(kind: TypeKind, v: DynamicValue) -> bool {
    match v {
        DynamicValue::Text(_) => kind == TypeKind::Text,
        DynamicValue::Integer(_) => kind == TypeKind::Integer || kind == TypeKind::Number,
        DynamicValue::Number(_) => kind == TypeKind::Number,
        DynamicValue::List(_) => kind == TypeKind::List,
        DynamicValue::Null => false,
    }
}

/// Decides `kind_accepts`.
pub fn check_kind(kind: TypeKind, v: DynamicValue) -> (r: bool)
    ensures
        r == kind_accepts(kind, v),
{
    match v {
        DynamicValue::Text(_) => kind == TypeKind::Text,
        DynamicValue::Integer(_) => kind == TypeKind::Integer || kind == TypeKind::Number,
        DynamicValue::Number(_) => kind == TypeKind::Number,
        DynamicValue::List(_) => kind == TypeKind::List,
        DynamicValue::Null => false,
    }
}

/// The heap handle that a value carries, if it is a text or a list.
pub open spec fn handle_of(v: DynamicValue) -> Option<u64> {
    match v {
        DynamicValue::Text(h) => Some(h),
        DynamicValue::List(h) => Some(h),
        _ => None,
    }
}

/// Returns the heap handle of a text or list value.
pub fn value_handle(v: DynamicValue) -> (r: Option<u64>)
    ensures
        r == handle_of(v),
{
    match v {
        DynamicValue::Text(h) => Some(h),
        DynamicValue::List(h) => Some(h),
        _ => None,
    }
}

} // verus!
