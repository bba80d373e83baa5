//! The IR vocabulary the lowering stage emits into: operand sizes, operand
//! types, value expressions and operations, together with the lowering
//! context (the operation sequence and the string-define table). The
//! machine-code backend that consumes these lives outside this crate.

use vstd::prelude::*;

verus! {

/// An operand size: the addressing width class of a value.
#[derive(Debug, Clone, Copy, PartialEq, Eq)]
pub enum Size {
    Byte,
    DoubleWord,
    QuadWord,
}

/// A comparison operator.
#[derive(Debug, Clone, Copy, PartialEq, Eq)]
pub enum CompareOperation {
    EQ,
    NEQ,
    GT,
    GTE,
    LT,
    LTE,
}

/// The type of an IR operand.
#[derive(Debug, PartialEq, Eq)]
pub enum OperandType {
    Undefined,
    Char,
    Int(Size),
    Pointer(Box<OperandType>),
}

/// An IR value expression.
#[derive(Debug, PartialEq, Eq)]
pub enum Value {
    Int(String),
    Variable(String),
    Dereference(String),
    Reference(String),
    StringLiteral(String),
    Char(char),
    Add(Box<Value>, Box<Value>),
    Sub(Box<Value>, Box<Value>),
    FunctionCall(String, Vec<Value>),
    Null,
}

/// A compare predicate: an operator applied to two IR values.
#[derive(Debug, PartialEq, Eq)]
pub struct ComparePredicate {
    pub operation: CompareOperation,
    pub lhs: Value,
    pub rhs: Value,
}

/// An IR operation.
#[derive(Debug, PartialEq, Eq)]
pub enum Operand {
    FunctionDecl(OperandType, String, Vec<Operand>, Vec<(String, OperandType)>),
    FunctionCall(String, Vec<Value>),
    Add(OperandType, Value, Value),
    Subtract(OperandType, Value, Value),
    DeclareVariable(OperandType, String, Value),
    SetValue(Value, Value),
    InlineAssembly(String),
    Return(Value),
    If { predicate: ComparePredicate, main_body: Vec<Operand> },
}

/// The model of an IR value expression, over character sequences.
pub enum SpecIrValue {
    Int(Seq<char>),
    Variable(Seq<char>),
    Dereference(Seq<char>),
    Reference(Seq<char>),
    StringLiteral(Seq<char>),
    Char(char),
    Add(Box<SpecIrValue>, Box<SpecIrValue>),
    Sub(Box<SpecIrValue>, Box<SpecIrValue>),
    FunctionCall(Seq<char>, Seq<SpecIrValue>),
    Null,
}

/// The model of a compare predicate.
pub struct SpecIrPredicate {
    pub operation: CompareOperation,
    pub lhs: SpecIrValue,
    pub rhs: SpecIrValue,
}

/// The model of an IR operation.
pub enum SpecIrOp {
    FunctionDecl(OperandType, Seq<char>, Seq<SpecIrOp>, Seq<(Seq<char>, OperandType)>),
    FunctionCall(Seq<char>, Seq<SpecIrValue>),
    Add(OperandType, SpecIrValue, SpecIrValue),
    Subtract(OperandType, SpecIrValue, SpecIrValue),
    DeclareVariable(OperandType, Seq<char>, SpecIrValue),
    SetValue(SpecIrValue, SpecIrValue),
    InlineAssembly(Seq<char>),
    Return(SpecIrValue),
    If { predicate: SpecIrPredicate, main_body: Seq<SpecIrOp> },
}

pub open spec fn view_ir_value(v: Value) -> SpecIrValue
    decreases v, 0int,
{
    match v {
        Value::Int(t) => SpecIrValue::Int(t@),
        Value::Variable(t) => SpecIrValue::Variable(t@),
        Value::Dereference(t) => SpecIrValue::Dereference(t@),
        Value::Reference(t) => SpecIrValue::Reference(t@),
        Value::StringLiteral(t) => SpecIrValue::StringLiteral(t@),
        Value::Char(c) => SpecIrValue::Char(c),
        Value::Add(a, b) => SpecIrValue::Add(
            Box::new(view_ir_value(*a)),
            Box::new(view_ir_value(*b)),
        ),
        Value::Sub(a, b) => SpecIrValue::Sub(
            Box::new(view_ir_value(*a)),
            Box::new(view_ir_value(*b)),
        ),
        Value::FunctionCall(n, vs) => SpecIrValue::FunctionCall(n@, view_ir_values(vs@)),
        Value::Null => SpecIrValue::Null,
    }
}

pub open spec fn view_ir_values(vs: Seq<Value>) -> Seq<SpecIrValue>
    decreases vs, vs.len() + 1,
{
    view_ir_values_from(vs, 0)
}

pub open spec fn view_ir_values_from(vs: Seq<Value>, i: int) -> Seq<SpecIrValue>
    decreases vs, vs.len() - i,
{
    if 0 <= i < vs.len() {
        seq![view_ir_value(vs[i])] + view_ir_values_from(vs, i + 1)
    } else {
        Seq::empty()
    }
}

pub proof fn lemma_view_ir_values_from(vs: Seq<Value>, i: int)
    requires
        0 <= i <= vs.len(),
    ensures
        view_ir_values_from(vs, i).len() == vs.len() - i,
        forall|k: int|
            i <= k < vs.len() ==> view_ir_values_from(vs, i)[k - i] == view_ir_value(#[trigger] vs[k]),
    decreases vs.len() - i,
{
    if i < vs.len() {
        lemma_view_ir_values_from(vs, i + 1);
    }
}

/// The pointwise reading of `view_ir_values`.
pub proof fn lemma_view_ir_values(vs: Seq<Value>)
    ensures
        view_ir_values(vs) == Seq::new(vs.len(), |i: int| view_ir_value(vs[i])),
{
    lemma_view_ir_values_from(vs, 0);
    assert(view_ir_values(vs) =~= Seq::new(vs.len(), |i: int| view_ir_value(vs[i])));
}

pub open spec fn view_ir_predicate(p: ComparePredicate) -> SpecIrPredicate {
    SpecIrPredicate {
        operation: p.operation,
        lhs: view_ir_value(p.lhs),
        rhs: view_ir_value(p.rhs),
    }
}

pub open spec fn view_ir_op(o: Operand) -> SpecIrOp
    decreases o, 0int,
{
    match o {
        Operand::FunctionDecl(t, n, body, params) => SpecIrOp::FunctionDecl(
            t,
            n@,
            view_ir_ops(body@),
            Seq::new(params@.len(), |i: int| (params@[i].0@, params@[i].1)),
        ),
        Operand::FunctionCall(n, vs) => SpecIrOp::FunctionCall(n@, view_ir_values(vs@)),
        Operand::Add(t, a, b) => SpecIrOp::Add(t, view_ir_value(a), view_ir_value(b)),
        Operand::Subtract(t, a, b) => SpecIrOp::Subtract(t, view_ir_value(a), view_ir_value(b)),
        Operand::DeclareVariable(t, n, v) => SpecIrOp::DeclareVariable(t, n@, view_ir_value(v)),
        Operand::SetValue(a, b) => SpecIrOp::SetValue(view_ir_value(a), view_ir_value(b)),
        Operand::InlineAssembly(t) => SpecIrOp::InlineAssembly(t@),
        Operand::Return(v) => SpecIrOp::Return(view_ir_value(v)),
        Operand::If { predicate, main_body } => SpecIrOp::If {
            predicate: view_ir_predicate(predicate),
            main_body: view_ir_ops(main_body@),
        },
    }
}

pub open spec fn view_ir_ops(os: Seq<Operand>) -> Seq<SpecIrOp>
    decreases os, os.len() + 1,
{
    view_ir_ops_from(os, 0)
}

pub open spec fn view_ir_ops_from(os: Seq<Operand>, i: int) -> Seq<SpecIrOp>
    decreases os, os.len() - i,
{
    if 0 <= i < os.len() {
        seq![view_ir_op(os[i])] + view_ir_ops_from(os, i + 1)
    } else {
        Seq::empty()
    }
}

pub proof fn lemma_view_ir_ops_from(os: Seq<Operand>, i: int)
    requires
        0 <= i <= os.len(),
    ensures
        view_ir_ops_from(os, i).len() == os.len() - i,
        forall|k: int|
            i <= k < os.len() ==> view_ir_ops_from(os, i)[k - i] == view_ir_op(#[trigger] os[k]),
    decreases os.len() - i,
{
    if i < os.len() {
        lemma_view_ir_ops_from(os, i + 1);
    }
}

/// The pointwise reading of `view_ir_ops`.
pub proof fn lemma_view_ir_ops(os: Seq<Operand>)
    ensures
        view_ir_ops(os) == Seq::new(os.len(), |i: int| view_ir_op(os[i])),
{
    lemma_view_ir_ops_from(os, 0);
    assert(view_ir_ops(os) =~= Seq::new(os.len(), |i: int| view_ir_op(os[i])));
}

impl View for Value {
    type V = SpecIrValue;

    open spec fn view(&self) -> SpecIrValue {
        view_ir_value(*self)
    }
}

impl View for Operand {
    type V = SpecIrOp;

    open spec fn view(&self) -> SpecIrOp {
        view_ir_op(*self)
    }
}

impl View for ComparePredicate {
    type V = SpecIrPredicate;

    open spec fn view(&self) -> SpecIrPredicate {
        view_ir_predicate(*self)
    }
}

/// The model of a lowering context.
pub struct SpecCompiler {
    pub operands: Seq<SpecIrOp>,
    pub string_defines: Seq<(Seq<char>, Seq<char>)>,
}

/// The lowering context: the IR operations emitted so far for the unit, and
/// the table of interned string defines in first-seen order.
#[derive(Debug, PartialEq, Eq)]
pub struct Compiler {
    pub operands: Vec<Operand>,
    pub string_defines: Vec<(String, String)>,
}

impl View for Compiler {
    type V = SpecCompiler;

    open spec fn view(&self) -> SpecCompiler {
        SpecCompiler {
            operands: view_ir_ops(self.operands@),
            string_defines: Seq::new(
                self.string_defines@.len(),
                |i: int| (self.string_defines@[i].0@, self.string_defines@[i].1@),
            ),
        }
    }
}

impl Compiler {
    /// A fresh context with no operations and no defines.
    pub fn new() -> (r: Compiler)
        ensures
            r@.operands == Seq::<SpecIrOp>::empty(),
            r@.string_defines == Seq::<(Seq<char>, Seq<char>)>::empty(),
    {
        let r = Compiler { operands: Vec::new(), string_defines: Vec::new() };
        proof {
            assert(r@.operands =~= Seq::<SpecIrOp>::empty());
            assert(r@.string_defines =~= Seq::<(Seq<char>, Seq<char>)>::empty());
        }
        r
    }
}

} // verus!
