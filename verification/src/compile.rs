//! The lowering stage: walks the AST and emits the ordered IR operation
//! sequence, interning string-value literals into freshly named data
//! defines on the shared lowering context as it goes. `lower_list` is the
//! exact model of the translation; the context's define table always holds
//! the interned texts in first-seen order under canonical names.

use vstd::prelude::*;

use crate::ir::{
    lemma_view_ir_ops, lemma_view_ir_values, view_ir_op, view_ir_ops, view_ir_value,
    view_ir_values, ComparePredicate, Compiler, Operand, OperandType, Size, SpecIrOp,
    SpecIrPredicate, SpecIrValue, Value,
};
use crate::parse::{
    spec_into_ir, view_ast_node, view_ast_nodes, view_ast_value, ASTNode, ASTValue, SpecAstNode,
    SpecAstValue,
};
use crate::text::{int_chars, nat_digits, push_u64_digits, i32_to_string};
use crate::tokenise::SpecToken;

verus! {

/// A fault inside lowering, raised when a node that is not a value stands
/// in a position where a value is structurally required.
#[derive(Debug, Clone, Copy, PartialEq, Eq)]
pub enum LowerError {
    NotAValue,
}

/// The canonical name of the `k`-th interned string define.
pub open spec fn sd_name(k: nat) -> Seq<char> {
    "_SD"@ + nat_digits(k)
}

/// The define-table rows for `texts` interned starting at index `base`.
pub open spec fn define_table(texts: Seq<Seq<char>>, base: nat) -> Seq<(Seq<char>, Seq<char>)> {
    Seq::new(texts.len(), |k: int| (sd_name((base + k) as nat), texts[k]))
}

/// Rows for texts interned one after another concatenate.
pub proof fn lemma_define_table_concat(a: Seq<Seq<char>>, b: Seq<Seq<char>>, base: nat)
    ensures
        define_table(a, base) + define_table(b, (base + a.len()) as nat) == define_table(
            a + b,
            base,
        ),
{
    assert(define_table(a, base) + define_table(b, (base + a.len()) as nat) =~= define_table(
        a + b,
        base,
    ));
}

/// Distinct interned defines carry distinct names.
pub proof fn lemma_sd_name_injective(a: nat, b: nat)
    requires
        sd_name(a) == sd_name(b),
    ensures
        a == b,
{
    let p = "_SD"@;
    reveal_strlit("_SD");
    assert(sd_name(a).subrange(p.len() as int, sd_name(a).len() as int) =~= nat_digits(a));
    assert(sd_name(b).subrange(p.len() as int, sd_name(b).len() as int) =~= nat_digits(b));
    crate::text::lemma_nat_digits_injective(a, b);
}

/// Law: the define table built for interned literals maps the `k`-th
/// literal, in first-seen order, to its own text under the fresh name of
/// index `base + k`; distinct rows always carry distinct names, also when
/// two literals hold the same text.
pub proof fn lemma_define_names_distinct(texts: Seq<Seq<char>>, base: nat)
    ensures
        define_table(texts, base).len() == texts.len(),
        forall|k: int|
            0 <= k < texts.len() ==> #[trigger] define_table(texts, base)[k] == (
                sd_name((base + k) as nat),
                texts[k],
            ),
        forall|i: int, j: int|
            0 <= i < j < texts.len() ==> #[trigger] define_table(texts, base)[i].0 != #[trigger] define_table(
                texts,
                base,
            )[j].0,
{
    assert forall|i: int, j: int| 0 <= i < j < texts.len() implies #[trigger] define_table(
        texts,
        base,
    )[i].0 != #[trigger] define_table(texts, base)[j].0 by {
        if define_table(texts, base)[i].0 == define_table(texts, base)[j].0 {
            lemma_sd_name_injective((base + i) as nat, (base + j) as nat);
        }
    }
}

/// The model of lowering an expression-position value. The second part of
/// the pair holds the string-value texts interned during the walk, also
/// when the walk ends in a fault.
pub open spec fn lower_astvalue(v: SpecAstValue, base: nat) -> (Result<
    SpecIrValue,
    LowerError,
>, Seq<Seq<char>>)
    decreases v, 0int,
{
    match v {
        SpecAstValue::IntValue(x) => (Ok(SpecIrValue::Int(int_chars(x as int))), Seq::empty()),
        SpecAstValue::StringLiteral(s) => (Ok(SpecIrValue::Variable(s)), Seq::empty()),
        SpecAstValue::Deref(s) => (Ok(SpecIrValue::Dereference(s)), Seq::empty()),
        SpecAstValue::Ref(s) => (Ok(SpecIrValue::Reference(s)), Seq::empty()),
        SpecAstValue::CharValue(c) => (Ok(SpecIrValue::Char(c)), Seq::empty()),
        SpecAstValue::StringValue(text) => (
            Ok(SpecIrValue::StringLiteral(sd_name(base))),
            seq![text],
        ),
        SpecAstValue::FunctionCall(name, args) => {
            let (r, ts) = lower_values(args, 0, base);
            match r {
                Ok(vals) => (Ok(SpecIrValue::FunctionCall(name, vals)), ts),
                Err(e) => (Err(e), ts),
            }
        },
    }
}

/// The model of lowering one value-position node: add and subtract nodes
/// lower their operands left to right; a bare value lowers as a value;
/// anything else is a fault.
pub open spec fn lower_value(n: SpecAstNode, base: nat) -> (Result<
    SpecIrValue,
    LowerError,
>, Seq<Seq<char>>)
    decreases n, 1int,
{
    match n {
        SpecAstNode::Add(a, b) => {
            let (ra, ta) = lower_value(*a, base);
            match ra {
                Ok(va) => {
                    let (rb, tb) = lower_value(*b, (base + ta.len()) as nat);
                    match rb {
                        Ok(vb) => (
                            Ok(SpecIrValue::Add(Box::new(va), Box::new(vb))),
                            ta + tb,
                        ),
                        Err(e) => (Err(e), ta + tb),
                    }
                },
                Err(e) => (Err(e), ta),
            }
        },
        SpecAstNode::Sub(a, b) => {
            let (ra, ta) = lower_value(*a, base);
            match ra {
                Ok(va) => {
                    let (rb, tb) = lower_value(*b, (base + ta.len()) as nat);
                    match rb {
                        Ok(vb) => (
                            Ok(SpecIrValue::Sub(Box::new(va), Box::new(vb))),
                            ta + tb,
                        ),
                        Err(e) => (Err(e), ta + tb),
                    }
                },
                Err(e) => (Err(e), ta),
            }
        },
        SpecAstNode::Value(v) => lower_astvalue(v, base),
        _ => (Err(LowerError::NotAValue), Seq::empty()),
    }
}

/// The model of lowering a call's argument list, left to right.
pub open spec fn lower_values(l: Seq<SpecAstNode>, i: int, base: nat) -> (Result<
    Seq<SpecIrValue>,
    LowerError,
>, Seq<Seq<char>>)
    decreases l, l.len() - i,
{
    if 0 <= i < l.len() {
        let (r1, t1) = lower_value(l[i], base);
        match r1 {
            Ok(v) => {
                let (r2, t2) = lower_values(l, i + 1, (base + t1.len()) as nat);
                match r2 {
                    Ok(vs) => (Ok(seq![v] + vs), t1 + t2),
                    Err(e) => (Err(e), t1 + t2),
                }
            },
            Err(e) => (Err(e), t1),
        }
    } else {
        (Ok(Seq::empty()), Seq::empty())
    }
}

/// The comment marker appended to user inline assembly.
pub open spec fn asm_marker() -> Seq<char> {
    " ; User Defined Inline Assembly"@
}

/// The model of lowering one statement node into its IR operations: every
/// node yields exactly one operation, except a bare value statement, which
/// is dropped and interns nothing.
pub open spec fn lower_node(n: SpecAstNode, base: nat) -> (Result<
    Seq<SpecIrOp>,
    LowerError,
>, Seq<Seq<char>>)
    decreases n, 2int,
{
    match n {
        SpecAstNode::If { predicate, main_body, else_body } => {
            let (rl, tl) = lower_value(*predicate.lhs, base);
            match rl {
                Ok(lhs) => {
                    let (rr, tr) = lower_value(*predicate.rhs, (base + tl.len()) as nat);
                    match rr {
                        Ok(rhs) => {
                            let (rb, tb) = lower_list(
                                main_body,
                                0,
                                (base + tl.len() + tr.len()) as nat,
                            );
                            match rb {
                                Ok(ops) => (
                                    Ok(
                                        seq![
                                            SpecIrOp::If {
                                                predicate: SpecIrPredicate {
                                                    operation: predicate.operation,
                                                    lhs: lhs,
                                                    rhs: rhs,
                                                },
                                                main_body: ops,
                                            },
                                        ],
                                    ),
                                    tl + tr + tb,
                                ),
                                Err(e) => (Err(e), tl + tr + tb),
                            }
                        },
                        Err(e) => (Err(e), tl + tr),
                    }
                },
                Err(e) => (Err(e), tl),
            }
        },
        SpecAstNode::SetVariable(lhs, value) => {
            let (rl, tl) = lower_astvalue(lhs, base);
            match rl {
                Ok(lv) => {
                    let (rv, tv) = lower_value(*value, (base + tl.len()) as nat);
                    match rv {
                        Ok(vv) => (Ok(seq![SpecIrOp::SetValue(lv, vv)]), tl + tv),
                        Err(e) => (Err(e), tl + tv),
                    }
                },
                Err(e) => (Err(e), tl),
            }
        },
        SpecAstNode::FunctionCall(name, args) => {
            let (r, ts) = lower_values(args, 0, base);
            match r {
                Ok(vals) => (Ok(seq![SpecIrOp::FunctionCall(name, vals)]), ts),
                Err(e) => (Err(e), ts),
            }
        },
        SpecAstNode::InlineAssembly(text) => (
            Ok(seq![SpecIrOp::InlineAssembly(text + asm_marker())]),
            Seq::empty(),
        ),
        SpecAstNode::FunctionDeclaration(ty, name, inner, params) => {
            let (rb, tb) = lower_list(inner, 0, base);
            match rb {
                Ok(ops) => (
                    Ok(
                        seq![
                            SpecIrOp::FunctionDecl(
                                spec_into_ir(ty),
                                name,
                                ops,
                                Seq::new(
                                    params.len(),
                                    |i: int| (params[i].0, spec_into_ir(params[i].1)),
                                ),
                            ),
                        ],
                    ),
                    tb,
                ),
                Err(e) => (Err(e), tb),
            }
        },
        SpecAstNode::VariableDeclaration(ty, name, value) => {
            let (rv, tv) = lower_value(*value, base);
            match rv {
                Ok(vv) => (
                    Ok(seq![SpecIrOp::DeclareVariable(spec_into_ir(ty), name, vv)]),
                    tv,
                ),
                Err(e) => (Err(e), tv),
            }
        },
        SpecAstNode::Add(a, b) => {
            let (ra, ta) = lower_value(*a, base);
            match ra {
                Ok(va) => {
                    let (rb, tb) = lower_value(*b, (base + ta.len()) as nat);
                    match rb {
                        Ok(vb) => (
                            Ok(
                                seq![
                                    SpecIrOp::Add(
                                        OperandType::Int(Size::DoubleWord),
                                        va,
                                        vb,
                                    ),
                                ],
                            ),
                            ta + tb,
                        ),
                        Err(e) => (Err(e), ta + tb),
                    }
                },
                Err(e) => (Err(e), ta),
            }
        },
        SpecAstNode::Sub(a, b) => {
            let (ra, ta) = lower_value(*a, base);
            match ra {
                Ok(va) => {
                    let (rb, tb) = lower_value(*b, (base + ta.len()) as nat);
                    match rb {
                        Ok(vb) => (
                            Ok(
                                seq![
                                    SpecIrOp::Subtract(
                                        OperandType::Int(Size::DoubleWord),
                                        va,
                                        vb,
                                    ),
                                ],
                            ),
                            ta + tb,
                        ),
                        Err(e) => (Err(e), ta + tb),
                    }
                },
                Err(e) => (Err(e), ta),
            }
        },
        SpecAstNode::Return(ov) => match ov {
            Option::None => (Ok(seq![SpecIrOp::Return(SpecIrValue::Null)]), Seq::empty()),
            Option::Some(v) => {
                let (rv, tv) = lower_value(*v, base);
                match rv {
                    Ok(vv) => (Ok(seq![SpecIrOp::Return(vv)]), tv),
                    Err(e) => (Err(e), tv),
                }
            },
        },
        SpecAstNode::Value(_) => (Ok(Seq::empty()), Seq::empty()),
    }
}

/// The model of lowering a node list in declaration order: the operation
/// sequences of the nodes concatenate, in source order, never reordered.
pub open spec fn lower_list(l: Seq<SpecAstNode>, i: int, base: nat) -> (Result<
    Seq<SpecIrOp>,
    LowerError,
>, Seq<Seq<char>>)
    decreases l, l.len() - i,
{
    if 0 <= i < l.len() {
        let (r1, t1) = lower_node(l[i], base);
        match r1 {
            Ok(ops1) => {
                let (r2, t2) = lower_list(l, i + 1, (base + t1.len()) as nat);
                match r2 {
                    Ok(ops2) => (Ok(ops1 + ops2), t1 + t2),
                    Err(e) => (Err(e), t1 + t2),
                }
            },
            Err(e) => (Err(e), t1),
        }
    } else {
        (Ok(Seq::empty()), Seq::empty())
    }
}

/// The define-base at which node `k` of a list is lowered, when the list
/// is lowered from index `i` at base `b`.
pub open spec fn node_base(l: Seq<SpecAstNode>, i: int, b: nat, k: int) -> nat
    decreases k - i,
{
    if k <= i {
        b
    } else {
        node_base(l, i + 1, (b + lower_node(l[i], b).1.len()) as nat, k)
    }
}

/// The position at which node `k`'s operations begin in the output of
/// lowering the list from index `i` at base `b`.
pub open spec fn ops_start(l: Seq<SpecAstNode>, i: int, b: nat, k: int) -> int
    decreases k - i,
{
    if k <= i {
        0
    } else {
        lower_node(l[i], b).0->Ok_0.len() + ops_start(
            l,
            i + 1,
            (b + lower_node(l[i], b).1.len()) as nat,
            k,
        )
    }
}

/// Law: lowering a node list never reorders sibling statements. Each
/// node's operations stand as one contiguous block of the output, the
/// blocks in source order: node `k`'s block begins where the blocks of
/// all earlier siblings end. In particular this holds of every program
/// the parser accepts, whose top-level list is lowered from index 0.
pub proof fn lemma_lowering_preserves_order(l: Seq<SpecAstNode>, i: int, b: nat)
    requires
        0 <= i <= l.len(),
        lower_list(l, i, b).0 is Ok,
    ensures
        forall|k: int|
            i <= k < l.len() ==> {
                let nb = #[trigger] node_base(l, i, b, k);
                let st = ops_start(l, i, b, k);
                &&& lower_node(l[k], nb).0 is Ok
                &&& 0 <= st
                &&& st + lower_node(l[k], nb).0->Ok_0.len() <= lower_list(
                    l,
                    i,
                    b,
                ).0->Ok_0.len()
                &&& lower_list(l, i, b).0->Ok_0.subrange(
                    st,
                    st + lower_node(l[k], nb).0->Ok_0.len(),
                ) == lower_node(l[k], nb).0->Ok_0
            },
    decreases l.len() - i,
{
    if i < l.len() {
        let r1 = lower_node(l[i], b).0;
        let t1 = lower_node(l[i], b).1;
        assert(r1 is Ok);
        let ops1 = r1->Ok_0;
        let b2 = (b + t1.len()) as nat;
        let rest = lower_list(l, i + 1, b2);
        assert(rest.0 is Ok);
        let rest_ops = rest.0->Ok_0;
        let full = lower_list(l, i, b).0->Ok_0;
        assert(full == ops1 + rest_ops);
        lemma_lowering_preserves_order(l, i + 1, b2);
        assert forall|k: int| i <= k < l.len() implies {
            let nb = #[trigger] node_base(l, i, b, k);
            let st = ops_start(l, i, b, k);
            &&& lower_node(l[k], nb).0 is Ok
            &&& 0 <= st
            &&& st + lower_node(l[k], nb).0->Ok_0.len() <= full.len()
            &&& full.subrange(st, st + lower_node(l[k], nb).0->Ok_0.len()) == lower_node(
                l[k],
                nb,
            ).0->Ok_0
        } by {
            if k == i {
                assert(node_base(l, i, b, k) == b);
                assert(ops_start(l, i, b, k) == 0);
                assert(full.subrange(0, ops1.len() as int) =~= ops1);
            } else {
                assert(node_base(l, i, b, k) == node_base(l, i + 1, b2, k));
                assert(ops_start(l, i, b, k) == ops1.len() + ops_start(l, i + 1, b2, k));
                let nb = node_base(l, i + 1, b2, k);
                let st = ops_start(l, i + 1, b2, k);
                let seg = lower_node(l[k], nb).0->Ok_0;
                assert(rest_ops.subrange(st, st + seg.len()) == seg);
                assert(full.subrange(
                    ops1.len() + st,
                    ops1.len() + st + seg.len(),
                ) =~= rest_ops.subrange(st, st + seg.len()));
            }
        }
    }
}

/// Law: for any well-formed program the parser accepts, lowering it never
/// reorders sibling statements relative to their source order: each
/// top-level node's operations stand as one contiguous block, the blocks
/// in source order.
pub proof fn lemma_parsed_program_order(t: Seq<SpecToken>, l: Seq<SpecAstNode>, b: nat)
    requires
        crate::parse::spec_parse_program(t, 0) matches Ok(q) && q == l,
        lower_list(l, 0, b).0 is Ok,
    ensures
        forall|k: int|
            0 <= k < l.len() ==> {
                let nb = #[trigger] node_base(l, 0, b, k);
                let st = ops_start(l, 0, b, k);
                &&& lower_node(l[k], nb).0 is Ok
                &&& 0 <= st
                &&& st + lower_node(l[k], nb).0->Ok_0.len() <= lower_list(
                    l,
                    0,
                    b,
                ).0->Ok_0.len()
                &&& lower_list(l, 0, b).0->Ok_0.subrange(
                    st,
                    st + lower_node(l[k], nb).0->Ok_0.len(),
                ) == lower_node(l[k], nb).0->Ok_0
            },
{
    lemma_lowering_preserves_order(l, 0, b);
}

/// The executable canonical define name for index `k`.
fn make_define_name(k: u64) -> (r: String)
    ensures
        r@ == sd_name(k as nat),
{
    let mut out = String::from_str("_SD");
    push_u64_digits(k, &mut out);
    out
}

/// Lowers an expression-position value into an IR value, interning any
/// string-value literals on the context in first-seen order.
pub fn compile_astvalue(value: &ASTValue, compiler: &mut Compiler) -> (r: Result<
    Value,
    LowerError,
>)
    ensures
        ({
            let b0 = old(compiler)@.string_defines.len() as nat;
            let lr = lower_astvalue(view_ast_value(*value), b0);
            &&& final(compiler)@.operands == old(compiler)@.operands
            &&& final(compiler)@.string_defines == old(compiler)@.string_defines + define_table(
                lr.1,
                b0,
            )
            &&& match r {
                Ok(v) => lr.0 matches Ok(q) && q == view_ir_value(v),
                Err(e) => lr.0 matches Err(e2) && e2 == e,
            }
        }),
    decreases *value, 0int,
{
    let ghost b0 = compiler@.string_defines.len() as nat;
    let ghost defines0 = compiler@.string_defines;
    match value {
        ASTValue::IntValue(x) => {
            let v = Value::Int(i32_to_string(*x));
            proof {
                assert(view_ir_value(v) == SpecIrValue::Int(int_chars(*x as int)));
                assert(defines0 + define_table(Seq::empty(), b0) =~= defines0);
            }
            Ok(v)
        },
        ASTValue::StringLiteral(s) => {
            let v = Value::Variable(s.clone());
            proof {
                assert(view_ir_value(v) == SpecIrValue::Variable(s@));
                assert(defines0 + define_table(Seq::empty(), b0) =~= defines0);
            }
            Ok(v)
        },
        ASTValue::Deref(s) => {
            let v = Value::Dereference(s.clone());
            proof {
                assert(view_ir_value(v) == SpecIrValue::Dereference(s@));
                assert(defines0 + define_table(Seq::empty(), b0) =~= defines0);
            }
            Ok(v)
        },
        ASTValue::Ref(s) => {
            let v = Value::Reference(s.clone());
            proof {
                assert(view_ir_value(v) == SpecIrValue::Reference(s@));
                assert(defines0 + define_table(Seq::empty(), b0) =~= defines0);
            }
            Ok(v)
        },
        ASTValue::CharValue(c) => {
            let v = Value::Char(*c);
            proof {
                assert(view_ir_value(v) == SpecIrValue::Char(*c));
                assert(defines0 + define_table(Seq::empty(), b0) =~= defines0);
            }
            Ok(v)
        },
        ASTValue::StringValue(text) => {
            let k = compiler.string_defines.len();
            let name = make_define_name(k as u64);
            let pair = (name.clone(), text.clone());
            compiler.string_defines.push(pair);
            let v = Value::StringLiteral(name);
            proof {
                assert(view_ir_value(v) == SpecIrValue::StringLiteral(sd_name(b0)));
                assert(compiler@.string_defines =~= defines0 + define_table(seq![text@], b0));
            }
            Ok(v)
        },
        ASTValue::FunctionCall(name, args) => {
            match compile_values(args, 0, compiler) {
                Ok(vals) => {
                    let ghost valsv = vals@;
                    let v = Value::FunctionCall(name.clone(), vals);
                    proof {
                        assert(view_ir_value(v) == SpecIrValue::FunctionCall(
                            name@,
                            view_ir_values(valsv),
                        ));
                    }
                    Ok(v)
                },
                Err(e) => Err(e),
            }
        },
    }
}

/// Lowers a call's argument nodes from index `i` onward, left to right.
fn compile_values(values: &Vec<ASTNode>, i: usize, compiler: &mut Compiler) -> (r: Result<
    Vec<Value>,
    LowerError,
>)
    requires
        i <= values@.len(),
    ensures
        ({
            let b0 = old(compiler)@.string_defines.len() as nat;
            let lr = lower_values(view_ast_nodes(values@), i as int, b0);
            &&& final(compiler)@.operands == old(compiler)@.operands
            &&& final(compiler)@.string_defines == old(compiler)@.string_defines + define_table(
                lr.1,
                b0,
            )
            &&& match r {
                Ok(vs) => lr.0 matches Ok(q) && q == view_ir_values(vs@),
                Err(e) => lr.0 matches Err(e2) && e2 == e,
            }
        }),
    decreases values@, values@.len() - i,
{
    let ghost l = view_ast_nodes(values@);
    let ghost b0 = compiler@.string_defines.len() as nat;
    let ghost defines0 = compiler@.string_defines;
    proof {
        crate::parse::lemma_view_ast_nodes(values@);
    }
    if i >= values.len() {
        let out: Vec<Value> = Vec::new();
        proof {
            crate::ir::lemma_view_ir_values(out@);
            assert(view_ir_values(out@) =~= Seq::<SpecIrValue>::empty());
            assert(defines0 + define_table(Seq::empty(), b0) =~= defines0);
        }
        return Ok(out);
    }
    proof {
        assert(decreases_to!(values@ => values@[i as int]));
    }
    match compile_value(&values[i], compiler) {
        Ok(v) => {
            let ghost t1 = lower_value(l[i as int], b0).1;
            match compile_values(values, i + 1, compiler) {
                Ok(rest) => {
                    let ghost t2 = lower_values(l, i + 1, (b0 + t1.len()) as nat).1;
                    let mut out: Vec<Value> = Vec::new();
                    out.push(v);
                    let mut rest_v = rest;
                    let ghost rest0 = rest_v@;
                    out.append(&mut rest_v);
                    proof {
                        lemma_view_ir_values(out@);
                        lemma_view_ir_values(rest0);
                        assert(view_ir_values(out@) =~= seq![view_ir_value(out@[0])]
                            + view_ir_values(rest0));
                        lemma_define_table_concat(t1, t2, b0);
                        assert(defines0 + define_table(t1, b0) + define_table(
                            t2,
                            (b0 + t1.len()) as nat,
                        ) =~= defines0 + define_table(t1 + t2, b0));
                    }
                    Ok(out)
                },
                Err(e) => {
                    proof {
                        let t2 = lower_values(l, i + 1, (b0 + t1.len()) as nat).1;
                        lemma_define_table_concat(t1, t2, b0);
                        assert(defines0 + define_table(t1, b0) + define_table(
                            t2,
                            (b0 + t1.len()) as nat,
                        ) =~= defines0 + define_table(t1 + t2, b0));
                    }
                    Err(e)
                },
            }
        },
        Err(e) => Err(e),
    }
}

/// Lowers a value-position node: add and subtract recurse on their
/// operands; a bare value lowers as a value; anything else is a fault.
fn compile_value(value: &ASTNode, compiler: &mut Compiler) -> (r: Result<Value, LowerError>)
    ensures
        ({
            let b0 = old(compiler)@.string_defines.len() as nat;
            let lr = lower_value(view_ast_node(*value), b0);
            &&& final(compiler)@.operands == old(compiler)@.operands
            &&& final(compiler)@.string_defines == old(compiler)@.string_defines + define_table(
                lr.1,
                b0,
            )
            &&& match r {
                Ok(v) => lr.0 matches Ok(q) && q == view_ir_value(v),
                Err(e) => lr.0 matches Err(e2) && e2 == e,
            }
        }),
    decreases *value, 1int,
{
    let ghost b0 = compiler@.string_defines.len() as nat;
    let ghost defines0 = compiler@.string_defines;
    match value {
        ASTNode::Add(a, b) => {
            match compile_value(&**a, compiler) {
                Ok(va) => {
                    let ghost ta = lower_value(view_ast_node(**a), b0).1;
                    match compile_value(&**b, compiler) {
                        Ok(vb) => {
                            let ghost tb = lower_value(
                                view_ast_node(**b),
                                (b0 + ta.len()) as nat,
                            ).1;
                            let ghost vav = view_ir_value(va);
                            let ghost vbv = view_ir_value(vb);
                            let v = Value::Add(Box::new(va), Box::new(vb));
                            proof {
                                assert(view_ir_value(v) == SpecIrValue::Add(
                                    Box::new(vav),
                                    Box::new(vbv),
                                ));
                                lemma_define_table_concat(ta, tb, b0);
                                assert(defines0 + define_table(ta, b0) + define_table(
                                    tb,
                                    (b0 + ta.len()) as nat,
                                ) =~= defines0 + define_table(ta + tb, b0));
                            }
                            Ok(v)
                        },
                        Err(e) => {
                            proof {
                                let tb = lower_value(
                                    view_ast_node(**b),
                                    (b0 + ta.len()) as nat,
                                ).1;
                                lemma_define_table_concat(ta, tb, b0);
                                assert(defines0 + define_table(ta, b0) + define_table(
                                    tb,
                                    (b0 + ta.len()) as nat,
                                ) =~= defines0 + define_table(ta + tb, b0));
                            }
                            Err(e)
                        },
                    }
                },
                Err(e) => Err(e),
            }
        },
        ASTNode::Sub(a, b) => {
            match compile_value(&**a, compiler) {
                Ok(va) => {
                    let ghost ta = lower_value(view_ast_node(**a), b0).1;
                    match compile_value(&**b, compiler) {
                        Ok(vb) => {
                            let ghost tb = lower_value(
                                view_ast_node(**b),
                                (b0 + ta.len()) as nat,
                            ).1;
                            let ghost vav = view_ir_value(va);
                            let ghost vbv = view_ir_value(vb);
                            let v = Value::Sub(Box::new(va), Box::new(vb));
                            proof {
                                assert(view_ir_value(v) == SpecIrValue::Sub(
                                    Box::new(vav),
                                    Box::new(vbv),
                                ));
                                lemma_define_table_concat(ta, tb, b0);
                                assert(defines0 + define_table(ta, b0) + define_table(
                                    tb,
                                    (b0 + ta.len()) as nat,
                                ) =~= defines0 + define_table(ta + tb, b0));
                            }
                            Ok(v)
                        },
                        Err(e) => {
                            proof {
                                let tb = lower_value(
                                    view_ast_node(**b),
                                    (b0 + ta.len()) as nat,
                                ).1;
                                lemma_define_table_concat(ta, tb, b0);
                                assert(defines0 + define_table(ta, b0) + define_table(
                                    tb,
                                    (b0 + ta.len()) as nat,
                                ) =~= defines0 + define_table(ta + tb, b0));
                            }
                            Err(e)
                        },
                    }
                },
                Err(e) => Err(e),
            }
        },
        ASTNode::Value(v) => compile_astvalue(v, compiler),
        _ => {
            proof {
                assert(defines0 + define_table(Seq::empty(), b0) =~= defines0);
            }
            Err(LowerError::NotAValue)
        },
    }
}

/// Lowers one statement node into its IR operations: one operation per
/// node, except a bare value statement, which yields none.
#[verifier::rlimit(60)]
pub fn compile_node(node: &ASTNode, compiler: &mut Compiler) -> (r: Result<
    Vec<Operand>,
    LowerError,
>)
    ensures
        ({
            let b0 = old(compiler)@.string_defines.len() as nat;
            let lr = lower_node(view_ast_node(*node), b0);
            &&& final(compiler)@.operands == old(compiler)@.operands
            &&& final(compiler)@.string_defines == old(compiler)@.string_defines + define_table(
                lr.1,
                b0,
            )
            &&& match r {
                Ok(ops) => lr.0 matches Ok(q) && q == view_ir_ops(ops@),
                Err(e) => lr.0 matches Err(e2) && e2 == e,
            }
        }),
    decreases *node, 2int,
{
    let ghost b0 = compiler@.string_defines.len() as nat;
    let ghost defines0 = compiler@.string_defines;
    match node {
        ASTNode::If { predicate, main_body, else_body } => {
            match compile_value(&*predicate.lhs, compiler) {
                Ok(va) => {
                    let ghost tl = lower_value(view_ast_node(*predicate.lhs), b0).1;
                    match compile_value(&*predicate.rhs, compiler) {
                        Ok(vb) => {
                            let ghost tr = lower_value(
                                view_ast_node(*predicate.rhs),
                                (b0 + tl.len()) as nat,
                            ).1;
                            match compile_list(main_body, 0, compiler) {
                                Ok(inner) => {
                                    let ghost tb = lower_list(
                                        view_ast_nodes(main_body@),
                                        0,
                                        (b0 + tl.len() + tr.len()) as nat,
                                    ).1;
                                    let ghost vav = view_ir_value(va);
                                    let ghost vbv = view_ir_value(vb);
                                    let ghost innerv = inner@;
                                    let op = Operand::If {
                                        predicate: ComparePredicate {
                                            operation: predicate.operation,
                                            lhs: va,
                                            rhs: vb,
                                        },
                                        main_body: inner,
                                    };
                                    let mut out: Vec<Operand> = Vec::new();
                                    out.push(op);
                                    proof {
                                        assert(view_ir_op(out@[0]) == SpecIrOp::If {
                                            predicate: SpecIrPredicate {
                                                operation: predicate.operation,
                                                lhs: vav,
                                                rhs: vbv,
                                            },
                                            main_body: view_ir_ops(innerv),
                                        });
                                        lemma_view_ir_ops(out@);
                                        assert(view_ir_ops(out@) =~= seq![
                                            view_ir_op(out@[0]),
                                        ]);
                                        lemma_define_table_concat(tl, tr, b0);
                                        lemma_define_table_concat(
                                            tl + tr,
                                            tb,
                                            b0,
                                        );
                                        assert(defines0 + define_table(tl, b0) + define_table(
                                            tr,
                                            (b0 + tl.len()) as nat,
                                        ) + define_table(
                                            tb,
                                            (b0 + tl.len() + tr.len()) as nat,
                                        ) =~= defines0 + define_table(tl + tr + tb, b0));
                                    }
                                    Ok(out)
                                },
                                Err(e) => {
                                    proof {
                                        let tb = lower_list(
                                            view_ast_nodes(main_body@),
                                            0,
                                            (b0 + tl.len() + tr.len()) as nat,
                                        ).1;
                                        lemma_define_table_concat(tl, tr, b0);
                                        lemma_define_table_concat(tl + tr, tb, b0);
                                        assert(defines0 + define_table(tl, b0) + define_table(
                                            tr,
                                            (b0 + tl.len()) as nat,
                                        ) + define_table(
                                            tb,
                                            (b0 + tl.len() + tr.len()) as nat,
                                        ) =~= defines0 + define_table(tl + tr + tb, b0));
                                    }
                                    Err(e)
                                },
                            }
                        },
                        Err(e) => {
                            proof {
                                let tr = lower_value(
                                    view_ast_node(*predicate.rhs),
                                    (b0 + tl.len()) as nat,
                                ).1;
                                lemma_define_table_concat(tl, tr, b0);
                                assert(defines0 + define_table(tl, b0) + define_table(
                                    tr,
                                    (b0 + tl.len()) as nat,
                                ) =~= defines0 + define_table(tl + tr, b0));
                            }
                            Err(e)
                        },
                    }
                },
                Err(e) => Err(e),
            }
        },
        ASTNode::SetVariable(lhs, value) => {
            match compile_astvalue(lhs, compiler) {
                Ok(lv) => {
                    let ghost tl = lower_astvalue(view_ast_value(*lhs), b0).1;
                    match compile_value(&**value, compiler) {
                        Ok(vv) => {
                            let ghost tv = lower_value(
                                view_ast_node(**value),
                                (b0 + tl.len()) as nat,
                            ).1;
                            let ghost lvv = view_ir_value(lv);
                            let ghost vvv = view_ir_value(vv);
                            let op = Operand::SetValue(lv, vv);
                            let mut out: Vec<Operand> = Vec::new();
                            out.push(op);
                            proof {
                                assert(view_ir_op(out@[0]) == SpecIrOp::SetValue(lvv, vvv));
                                lemma_view_ir_ops(out@);
                                assert(view_ir_ops(out@) =~= seq![view_ir_op(out@[0])]);
                                lemma_define_table_concat(tl, tv, b0);
                                assert(defines0 + define_table(tl, b0) + define_table(
                                    tv,
                                    (b0 + tl.len()) as nat,
                                ) =~= defines0 + define_table(tl + tv, b0));
                            }
                            Ok(out)
                        },
                        Err(e) => {
                            proof {
                                let tv = lower_value(
                                    view_ast_node(**value),
                                    (b0 + tl.len()) as nat,
                                ).1;
                                lemma_define_table_concat(tl, tv, b0);
                                assert(defines0 + define_table(tl, b0) + define_table(
                                    tv,
                                    (b0 + tl.len()) as nat,
                                ) =~= defines0 + define_table(tl + tv, b0));
                            }
                            Err(e)
                        },
                    }
                },
                Err(e) => Err(e),
            }
        },
        ASTNode::FunctionCall(name, values) => {
            match compile_values(values, 0, compiler) {
                Ok(vals) => {
                    let ghost valsv = vals@;
                    let op = Operand::FunctionCall(name.clone(), vals);
                    let mut out: Vec<Operand> = Vec::new();
                    out.push(op);
                    proof {
                        assert(view_ir_op(out@[0]) == SpecIrOp::FunctionCall(
                            name@,
                            view_ir_values(valsv),
                        ));
                        lemma_view_ir_ops(out@);
                        assert(view_ir_ops(out@) =~= seq![view_ir_op(out@[0])]);
                    }
                    Ok(out)
                },
                Err(e) => Err(e),
            }
        },
        ASTNode::InlineAssembly(assembly) => {
            let mut text = assembly.clone();
            text.append(" ; User Defined Inline Assembly");
            let op = Operand::InlineAssembly(text);
            let mut out: Vec<Operand> = Vec::new();
            out.push(op);
            proof {
                assert(view_ir_op(out@[0]) == SpecIrOp::InlineAssembly(
                    assembly@ + asm_marker(),
                ));
                lemma_view_ir_ops(out@);
                assert(view_ir_ops(out@) =~= seq![view_ir_op(out@[0])]);
                assert(defines0 + define_table(Seq::empty(), b0) =~= defines0);
            }
            Ok(out)
        },
        ASTNode::FunctionDeclaration(ty, name, inner, params) => {
            match compile_list(inner, 0, compiler) {
                Ok(ops) => {
                    let ghost opsv = ops@;
                    let mut conv: Vec<(String, OperandType)> = Vec::new();
                    let mut j: usize = 0;
                    while j < params.len()
                        invariant
                            j <= params@.len(),
                            conv@.len() == j,
                            forall|k: int|
                                0 <= k < j ==> (#[trigger] conv@[k]).0@ == params@[k].0@
                                    && conv@[k].1 == spec_into_ir(params@[k].1),
                        decreases params@.len() - j,
                    {
                        let pname = params[j].0.clone();
                        let pty = params[j].1.into_ir();
                        conv.push((pname, pty));
                        j = j + 1;
                    }
                    let ghost convv = conv@;
                    let op = Operand::FunctionDecl(ty.into_ir(), name.clone(), ops, conv);
                    let mut out: Vec<Operand> = Vec::new();
                    out.push(op);
                    proof {
                        let pv = crate::parse::view_params(params@);
                        assert(Seq::new(convv.len(), |i: int| (convv[i].0@, convv[i].1))
                            =~= Seq::new(pv.len(), |i: int| (pv[i].0, spec_into_ir(pv[i].1))));
                        assert(view_ir_op(out@[0]) == SpecIrOp::FunctionDecl(
                            spec_into_ir(*ty),
                            name@,
                            view_ir_ops(opsv),
                            Seq::new(pv.len(), |i: int| (pv[i].0, spec_into_ir(pv[i].1))),
                        ));
                        lemma_view_ir_ops(out@);
                        assert(view_ir_ops(out@) =~= seq![view_ir_op(out@[0])]);
                    }
                    Ok(out)
                },
                Err(e) => Err(e),
            }
        },
        ASTNode::VariableDeclaration(ty, name, value) => {
            match compile_value(&**value, compiler) {
                Ok(vv) => {
                    let ghost vvv = view_ir_value(vv);
                    let op = Operand::DeclareVariable(ty.into_ir(), name.clone(), vv);
                    let mut out: Vec<Operand> = Vec::new();
                    out.push(op);
                    proof {
                        assert(view_ir_op(out@[0]) == SpecIrOp::DeclareVariable(
                            spec_into_ir(*ty),
                            name@,
                            vvv,
                        ));
                        lemma_view_ir_ops(out@);
                        assert(view_ir_ops(out@) =~= seq![view_ir_op(out@[0])]);
                    }
                    Ok(out)
                },
                Err(e) => Err(e),
            }
        },
        ASTNode::Add(a, b) => {
            match compile_value(&**a, compiler) {
                Ok(va) => {
                    let ghost ta = lower_value(view_ast_node(**a), b0).1;
                    match compile_value(&**b, compiler) {
                        Ok(vb) => {
                            let ghost tb = lower_value(
                                view_ast_node(**b),
                                (b0 + ta.len()) as nat,
                            ).1;
                            let ghost vav = view_ir_value(va);
                            let ghost vbv = view_ir_value(vb);
                            let op = Operand::Add(OperandType::Int(Size::DoubleWord), va, vb);
                            let mut out: Vec<Operand> = Vec::new();
                            out.push(op);
                            proof {
                                assert(view_ir_op(out@[0]) == SpecIrOp::Add(
                                    OperandType::Int(Size::DoubleWord),
                                    vav,
                                    vbv,
                                ));
                                lemma_view_ir_ops(out@);
                                assert(view_ir_ops(out@) =~= seq![view_ir_op(out@[0])]);
                                lemma_define_table_concat(ta, tb, b0);
                                assert(defines0 + define_table(ta, b0) + define_table(
                                    tb,
                                    (b0 + ta.len()) as nat,
                                ) =~= defines0 + define_table(ta + tb, b0));
                            }
                            Ok(out)
                        },
                        Err(e) => {
                            proof {
                                let tb = lower_value(
                                    view_ast_node(**b),
                                    (b0 + ta.len()) as nat,
                                ).1;
                                lemma_define_table_concat(ta, tb, b0);
                                assert(defines0 + define_table(ta, b0) + define_table(
                                    tb,
                                    (b0 + ta.len()) as nat,
                                ) =~= defines0 + define_table(ta + tb, b0));
                            }
                            Err(e)
                        },
                    }
                },
                Err(e) => Err(e),
            }
        },
        ASTNode::Sub(a, b) => {
            match compile_value(&**a, compiler) {
                Ok(va) => {
                    let ghost ta = lower_value(view_ast_node(**a), b0).1;
                    match compile_value(&**b, compiler) {
                        Ok(vb) => {
                            let ghost tb = lower_value(
                                view_ast_node(**b),
                                (b0 + ta.len()) as nat,
                            ).1;
                            let ghost vav = view_ir_value(va);
                            let ghost vbv = view_ir_value(vb);
                            let op = Operand::Subtract(
                                OperandType::Int(Size::DoubleWord),
                                va,
                                vb,
                            );
                            let mut out: Vec<Operand> = Vec::new();
                            out.push(op);
                            proof {
                                assert(view_ir_op(out@[0]) == SpecIrOp::Subtract(
                                    OperandType::Int(Size::DoubleWord),
                                    vav,
                                    vbv,
                                ));
                                lemma_view_ir_ops(out@);
                                assert(view_ir_ops(out@) =~= seq![view_ir_op(out@[0])]);
                                lemma_define_table_concat(ta, tb, b0);
                                assert(defines0 + define_table(ta, b0) + define_table(
                                    tb,
                                    (b0 + ta.len()) as nat,
                                ) =~= defines0 + define_table(ta + tb, b0));
                            }
                            Ok(out)
                        },
                        Err(e) => {
                            proof {
                                let tb = lower_value(
                                    view_ast_node(**b),
                                    (b0 + ta.len()) as nat,
                                ).1;
                                lemma_define_table_concat(ta, tb, b0);
                                assert(defines0 + define_table(ta, b0) + define_table(
                                    tb,
                                    (b0 + ta.len()) as nat,
                                ) =~= defines0 + define_table(ta + tb, b0));
                            }
                            Err(e)
                        },
                    }
                },
                Err(e) => Err(e),
            }
        },
        ASTNode::Return(ov) => {
            match ov {
                Option::None => {
                    let op = Operand::Return(Value::Null);
                    let mut out: Vec<Operand> = Vec::new();
                    out.push(op);
                    proof {
                        assert(view_ir_value(Value::Null) == SpecIrValue::Null);
                        assert(view_ir_op(out@[0]) == SpecIrOp::Return(SpecIrValue::Null));
                        lemma_view_ir_ops(out@);
                        assert(view_ir_ops(out@) =~= seq![view_ir_op(out@[0])]);
                        assert(defines0 + define_table(Seq::empty(), b0) =~= defines0);
                    }
                    Ok(out)
                },
                Option::Some(v) => {
                    match compile_value(&**v, compiler) {
                        Ok(vv) => {
                            let ghost vvv = view_ir_value(vv);
                            let op = Operand::Return(vv);
                            let mut out: Vec<Operand> = Vec::new();
                            out.push(op);
                            proof {
                                assert(view_ir_op(out@[0]) == SpecIrOp::Return(vvv));
                                lemma_view_ir_ops(out@);
                                assert(view_ir_ops(out@) =~= seq![view_ir_op(out@[0])]);
                            }
                            Ok(out)
                        },
                        Err(e) => Err(e),
                    }
                },
            }
        },
        ASTNode::Value(_) => {
            let out: Vec<Operand> = Vec::new();
            proof {
                lemma_view_ir_ops(out@);
                assert(view_ir_ops(out@) =~= Seq::<SpecIrOp>::empty());
                assert(defines0 + define_table(Seq::empty(), b0) =~= defines0);
            }
            Ok(out)
        },
    }
}

/// Lowers the nodes of `nodes` from index `i` onward, in declaration
/// order, concatenating their operations.
pub fn compile_list(nodes: &Vec<ASTNode>, i: usize, compiler: &mut Compiler) -> (r: Result<
    Vec<Operand>,
    LowerError,
>)
    requires
        i <= nodes@.len(),
    ensures
        ({
            let b0 = old(compiler)@.string_defines.len() as nat;
            let lr = lower_list(view_ast_nodes(nodes@), i as int, b0);
            &&& final(compiler)@.operands == old(compiler)@.operands
            &&& final(compiler)@.string_defines == old(compiler)@.string_defines + define_table(
                lr.1,
                b0,
            )
            &&& match r {
                Ok(ops) => lr.0 matches Ok(q) && q == view_ir_ops(ops@),
                Err(e) => lr.0 matches Err(e2) && e2 == e,
            }
        }),
    decreases nodes@, nodes@.len() - i,
{
    let ghost l = view_ast_nodes(nodes@);
    let ghost b0 = compiler@.string_defines.len() as nat;
    let ghost defines0 = compiler@.string_defines;
    proof {
        crate::parse::lemma_view_ast_nodes(nodes@);
    }
    if i >= nodes.len() {
        let out: Vec<Operand> = Vec::new();
        proof {
            lemma_view_ir_ops(out@);
            assert(view_ir_ops(out@) =~= Seq::<SpecIrOp>::empty());
            assert(defines0 + define_table(Seq::empty(), b0) =~= defines0);
        }
        return Ok(out);
    }
    proof {
        assert(decreases_to!(nodes@ => nodes@[i as int]));
    }
    match compile_node(&nodes[i], compiler) {
        Ok(ops1) => {
            let ghost t1 = lower_node(l[i as int], b0).1;
            match compile_list(nodes, i + 1, compiler) {
                Ok(ops2) => {
                    let ghost t2 = lower_list(l, i + 1, (b0 + t1.len()) as nat).1;
                    let mut out = ops1;
                    let ghost out0 = out@;
                    let mut ops2_v = ops2;
                    let ghost rest0 = ops2_v@;
                    out.append(&mut ops2_v);
                    proof {
                        lemma_view_ir_ops(out@);
                        lemma_view_ir_ops(out0);
                        lemma_view_ir_ops(rest0);
                        assert(view_ir_ops(out@) =~= view_ir_ops(out0) + view_ir_ops(rest0));
                        lemma_define_table_concat(t1, t2, b0);
                        assert(defines0 + define_table(t1, b0) + define_table(
                            t2,
                            (b0 + t1.len()) as nat,
                        ) =~= defines0 + define_table(t1 + t2, b0));
                    }
                    Ok(out)
                },
                Err(e) => {
                    proof {
                        let t2 = lower_list(l, i + 1, (b0 + t1.len()) as nat).1;
                        lemma_define_table_concat(t1, t2, b0);
                        assert(defines0 + define_table(t1, b0) + define_table(
                            t2,
                            (b0 + t1.len()) as nat,
                        ) =~= defines0 + define_table(t1 + t2, b0));
                    }
                    Err(e)
                },
            }
        },
        Err(e) => Err(e),
    }
}

/// Lowers a whole translation unit: the populated lowering context holds
/// the ordered IR operation sequence and the string-define table, both
/// exactly as `lower_list` of the node list gives them.
pub fn compile(ast: Vec<ASTNode>) -> (r: Result<Compiler, LowerError>)
    ensures
        ({
            let lr = lower_list(view_ast_nodes(ast@), 0, 0);
            match r {
                Ok(c) => {
                    &&& lr.0 matches Ok(q) && q == c@.operands
                    &&& c@.string_defines == define_table(lr.1, 0)
                },
                Err(e) => lr.0 matches Err(e2) && e2 == e,
            }
        }),
{
    let mut ir_compiler = Compiler::new();
    match compile_list(&ast, 0, &mut ir_compiler) {
        Ok(ops) => {
            let mut ops_v = ops;
            let ghost opsv = ops_v@;
            ir_compiler.operands.append(&mut ops_v);
            proof {
                assert(ir_compiler.operands@ =~= opsv);
                assert(ir_compiler@.string_defines =~= define_table(
                    lower_list(view_ast_nodes(ast@), 0, 0).1,
                    0,
                ));
            }
            Ok(ir_compiler)
        },
        Err(e) => Err(e),
    }
}

/// The fixed assembly header: 64-bit mode, a text section, and the program
/// entry point, ahead of the given body.
pub fn add_header(s: String) -> (r: String)
    ensures
        r@ == "[bits 64]\nsection .text\nglobal _start\n"@ + s@,
{
    let mut out = String::from_str("[bits 64]\nsection .text\nglobal _start\n");
    out.append(s.as_str());
    out
}

} // verus!
