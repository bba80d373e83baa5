//! The recursive-descent parser: consumes the token sequence with one-token
//! lookahead and builds the AST, resolving grammar ambiguities via an
//! `as_value` flag that distinguishes expression positions from statement
//! positions. `spec_parse_program` is the exact model of the grammar.

use vstd::prelude::*;

use crate::ir::{CompareOperation, OperandType, Size};
use crate::text::{i32_to_string, int_chars, push_char, str_eq};
use crate::tokenise::{view_tokens, SpecToken, Token};

verus! {

/// A source-level type: a small closed set of scalars and nested pointers.
#[derive(Debug, PartialEq, Eq)]
pub enum Type {
    VOID,
    INT,
    CHAR,
    PTR(Box<Type>),
}

/// The operand size class of a type (meaningful for non-void types).
pub open spec fn spec_size(t: Type) -> Size {
    match t {
        Type::VOID => Size::Byte,
        Type::INT => Size::DoubleWord,
        Type::CHAR => Size::Byte,
        Type::PTR(_) => Size::QuadWord,
    }
}

/// The number of stack bytes a value of the type occupies.
pub open spec fn spec_bytes(t: Type) -> u32 {
    match t {
        Type::VOID => 0,
        Type::INT => 4,
        Type::CHAR => 1,
        Type::PTR(_) => 8,
    }
}

/// The IR operand type of a source type, nesting preserved.
pub open spec fn spec_into_ir(t: Type) -> OperandType
    decreases t,
{
    match t {
        Type::VOID => OperandType::Undefined,
        Type::CHAR => OperandType::Char,
        Type::INT => OperandType::Int(Size::DoubleWord),
        Type::PTR(a) => OperandType::Pointer(Box::new(spec_into_ir(*a))),
    }
}

/// The pointer nesting depth of a source type.
pub open spec fn type_depth(t: Type) -> nat
    decreases t,
{
    match t {
        Type::PTR(a) => 1 + type_depth(*a),
        _ => 0,
    }
}

/// The pointer nesting depth of an IR operand type.
pub open spec fn ir_type_depth(o: OperandType) -> nat
    decreases o,
{
    match o {
        OperandType::Pointer(a) => 1 + ir_type_depth(*a),
        _ => 0,
    }
}

/// Pointer depth is preserved unchanged from parse time through lowering.
pub proof fn lemma_pointer_depth_preserved(t: Type)
    ensures
        ir_type_depth(spec_into_ir(t)) == type_depth(t),
    decreases t,
{
    match t {
        Type::PTR(a) => {
            lemma_pointer_depth_preserved(*a);
        },
        _ => {},
    }
}

impl Type {
    /// The operand size class; a void value has none.
    pub fn size(&self) -> (r: Size)
        requires
            !(self is VOID),
        ensures
            r == spec_size(*self),
    {
        match self {
            Type::VOID => Size::Byte,
            Type::INT => Size::DoubleWord,
            Type::CHAR => Size::Byte,
            Type::PTR(_) => Size::QuadWord,
        }
    }

    /// The number of stack bytes a value of the type occupies.
    pub fn bytes(&self) -> (r: u32)
        ensures
            r == spec_bytes(*self),
    {
        match self {
            Type::VOID => 0,
            Type::INT => 4,
            Type::CHAR => 1,
            Type::PTR(_) => 8,
        }
    }

    /// The IR operand type of this type, pointer depth preserved.
    pub fn into_ir(&self) -> (r: OperandType)
        ensures
            r == spec_into_ir(*self),
        decreases *self,
    {
        match self {
            Type::VOID => OperandType::Undefined,
            Type::CHAR => OperandType::Char,
            Type::INT => OperandType::Int(self.size()),
            Type::PTR(a) => OperandType::Pointer(Box::new(a.into_ir())),
        }
    }
}

/// An expression-position leaf or near-leaf.
#[derive(Debug, PartialEq, Eq)]
pub enum ASTValue {
    Deref(String),
    Ref(String),
    StringLiteral(String),
    StringValue(String),
    IntValue(i32),
    CharValue(char),
    FunctionCall(String, Vec<ASTNode>),
}

/// A comparison predicate: two expressions and an operator.
#[derive(Debug, PartialEq, Eq)]
pub struct Comparison {
    pub lhs: Box<ASTNode>,
    pub rhs: Box<ASTNode>,
    pub operation: CompareOperation,
}

/// A statement or expression-capable tree node.
#[derive(Debug, PartialEq, Eq)]
pub enum ASTNode {
    FunctionDeclaration(Type, String, Vec<ASTNode>, Vec<(String, Type)>),
    FunctionCall(String, Vec<ASTNode>),
    Add(Box<ASTNode>, Box<ASTNode>),
    Sub(Box<ASTNode>, Box<ASTNode>),
    VariableDeclaration(Type, String, Box<ASTNode>),
    SetVariable(ASTValue, Box<ASTNode>),
    InlineAssembly(String),
    Return(Option<Box<ASTNode>>),
    Value(ASTValue),
    If { predicate: Comparison, main_body: Vec<ASTNode>, else_body: Option<Vec<ASTNode>> },
}

/// The model of an expression-position value.
pub enum SpecAstValue {
    Deref(Seq<char>),
    Ref(Seq<char>),
    StringLiteral(Seq<char>),
    StringValue(Seq<char>),
    IntValue(i32),
    CharValue(char),
    FunctionCall(Seq<char>, Seq<SpecAstNode>),
}

/// The model of a comparison predicate.
pub struct SpecComparison {
    pub lhs: Box<SpecAstNode>,
    pub rhs: Box<SpecAstNode>,
    pub operation: CompareOperation,
}

/// The model of an AST node.
pub enum SpecAstNode {
    FunctionDeclaration(Type, Seq<char>, Seq<SpecAstNode>, Seq<(Seq<char>, Type)>),
    FunctionCall(Seq<char>, Seq<SpecAstNode>),
    Add(Box<SpecAstNode>, Box<SpecAstNode>),
    Sub(Box<SpecAstNode>, Box<SpecAstNode>),
    VariableDeclaration(Type, Seq<char>, Box<SpecAstNode>),
    SetVariable(SpecAstValue, Box<SpecAstNode>),
    InlineAssembly(Seq<char>),
    Return(Option<Box<SpecAstNode>>),
    Value(SpecAstValue),
    If { predicate: SpecComparison, main_body: Seq<SpecAstNode>, else_body: Option<Seq<SpecAstNode>> },
}

/// The model of a parameter list.
pub open spec fn view_params(l: Seq<(String, Type)>) -> Seq<(Seq<char>, Type)> {
    Seq::new(l.len(), |i: int| (l[i].0@, l[i].1))
}

pub open spec fn view_ast_value(v: ASTValue) -> SpecAstValue
    decreases v, 0int,
{
    match v {
        ASTValue::Deref(n) => SpecAstValue::Deref(n@),
        ASTValue::Ref(n) => SpecAstValue::Ref(n@),
        ASTValue::StringLiteral(n) => SpecAstValue::StringLiteral(n@),
        ASTValue::StringValue(n) => SpecAstValue::StringValue(n@),
        ASTValue::IntValue(x) => SpecAstValue::IntValue(x),
        ASTValue::CharValue(c) => SpecAstValue::CharValue(c),
        ASTValue::FunctionCall(n, args) => SpecAstValue::FunctionCall(
            n@,
            view_ast_nodes(args@),
        ),
    }
}

pub open spec fn view_ast_node(n: ASTNode) -> SpecAstNode
    decreases n, 0int,
{
    match n {
        ASTNode::FunctionDeclaration(t, name, body, params) => SpecAstNode::FunctionDeclaration(
            t,
            name@,
            view_ast_nodes(body@),
            view_params(params@),
        ),
        ASTNode::FunctionCall(name, args) => SpecAstNode::FunctionCall(
            name@,
            view_ast_nodes(args@),
        ),
        ASTNode::Add(a, b) => SpecAstNode::Add(
            Box::new(view_ast_node(*a)),
            Box::new(view_ast_node(*b)),
        ),
        ASTNode::Sub(a, b) => SpecAstNode::Sub(
            Box::new(view_ast_node(*a)),
            Box::new(view_ast_node(*b)),
        ),
        ASTNode::VariableDeclaration(t, name, v) => SpecAstNode::VariableDeclaration(
            t,
            name@,
            Box::new(view_ast_node(*v)),
        ),
        ASTNode::SetVariable(lhs, v) => SpecAstNode::SetVariable(
            view_ast_value(lhs),
            Box::new(view_ast_node(*v)),
        ),
        ASTNode::InlineAssembly(text) => SpecAstNode::InlineAssembly(text@),
        ASTNode::Return(v) => SpecAstNode::Return(
            match v {
                Option::Some(b) => Option::Some(Box::new(view_ast_node(*b))),
                Option::None => Option::None,
            },
        ),
        ASTNode::Value(v) => SpecAstNode::Value(view_ast_value(v)),
        ASTNode::If { predicate, main_body, else_body } => SpecAstNode::If {
            predicate: SpecComparison {
                lhs: Box::new(view_ast_node(*predicate.lhs)),
                rhs: Box::new(view_ast_node(*predicate.rhs)),
                operation: predicate.operation,
            },
            main_body: view_ast_nodes(main_body@),
            else_body: match else_body {
                Option::Some(l) => Option::Some(view_ast_nodes(l@)),
                Option::None => Option::None,
            },
        },
    }
}

pub open spec fn view_ast_nodes(l: Seq<ASTNode>) -> Seq<SpecAstNode>
    decreases l, l.len() + 1,
{
    view_ast_nodes_from(l, 0)
}

pub open spec fn view_ast_nodes_from(l: Seq<ASTNode>, i: int) -> Seq<SpecAstNode>
    decreases l, l.len() - i,
{
    if 0 <= i < l.len() {
        seq![view_ast_node(l[i])] + view_ast_nodes_from(l, i + 1)
    } else {
        Seq::empty()
    }
}

pub proof fn lemma_view_ast_nodes_from(l: Seq<ASTNode>, i: int)
    requires
        0 <= i <= l.len(),
    ensures
        view_ast_nodes_from(l, i).len() == l.len() - i,
        forall|k: int|
            i <= k < l.len() ==> view_ast_nodes_from(l, i)[k - i] == view_ast_node(
                #[trigger] l[k],
            ),
    decreases l.len() - i,
{
    if i < l.len() {
        lemma_view_ast_nodes_from(l, i + 1);
    }
}

/// The pointwise reading of `view_ast_nodes`.
pub proof fn lemma_view_ast_nodes(l: Seq<ASTNode>)
    ensures
        view_ast_nodes(l) == Seq::new(l.len(), |i: int| view_ast_node(l[i])),
{
    lemma_view_ast_nodes_from(l, 0);
    assert(view_ast_nodes(l) =~= Seq::new(l.len(), |i: int| view_ast_node(l[i])));
}

impl View for ASTValue {
    type V = SpecAstValue;

    open spec fn view(&self) -> SpecAstValue {
        view_ast_value(*self)
    }
}

impl View for ASTNode {
    type V = SpecAstNode;

    open spec fn view(&self) -> SpecAstNode {
        view_ast_node(*self)
    }
}

impl View for Comparison {
    type V = SpecComparison;

    open spec fn view(&self) -> SpecComparison {
        SpecComparison {
            lhs: Box::new(view_ast_node(*self.lhs)),
            rhs: Box::new(view_ast_node(*self.rhs)),
            operation: self.operation,
        }
    }
}

/// A grammar fault, each holding exactly when its sentence says.
#[derive(Debug, Clone, Copy, PartialEq, Eq)]
pub enum ParseError {
    /// Input ended where a token was structurally required.
    UnexpectedEnd,
    /// The named punctuation token was required and absent.
    ExpectedPunctuation(char),
    /// A bareword was required.
    ExpectedName,
    /// A type keyword was required.
    ExpectedType,
    /// A statement-only construct stood in expression position.
    ValueExpected,
    /// A token no grammar rule accepts in this position.
    UnexpectedToken,
    /// A keyword with no parse rule.
    UnknownKeyword,
    /// An `if` predicate did not begin with a comparison symbol.
    ExpectedComparison,
    /// After a type and a name, neither `=` nor `(` followed.
    DeclarationExpected,
}

/// The continuation position after a sub-parse, clamped so the parser's
/// measure always shrinks; identical to `p2` whenever `pos < p2 <= len`,
/// which every executable sub-parse guarantees.
pub open spec fn step_pos(pos: int, p2: int, len: int) -> int {
    if pos < p2 <= len {
        p2
    } else if pos + 1 <= len {
        pos + 1
    } else {
        len
    }
}

/// The model of reading a type: a type keyword, promoted to a pointer by a
/// directly following `*`.
pub open spec fn spec_read_type(t: Seq<SpecToken>, pos: int) -> Result<(Type, int), ParseError> {
    match t[pos] {
        SpecToken::Keyword(k) => {
            if k == "void"@ || k == "int"@ || k == "char"@ {
                let base = if k == "void"@ {
                    Type::VOID
                } else if k == "int"@ {
                    Type::INT
                } else {
                    Type::CHAR
                };
                if pos + 1 < t.len() && t[pos + 1] == SpecToken::Punctuation('*') {
                    Ok((Type::PTR(Box::new(base)), pos + 2))
                } else {
                    Ok((base, pos + 1))
                }
            } else {
                Err(ParseError::ExpectedType)
            }
        },
        _ => Err(ParseError::ExpectedType),
    }
}

/// The first position at or after `pos` holding a `;` token (the end of
/// input when there is none).
pub open spec fn semi_end(t: Seq<SpecToken>, pos: int) -> int
    decreases t.len() - pos,
        when 0 <= pos <= t.len()
{
    if pos >= t.len() {
        t.len() as int
    } else if t[pos] == SpecToken::Punctuation(';') {
        pos
    } else {
        semi_end(t, pos + 1)
    }
}

pub proof fn lemma_semi_end(t: Seq<SpecToken>, pos: int)
    requires
        0 <= pos <= t.len(),
    ensures
        pos <= semi_end(t, pos) <= t.len(),
    decreases t.len() - pos,
{
    if pos < t.len() && t[pos] != SpecToken::Punctuation(';') {
        lemma_semi_end(t, pos + 1);
    }
}

/// The text of one token inside an inline-assembly block.
pub open spec fn render_one(tok: SpecToken) -> Seq<char> {
    match tok {
        SpecToken::Int(v) => int_chars(v as int),
        SpecToken::Float(s) => s,
        SpecToken::CharValue(c) => seq![c],
        SpecToken::StringValue(s) => s,
        SpecToken::StringLiteral(s) => s,
        SpecToken::Keyword(s) => s,
        SpecToken::Punctuation(c) => seq![c],
        SpecToken::MathSymbol(s) => s,
    }
}

/// The separator written ahead of a token inside an inline-assembly block:
/// a single space, except that a comma attaches to what precedes it.
pub open spec fn asm_sep(tok: SpecToken) -> Seq<char> {
    if tok == SpecToken::Punctuation(',') {
        Seq::empty()
    } else {
        seq![' ']
    }
}

pub open spec fn asm_rest(t: Seq<SpecToken>, i: int, to: int) -> Seq<char>
    decreases to - i,
        when i <= to <= t.len()
{
    if i >= to {
        Seq::empty()
    } else {
        asm_sep(t[i]) + render_one(t[i]) + asm_rest(t, i + 1, to)
    }
}

/// The single-spaced re-rendering of the tokens in `[from, to)`, with
/// commas attached to the token before them.
pub open spec fn asm_text(t: Seq<SpecToken>, from: int, to: int) -> Seq<char> {
    if from >= to {
        Seq::empty()
    } else {
        render_one(t[from]) + asm_rest(t, from + 1, to)
    }
}

/// The model of parsing one construct starting at token `pos`: `as_value`
/// tells whether the construct must resolve to an expression. On success the
/// pair holds the node and the position just after the tokens it consumed.
pub open spec fn spec_parse(t: Seq<SpecToken>, pos: int, as_value: bool) -> Result<
    (SpecAstNode, int),
    ParseError,
>
    decreases t.len() - pos, 0int,
        when 0 <= pos < t.len()
{
    match t[pos] {
        SpecToken::CharValue(c) => Ok(
            (SpecAstNode::Value(SpecAstValue::CharValue(c)), pos + 1),
        ),
        SpecToken::StringValue(s) => Ok(
            (SpecAstNode::Value(SpecAstValue::StringValue(s)), pos + 1),
        ),
        SpecToken::Int(v) => Ok((SpecAstNode::Value(SpecAstValue::IntValue(v)), pos + 1)),
        SpecToken::Float(_) => Err(ParseError::UnexpectedToken),
        SpecToken::StringLiteral(name) => {
            if !as_value && pos + 1 < t.len() && t[pos + 1] == SpecToken::Punctuation('=') {
                match spec_try_set(t, SpecAstValue::StringLiteral(name), pos + 1) {
                    Ok(o) => match o {
                        Option::Some(r) => Ok(r),
                        Option::None => Err(ParseError::UnexpectedToken),
                    },
                    Err(e) => Err(e),
                }
            } else if pos + 1 < t.len() && t[pos + 1] == SpecToken::Punctuation('(') {
                if pos + 2 > t.len() {
                    Err(ParseError::UnexpectedEnd)
                } else {
                    match spec_parse_args(t, pos + 2) {
                        Ok((args, pa)) => {
                            if as_value {
                                Ok(
                                    (
                                        SpecAstNode::Value(
                                            SpecAstValue::FunctionCall(name, args),
                                        ),
                                        pa + 1,
                                    ),
                                )
                            } else {
                                if pa + 1 < t.len() && t[pa + 1] == SpecToken::Punctuation(';') {
                                    Ok((SpecAstNode::FunctionCall(name, args), pa + 2))
                                } else {
                                    Err(ParseError::ExpectedPunctuation(';'))
                                }
                            }
                        },
                        Err(e) => Err(e),
                    }
                }
            } else {
                Ok((SpecAstNode::Value(SpecAstValue::StringLiteral(name)), pos + 1))
            }
        },
        SpecToken::Keyword(k) => {
            if k == "int"@ || k == "void"@ || k == "char"@ {
                if as_value {
                    Err(ParseError::ValueExpected)
                } else {
                    match spec_read_type(t, pos) {
                        Ok((ty, p1)) => {
                            if p1 >= t.len() {
                                Err(ParseError::UnexpectedEnd)
                            } else {
                                match t[p1] {
                                    SpecToken::StringLiteral(name) => {
                                        if p1 + 1 >= t.len() {
                                            Err(ParseError::UnexpectedEnd)
                                        } else if t[p1 + 1] == SpecToken::Punctuation('=') {
                                            if p1 + 2 >= t.len() {
                                                Err(ParseError::UnexpectedEnd)
                                            } else {
                                                match spec_parse(t, p1 + 2, true) {
                                                    Ok((value, p2)) => {
                                                        if p2 < t.len() && t[p2]
                                                            == SpecToken::Punctuation(';') {
                                                            Ok(
                                                                (
                                                                    SpecAstNode::VariableDeclaration(
                                                                        ty,
                                                                        name,
                                                                        Box::new(value),
                                                                    ),
                                                                    p2 + 1,
                                                                ),
                                                            )
                                                        } else {
                                                            Err(
                                                                ParseError::ExpectedPunctuation(
                                                                    ';',
                                                                ),
                                                            )
                                                        }
                                                    },
                                                    Err(e) => Err(e),
                                                }
                                            }
                                        } else if t[p1 + 1] == SpecToken::Punctuation('(') {
                                            if p1 + 2 > t.len() {
                                                Err(ParseError::UnexpectedEnd)
                                            } else {
                                                match spec_parse_params(t, p1 + 2) {
                                                    Ok((params, pp)) => {
                                                        if pp < t.len() && t[pp]
                                                            == SpecToken::Punctuation(')') {
                                                            if pp + 1 < t.len() && t[pp + 1]
                                                                == SpecToken::Punctuation('{') {
                                                                match spec_parse_body(
                                                                    t,
                                                                    step_pos(
                                                                        pos,
                                                                        pp + 2,
                                                                        t.len() as int,
                                                                    ),
                                                                ) {
                                                                    Ok((body, pend)) => Ok(
                                                                        (
                                                                            SpecAstNode::FunctionDeclaration(
                                                                                ty,
                                                                                name,
                                                                                body,
                                                                                params,
                                                                            ),
                                                                            pend,
                                                                        ),
                                                                    ),
                                                                    Err(e) => Err(e),
                                                                }
                                                            } else {
                                                                Err(
                                                                    ParseError::ExpectedPunctuation(
                                                                        '{',
                                                                    ),
                                                                )
                                                            }
                                                        } else {
                                                            Err(
                                                                ParseError::ExpectedPunctuation(
                                                                    ')',
                                                                ),
                                                            )
                                                        }
                                                    },
                                                    Err(e) => Err(e),
                                                }
                                            }
                                        } else {
                                            Err(ParseError::DeclarationExpected)
                                        }
                                    },
                                    _ => Err(ParseError::ExpectedName),
                                }
                            }
                        },
                        Err(e) => Err(e),
                    }
                }
            } else if k == "if"@ {
                if pos + 1 < t.len() && t[pos + 1] == SpecToken::Punctuation('(') {
                    if pos + 2 >= t.len() {
                        Err(ParseError::UnexpectedEnd)
                    } else {
                        match spec_parse_comparison(t, pos + 2) {
                            Ok((pred, pc)) => {
                                let pc2 = step_pos(pos + 2, pc, t.len() as int);
                                if pc2 < t.len() && t[pc2] == SpecToken::Punctuation(')') {
                                    if pc2 + 1 < t.len() && t[pc2 + 1] == SpecToken::Punctuation(
                                        '{',
                                    ) {
                                        match spec_parse_body(t, pc2 + 2) {
                                            Ok((body, pend)) => Ok(
                                                (
                                                    SpecAstNode::If {
                                                        predicate: pred,
                                                        main_body: body,
                                                        else_body: Option::None,
                                                    },
                                                    pend,
                                                ),
                                            ),
                                            Err(e) => Err(e),
                                        }
                                    } else {
                                        Err(ParseError::ExpectedPunctuation('{'))
                                    }
                                } else {
                                    Err(ParseError::ExpectedPunctuation(')'))
                                }
                            },
                            Err(e) => Err(e),
                        }
                    }
                } else {
                    Err(ParseError::ExpectedPunctuation('('))
                }
            } else if k == "return"@ {
                if pos + 1 >= t.len() {
                    Err(ParseError::UnexpectedEnd)
                } else if t[pos + 1] == SpecToken::Punctuation(';') {
                    Ok((SpecAstNode::Return(Option::None), pos + 2))
                } else {
                    match spec_parse(t, pos + 1, true) {
                        Ok((v, p2)) => {
                            if p2 < t.len() && t[p2] == SpecToken::Punctuation(';') {
                                Ok(
                                    (
                                        SpecAstNode::Return(Option::Some(Box::new(v))),
                                        p2 + 1,
                                    ),
                                )
                            } else {
                                Err(ParseError::ExpectedPunctuation(';'))
                            }
                        },
                        Err(e) => Err(e),
                    }
                }
            } else {
                Err(ParseError::UnknownKeyword)
            }
        },
        SpecToken::Punctuation(p) => {
            if p == '*' {
                if pos + 1 >= t.len() {
                    Err(ParseError::UnexpectedEnd)
                } else {
                    match t[pos + 1] {
                        SpecToken::StringLiteral(name) => {
                            match spec_try_set(t, SpecAstValue::Deref(name), pos + 2) {
                                Ok(o) => match o {
                                    Option::Some(r) => Ok(r),
                                    Option::None => Ok(
                                        (
                                            SpecAstNode::Value(SpecAstValue::Deref(name)),
                                            pos + 2,
                                        ),
                                    ),
                                },
                                Err(e) => Err(e),
                            }
                        },
                        _ => Err(ParseError::ExpectedName),
                    }
                }
            } else if p == '&' {
                if pos + 1 >= t.len() {
                    Err(ParseError::UnexpectedEnd)
                } else {
                    match t[pos + 1] {
                        SpecToken::StringLiteral(name) => Ok(
                            (SpecAstNode::Value(SpecAstValue::Ref(name)), pos + 2),
                        ),
                        _ => Err(ParseError::ExpectedName),
                    }
                }
            } else if p == '[' {
                if pos + 1 < t.len() && t[pos + 1] == SpecToken::Punctuation('[') {
                    let se = semi_end(t, pos + 2);
                    if se >= t.len() {
                        Err(ParseError::UnexpectedEnd)
                    } else if se >= pos + 4 && t[se - 1] == SpecToken::Punctuation(']') && t[se
                        - 2] == SpecToken::Punctuation(']') {
                        Ok(
                            (
                                SpecAstNode::InlineAssembly(asm_text(t, pos + 2, se - 2)),
                                se + 1,
                            ),
                        )
                    } else {
                        Err(ParseError::ExpectedPunctuation(']'))
                    }
                } else {
                    Err(ParseError::UnexpectedToken)
                }
            } else {
                Err(ParseError::UnexpectedToken)
            }
        },
        SpecToken::MathSymbol(x) => {
            if x == "+"@ || x == "-"@ {
                if pos + 1 >= t.len() {
                    Err(ParseError::UnexpectedEnd)
                } else {
                    match spec_parse(t, pos + 1, true) {
                        Ok((lhs, pl)) => {
                            let pl2 = step_pos(pos + 1, pl, t.len() as int);
                            if pl2 >= t.len() {
                                Err(ParseError::UnexpectedEnd)
                            } else {
                                match spec_parse(t, pl2, true) {
                                    Ok((rhs, pr)) => Ok(
                                        (
                                            if x == "+"@ {
                                                SpecAstNode::Add(
                                                    Box::new(lhs),
                                                    Box::new(rhs),
                                                )
                                            } else {
                                                SpecAstNode::Sub(
                                                    Box::new(lhs),
                                                    Box::new(rhs),
                                                )
                                            },
                                            pr,
                                        ),
                                    ),
                                    Err(e) => Err(e),
                                }
                            }
                        },
                        Err(e) => Err(e),
                    }
                }
            } else {
                Err(ParseError::UnexpectedToken)
            }
        },
    }
}

/// The model of the assignment lookahead: when the token at `pos` is `=`,
/// an assignment to `lhs` is parsed (expression, then `;`); otherwise
/// nothing is consumed.
pub open spec fn spec_try_set(t: Seq<SpecToken>, lhs: SpecAstValue, pos: int) -> Result<
    Option<(SpecAstNode, int)>,
    ParseError,
>
    decreases t.len() - pos, 0int,
        when 0 <= pos <= t.len()
{
    if pos < t.len() && t[pos] == SpecToken::Punctuation('=') {
        if pos + 1 >= t.len() {
            Err(ParseError::UnexpectedEnd)
        } else {
            match spec_parse(t, pos + 1, true) {
                Ok((value, p2)) => {
                    if p2 < t.len() && t[p2] == SpecToken::Punctuation(';') {
                        Ok(
                            Option::Some(
                                (SpecAstNode::SetVariable(lhs, Box::new(value)), p2 + 1),
                            ),
                        )
                    } else {
                        Err(ParseError::ExpectedPunctuation(';'))
                    }
                },
                Err(e) => Err(e),
            }
        }
    } else {
        Ok(Option::None)
    }
}

/// The model of parsing an `if` predicate: a comparison symbol in prefix
/// position, then its two operand expressions.
pub open spec fn spec_parse_comparison(t: Seq<SpecToken>, pos: int) -> Result<
    (SpecComparison, int),
    ParseError,
>
    decreases t.len() - pos, 0int,
        when 0 <= pos < t.len()
{
    match t[pos] {
        SpecToken::MathSymbol(x) => {
            if x == ">"@ || x == "<"@ || x == "=="@ || x == ">="@ || x == "<="@ || x == "!="@ {
                if pos + 1 >= t.len() {
                    Err(ParseError::UnexpectedEnd)
                } else {
                    match spec_parse(t, pos + 1, true) {
                        Ok((lhs, pl)) => {
                            let pl2 = step_pos(pos + 1, pl, t.len() as int);
                            if pl2 >= t.len() {
                                Err(ParseError::UnexpectedEnd)
                            } else {
                                match spec_parse(t, pl2, true) {
                                    Ok((rhs, pr)) => {
                                        let op = if x == "=="@ {
                                            CompareOperation::EQ
                                        } else if x == ">"@ {
                                            CompareOperation::GT
                                        } else if x == "<"@ {
                                            CompareOperation::LT
                                        } else if x == "<="@ {
                                            CompareOperation::LTE
                                        } else if x == ">="@ {
                                            CompareOperation::GTE
                                        } else {
                                            CompareOperation::NEQ
                                        };
                                        Ok(
                                            (
                                                SpecComparison {
                                                    lhs: Box::new(lhs),
                                                    rhs: Box::new(rhs),
                                                    operation: op,
                                                },
                                                pr,
                                            ),
                                        )
                                    },
                                    Err(e) => Err(e),
                                }
                            }
                        },
                        Err(e) => Err(e),
                    }
                }
            } else {
                Err(ParseError::ExpectedComparison)
            }
        },
        _ => Err(ParseError::ExpectedComparison),
    }
}

/// The model of parsing call arguments up to (not consuming) the closing
/// `)`; commas are skippable separators. On success the position holds `)`.
pub open spec fn spec_parse_args(t: Seq<SpecToken>, pos: int) -> Result<
    (Seq<SpecAstNode>, int),
    ParseError,
>
    decreases t.len() - pos, 1int,
        when 0 <= pos <= t.len()
{
    if pos >= t.len() {
        Err(ParseError::UnexpectedEnd)
    } else if t[pos] == SpecToken::Punctuation(')') {
        Ok((Seq::empty(), pos))
    } else {
        let p1 = if t[pos] == SpecToken::Punctuation(',') {
            pos + 1
        } else {
            pos
        };
        if p1 >= t.len() {
            Err(ParseError::UnexpectedEnd)
        } else {
            match spec_parse(t, p1, true) {
                Ok((n, p2)) => {
                    match spec_parse_args(t, step_pos(p1, p2, t.len() as int)) {
                        Ok((rest, pe)) => Ok((seq![n] + rest, pe)),
                        Err(e) => Err(e),
                    }
                },
                Err(e) => Err(e),
            }
        }
    }
}

/// The model of parsing a parameter list: `type name` pairs separated by
/// commas, stopped by a token that is not a comma after a pair, or by `)`.
pub open spec fn spec_parse_params(t: Seq<SpecToken>, pos: int) -> Result<
    (Seq<(Seq<char>, Type)>, int),
    ParseError,
>
    decreases t.len() - pos, 1int,
        when 0 <= pos <= t.len()
{
    if pos >= t.len() {
        Err(ParseError::UnexpectedEnd)
    } else if t[pos] == SpecToken::Punctuation(')') {
        Ok((Seq::empty(), pos))
    } else {
        match spec_read_type(t, pos) {
            Ok((ty, q1)) => {
                if q1 >= t.len() {
                    Err(ParseError::UnexpectedEnd)
                } else {
                    match t[q1] {
                        SpecToken::StringLiteral(name) => {
                            let pe = q1 + 1;
                            if pe >= t.len() {
                                Err(ParseError::UnexpectedEnd)
                            } else if t[pe] == SpecToken::Punctuation(',') {
                                match spec_parse_params(t, pe + 1) {
                                    Ok((rest, pend)) => Ok(
                                        (seq![(name, ty)] + rest, pend),
                                    ),
                                    Err(e) => Err(e),
                                }
                            } else {
                                Ok((seq![(name, ty)], pe))
                            }
                        },
                        _ => Err(ParseError::ExpectedName),
                    }
                }
            },
            Err(e) => Err(e),
        }
    }
}

/// The model of parsing a `{ ... }` body: statements until the closing
/// `}`, which is consumed. Input ending before `}` is a fault.
pub open spec fn spec_parse_body(t: Seq<SpecToken>, pos: int) -> Result<
    (Seq<SpecAstNode>, int),
    ParseError,
>
    decreases t.len() - pos, 1int,
        when 0 <= pos <= t.len()
{
    if pos >= t.len() {
        Err(ParseError::UnexpectedEnd)
    } else if t[pos] == SpecToken::Punctuation('}') {
        Ok((Seq::empty(), pos + 1))
    } else {
        match spec_parse(t, pos, false) {
            Ok((n, p2)) => {
                match spec_parse_body(t, step_pos(pos, p2, t.len() as int)) {
                    Ok((rest, pe)) => Ok((seq![n] + rest, pe)),
                    Err(e) => Err(e),
                }
            },
            Err(e) => Err(e),
        }
    }
}

/// The model of parsing a whole translation unit: top-level constructs in
/// statement context until the input is exhausted.
pub open spec fn spec_parse_program(t: Seq<SpecToken>, pos: int) -> Result<
    Seq<SpecAstNode>,
    ParseError,
>
    decreases t.len() - pos, 1int,
        when 0 <= pos <= t.len()
{
    if pos >= t.len() {
        Ok(Seq::empty())
    } else {
        match spec_parse(t, pos, false) {
            Ok((n, p2)) => {
                match spec_parse_program(t, step_pos(pos, p2, t.len() as int)) {
                    Ok(rest) => Ok(seq![n] + rest),
                    Err(e) => Err(e),
                }
            },
            Err(e) => Err(e),
        }
    }
}

/// Whether the token at `pos` is the punctuation `c`.
fn punc_at(tokens: &Vec<Token>, pos: usize, c: char) -> (r: bool)
    requires
        pos < tokens@.len(),
    ensures
        r == (view_tokens(tokens@)[pos as int] == SpecToken::Punctuation(c)),
{
    match &tokens[pos] {
        Token::Punctuation(x) => *x == c,
        _ => false,
    }
}

impl Type {
    /// Reads a type at `pos`: a type keyword, promoted to a pointer by a
    /// directly following `*`.
    pub fn read_type(tokens: &Vec<Token>, pos: usize) -> (r: Result<(Type, usize), ParseError>)
        requires
            pos < tokens@.len(),
        ensures
            ({
                let t = view_tokens(tokens@);
                match r {
                    Ok(p) => {
                        &&& spec_read_type(t, pos as int) matches Ok(q) && q.0 == p.0 && q.1
                            == p.1 as int
                        &&& pos < p.1 <= tokens@.len()
                    },
                    Err(e) => spec_read_type(t, pos as int) matches Err(e2) && e2 == e,
                }
            }),
    {
        let _toklen = tokens.len();
        match &tokens[pos] {
            Token::Keyword(k) => {
                let base = if str_eq(k.as_str(), "void") {
                    Type::VOID
                } else if str_eq(k.as_str(), "int") {
                    Type::INT
                } else if str_eq(k.as_str(), "char") {
                    Type::CHAR
                } else {
                    return Err(ParseError::ExpectedType);
                };
                if pos + 1 < tokens.len() && punc_at(tokens, pos + 1, '*') {
                    Ok((Type::PTR(Box::new(base)), pos + 2))
                } else {
                    Ok((base, pos + 1))
                }
            },
            _ => Err(ParseError::ExpectedType),
        }
    }
}

/// Finds the position of the next `;` token at or after `pos` (the end of
/// the sequence when there is none).
#[verifier::loop_isolation(false)]
fn find_semi(tokens: &Vec<Token>, pos: usize) -> (r: usize)
    requires
        pos <= tokens@.len(),
    ensures
        r == semi_end(view_tokens(tokens@), pos as int),
        pos <= r <= tokens@.len(),
{
    proof {
        lemma_semi_end(view_tokens(tokens@), pos as int);
    }
    let mut j = pos;
    while j < tokens.len() && !punc_at(tokens, j, ';')
        invariant
            pos <= j <= tokens@.len(),
            semi_end(view_tokens(tokens@), pos as int) == semi_end(
                view_tokens(tokens@),
                j as int,
            ),
        decreases tokens@.len() - j,
    {
        j = j + 1;
    }
    j
}

/// The text of one token inside an inline-assembly block.
fn render_one_exec(tok: &Token) -> (r: String)
    ensures
        r@ == render_one(tok@),
{
    match tok {
        Token::Int(v) => i32_to_string(*v),
        Token::Float(s) => s.clone(),
        Token::CharValue(c) => {
            let mut out = String::new();
            push_char(&mut out, *c);
            proof {
                assert(out@ =~= seq![*c]);
            }
            out
        },
        Token::StringValue(s) => s.clone(),
        Token::StringLiteral(s) => s.clone(),
        Token::Keyword(s) => s.clone(),
        Token::Punctuation(c) => {
            let mut out = String::new();
            push_char(&mut out, *c);
            proof {
                assert(out@ =~= seq![*c]);
            }
            out
        },
        Token::MathSymbol(s) => s.clone(),
    }
}

/// Renders the tokens after the first of an inline-assembly block, each
/// preceded by its separator.
fn asm_rest_exec(tokens: &Vec<Token>, i: usize, to: usize) -> (r: String)
    requires
        i <= to <= tokens@.len(),
    ensures
        r@ == asm_rest(view_tokens(tokens@), i as int, to as int),
    decreases to - i,
{
    let ghost t = view_tokens(tokens@);
    if i >= to {
        let out = String::new();
        proof {
            assert(out@ =~= asm_rest(t, i as int, to as int));
        }
        out
    } else {
        let mut out = String::new();
        if !punc_at(tokens, i, ',') {
            push_char(&mut out, ' ');
        }
        let piece = render_one_exec(&tokens[i]);
        out.append(piece.as_str());
        let rest = asm_rest_exec(tokens, i + 1, to);
        out.append(rest.as_str());
        proof {
            assert(out@ =~= asm_sep(t[i as int]) + render_one(t[i as int]) + asm_rest(
                t,
                i + 1 as int,
                to as int,
            ));
        }
        out
    }
}

/// Renders the tokens of an inline-assembly block, single-spaced, commas
/// attached to the token before them.
fn asm_text_exec(tokens: &Vec<Token>, from: usize, to: usize) -> (r: String)
    requires
        from <= to <= tokens@.len(),
    ensures
        r@ == asm_text(view_tokens(tokens@), from as int, to as int),
{
    if from >= to {
        String::new()
    } else {
        let mut out = render_one_exec(&tokens[from]);
        let rest = asm_rest_exec(tokens, from + 1, to);
        out.append(rest.as_str());
        out
    }
}

/// The assignment lookahead: when the token at `pos` is `=`, parses the
/// assignment of an expression to `lhs`, through the closing `;`.
fn try_set_value(tokens: &Vec<Token>, lhs: ASTValue, pos: usize) -> (r: Result<
    Option<(ASTNode, usize)>,
    ParseError,
>)
    requires
        pos <= tokens@.len(),
    ensures
        ({
            let t = view_tokens(tokens@);
            let s = spec_try_set(t, view_ast_value(lhs), pos as int);
            match r {
                Ok(o) => match o {
                    Option::Some(p) => {
                        &&& s matches Ok(so) && so matches Option::Some(q) && q.0
                            == view_ast_node(p.0) && q.1 == p.1 as int
                        &&& pos < p.1 <= tokens@.len()
                    },
                    Option::None => s matches Ok(so) && so is None,
                },
                Err(e) => s matches Err(e2) && e2 == e,
            }
        }),
    decreases tokens@.len() - pos, 0int,
{
    let toklen = tokens.len();
    if pos < toklen && punc_at(tokens, pos, '=') {
        if pos + 1 >= tokens.len() {
            return Err(ParseError::UnexpectedEnd);
        }
        match parse_node(tokens, pos + 1, true) {
            Ok(p) => {
                let (value, p2) = p;
                if p2 < tokens.len() && punc_at(tokens, p2, ';') {
                    Ok(Option::Some((ASTNode::SetVariable(lhs, Box::new(value)), p2 + 1)))
                } else {
                    Err(ParseError::ExpectedPunctuation(';'))
                }
            },
            Err(e) => Err(e),
        }
    } else {
        Ok(Option::None)
    }
}

/// Parses an `if` predicate: a comparison symbol in prefix position, then
/// its two operand expressions.
fn parse_comparison(tokens: &Vec<Token>, pos: usize) -> (r: Result<(Comparison, usize), ParseError>)
    requires
        pos < tokens@.len(),
    ensures
        ({
            let t = view_tokens(tokens@);
            match r {
                Ok(p) => {
                    &&& spec_parse_comparison(t, pos as int) matches Ok(q) && q.0 == p.0@ && q.1
                        == p.1 as int
                    &&& pos < p.1 <= tokens@.len()
                },
                Err(e) => spec_parse_comparison(t, pos as int) matches Err(e2) && e2 == e,
            }
        }),
    decreases tokens@.len() - pos, 0int,
{
    let _toklen = tokens.len();
    match &tokens[pos] {
        Token::MathSymbol(x) => {
            let is_cmp = str_eq(x.as_str(), ">") || str_eq(x.as_str(), "<") || str_eq(
                x.as_str(),
                "==",
            ) || str_eq(x.as_str(), ">=") || str_eq(x.as_str(), "<=") || str_eq(x.as_str(), "!=");
            if !is_cmp {
                return Err(ParseError::ExpectedComparison);
            }
            if pos + 1 >= tokens.len() {
                return Err(ParseError::UnexpectedEnd);
            }
            match parse_node(tokens, pos + 1, true) {
                Ok(pl_pair) => {
                    let (lhs, pl) = pl_pair;
                    proof {
                        assert(step_pos(pos + 1 as int, pl as int, tokens@.len() as int)
                            == pl as int);
                    }
                    if pl >= tokens.len() {
                        return Err(ParseError::UnexpectedEnd);
                    }
                    match parse_node(tokens, pl, true) {
                        Ok(pr_pair) => {
                            let (rhs, pr) = pr_pair;
                            let op = if str_eq(x.as_str(), "==") {
                                CompareOperation::EQ
                            } else if str_eq(x.as_str(), ">") {
                                CompareOperation::GT
                            } else if str_eq(x.as_str(), "<") {
                                CompareOperation::LT
                            } else if str_eq(x.as_str(), "<=") {
                                CompareOperation::LTE
                            } else if str_eq(x.as_str(), ">=") {
                                CompareOperation::GTE
                            } else {
                                CompareOperation::NEQ
                            };
                            Ok(
                                (
                                    Comparison {
                                        lhs: Box::new(lhs),
                                        rhs: Box::new(rhs),
                                        operation: op,
                                    },
                                    pr,
                                ),
                            )
                        },
                        Err(e) => Err(e),
                    }
                },
                Err(e) => Err(e),
            }
        },
        _ => Err(ParseError::ExpectedComparison),
    }
}

/// Parses call arguments up to (not consuming) the closing `)`.
fn parse_args(tokens: &Vec<Token>, pos: usize) -> (r: Result<(Vec<ASTNode>, usize), ParseError>)
    requires
        pos <= tokens@.len(),
    ensures
        ({
            let t = view_tokens(tokens@);
            match r {
                Ok(p) => {
                    &&& spec_parse_args(t, pos as int) matches Ok(q) && q.0 == view_ast_nodes(
                        p.0@,
                    ) && q.1 == p.1 as int
                    &&& pos <= p.1 < tokens@.len()
                },
                Err(e) => spec_parse_args(t, pos as int) matches Err(e2) && e2 == e,
            }
        }),
    decreases tokens@.len() - pos, 1int,
{
    if pos >= tokens.len() {
        return Err(ParseError::UnexpectedEnd);
    }
    if punc_at(tokens, pos, ')') {
        let out: Vec<ASTNode> = Vec::new();
        proof {
            assert(view_ast_nodes(out@) =~= Seq::<SpecAstNode>::empty());
        }
        return Ok((out, pos));
    }
    let p1 = if punc_at(tokens, pos, ',') {
        pos + 1
    } else {
        pos
    };
    if p1 >= tokens.len() {
        return Err(ParseError::UnexpectedEnd);
    }
    match parse_node(tokens, p1, true) {
        Ok(p_pair) => {
            let (n, p2) = p_pair;
            proof {
                assert(step_pos(p1 as int, p2 as int, tokens@.len() as int) == p2 as int);
            }
            match parse_args(tokens, p2) {
                Ok(rest_pair) => {
                    let (rest, pe) = rest_pair;
                    let mut out: Vec<ASTNode> = Vec::new();
                    out.push(n);
                    let mut rest_v = rest;
                    let ghost rest0 = rest_v@;
                    out.append(&mut rest_v);
                    proof {
                        lemma_view_ast_nodes(out@);
                        lemma_view_ast_nodes(rest0);
                        assert(view_ast_nodes(out@) =~= seq![view_ast_node(out@[0])]
                            + view_ast_nodes(rest0));
                    }
                    Ok((out, pe))
                },
                Err(e) => Err(e),
            }
        },
        Err(e) => Err(e),
    }
}

/// Parses a parameter list of `type name` pairs separated by commas.
fn parse_params(tokens: &Vec<Token>, pos: usize) -> (r: Result<
    (Vec<(String, Type)>, usize),
    ParseError,
>)
    requires
        pos <= tokens@.len(),
    ensures
        ({
            let t = view_tokens(tokens@);
            match r {
                Ok(p) => {
                    &&& spec_parse_params(t, pos as int) matches Ok(q) && q.0 == view_params(
                        p.0@,
                    ) && q.1 == p.1 as int
                    &&& pos <= p.1 < tokens@.len()
                },
                Err(e) => spec_parse_params(t, pos as int) matches Err(e2) && e2 == e,
            }
        }),
    decreases tokens@.len() - pos, 1int,
{
    if pos >= tokens.len() {
        return Err(ParseError::UnexpectedEnd);
    }
    if punc_at(tokens, pos, ')') {
        let out: Vec<(String, Type)> = Vec::new();
        proof {
            assert(view_params(out@) =~= Seq::<(Seq<char>, Type)>::empty());
        }
        return Ok((out, pos));
    }
    match Type::read_type(tokens, pos) {
        Ok(ty_pair) => {
            let (ty, q1) = ty_pair;
            if q1 >= tokens.len() {
                return Err(ParseError::UnexpectedEnd);
            }
            match tokens[q1].extract_string_literal() {
                Option::Some(name) => {
                    let pe = q1 + 1;
                    if pe >= tokens.len() {
                        return Err(ParseError::UnexpectedEnd);
                    }
                    if punc_at(tokens, pe, ',') {
                        match parse_params(tokens, pe + 1) {
                            Ok(rest_pair) => {
                                let (rest, pend) = rest_pair;
                                let mut out: Vec<(String, Type)> = Vec::new();
                                out.push((name, ty));
                                let mut rest_v = rest;
                                let ghost rest0 = rest_v@;
                                out.append(&mut rest_v);
                                proof {
                                    assert(view_params(out@) =~= seq![
                                        (out@[0].0@, out@[0].1),
                                    ] + view_params(rest0));
                                }
                                Ok((out, pend))
                            },
                            Err(e) => Err(e),
                        }
                    } else {
                        let mut out: Vec<(String, Type)> = Vec::new();
                        out.push((name, ty));
                        proof {
                            assert(view_params(out@) =~= seq![(out@[0].0@, out@[0].1)]);
                        }
                        Ok((out, pe))
                    }
                },
                Option::None => Err(ParseError::ExpectedName),
            }
        },
        Err(e) => Err(e),
    }
}

/// Parses a `{ ... }` body: statements until the closing `}` (consumed).
fn parse_body(tokens: &Vec<Token>, pos: usize) -> (r: Result<(Vec<ASTNode>, usize), ParseError>)
    requires
        pos <= tokens@.len(),
    ensures
        ({
            let t = view_tokens(tokens@);
            match r {
                Ok(p) => {
                    &&& spec_parse_body(t, pos as int) matches Ok(q) && q.0 == view_ast_nodes(
                        p.0@,
                    ) && q.1 == p.1 as int
                    &&& pos < p.1 <= tokens@.len()
                },
                Err(e) => spec_parse_body(t, pos as int) matches Err(e2) && e2 == e,
            }
        }),
    decreases tokens@.len() - pos, 1int,
{
    if pos >= tokens.len() {
        return Err(ParseError::UnexpectedEnd);
    }
    if punc_at(tokens, pos, '}') {
        let out: Vec<ASTNode> = Vec::new();
        proof {
            assert(view_ast_nodes(out@) =~= Seq::<SpecAstNode>::empty());
        }
        return Ok((out, pos + 1));
    }
    match parse_node(tokens, pos, false) {
        Ok(p_pair) => {
            let (n, p2) = p_pair;
            proof {
                assert(step_pos(pos as int, p2 as int, tokens@.len() as int) == p2 as int);
            }
            match parse_body(tokens, p2) {
                Ok(rest_pair) => {
                    let (rest, pe) = rest_pair;
                    let mut out: Vec<ASTNode> = Vec::new();
                    out.push(n);
                    let mut rest_v = rest;
                    let ghost rest0 = rest_v@;
                    out.append(&mut rest_v);
                    proof {
                        lemma_view_ast_nodes(out@);
                        lemma_view_ast_nodes(rest0);
                        assert(view_ast_nodes(out@) =~= seq![view_ast_node(out@[0])]
                            + view_ast_nodes(rest0));
                    }
                    Ok((out, pe))
                },
                Err(e) => Err(e),
            }
        },
        Err(e) => Err(e),
    }
}

/// Parses one construct starting at token `pos`, in expression context when
/// `as_value` holds.
#[verifier::rlimit(100)]
fn parse_node(tokens: &Vec<Token>, pos: usize, as_value: bool) -> (r: Result<
    (ASTNode, usize),
    ParseError,
>)
    requires
        pos < tokens@.len(),
    ensures
        ({
            let t = view_tokens(tokens@);
            match r {
                Ok(p) => {
                    &&& spec_parse(t, pos as int, as_value) matches Ok(q) && q.0 == view_ast_node(
                        p.0,
                    ) && q.1 == p.1 as int
                    &&& pos < p.1 <= tokens@.len()
                },
                Err(e) => spec_parse(t, pos as int, as_value) matches Err(e2) && e2 == e,
            }
        }),
    decreases tokens@.len() - pos, 0int,
{
    let ghost t = view_tokens(tokens@);
    let _toklen = tokens.len();
    match &tokens[pos] {
        Token::CharValue(c) => {
            let nd = ASTNode::Value(ASTValue::CharValue(*c));
            proof {
                assert(view_ast_value(nd->Value_0) == SpecAstValue::CharValue(*c));
                assert(view_ast_node(nd) == SpecAstNode::Value(view_ast_value(nd->Value_0)));
            }
            Ok((nd, pos + 1))
        },
        Token::StringValue(s) => {
            let nd = ASTNode::Value(ASTValue::StringValue(s.clone()));
            proof {
                assert(view_ast_value(nd->Value_0) == SpecAstValue::StringValue(s@));
                assert(view_ast_node(nd) == SpecAstNode::Value(view_ast_value(nd->Value_0)));
            }
            Ok((nd, pos + 1))
        },
        Token::Int(v) => {
            let nd = ASTNode::Value(ASTValue::IntValue(*v));
            proof {
                assert(view_ast_value(nd->Value_0) == SpecAstValue::IntValue(*v));
                assert(view_ast_node(nd) == SpecAstNode::Value(view_ast_value(nd->Value_0)));
            }
            Ok((nd, pos + 1))
        },
        Token::Float(_) => Err(ParseError::UnexpectedToken),
        Token::StringLiteral(name) => {
            if !as_value && pos + 1 < tokens.len() && punc_at(tokens, pos + 1, '=') {
                let lhs_v = ASTValue::StringLiteral(name.clone());
                proof {
                    assert(view_ast_value(lhs_v) == SpecAstValue::StringLiteral(name@));
                }
                match try_set_value(tokens, lhs_v, pos + 1) {
                    Ok(o) => match o {
                        Option::Some(p) => Ok(p),
                        Option::None => Err(ParseError::UnexpectedToken),
                    },
                    Err(e) => Err(e),
                }
            } else if pos + 1 < tokens.len() && punc_at(tokens, pos + 1, '(') {
                match parse_args(tokens, pos + 2) {
                    Ok(a_pair) => {
                        let (args, pa) = a_pair;
                        if as_value {
                            let ghost argsv = args@;
                            let nd = ASTNode::Value(ASTValue::FunctionCall(name.clone(), args));
                            proof {
                                assert(view_ast_value(nd->Value_0) == SpecAstValue::FunctionCall(
                                    name@,
                                    view_ast_nodes(argsv),
                                ));
                                assert(view_ast_node(nd) == SpecAstNode::Value(view_ast_value(
                                    nd->Value_0,
                                )));
                            }
                            Ok((nd, pa + 1))
                        } else {
                            if pa + 1 < tokens.len() && punc_at(tokens, pa + 1, ';') {
                                let ghost argsv = args@;
                                let nd = ASTNode::FunctionCall(name.clone(), args);
                                proof {
                                    assert(view_ast_node(nd) == SpecAstNode::FunctionCall(
                                        name@,
                                        view_ast_nodes(argsv),
                                    ));
                                }
                                Ok((nd, pa + 2))
                            } else {
                                Err(ParseError::ExpectedPunctuation(';'))
                            }
                        }
                    },
                    Err(e) => Err(e),
                }
            } else {
            let nd = ASTNode::Value(ASTValue::StringLiteral(name.clone()));
            proof {
                assert(view_ast_value(nd->Value_0) == SpecAstValue::StringLiteral(name@));
                assert(view_ast_node(nd) == SpecAstNode::Value(view_ast_value(nd->Value_0)));
            }
            Ok((nd, pos + 1))
            }
        },
        Token::Keyword(k) => {
            if str_eq(k.as_str(), "int") || str_eq(k.as_str(), "void") || str_eq(
                k.as_str(),
                "char",
            ) {
                if as_value {
                    return Err(ParseError::ValueExpected);
                }
                match Type::read_type(tokens, pos) {
                    Ok(ty_pair) => {
                        let (ty, p1) = ty_pair;
                        if p1 >= tokens.len() {
                            return Err(ParseError::UnexpectedEnd);
                        }
                        match tokens[p1].extract_string_literal() {
                            Option::Some(name) => {
                                if p1 + 1 >= tokens.len() {
                                    return Err(ParseError::UnexpectedEnd);
                                }
                                if punc_at(tokens, p1 + 1, '=') {
                                    if p1 + 2 >= tokens.len() {
                                        return Err(ParseError::UnexpectedEnd);
                                    }
                                    match parse_node(tokens, p1 + 2, true) {
                                        Ok(v_pair) => {
                                            let (value, p2) = v_pair;
                                            if p2 < tokens.len() && punc_at(tokens, p2, ';') {
                                                let nd = ASTNode::VariableDeclaration(
                                                    ty,
                                                    name,
                                                    Box::new(value),
                                                );
                                                Ok((nd, p2 + 1))
                                            } else {
                                                Err(ParseError::ExpectedPunctuation(';'))
                                            }
                                        },
                                        Err(e) => Err(e),
                                    }
                                } else if punc_at(tokens, p1 + 1, '(') {
                                    match parse_params(tokens, p1 + 2) {
                                        Ok(ps_pair) => {
                                            let (params, pp) = ps_pair;
                                            if pp < tokens.len() && punc_at(tokens, pp, ')') {
                                                if pp + 1 < tokens.len() && punc_at(
                                                    tokens,
                                                    pp + 1,
                                                    '{',
                                                ) {
                                                    proof {
                                                        assert(step_pos(
                                                            pos as int,
                                                            pp + 2 as int,
                                                            tokens@.len() as int,
                                                        ) == pp + 2 as int);
                                                    }
                                                    match parse_body(tokens, pp + 2) {
                                                        Ok(b_pair) => {
                                                            let (body, pend) = b_pair;
                                                            let ghost bodyv = body@;
                                                            let ghost paramsv = params@;
                                                            let nd = ASTNode::FunctionDeclaration(
                                                                ty,
                                                                name,
                                                                body,
                                                                params,
                                                            );
                                                            proof {
                                                                assert(view_ast_node(nd)
                                                                    == SpecAstNode::FunctionDeclaration(
                                                                    nd->FunctionDeclaration_0,
                                                                    name@,
                                                                    view_ast_nodes(bodyv),
                                                                    view_params(paramsv),
                                                                ));
                                                            }
                                                            Ok((nd, pend))
                                                        },
                                                        Err(e) => Err(e),
                                                    }
                                                } else {
                                                    Err(ParseError::ExpectedPunctuation('{'))
                                                }
                                            } else {
                                                Err(ParseError::ExpectedPunctuation(')'))
                                            }
                                        },
                                        Err(e) => Err(e),
                                    }
                                } else {
                                    Err(ParseError::DeclarationExpected)
                                }
                            },
                            Option::None => Err(ParseError::ExpectedName),
                        }
                    },
                    Err(e) => Err(e),
                }
            } else if str_eq(k.as_str(), "if") {
                if pos + 1 < tokens.len() && punc_at(tokens, pos + 1, '(') {
                    if pos + 2 >= tokens.len() {
                        return Err(ParseError::UnexpectedEnd);
                    }
                    match parse_comparison(tokens, pos + 2) {
                        Ok(c_pair) => {
                            let (pred, pc) = c_pair;
                            proof {
                                assert(step_pos(pos + 2 as int, pc as int, tokens@.len() as int)
                                    == pc as int);
                            }
                            if pc < tokens.len() && punc_at(tokens, pc, ')') {
                                if pc + 1 < tokens.len() && punc_at(tokens, pc + 1, '{') {
                                    match parse_body(tokens, pc + 2) {
                                        Ok(b_pair) => {
                                            let (body, pend) = b_pair;
                                            let ghost bodyv = body@;
                                            let ghost predv = pred@;
                                            let nd = ASTNode::If {
                                                predicate: pred,
                                                main_body: body,
                                                else_body: Option::None,
                                            };
                                            proof {
                                                assert(view_ast_node(nd) == SpecAstNode::If {
                                                    predicate: predv,
                                                    main_body: view_ast_nodes(bodyv),
                                                    else_body: Option::None,
                                                });
                                            }
                                            Ok((nd, pend))
                                        },
                                        Err(e) => Err(e),
                                    }
                                } else {
                                    Err(ParseError::ExpectedPunctuation('{'))
                                }
                            } else {
                                Err(ParseError::ExpectedPunctuation(')'))
                            }
                        },
                        Err(e) => Err(e),
                    }
                } else {
                    Err(ParseError::ExpectedPunctuation('('))
                }
            } else if str_eq(k.as_str(), "return") {
                if pos + 1 >= tokens.len() {
                    return Err(ParseError::UnexpectedEnd);
                }
                if punc_at(tokens, pos + 1, ';') {
                    let nd = ASTNode::Return(Option::None);
                    proof {
                        assert(view_ast_node(nd) == SpecAstNode::Return(Option::None));
                    }
                    return Ok((nd, pos + 2));
                }
                match parse_node(tokens, pos + 1, true) {
                    Ok(v_pair) => {
                        let (v, p2) = v_pair;
                        if p2 < tokens.len() && punc_at(tokens, p2, ';') {
                            let ghost vv = view_ast_node(v);
                            let nd = ASTNode::Return(Option::Some(Box::new(v)));
                            proof {
                                assert(view_ast_node(nd) == SpecAstNode::Return(
                                    Option::Some(Box::new(vv)),
                                ));
                            }
                            Ok((nd, p2 + 1))
                        } else {
                            Err(ParseError::ExpectedPunctuation(';'))
                        }
                    },
                    Err(e) => Err(e),
                }
            } else {
                Err(ParseError::UnknownKeyword)
            }
        },
        Token::Punctuation(p) => {
            if *p == '*' {
                if pos + 1 >= tokens.len() {
                    return Err(ParseError::UnexpectedEnd);
                }
                match tokens[pos + 1].extract_string_literal() {
                    Option::Some(name) => {
                        let ghost spec_lhs = SpecAstValue::Deref(name@);
                        let lhs_v = ASTValue::Deref(name.clone());
                        proof {
                            assert(view_ast_value(lhs_v) == spec_lhs);
                        }
                        match try_set_value(tokens, lhs_v, pos + 2) {
                            Ok(o) => match o {
                                Option::Some(sp) => Ok(sp),
                                Option::None => {
                                    let nd = ASTNode::Value(ASTValue::Deref(name));
                                    proof {
                                        assert(view_ast_value(nd->Value_0) == spec_lhs);
                                        assert(view_ast_node(nd) == SpecAstNode::Value(
                                            view_ast_value(nd->Value_0),
                                        ));
                                    }
                                    Ok((nd, pos + 2))
                                },
                            },
                            Err(e) => Err(e),
                        }
                    },
                    Option::None => Err(ParseError::ExpectedName),
                }
            } else if *p == '&' {
                if pos + 1 >= tokens.len() {
                    return Err(ParseError::UnexpectedEnd);
                }
                match tokens[pos + 1].extract_string_literal() {
                    Option::Some(name) => {
                        let ghost namev = name@;
                        let nd = ASTNode::Value(ASTValue::Ref(name));
                        proof {
                            assert(view_ast_value(nd->Value_0) == SpecAstValue::Ref(namev));
                            assert(view_ast_node(nd) == SpecAstNode::Value(view_ast_value(
                                nd->Value_0,
                            )));
                        }
                        Ok((nd, pos + 2))
                    },
                    Option::None => Err(ParseError::ExpectedName),
                }
            } else if *p == '[' {
                if pos + 1 < tokens.len() && punc_at(tokens, pos + 1, '[') {
                    let se = find_semi(tokens, pos + 2);
                    if se >= tokens.len() {
                        return Err(ParseError::UnexpectedEnd);
                    }
                    if se - pos >= 4 && punc_at(tokens, se - 1, ']') && punc_at(
                        tokens,
                        se - 2,
                        ']',
                    ) {
                        let text = asm_text_exec(tokens, pos + 2, se - 2);
                        let ghost textv = text@;
                        let nd = ASTNode::InlineAssembly(text);
                        proof {
                            assert(view_ast_node(nd) == SpecAstNode::InlineAssembly(textv));
                        }
                        Ok((nd, se + 1))
                    } else {
                        Err(ParseError::ExpectedPunctuation(']'))
                    }
                } else {
                    Err(ParseError::UnexpectedToken)
                }
            } else {
                Err(ParseError::UnexpectedToken)
            }
        },
        Token::MathSymbol(x) => {
            if str_eq(x.as_str(), "+") || str_eq(x.as_str(), "-") {
                if pos + 1 >= tokens.len() {
                    return Err(ParseError::UnexpectedEnd);
                }
                match parse_node(tokens, pos + 1, true) {
                    Ok(l_pair) => {
                        let (lhs, pl) = l_pair;
                        proof {
                            assert(step_pos(pos + 1 as int, pl as int, tokens@.len() as int)
                                == pl as int);
                        }
                        if pl >= tokens.len() {
                            return Err(ParseError::UnexpectedEnd);
                        }
                        match parse_node(tokens, pl, true) {
                            Ok(r_pair) => {
                                let (rhs, pr) = r_pair;
                                let ghost lv = view_ast_node(lhs);
                                let ghost rv = view_ast_node(rhs);
                                if str_eq(x.as_str(), "+") {
                                    let nd = ASTNode::Add(Box::new(lhs), Box::new(rhs));
                                    proof {
                                        assert(view_ast_node(nd) == SpecAstNode::Add(
                                            Box::new(lv),
                                            Box::new(rv),
                                        ));
                                    }
                                    Ok((nd, pr))
                                } else {
                                    let nd = ASTNode::Sub(Box::new(lhs), Box::new(rhs));
                                    proof {
                                        assert(view_ast_node(nd) == SpecAstNode::Sub(
                                            Box::new(lv),
                                            Box::new(rv),
                                        ));
                                    }
                                    Ok((nd, pr))
                                }
                            },
                            Err(e) => Err(e),
                        }
                    },
                    Err(e) => Err(e),
                }
            } else {
                Err(ParseError::UnexpectedToken)
            }
        },
    }
}

/// Parses top-level constructs in statement context until the input is
/// exhausted.
fn parse_program(tokens: &Vec<Token>, pos: usize) -> (r: Result<Vec<ASTNode>, ParseError>)
    requires
        pos <= tokens@.len(),
    ensures
        ({
            let t = view_tokens(tokens@);
            match r {
                Ok(v) => spec_parse_program(t, pos as int) matches Ok(q) && q == view_ast_nodes(
                    v@,
                ),
                Err(e) => spec_parse_program(t, pos as int) matches Err(e2) && e2 == e,
            }
        }),
    decreases tokens@.len() - pos, 1int,
{
    if pos >= tokens.len() {
        let out: Vec<ASTNode> = Vec::new();
        proof {
            assert(view_ast_nodes(out@) =~= Seq::<SpecAstNode>::empty());
        }
        return Ok(out);
    }
    match parse_node(tokens, pos, false) {
        Ok(p_pair) => {
            let (n, p2) = p_pair;
            proof {
                assert(step_pos(pos as int, p2 as int, tokens@.len() as int) == p2 as int);
            }
            match parse_program(tokens, p2) {
                Ok(rest) => {
                    let mut out: Vec<ASTNode> = Vec::new();
                    out.push(n);
                    let mut rest_v = rest;
                    let ghost rest0 = rest_v@;
                    out.append(&mut rest_v);
                    proof {
                        lemma_view_ast_nodes(out@);
                        lemma_view_ast_nodes(rest0);
                        assert(view_ast_nodes(out@) =~= seq![view_ast_node(out@[0])]
                            + view_ast_nodes(rest0));
                    }
                    Ok(out)
                },
                Err(e) => Err(e),
            }
        },
        Err(e) => Err(e),
    }
}

/// Parses a whole token sequence into the ordered AST node list; the result
/// is exactly `spec_parse_program` of the tokens.
pub fn parse(tokens: Vec<Token>) -> (r: Result<Vec<ASTNode>, ParseError>)
    ensures
        ({
            let t = view_tokens(tokens@);
            match r {
                Ok(v) => spec_parse_program(t, 0) matches Ok(q) && q == view_ast_nodes(v@),
                Err(e) => spec_parse_program(t, 0) matches Err(e2) && e2 == e,
            }
        }),
{
    parse_program(&tokens, 0)
}

} // verus!
