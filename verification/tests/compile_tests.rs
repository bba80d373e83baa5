use c_compiler::compile::{add_header, compile, compile_astvalue, compile_node, LowerError};
use c_compiler::ir::{
    ComparePredicate, CompareOperation, Compiler, Operand, OperandType, Size, Value,
};
use c_compiler::parse::{parse, ASTNode, ASTValue, Type};
use c_compiler::tokenise::tokenise;

fn s(x: &str) -> String {
    String::from(x)
}

fn pipeline(src: &str) -> Compiler {
    compile(parse(tokenise(src).unwrap()).unwrap()).unwrap()
}

#[test]
fn interns_distinct_string_literals_in_order() {
    let ast = vec![ASTNode::FunctionCall(
        s("print"),
        vec![
            ASTNode::Value(ASTValue::StringValue(s("hello"))),
            ASTNode::Value(ASTValue::StringValue(s("world"))),
        ],
    )];
    let c = compile(ast).unwrap();
    assert_eq!(
        c.string_defines,
        vec![(s("_SD0"), s("hello")), (s("_SD1"), s("world"))]
    );
    assert_eq!(
        c.operands,
        vec![Operand::FunctionCall(
            s("print"),
            vec![
                Value::StringLiteral(s("_SD0")),
                Value::StringLiteral(s("_SD1")),
            ],
        )]
    );
}

#[test]
fn equal_string_literals_still_get_fresh_names() {
    let ast = vec![ASTNode::FunctionCall(
        s("print"),
        vec![
            ASTNode::Value(ASTValue::StringValue(s("same"))),
            ASTNode::Value(ASTValue::StringValue(s("same"))),
        ],
    )];
    let c = compile(ast).unwrap();
    assert_eq!(
        c.string_defines,
        vec![(s("_SD0"), s("same")), (s("_SD1"), s("same"))]
    );
}

#[test]
fn lowers_function_declaration() {
    let c = pipeline("int f() { return 1; }");
    assert_eq!(
        c.operands,
        vec![Operand::FunctionDecl(
            OperandType::Int(Size::DoubleWord),
            s("f"),
            vec![Operand::Return(Value::Int(s("1")))],
            vec![],
        )]
    );
    assert_eq!(c.string_defines, vec![]);
}

#[test]
fn lowers_return_nothing_to_null() {
    let c = pipeline("void f() { return; }");
    assert_eq!(
        c.operands,
        vec![Operand::FunctionDecl(
            OperandType::Undefined,
            s("f"),
            vec![Operand::Return(Value::Null)],
            vec![],
        )]
    );
}

#[test]
fn lowers_inline_assembly_with_marker() {
    let c = pipeline("[[ mov eax, 1 ]];");
    assert_eq!(
        c.operands,
        vec![Operand::InlineAssembly(s(
            "mov eax, 1 ; User Defined Inline Assembly"
        ))]
    );
}

#[test]
fn lowers_if_statement() {
    let c = pipeline("int f() { if (x == 1) { return; } }");
    assert_eq!(
        c.operands,
        vec![Operand::FunctionDecl(
            OperandType::Int(Size::DoubleWord),
            s("f"),
            vec![Operand::If {
                predicate: ComparePredicate {
                    operation: CompareOperation::EQ,
                    lhs: Value::Variable(s("x")),
                    rhs: Value::Int(s("1")),
                },
                main_body: vec![Operand::Return(Value::Null)],
            }],
            vec![],
        )]
    );
}

#[test]
fn lowers_declaration_and_assignment() {
    let c = pipeline("int x = 5; *p = x;");
    assert_eq!(
        c.operands,
        vec![
            Operand::DeclareVariable(
                OperandType::Int(Size::DoubleWord),
                s("x"),
                Value::Int(s("5")),
            ),
            Operand::SetValue(Value::Dereference(s("p")), Value::Variable(s("x"))),
        ]
    );
}

#[test]
fn lowers_pointer_types_with_depth_kept() {
    let c = pipeline("int* p = &y;");
    assert_eq!(
        c.operands,
        vec![Operand::DeclareVariable(
            OperandType::Pointer(Box::new(OperandType::Int(Size::DoubleWord))),
            s("p"),
            Value::Reference(s("y")),
        )]
    );
}

#[test]
fn value_statement_is_dropped() {
    let c = compile(vec![ASTNode::Value(ASTValue::IntValue(1))]).unwrap();
    assert_eq!(c.operands, vec![]);
    assert_eq!(c.string_defines, vec![]);
}

#[test]
fn rejects_statement_in_value_position() {
    let bad = vec![ASTNode::Return(Some(Box::new(ASTNode::Return(None))))];
    assert_eq!(compile(bad), Err(LowerError::NotAValue));
}

#[test]
fn lowers_negative_int_value() {
    let mut ctx = Compiler::new();
    let v = compile_astvalue(&ASTValue::IntValue(-7), &mut ctx).unwrap();
    assert_eq!(v, Value::Int(s("-7")));
    assert_eq!(ctx.string_defines, vec![]);
}

#[test]
fn compile_node_emits_one_operation() {
    let mut ctx = Compiler::new();
    let ops = compile_node(
        &ASTNode::VariableDeclaration(
            Type::CHAR,
            s("c"),
            Box::new(ASTNode::Value(ASTValue::CharValue('x'))),
        ),
        &mut ctx,
    )
    .unwrap();
    assert_eq!(
        ops,
        vec![Operand::DeclareVariable(
            OperandType::Char,
            s("c"),
            Value::Char('x'),
        )]
    );
}

#[test]
fn lowers_a_small_program_end_to_end() {
    let src = "int main() { int x = 2 + 3; print(\"hi\"); if (x == 5) { return x; } return 0; }";
    let c = pipeline(src);
    assert_eq!(c.string_defines, vec![(s("_SD0"), s("hi"))]);
    assert_eq!(
        c.operands,
        vec![Operand::FunctionDecl(
            OperandType::Int(Size::DoubleWord),
            s("main"),
            vec![
                Operand::DeclareVariable(
                    OperandType::Int(Size::DoubleWord),
                    s("x"),
                    Value::Add(
                        Box::new(Value::Int(s("2"))),
                        Box::new(Value::Int(s("3"))),
                    ),
                ),
                Operand::FunctionCall(s("print"), vec![Value::StringLiteral(s("_SD0"))]),
                Operand::If {
                    predicate: ComparePredicate {
                        operation: CompareOperation::EQ,
                        lhs: Value::Variable(s("x")),
                        rhs: Value::Int(s("5")),
                    },
                    main_body: vec![Operand::Return(Value::Variable(s("x")))],
                },
                Operand::Return(Value::Int(s("0"))),
            ],
            vec![],
        )]
    );
}

#[test]
fn header_is_prepended() {
    assert_eq!(
        add_header(s("body")),
        s("[bits 64]\nsection .text\nglobal _start\nbody")
    );
}

#[test]
fn type_into_ir() {
    assert_eq!(Type::VOID.into_ir(), OperandType::Undefined);
    assert_eq!(Type::CHAR.into_ir(), OperandType::Char);
    assert_eq!(Type::INT.into_ir(), OperandType::Int(Size::DoubleWord));
    assert_eq!(
        Type::PTR(Box::new(Type::PTR(Box::new(Type::CHAR)))).into_ir(),
        OperandType::Pointer(Box::new(OperandType::Pointer(Box::new(
            OperandType::Char
        ))))
    );
}
