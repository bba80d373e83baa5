use c_compiler::ir::CompareOperation;
use c_compiler::parse::{parse, ASTNode, ASTValue, Comparison, ParseError, Type};
use c_compiler::tokenise::{tokenise, Token};

fn s(x: &str) -> String {
    String::from(x)
}

fn p(src: &str) -> Result<Vec<ASTNode>, ParseError> {
    parse(tokenise(src).unwrap())
}

#[test]
fn parses_function_declaration() {
    let nodes = p("int f() { return 1; }").unwrap();
    assert_eq!(
        nodes,
        vec![ASTNode::FunctionDeclaration(
            Type::INT,
            s("f"),
            vec![ASTNode::Return(Some(Box::new(ASTNode::Value(
                ASTValue::IntValue(1)
            ))))],
            vec![],
        )]
    );
}

#[test]
fn parses_assignment_through_pointer() {
    let nodes = p("*p = 5;").unwrap();
    assert_eq!(
        nodes,
        vec![ASTNode::SetVariable(
            ASTValue::Deref(s("p")),
            Box::new(ASTNode::Value(ASTValue::IntValue(5))),
        )]
    );
}

#[test]
fn parses_inline_assembly() {
    let nodes = p("[[ mov eax, 1 ]];").unwrap();
    assert_eq!(nodes, vec![ASTNode::InlineAssembly(s("mov eax, 1"))]);
}

#[test]
fn parses_variable_declaration() {
    let nodes = p("int x = 5;").unwrap();
    assert_eq!(
        nodes,
        vec![ASTNode::VariableDeclaration(
            Type::INT,
            s("x"),
            Box::new(ASTNode::Value(ASTValue::IntValue(5))),
        )]
    );
}

#[test]
fn parses_pointer_declaration_with_address_of() {
    let nodes = p("int* p = &y;").unwrap();
    assert_eq!(
        nodes,
        vec![ASTNode::VariableDeclaration(
            Type::PTR(Box::new(Type::INT)),
            s("p"),
            Box::new(ASTNode::Value(ASTValue::Ref(s("y")))),
        )]
    );
}

#[test]
fn parses_plain_assignment() {
    let nodes = p("x = 3;").unwrap();
    assert_eq!(
        nodes,
        vec![ASTNode::SetVariable(
            ASTValue::StringLiteral(s("x")),
            Box::new(ASTNode::Value(ASTValue::IntValue(3))),
        )]
    );
}

#[test]
fn parses_addition_initializer() {
    let nodes = p("int y = x + 1;").unwrap();
    assert_eq!(
        nodes,
        vec![ASTNode::VariableDeclaration(
            Type::INT,
            s("y"),
            Box::new(ASTNode::Add(
                Box::new(ASTNode::Value(ASTValue::StringLiteral(s("x")))),
                Box::new(ASTNode::Value(ASTValue::IntValue(1))),
            )),
        )]
    );
}

#[test]
fn parses_if_statement() {
    let nodes = p("int f() { if (x == 1) { return; } }").unwrap();
    assert_eq!(
        nodes,
        vec![ASTNode::FunctionDeclaration(
            Type::INT,
            s("f"),
            vec![ASTNode::If {
                predicate: Comparison {
                    lhs: Box::new(ASTNode::Value(ASTValue::StringLiteral(s("x")))),
                    rhs: Box::new(ASTNode::Value(ASTValue::IntValue(1))),
                    operation: CompareOperation::EQ,
                },
                main_body: vec![ASTNode::Return(None)],
                else_body: None,
            }],
            vec![],
        )]
    );
}

#[test]
fn parses_call_statement_with_arguments() {
    let nodes = p("f(1, 2);").unwrap();
    assert_eq!(
        nodes,
        vec![ASTNode::FunctionCall(
            s("f"),
            vec![
                ASTNode::Value(ASTValue::IntValue(1)),
                ASTNode::Value(ASTValue::IntValue(2)),
            ],
        )]
    );
}

#[test]
fn parses_call_in_expression_position() {
    let nodes = p("int x = g();").unwrap();
    assert_eq!(
        nodes,
        vec![ASTNode::VariableDeclaration(
            Type::INT,
            s("x"),
            Box::new(ASTNode::Value(ASTValue::FunctionCall(s("g"), vec![]))),
        )]
    );
}

#[test]
fn parses_function_with_parameters() {
    let nodes = p("void f(int a, char* b) { }").unwrap();
    assert_eq!(
        nodes,
        vec![ASTNode::FunctionDeclaration(
            Type::VOID,
            s("f"),
            vec![],
            vec![
                (s("a"), Type::INT),
                (s("b"), Type::PTR(Box::new(Type::CHAR))),
            ],
        )]
    );
}

#[test]
fn parses_char_and_string_values() {
    let nodes = p("char c = 'x';").unwrap();
    assert_eq!(
        nodes,
        vec![ASTNode::VariableDeclaration(
            Type::CHAR,
            s("c"),
            Box::new(ASTNode::Value(ASTValue::CharValue('x'))),
        )]
    );
}

#[test]
fn parses_empty_input() {
    assert_eq!(p("").unwrap(), vec![]);
}

#[test]
fn rejects_missing_semicolon() {
    assert_eq!(p("return 1"), Err(ParseError::ExpectedPunctuation(';')));
}

#[test]
fn rejects_truncated_declaration() {
    assert_eq!(p("int"), Err(ParseError::UnexpectedEnd));
}

#[test]
fn rejects_missing_name() {
    assert_eq!(p("int ;"), Err(ParseError::ExpectedName));
}

#[test]
fn rejects_type_keyword_in_expression_position() {
    assert_eq!(p("int x = int;"), Err(ParseError::ValueExpected));
}

#[test]
fn rejects_parameter_without_type() {
    assert_eq!(p("int f(x) { }"), Err(ParseError::ExpectedType));
}

#[test]
fn rejects_stray_punctuation() {
    assert_eq!(p(")"), Err(ParseError::UnexpectedToken));
}

#[test]
fn rejects_predicate_without_comparison() {
    assert_eq!(p("if (5) { }"), Err(ParseError::ExpectedComparison));
}

#[test]
fn rejects_name_followed_by_nothing_declarative() {
    assert_eq!(p("int x ;"), Err(ParseError::DeclarationExpected));
}

#[test]
fn rejects_unterminated_body() {
    assert_eq!(p("int f() { return 1;"), Err(ParseError::UnexpectedEnd));
}

#[test]
fn rejects_unknown_keyword_token() {
    let tokens = vec![Token::Keyword(s("while"))];
    assert_eq!(parse(tokens), Err(ParseError::UnknownKeyword));
}

#[test]
fn rejects_float_in_expression() {
    let tokens = vec![Token::Float(s("1.5"))];
    assert_eq!(parse(tokens), Err(ParseError::UnexpectedToken));
}

#[test]
fn type_sizes() {
    assert_eq!(Type::VOID.bytes(), 0);
    assert_eq!(Type::INT.bytes(), 4);
    assert_eq!(Type::CHAR.bytes(), 1);
    assert_eq!(Type::PTR(Box::new(Type::CHAR)).bytes(), 8);
}
