use c_compiler::parse::Type;
use c_compiler::variable_pass::{variable_pass, StackNode};

fn s(x: &str) -> String {
    String::from(x)
}

fn decl(ty: Type, name: &str) -> StackNode {
    StackNode::VariableDeclaration(ty, s(name), Box::new(StackNode::StringLiteral(s("zero"))), 0)
}

#[test]
fn offsets_increase_by_declared_sizes() {
    let ast = vec![
        decl(Type::INT, "a"),
        decl(Type::CHAR, "b"),
        decl(Type::PTR(Box::new(Type::INT)), "c"),
    ];
    let (out, dups) = variable_pass(ast).unwrap();
    assert!(dups.is_empty());
    assert_eq!(
        out,
        vec![
            StackNode::VariableDeclaration(
                Type::INT,
                s("a"),
                Box::new(StackNode::StringLiteral(s("zero"))),
                4,
            ),
            StackNode::VariableDeclaration(
                Type::CHAR,
                s("b"),
                Box::new(StackNode::StringLiteral(s("zero"))),
                5,
            ),
            StackNode::VariableDeclaration(
                Type::PTR(Box::new(Type::INT)),
                s("c"),
                Box::new(StackNode::StringLiteral(s("zero"))),
                13,
            ),
        ]
    );
}

#[test]
fn later_reads_are_rewritten_to_offsets() {
    let ast = vec![
        decl(Type::INT, "x"),
        StackNode::StringLiteral(s("x")),
        StackNode::Return(Box::new(StackNode::StringLiteral(s("x")))),
        StackNode::StringLiteral(s("unknown")),
    ];
    let (out, dups) = variable_pass(ast).unwrap();
    assert!(dups.is_empty());
    assert_eq!(out[1], StackNode::VariableReference(4));
    assert_eq!(
        out[2],
        StackNode::Return(Box::new(StackNode::VariableReference(4)))
    );
    assert_eq!(out[3], StackNode::StringLiteral(s("unknown")));
}

#[test]
fn duplicate_declaration_is_reported_not_fatal() {
    let ast = vec![decl(Type::INT, "x"), decl(Type::INT, "x")];
    let (out, dups) = variable_pass(ast).unwrap();
    assert_eq!(dups, vec![s("x")]);
    match &out[1] {
        StackNode::VariableDeclaration(_, _, _, off) => assert_eq!(*off, 8),
        _ => panic!("expected a declaration"),
    }
}

#[test]
fn function_bodies_get_a_fresh_scope() {
    let ast = vec![
        decl(Type::INT, "a"),
        StackNode::FunctionDeclaration(
            Type::VOID,
            s("f"),
            vec![decl(Type::INT, "b"), StackNode::StringLiteral(s("b"))],
        ),
        decl(Type::INT, "c"),
    ];
    let (out, dups) = variable_pass(ast).unwrap();
    assert!(dups.is_empty());
    match &out[1] {
        StackNode::FunctionDeclaration(_, _, inner) => {
            match &inner[0] {
                StackNode::VariableDeclaration(_, _, _, off) => assert_eq!(*off, 4),
                _ => panic!("expected a declaration"),
            }
            assert_eq!(inner[1], StackNode::VariableReference(4));
        },
        _ => panic!("expected a function declaration"),
    }
    match &out[2] {
        StackNode::VariableDeclaration(_, _, _, off) => assert_eq!(*off, 8),
        _ => panic!("expected a declaration"),
    }
}

#[test]
fn initializer_resolves_against_outer_names_first() {
    // The initializer is walked before the declaration itself takes
    // effect, so a read of the same name inside it stays unresolved.
    let ast = vec![StackNode::VariableDeclaration(
        Type::INT,
        s("x"),
        Box::new(StackNode::StringLiteral(s("x"))),
        0,
    )];
    let (out, dups) = variable_pass(ast).unwrap();
    assert!(dups.is_empty());
    assert_eq!(
        out[0],
        StackNode::VariableDeclaration(
            Type::INT,
            s("x"),
            Box::new(StackNode::StringLiteral(s("x"))),
            4,
        )
    );
}

#[test]
fn void_declaration_keeps_offset_unchanged() {
    let ast = vec![decl(Type::INT, "a"), decl(Type::VOID, "v"), decl(Type::INT, "b")];
    let (out, _dups) = variable_pass(ast).unwrap();
    match &out[1] {
        StackNode::VariableDeclaration(_, _, _, off) => assert_eq!(*off, 4),
        _ => panic!("expected a declaration"),
    }
    match &out[2] {
        StackNode::VariableDeclaration(_, _, _, off) => assert_eq!(*off, 8),
        _ => panic!("expected a declaration"),
    }
}
