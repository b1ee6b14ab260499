use jsbytecode::ast::{
    BinaryOperator, BindingPattern, Declaration, Declarator, Expression, Program, PropertyKey,
    Statement, VariableDeclarationKind,
};
use jsbytecode::bytecode::{
    OP_ADD, OP_CONST, OP_DIV, OP_EQ, OP_HALT, OP_JUMP, OP_JUMP_IF_FALSE, OP_LOAD_CONTEXT,
    OP_MUL, OP_SET_CONTEXT, OP_SUB,
};
use jsbytecode::compiler::{CompileError, Compiler, CompilerReturn};
use jsbytecode::context::Context;
use jsbytecode::values::Value;

fn num(x: f64) -> Expression {
    Expression::NumericLiteral(x.to_bits())
}

fn number(x: f64) -> Value {
    Value::Number(x.to_bits())
}

fn binary(op: BinaryOperator, l: Expression, r: Expression) -> Expression {
    Expression::Binary(op, Box::new(l), Box::new(r))
}

fn let_decl(name: &str, init: Expression) -> Statement {
    Statement::Declaration(Declaration::Variable(
        VariableDeclarationKind::Let,
        vec![Declarator {
            id: BindingPattern::Identifier(name.to_string()),
            init: Some(init),
        }],
    ))
}

fn compile(body: Vec<Statement>) -> Result<CompilerReturn, CompileError> {
    let mut ctx = Context::new();
    Compiler::compile(&Program { body }, &mut ctx)
}

#[test]
fn scenario_add_two_numbers() {
    // 1 + 2
    let r = compile(vec![Statement::Expression(binary(
        BinaryOperator::Add,
        num(1.0),
        num(2.0),
    ))])
    .unwrap();
    assert_eq!(r.constants, vec![number(1.0), number(2.0)]);
    assert_eq!(r.code, vec![OP_CONST, 0, OP_CONST, 1, OP_ADD, OP_HALT]);
}

#[test]
fn scenario_let_and_strict_eq() {
    // let x = 5; x === 5
    let r = compile(vec![
        let_decl("x", num(5.0)),
        Statement::Expression(binary(
            BinaryOperator::StrictEq,
            Expression::Identifier("x".to_string()),
            num(5.0),
        )),
    ])
    .unwrap();
    assert_eq!(r.constants, vec![number(5.0)]);
    assert_eq!(
        r.code,
        vec![
            OP_CONST,
            0,
            OP_SET_CONTEXT,
            0,
            OP_LOAD_CONTEXT,
            0,
            OP_CONST,
            0,
            OP_EQ,
            OP_HALT
        ]
    );
}

#[test]
fn scenario_if_without_alternate() {
    // if (true) { 1 }
    let r = compile(vec![Statement::If(
        Expression::BooleanLiteral(true),
        Box::new(Statement::Block(vec![Statement::Expression(num(1.0))])),
        None,
    )])
    .unwrap();
    assert_eq!(r.constants, vec![Value::Boolean(true), number(1.0)]);
    let halt_index = r.code.len() - 1;
    assert_eq!(
        r.code,
        vec![
            OP_CONST,
            0,
            OP_JUMP_IF_FALSE,
            halt_index,
            OP_CONST,
            1,
            OP_JUMP,
            halt_index,
            OP_HALT
        ]
    );
    assert_eq!(r.code[halt_index], OP_HALT);
}

#[test]
fn scenario_unsupported_expression_aborts() {
    // a statement holding an expression kind outside the subset (a call, say)
    let r = compile(vec![
        Statement::Expression(num(1.0)),
        Statement::Expression(Expression::Unsupported),
    ]);
    assert!(matches!(r, Err(CompileError::UnsupportedExpression)));
}

#[test]
fn if_with_alternate_targets() {
    // if (true) 1; else 2;
    let r = compile(vec![Statement::If(
        Expression::BooleanLiteral(true),
        Box::new(Statement::Expression(num(1.0))),
        Some(Box::new(Statement::Expression(num(2.0)))),
    )])
    .unwrap();
    // CONST 0, JUMP_IF_FALSE t1, CONST 1, JUMP t2, CONST 2, HALT
    assert_eq!(
        r.code,
        vec![OP_CONST, 0, OP_JUMP_IF_FALSE, 8, OP_CONST, 1, OP_JUMP, 10, OP_CONST, 2, OP_HALT]
    );
    assert_eq!(
        r.constants,
        vec![Value::Boolean(true), number(1.0), number(2.0)]
    );
}

#[test]
fn booleans_are_never_deduplicated() {
    let r = compile(vec![
        Statement::Expression(Expression::BooleanLiteral(true)),
        Statement::Expression(Expression::BooleanLiteral(true)),
    ])
    .unwrap();
    assert_eq!(
        r.constants,
        vec![Value::Boolean(true), Value::Boolean(true)]
    );
    assert_eq!(r.code, vec![OP_CONST, 0, OP_CONST, 1, OP_HALT]);
}

#[test]
fn numbers_and_strings_are_deduplicated() {
    let r = compile(vec![
        Statement::Expression(num(3.0)),
        Statement::Expression(Expression::StringLiteral("hi".to_string())),
        Statement::Expression(num(3.0)),
        Statement::Expression(Expression::StringLiteral("hi".to_string())),
        Statement::Expression(num(4.0)),
    ])
    .unwrap();
    assert_eq!(
        r.constants,
        vec![
            number(3.0),
            Value::Str("hi".to_string()),
            number(4.0)
        ]
    );
    assert_eq!(
        r.code,
        vec![OP_CONST, 0, OP_CONST, 1, OP_CONST, 0, OP_CONST, 1, OP_CONST, 2, OP_HALT]
    );
}

#[test]
fn nan_literals_are_never_deduplicated() {
    // IEEE equality: NaN equals nothing, its own bit pattern included
    let r = compile(vec![
        Statement::Expression(num(f64::NAN)),
        Statement::Expression(num(f64::NAN)),
    ])
    .unwrap();
    assert_eq!(r.constants.len(), 2);
    assert_eq!(r.code, vec![OP_CONST, 0, OP_CONST, 1, OP_HALT]);
}

#[test]
fn negative_zero_reuses_the_positive_zero_entry() {
    // IEEE equality: 0.0 == -0.0, though their bit patterns differ
    let r = compile(vec![
        Statement::Expression(num(0.0)),
        Statement::Expression(num(-0.0)),
    ])
    .unwrap();
    assert_eq!(r.constants, vec![number(0.0)]);
    assert_eq!(r.code, vec![OP_CONST, 0, OP_CONST, 0, OP_HALT]);
}

#[test]
fn numbers_do_not_match_strings() {
    // a Number and a Str are never considered equal for dedup
    let r = compile(vec![
        Statement::Expression(Expression::StringLiteral("a".to_string())),
        Statement::Expression(num(1.0)),
    ])
    .unwrap();
    assert_eq!(r.constants.len(), 2);
}

#[test]
fn all_binary_operators() {
    let ops = [
        (BinaryOperator::Add, OP_ADD),
        (BinaryOperator::Sub, OP_SUB),
        (BinaryOperator::Mul, OP_MUL),
        (BinaryOperator::Div, OP_DIV),
        (BinaryOperator::StrictEq, OP_EQ),
    ];
    for (op, opcode) in ops {
        let r = compile(vec![Statement::Expression(binary(op, num(8.0), num(9.0)))]).unwrap();
        assert_eq!(r.code, vec![OP_CONST, 0, OP_CONST, 1, opcode, OP_HALT]);
    }
}

#[test]
fn unsupported_operator_aborts() {
    let r = compile(vec![Statement::Expression(binary(
        BinaryOperator::Unsupported,
        num(1.0),
        num(2.0),
    ))]);
    assert!(matches!(r, Err(CompileError::UnsupportedOperator)));
}

#[test]
fn unsupported_statement_aborts() {
    let r = compile(vec![Statement::Unsupported]);
    assert!(matches!(r, Err(CompileError::UnsupportedStatement)));
}

#[test]
fn non_let_declaration_aborts() {
    let r = compile(vec![Statement::Declaration(Declaration::Variable(
        VariableDeclarationKind::Const,
        vec![],
    ))]);
    assert!(matches!(r, Err(CompileError::UnsupportedDeclaration)));
    let r = compile(vec![Statement::Declaration(Declaration::Unsupported)]);
    assert!(matches!(r, Err(CompileError::UnsupportedDeclaration)));
}

#[test]
fn assignment_pattern_aborts() {
    let r = compile(vec![Statement::Declaration(Declaration::Variable(
        VariableDeclarationKind::Let,
        vec![Declarator { id: BindingPattern::Assignment, init: None }],
    ))]);
    assert!(matches!(r, Err(CompileError::UnsupportedBindingPattern)));
}

#[test]
fn expression_property_key_aborts() {
    let r = compile(vec![Statement::Declaration(Declaration::Variable(
        VariableDeclarationKind::Let,
        vec![Declarator {
            id: BindingPattern::Object(vec![PropertyKey::Expression]),
            init: None,
        }],
    ))]);
    assert!(matches!(r, Err(CompileError::UnsupportedPropertyKey)));
}

#[test]
fn unbound_identifier_aborts() {
    let r = compile(vec![Statement::Expression(Expression::Identifier(
        "y".to_string(),
    ))]);
    assert!(matches!(r, Err(CompileError::UnboundIdentifier)));
}

#[test]
fn known_global_aborts_with_unsupported_construct() {
    let mut ctx = Context::new();
    ctx.add_global("console".to_string());
    let prog = Program {
        body: vec![Statement::Expression(Expression::Identifier(
            "console".to_string(),
        ))],
    };
    let r = Compiler::compile(&prog, &mut ctx);
    assert!(matches!(r, Err(CompileError::UnsupportedConstruct)));
}

#[test]
fn empty_statement_emits_halt_opcode() {
    let r = compile(vec![Statement::Empty]).unwrap();
    assert_eq!(r.code, vec![OP_HALT, OP_HALT]);
}

#[test]
fn empty_program_is_just_halt() {
    let r = compile(vec![]).unwrap();
    assert_eq!(r.code, vec![OP_HALT]);
    assert!(r.constants.is_empty());
}

#[test]
fn block_compiles_in_same_scope() {
    // { let a = 1; } a  — block pushes no scope, so `a` stays bound
    let r = compile(vec![
        Statement::Block(vec![let_decl("a", num(1.0))]),
        Statement::Expression(Expression::Identifier("a".to_string())),
    ])
    .unwrap();
    assert_eq!(
        r.code,
        vec![OP_CONST, 0, OP_SET_CONTEXT, 0, OP_LOAD_CONTEXT, 0, OP_HALT]
    );
}

#[test]
fn array_pattern_reuses_initializer_per_element() {
    // let [a, , b] = 7;  — the same initializer is re-supplied per element
    let r = compile(vec![Statement::Declaration(Declaration::Variable(
        VariableDeclarationKind::Let,
        vec![Declarator {
            id: BindingPattern::Array(vec![
                Some(BindingPattern::Identifier("a".to_string())),
                None,
                Some(BindingPattern::Identifier("b".to_string())),
            ]),
            init: Some(num(7.0)),
        }],
    ))])
    .unwrap();
    assert_eq!(r.constants, vec![number(7.0)]);
    assert_eq!(
        r.code,
        vec![
            OP_CONST,
            0,
            OP_SET_CONTEXT,
            0,
            OP_CONST,
            0,
            OP_SET_CONTEXT,
            1,
            OP_HALT
        ]
    );
}

#[test]
fn object_pattern_binds_identifier_keys() {
    // let { a, b } = 2;
    let r = compile(vec![Statement::Declaration(Declaration::Variable(
        VariableDeclarationKind::Let,
        vec![Declarator {
            id: BindingPattern::Object(vec![
                PropertyKey::Identifier("a".to_string()),
                PropertyKey::Identifier("b".to_string()),
            ]),
            init: Some(num(2.0)),
        }],
    ))])
    .unwrap();
    assert_eq!(
        r.code,
        vec![
            OP_CONST,
            0,
            OP_SET_CONTEXT,
            0,
            OP_CONST,
            0,
            OP_SET_CONTEXT,
            1,
            OP_HALT
        ]
    );
}

#[test]
fn shadowing_binds_a_fresh_slot_and_reads_the_newest() {
    // let x = 1; let x = 2; x
    let r = compile(vec![
        let_decl("x", num(1.0)),
        let_decl("x", num(2.0)),
        Statement::Expression(Expression::Identifier("x".to_string())),
    ])
    .unwrap();
    assert_eq!(
        r.code,
        vec![
            OP_CONST,
            0,
            OP_SET_CONTEXT,
            0,
            OP_CONST,
            1,
            OP_SET_CONTEXT,
            1,
            OP_LOAD_CONTEXT,
            1,
            OP_HALT
        ]
    );
}

#[test]
fn declaration_without_initializer_only_allocates() {
    // let x; x
    let r = compile(vec![
        Statement::Declaration(Declaration::Variable(
            VariableDeclarationKind::Let,
            vec![Declarator {
                id: BindingPattern::Identifier("x".to_string()),
                init: None,
            }],
        )),
        Statement::Expression(Expression::Identifier("x".to_string())),
    ])
    .unwrap();
    assert_eq!(r.code, vec![OP_LOAD_CONTEXT, 0, OP_HALT]);
}

#[test]
fn failed_compile_leaves_the_context_untouched() {
    let mut ctx = Context::new();
    let prog = Program { body: vec![let_decl("x", num(1.0)), Statement::Unsupported] };
    let r = Compiler::compile(&prog, &mut ctx);
    assert!(matches!(r, Err(CompileError::UnsupportedStatement)));
    assert_eq!(ctx.variable_count(), 0);
    assert_eq!(ctx.get_variable_index(&"x".to_string()), None);
}

#[test]
fn generate_if_statement_patches_both_targets() {
    let mut ctx = Context::new();
    let mut c = Compiler::new("unit".to_string());
    let stmt = Statement::If(
        Expression::BooleanLiteral(true),
        Box::new(Statement::Expression(num(1.0))),
        Some(Box::new(Statement::Expression(num(2.0)))),
    );
    c.generate_if_statement(&stmt, &mut ctx).unwrap();
    let r = c.finish();
    // the false branch lands on the alternate's first instruction (just past
    // the JUMP pair), the trailing JUMP on the join point after both branches
    assert_eq!(
        r.code,
        vec![OP_CONST, 0, OP_JUMP_IF_FALSE, 8, OP_CONST, 1, OP_JUMP, 10, OP_CONST, 2]
    );
}

#[test]
fn generate_if_statement_without_alternate_joins_at_the_same_index() {
    let mut ctx = Context::new();
    let mut c = Compiler::new("unit".to_string());
    let stmt = Statement::If(
        Expression::BooleanLiteral(true),
        Box::new(Statement::Expression(num(1.0))),
        None,
    );
    c.generate_if_statement(&stmt, &mut ctx).unwrap();
    let r = c.finish();
    assert_eq!(r.code, vec![OP_CONST, 0, OP_JUMP_IF_FALSE, 8, OP_CONST, 1, OP_JUMP, 8]);
}

#[test]
fn binding_pattern_allocates_one_slot_and_identifier_reads_it() {
    let mut ctx = Context::new();
    let mut c = Compiler::new("unit".to_string());
    c._binding_pattern(
        &BindingPattern::Identifier("x".to_string()),
        &Some(num(5.0)),
        &mut ctx,
    )
    .unwrap();
    assert_eq!(ctx.variable_count(), 1);
    assert_eq!(ctx.get_variable_index(&"x".to_string()), Some(0));
    c.generate_identifier(&"x".to_string(), &ctx).unwrap();
    let r = c.finish();
    assert_eq!(
        r.code,
        vec![OP_CONST, 0, OP_SET_CONTEXT, 0, OP_LOAD_CONTEXT, 0]
    );
    assert_eq!(r.constants, vec![number(5.0)]);
}

#[test]
fn binding_pattern_without_initializer_emits_nothing() {
    let mut ctx = Context::new();
    let mut c = Compiler::new("unit".to_string());
    c._binding_pattern(&BindingPattern::Identifier("x".to_string()), &None, &mut ctx)
        .unwrap();
    assert_eq!(ctx.variable_count(), 1);
    let r = c.finish();
    assert!(r.code.is_empty());
    assert!(r.constants.is_empty());
}

#[test]
fn failed_step_rolls_everything_back() {
    let mut ctx = Context::new();
    let mut c = Compiler::new("unit".to_string());
    // the second declarator fails: the first one's slot, code and constant
    // must all be discarded
    let decl = Statement::Declaration(Declaration::Variable(
        VariableDeclarationKind::Let,
        vec![
            Declarator {
                id: BindingPattern::Identifier("a".to_string()),
                init: Some(num(1.0)),
            },
            Declarator { id: BindingPattern::Assignment, init: None },
        ],
    ));
    let r = c.generate_statement(&decl, &mut ctx);
    assert!(matches!(r, Err(CompileError::UnsupportedBindingPattern)));
    assert_eq!(ctx.variable_count(), 0);
    let out = c.finish();
    assert!(out.code.is_empty());
    assert!(out.constants.is_empty());
}

#[test]
fn context_collaborator_contract() {
    let mut ctx = Context::new();
    let a = ctx.define_variable("a".to_string(), None);
    let b = ctx.define_variable("b".to_string(), None);
    assert_eq!((a, b), (0, 1));
    assert_eq!(ctx.get_variable_index(&"a".to_string()), Some(0));
    assert_eq!(ctx.get_variable_index(&"b".to_string()), Some(1));
    assert_eq!(ctx.get_variable_index(&"c".to_string()), None);
    let a2 = ctx.define_variable("a".to_string(), None);
    assert_eq!(a2, 2);
    assert_eq!(ctx.get_variable_index(&"a".to_string()), Some(2));
    assert_eq!(ctx.get_variable_name(0), Some("a".to_string()));
    assert_eq!(ctx.get_variable_name(1), Some("b".to_string()));
    assert_eq!(ctx.get_variable_name(9), None);
    assert!(!ctx.is_global_variable(&"print".to_string()));
    ctx.add_global("print".to_string());
    assert!(ctx.is_global_variable(&"print".to_string()));
}

#[test]
fn value_collaborator_contract() {
    let n = number(2.5);
    assert!(n.is_number() && !n.is_boolean() && !n.is_string());
    assert_eq!(n.get_number(), 2.5f64.to_bits());
    let b = Value::Boolean(false);
    assert!(b.is_boolean());
    assert!(!b.get_boolean());
    let s = Value::Str("txt".to_string());
    assert!(s.is_string());
    assert_eq!(s.get_string(), &"txt".to_string());
}
