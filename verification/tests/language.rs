//! End-to-end behavior of the language: precedence, scoping, loops, function
//! calls, diagnostics, and runtime faults.

use navacodelang::ast::Ast;
use navacodelang::ast::expression::{BinaryOperator, Expression, UnaryOperator};
use navacodelang::ast::statement::Statement;
use navacodelang::compiler::{Compiler, SourceCode};
use navacodelang::diagnostic::{DiagnosticError, Diagnostics};
use navacodelang::interpreter::{Halt, Interpreter, RuntimeError, RuntimeValue, builtin};
use navacodelang::lexer::{Lexer, TokenKind, tokenize};
use navacodelang::parser::Parser;
use navacodelang::resolver::Resolver;
use navacodelang::symbols_table::{ScopeId, SymbolsTable, VariableSymbol};
use navacodelang::types::{Type, resolve_binary_operation_type, resolve_unary_operation_type};

fn parse(input: &str) -> Result<Ast, Diagnostics> {
    Parser::new(tokenize(input)).parse()
}

fn run(input: &str) -> Interpreter {
    let ast = match parse(input) {
        Ok(ast) => ast,
        Err(_) => panic!("parse failed"),
    };
    let mut interp = Interpreter::new();
    interp.collect_functions(&ast);
    match interp.interpret(&ast, 1_000_000) {
        Ok(()) => interp,
        Err(Halt::Fault(e)) => panic!("runtime fault: {:?}", e),
        Err(Halt::OutOfFuel) => panic!("out of fuel"),
    }
}

fn run_fault(input: &str) -> RuntimeError {
    let ast = match parse(input) {
        Ok(ast) => ast,
        Err(_) => panic!("parse failed"),
    };
    let mut interp = Interpreter::new();
    interp.collect_functions(&ast);
    match interp.interpret(&ast, 1_000_000) {
        Ok(()) => panic!("expected a runtime fault"),
        Err(Halt::Fault(e)) => e,
        Err(Halt::OutOfFuel) => panic!("out of fuel"),
    }
}

fn num(interp: &Interpreter, name: &str) -> i64 {
    match interp.get_variable(name) {
        Some(RuntimeValue::Number(n)) => *n,
        other => panic!("expected a number binding for {}: {:?}", name, other),
    }
}

fn compile(input: &str) -> Result<(), Diagnostics> {
    Compiler::new().compile(&SourceCode::from_string(input.to_string())).map(|_| ())
}

// --- Precedence ---

#[test]
fn multiplication_binds_tighter_than_addition() {
    // `a + b * c` parses with the multiplication as the right child of the addition
    let ast = parse("let x be a + b * c").unwrap();
    match &ast.statements()[0] {
        Statement::VariableDeclaration { value, .. } => match value {
            Expression::BinaryOperation { left, operator, right } => {
                assert_eq!(*operator, BinaryOperator::Add);
                assert!(matches!(**left, Expression::Variable(_)));
                match &**right {
                    Expression::BinaryOperation { operator, .. } => {
                        assert_eq!(*operator, BinaryOperator::Multiply)
                    },
                    _ => panic!("expected multiplication as right child"),
                }
            },
            _ => panic!("expected binary operation"),
        },
        _ => panic!("expected declaration"),
    }
    // `(a + b) * c` parses with the addition explicitly grouped as the left child
    let ast = parse("let x be (a + b) * c").unwrap();
    match &ast.statements()[0] {
        Statement::VariableDeclaration { value, .. } => match value {
            Expression::BinaryOperation { left, operator, .. } => {
                assert_eq!(*operator, BinaryOperator::Multiply);
                match &**left {
                    Expression::Grouped(inner) => match &**inner {
                        Expression::BinaryOperation { operator, .. } => {
                            assert_eq!(*operator, BinaryOperator::Add)
                        },
                        _ => panic!("expected addition inside group"),
                    },
                    _ => panic!("expected grouped left child"),
                }
            },
            _ => panic!("expected binary operation"),
        },
        _ => panic!("expected declaration"),
    }
}

#[test]
fn unary_negation_binds_tighter_than_binary_operators() {
    // `- -5` parses as nested unary negation of the literal 5
    let ast = parse("let a be - -5").unwrap();
    match &ast.statements()[0] {
        Statement::VariableDeclaration { value, .. } => match value {
            Expression::UnaryOperation { operator, operand } => {
                assert_eq!(*operator, UnaryOperator::Negate);
                match &**operand {
                    Expression::UnaryOperation { operator, operand } => {
                        assert_eq!(*operator, UnaryOperator::Negate);
                        assert!(matches!(**operand, Expression::Number(5, _)));
                    },
                    _ => panic!("expected nested negation"),
                }
            },
            _ => panic!("expected unary operation"),
        },
        _ => panic!("expected declaration"),
    }
    // `-2 + 3` parses as (-2) + 3, not -(2 + 3)
    let ast = parse("let b be -2 + 3").unwrap();
    match &ast.statements()[0] {
        Statement::VariableDeclaration { value, .. } => match value {
            Expression::BinaryOperation { left, operator, .. } => {
                assert_eq!(*operator, BinaryOperator::Add);
                assert!(matches!(**left, Expression::UnaryOperation { .. }));
            },
            _ => panic!("expected binary operation at the top"),
        },
        _ => panic!("expected declaration"),
    }
    let interp = run("let b be -2 + 3");
    assert_eq!(num(&interp, "b"), 1);
}

// --- Scoping ---

#[test]
fn redeclaration_in_same_block_is_an_error() {
    let diags = compile("let a be 1\nlet a be 2").unwrap_err();
    assert_eq!(diags.diagnostics.len(), 1);
    match &diags.diagnostics[0].error {
        DiagnosticError::VariableRedefinition { identifier } => assert_eq!(identifier, "a"),
        other => panic!("expected a redefinition diagnostic, got {:?}", other),
    }
}

#[test]
fn shadowing_in_nested_block_is_allowed() {
    assert!(compile("let a be 1\nif true then\nlet a be 2\nend").is_ok());
}

#[test]
fn assignment_to_undeclared_name_is_undefined_variable() {
    let diags = compile("set x to 1").unwrap_err();
    assert_eq!(diags.diagnostics.len(), 1);
    match &diags.diagnostics[0].error {
        DiagnosticError::UndefinedVariable { identifier } => assert_eq!(identifier, "x"),
        other => panic!("expected an undefined-variable diagnostic, got {:?}", other),
    }
}

#[test]
fn assignment_updates_nearest_enclosing_binding() {
    assert!(compile("let x be 1\nif true then\nset x to 5\nend").is_ok());
    let interp = run("let x be 1\nif true then\nset x to 5\nend");
    assert_eq!(num(&interp, "x"), 5);
}

#[test]
fn inner_scope_binding_is_not_visible_afterwards() {
    // Resolves cleanly: the inner z is scoped to the if-block
    assert!(compile("if 1 == 1 then\nlet z be 1\nend").is_ok());
    // Referencing z afterwards is an undefined-variable error
    let diags = compile("if 1 == 1 then\nlet z be 1\nend\nlet w be z").unwrap_err();
    assert!(diags.diagnostics.iter().any(|d| matches!(
        d.error,
        DiagnosticError::UndefinedVariable { .. }
    )));
}

// --- End-to-end samples ---

#[test]
fn declare_and_assign_sample_runs_to_final_bindings() {
    let src = "let x be 1\nlet y be 2\nset x to x + y";
    assert!(compile(src).is_ok());
    let interp = run(src);
    assert_eq!(num(&interp, "x"), 3);
    assert_eq!(num(&interp, "y"), 2);
}

#[test]
fn malformed_declaration_yields_exactly_one_unexpected_token() {
    let diags = parse("let be 5").unwrap_err();
    assert_eq!(diags.diagnostics.len(), 1);
    match &diags.diagnostics[0].error {
        DiagnosticError::UnexpectedToken { found, .. } => assert_eq!(found, "be"),
        other => panic!("expected an unexpected-token diagnostic, got {:?}", other),
    }
}

#[test]
fn division_by_zero_is_a_runtime_fault() {
    assert!(compile("let r be 1 / 0").is_ok());
    let fault = run_fault("let r be 1 / 0");
    assert!(matches!(fault, RuntimeError::DivisionByZero));
}

// --- Loops ---

#[test]
fn for_loop_runs_inclusive_bounds_in_order() {
    // i takes 1, 2, 3 in order: encoding each visit as a digit keeps the order
    let interp = run("let s be 0\nfor i from 1 to 3 do\nset s to s * 10 + i\nend");
    assert_eq!(num(&interp, "s"), 123);
}

#[test]
fn for_loop_with_step_two() {
    // i takes 1, 3, 5
    let interp = run("let s be 0\nfor i from 1 to 5 step 2 do\nset s to s * 10 + i\nend");
    assert_eq!(num(&interp, "s"), 135);
}

#[test]
fn for_loop_with_start_past_end_runs_zero_times() {
    let interp = run("let s be 0\nfor i from 3 to 1 do\nset s to s + 1\nend");
    assert_eq!(num(&interp, "s"), 0);
}

#[test]
fn for_loop_variable_is_scoped_to_the_loop() {
    let diags = compile("for i from 1 to 3 do\nlet t be i\nend\nlet u be i").unwrap_err();
    assert!(diags.diagnostics.iter().any(|d| matches!(
        d.error,
        DiagnosticError::UndefinedVariable { .. }
    )));
}

#[test]
fn while_loop_counts_down() {
    let src = "let i be 3\nlet s be 0\nwhile 0 < i do\nset s to s + i\nset i to i - 1\nend";
    assert!(compile(src).is_ok());
    let interp = run(src);
    assert_eq!(num(&interp, "s"), 6);
    assert_eq!(num(&interp, "i"), 0);
}

#[test]
fn while_loop_with_non_boolean_condition_faults() {
    let fault = run_fault("while 1 do\nlet x be 1\nend");
    assert!(matches!(fault, RuntimeError::InvalidCondition));
}

// --- Functions ---

#[test]
fn wrong_argument_count_is_flagged_and_not_executed() {
    let src = "define function f with a, b as\nreturn (a)\nend\nlet x be f(1)";
    let diags = compile(src).unwrap_err();
    assert_eq!(diags.diagnostics.len(), 1);
    match &diags.diagnostics[0].error {
        DiagnosticError::FunctionArgumentsMismatch { function_name, expected, found } => {
            assert_eq!(function_name, "f");
            assert_eq!(*expected, 2);
            assert_eq!(*found, 1);
        },
        other => panic!("expected an argument-count diagnostic, got {:?}", other),
    }
}

#[test]
fn undefined_function_is_flagged() {
    let diags = compile("let x be g(1)").unwrap_err();
    assert!(diags.diagnostics.iter().any(|d| matches!(
        d.error,
        DiagnosticError::UndefinedFunction { .. }
    )));
}

#[test]
fn return_outside_function_is_flagged() {
    let diags = compile("return (1)").unwrap_err();
    assert_eq!(diags.diagnostics.len(), 1);
    assert!(matches!(diags.diagnostics[0].error, DiagnosticError::ReturnOutsideFunction));
}

#[test]
fn function_call_returns_its_value() {
    let src = "define function double with a as\nreturn (a + a)\nend\nlet x be double(21)";
    let interp = run(src);
    assert_eq!(num(&interp, "x"), 42);
}

#[test]
fn recursion_resolves_independent_of_order() {
    let src = "let g be fact(5)\n\
               define function fact with n as\n\
               if n == 0 then\n\
               return (1)\n\
               end\n\
               return (n * fact(n - 1))\n\
               end";
    let interp = run(src);
    assert_eq!(num(&interp, "g"), 120);
}

#[test]
fn return_short_circuits_the_rest_of_the_body() {
    let src = "define function pick with a as\n\
               if a == 1 then\n\
               return (10)\n\
               end\n\
               return (20)\n\
               end\n\
               let x be pick(1)\n\
               let y be pick(2)";
    let interp = run(src);
    assert_eq!(num(&interp, "x"), 10);
    assert_eq!(num(&interp, "y"), 20);
}

// --- Runtime faults ---

#[test]
fn unbound_variable_at_runtime_faults() {
    let fault = run_fault("let x be y");
    match fault {
        RuntimeError::VariableNotFound(name) => assert_eq!(name, "y"),
        other => panic!("expected a variable-not-found fault, got {:?}", other),
    }
}

#[test]
fn operator_type_mismatch_at_runtime_faults() {
    let fault = run_fault("let x be 1 + true");
    assert!(matches!(fault, RuntimeError::InvalidOperation));
}

#[test]
fn interpretation_runs_out_of_fuel_on_tiny_budget() {
    let ast = parse("let i be 0\nwhile i == 0 do\nlet x be 1\nend").unwrap();
    let mut interp = Interpreter::new();
    interp.collect_functions(&ast);
    assert!(matches!(interp.interpret(&ast, 10), Err(Halt::OutOfFuel)));
}

// --- Operators and the type table ---

#[test]
fn builtin_arithmetic_and_comparisons() {
    let n = RuntimeValue::Number(7);
    let m = RuntimeValue::Number(3);
    assert_eq!(builtin::add(n, m), Ok(RuntimeValue::Number(10)));
    assert_eq!(builtin::sub(n, m), Ok(RuntimeValue::Number(4)));
    assert_eq!(builtin::mul(n, m), Ok(RuntimeValue::Number(21)));
    assert_eq!(builtin::div(n, m), Ok(RuntimeValue::Number(2)));
    assert_eq!(builtin::modulus(n, m), Ok(RuntimeValue::Number(1)));
    assert_eq!(builtin::gt(n, m), Ok(RuntimeValue::Bool(true)));
    assert_eq!(builtin::lt(n, m), Ok(RuntimeValue::Bool(false)));
    assert_eq!(builtin::gt_eq(n, n), Ok(RuntimeValue::Bool(true)));
    assert_eq!(builtin::lt_eq(m, n), Ok(RuntimeValue::Bool(true)));
    assert_eq!(builtin::eq(n, n), Ok(RuntimeValue::Bool(true)));
    assert_eq!(builtin::not_eq(n, m), Ok(RuntimeValue::Bool(true)));
    assert_eq!(builtin::negate(n), Ok(RuntimeValue::Number(-7)));
    assert!(matches!(builtin::div(n, RuntimeValue::Number(0)), Err(RuntimeError::DivisionByZero)));
    assert!(matches!(
        builtin::add(n, RuntimeValue::Bool(true)),
        Err(RuntimeError::InvalidOperation)
    ));
}

#[test]
fn builtin_arithmetic_wraps_on_overflow() {
    let max = RuntimeValue::Number(i64::MAX);
    assert_eq!(builtin::add(max, RuntimeValue::Number(1)), Ok(RuntimeValue::Number(i64::MIN)));
}

#[test]
fn builtin_logical_connectives() {
    let t = RuntimeValue::Bool(true);
    let f = RuntimeValue::Bool(false);
    assert_eq!(builtin::not_eq(t, f), Ok(RuntimeValue::Bool(true)));
    assert_eq!(builtin::not_eq(t, t), Ok(RuntimeValue::Bool(false)));
    assert_eq!(builtin::and(t, f), Ok(RuntimeValue::Bool(false)));
    assert_eq!(builtin::or(t, f), Ok(RuntimeValue::Bool(true)));
    assert_eq!(builtin::not(t), Ok(RuntimeValue::Bool(false)));
    assert_eq!(builtin::eq(t, t), Ok(RuntimeValue::Bool(true)));
    assert!(matches!(
        builtin::and(t, RuntimeValue::Number(1)),
        Err(RuntimeError::InvalidOperation)
    ));
}

#[test]
fn operator_type_table() {
    assert_eq!(
        resolve_binary_operation_type(&Type::Int, &Type::Int, &BinaryOperator::Add),
        Type::Int
    );
    assert_eq!(
        resolve_binary_operation_type(&Type::Bool, &Type::Bool, &BinaryOperator::And),
        Type::Bool
    );
    assert_eq!(
        resolve_binary_operation_type(&Type::Int, &Type::Int, &BinaryOperator::Equal),
        Type::Bool
    );
    assert_eq!(
        resolve_binary_operation_type(&Type::Int, &Type::Int, &BinaryOperator::LessThan),
        Type::Bool
    );
    assert_eq!(
        resolve_binary_operation_type(&Type::Int, &Type::Int, &BinaryOperator::NotEqual),
        Type::Bool
    );
    assert_eq!(
        resolve_binary_operation_type(&Type::Int, &Type::Bool, &BinaryOperator::Equal),
        Type::Unresolved
    );
    assert_eq!(
        resolve_binary_operation_type(&Type::Int, &Type::Bool, &BinaryOperator::Add),
        Type::Unresolved
    );
    assert_eq!(resolve_unary_operation_type(&Type::Int, &UnaryOperator::Negate), Type::Int);
    assert_eq!(resolve_unary_operation_type(&Type::Bool, &UnaryOperator::Not), Type::Bool);
    assert_eq!(resolve_unary_operation_type(&Type::Bool, &UnaryOperator::Negate), Type::Unresolved);
}

#[test]
fn incompatible_operation_diagnostics() {
    let diags = compile("let x be 1 + true").unwrap_err();
    assert!(diags.diagnostics.iter().any(|d| matches!(
        d.error,
        DiagnosticError::IncompatibleBinaryOperation { .. }
    )));
    let diags = compile("let x be -true").unwrap_err();
    assert!(diags.diagnostics.iter().any(|d| matches!(
        d.error,
        DiagnosticError::IncompatibleUnaryOperation { .. }
    )));
    let diags = compile("let x be 1\nset x to true").unwrap_err();
    assert!(diags.diagnostics.iter().any(|d| matches!(
        d.error,
        DiagnosticError::VariableTypeMismatch { .. }
    )));
    let diags = compile("if 1 then\nlet x be 1\nend").unwrap_err();
    assert!(diags.diagnostics.iter().any(|d| matches!(
        d.error,
        DiagnosticError::ExpressionTypeMismatch { .. }
    )));
}

// --- The parser keeps going after an error ---

#[test]
fn parser_reports_every_independent_defect() {
    let diags = parse("let be 1\nlet be 2").unwrap_err();
    assert_eq!(diags.diagnostics.len(), 2);
}

#[test]
fn stray_end_and_else_are_reported() {
    let diags = parse("end").unwrap_err();
    assert!(matches!(diags.diagnostics[0].error, DiagnosticError::UnexpectedEndToken));
    let diags = parse("else").unwrap_err();
    assert!(matches!(diags.diagnostics[0].error, DiagnosticError::UnexpectedElseToken));
    let diags = parse("if 1 == 1 then\nlet x be 1\nend\nelse\nlet y be 2\nend").unwrap_err();
    assert!(matches!(diags.diagnostics[0].error, DiagnosticError::UnexpectedElseAfterEnd));
}

// --- The symbol table ---

#[test]
fn symbol_table_scopes_and_lookup() {
    let mut table = SymbolsTable::new();
    let global = ScopeId(0);
    table.define_variable(
        VariableSymbol { identifier: "x".to_string(), sym_type: Type::Int },
        global,
    );
    let inner = table.enter_scope(global);
    table.define_variable(
        VariableSymbol { identifier: "x".to_string(), sym_type: Type::Bool },
        inner,
    );
    // the nearest binding shadows the outer one
    assert_eq!(table.lookup_variable("x", inner).unwrap().sym_type, Type::Bool);
    assert_eq!(table.lookup_variable("x", global).unwrap().sym_type, Type::Int);
    // only the scope's own bindings are seen by the in-scope-only lookup
    assert!(table.lookup_variable_in_scope_only("x", inner).is_some());
    table.define_variable(
        VariableSymbol { identifier: "y".to_string(), sym_type: Type::Int },
        global,
    );
    assert!(table.lookup_variable_in_scope_only("y", inner).is_none());
    assert!(table.lookup_variable("y", inner).is_some());
    // exiting returns to the parent
    assert_eq!(table.exit_scope(inner), global);
}

#[test]
fn resolver_accepts_a_clean_program() {
    let ast = parse("let x be 1\nlet y be x + 2\nset y to y * 3").unwrap();
    assert!(Resolver::new().resolve(&ast).is_ok());
}

// --- Lexer details ---

#[test]
fn tokenize_ends_with_exactly_one_end_of_file() {
    let tokens = tokenize("let x be 1");
    assert_eq!(tokens.last().unwrap().kind, TokenKind::EndOfFile);
    assert_eq!(
        tokens.iter().filter(|t| t.kind == TokenKind::EndOfFile).count(),
        1
    );
}

#[test]
fn lexer_tracks_line_and_column() {
    let mut lexer = Lexer::new("let\n  x");
    let t1 = lexer.next_token().unwrap();
    assert_eq!((t1.position.line, t1.position.column), (1, 1));
    let t2 = lexer.next_token().unwrap();
    assert_eq!((t2.position.line, t2.position.column), (2, 3));
}

#[test]
fn token_span_covers_the_token_text() {
    let mut lexer = Lexer::new("hello");
    let t = lexer.next_token().unwrap();
    let span = t.span();
    assert_eq!((span.start.line, span.start.column), (1, 1));
    assert_eq!((span.end.line, span.end.column), (1, 6));
}

#[test]
fn number_literal_saturates_at_the_largest_value() {
    let ast = parse("let x be 99999999999999999999999999").unwrap();
    match &ast.statements()[0] {
        Statement::VariableDeclaration { value, .. } => {
            assert!(matches!(value, Expression::Number(i64::MAX, _)))
        },
        _ => panic!("expected declaration"),
    }
}

#[test]
fn modulus_operator_works_end_to_end() {
    let interp = run("let r be 17 % 5");
    assert_eq!(num(&interp, "r"), 2);
}

#[test]
fn diagnostics_report_and_has_errors() {
    let d = Diagnostics::new();
    assert!(!d.has_errors());
    let diags = parse("let be 5").unwrap_err();
    assert!(diags.has_errors());
}

#[test]
fn empty_program_parses_and_runs() {
    let ast = parse("").unwrap();
    assert_eq!(ast.statements().len(), 0);
    let mut interp = Interpreter::new();
    interp.collect_functions(&ast);
    assert!(interp.interpret(&ast, 100).is_ok());
}

#[test]
fn else_if_chain_picks_the_matching_branch() {
    let src = "let x be 2\nlet r be 0\n\
               if x == 1 then\nset r to 10\n\
               else if x == 2 then\nset r to 20\n\
               else\nset r to 30\nend";
    let interp = run(src);
    assert_eq!(num(&interp, "r"), 20);
}

#[test]
fn redefining_a_function_lets_the_later_definition_win() {
    let src = "define function f as\nreturn (1)\nend\n\
               define function f as\nreturn (2)\nend\n\
               let x be f()";
    let interp = run(src);
    assert_eq!(num(&interp, "x"), 2);
}

#[test]
fn boolean_values_flow_through_variables() {
    let interp = run("let b be true\nlet c be b and false\nlet d be not c");
    assert!(matches!(interp.get_variable("c"), Some(RuntimeValue::Bool(false))));
    assert!(matches!(interp.get_variable("d"), Some(RuntimeValue::Bool(true))));
}

#[test]
fn calling_an_unknown_function_as_a_statement_is_a_no_op() {
    let interp = run("let x be 1\nmystery()");
    assert_eq!(num(&interp, "x"), 1);
}

#[test]
fn nested_loops_and_calls_compose() {
    let src = "define function square with a as\nreturn (a * a)\nend\n\
               let s be 0\n\
               for i from 1 to 3 do\n\
               for j from 1 to 2 do\n\
               set s to s + square(i)\n\
               end\n\
               end";
    let interp = run(src);
    // each square(i) is added twice: 2*(1 + 4 + 9)
    assert_eq!(num(&interp, "s"), 28);
}

#[test]
fn literal_expressions_carry_their_token_span() {
    let ast = parse("let x be 42").unwrap();
    match &ast.statements()[0] {
        Statement::VariableDeclaration { value, .. } => match value {
            Expression::Number(42, span) => {
                assert_eq!((span.start.line, span.start.column), (1, 10));
                assert_eq!((span.end.line, span.end.column), (1, 12));
            },
            _ => panic!("expected a number literal"),
        },
        _ => panic!("expected declaration"),
    }
}

#[test]
fn not_equal_covers_booleans_end_to_end() {
    let interp = run("let d be true != false\nlet e be 1 != 1");
    assert!(matches!(interp.get_variable("d"), Some(RuntimeValue::Bool(true))));
    assert!(matches!(interp.get_variable("e"), Some(RuntimeValue::Bool(false))));
}
