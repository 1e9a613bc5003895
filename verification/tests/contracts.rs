use c_compiler::analysis::{
    add_return_zero, rename_all_gotos, validate_program, IdentifierAttributes, InitialValue, StaticInit, Symbol, Type,
};
use c_compiler::diagnostics::{Diagnostic, Diagnostics, Stage};
use c_compiler::ir::{Instruction, TopLevel, Value};
use c_compiler::lexer::{lex, SpannedToken, Token};
use c_compiler::parser::parser::{lex_and_parse, parse};
use c_compiler::parser::{
    BinaryOperator, BlockItem, Constant, Declaration, ExprKind, Expression, ForInit, IncDec, Identifier, Parser, Program,
    Statement, StmtKind, StorageClass, UnaryOperator,
};
use c_compiler::table::Table;

fn st(token: Token, span: std::ops::Range<usize>) -> SpannedToken {
    SpannedToken { token, span }
}

fn analysis_messages(source: &str) -> Vec<Diagnostic> {
    let tokens = lex(source).unwrap();
    let mut program = parse(source.to_string(), tokens).unwrap();
    let mut diagnostics = Diagnostics::new();
    validate_program(&mut program, &mut diagnostics);
    diagnostics.vec
}

#[test]
fn statement_parses_return_of_constant() {
    let mut p = Parser::new(
        "return 1;".to_string(),
        vec![st(Token::Return, 0..6), st(Token::ConstantInt, 7..8), st(Token::Semicolon, 8..9), st(Token::EndOfInput, 9..9)],
    );
    let s = p.statement().unwrap();
    assert_eq!(s.span, 0..9);
    match s.kind {
        StmtKind::Return(e) => {
            assert!(matches!(e.kind, ExprKind::Constant(Constant::Int(1))));
            assert!(matches!(e.ty, Type::Int));
            assert_eq!(e.span, 7..8);
        },
        _ => panic!("expected a return statement"),
    }
    assert_eq!(p.peek(), Some(Token::EndOfInput));
    assert!(p.errors.is_empty());
}

#[test]
fn statement_parses_case_with_empty_statement() {
    let mut p = Parser::new(
        "case 3: ;".to_string(),
        vec![
            st(Token::Case, 0..4),
            st(Token::ConstantInt, 5..6),
            st(Token::Colon, 6..7),
            st(Token::Semicolon, 8..9),
            st(Token::EndOfInput, 9..9),
        ],
    );
    let s = p.statement().unwrap();
    assert_eq!(s.span, 0..9);
    match s.kind {
        StmtKind::Case { value, label, header_span, stmt } => {
            assert!(matches!(value, Constant::Int(3)));
            assert_eq!(label.1, "case");
            assert_eq!(header_span, 0..7);
            assert!(matches!(stmt.kind, StmtKind::Null));
            assert_eq!(stmt.span, 8..9);
        },
        _ => panic!("expected a case statement"),
    }
    assert_eq!(p.peek(), Some(Token::EndOfInput));
}

#[test]
fn factor_parses_name_and_expression_stops_at_semicolon() {
    let mut p = Parser::new("x;".to_string(), vec![st(Token::Ident, 0..1), st(Token::Semicolon, 1..2), st(Token::EndOfInput, 2..2)]);
    let e = p.factor().unwrap();
    assert!(matches!(&e.kind, ExprKind::Var(Identifier(a, b)) if a == "x" && b == "x"));
    assert_eq!(p.i, 1);
    let mut q = Parser::new("x;".to_string(), vec![st(Token::Ident, 0..1), st(Token::Semicolon, 1..2), st(Token::EndOfInput, 2..2)]);
    let e = q.expression(0).unwrap();
    assert_eq!(e.span, 0..1);
    assert_eq!(q.peek(), Some(Token::Semicolon));
}

#[test]
fn factor_parses_negated_postfix_increment() {
    let mut p = Parser::new(
        "-x++".to_string(),
        vec![st(Token::Hyphen, 0..1), st(Token::Ident, 1..2), st(Token::Increment, 2..4), st(Token::EndOfInput, 4..4)],
    );
    let e = p.factor().unwrap();
    assert_eq!(e.span, 0..4);
    match e.kind {
        ExprKind::Unary { expr, .. } => {
            assert_eq!(expr.span, 1..4);
            match expr.kind {
                ExprKind::Postfix(IncDec::Increment, inner) => {
                    assert!(matches!(inner.kind, ExprKind::Var(_)));
                    assert_eq!(inner.span, 1..2);
                },
                _ => panic!("expected a postfix increment"),
            }
        },
        _ => panic!("expected a negation"),
    }
    assert_eq!(p.peek(), Some(Token::EndOfInput));
}

#[test]
fn for_init_empty_on_semicolon() {
    let mut p = Parser::new(";".to_string(), vec![st(Token::Semicolon, 0..1), st(Token::EndOfInput, 1..1)]);
    let init = p.for_init().unwrap();
    assert!(matches!(init, ForInit::Empty));
    assert_eq!(p.i, 1);
    assert!(p.errors.is_empty());
}

#[test]
fn empty_source_parses_to_empty_program() {
    let tokens = lex("").unwrap();
    let program = parse(String::new(), tokens).unwrap();
    assert!(program.0.is_empty());
}

#[test]
fn prefix_increment_of_long_steps_by_long_one() {
    let mut symbols = Table::new();
    symbols.insert(Identifier::new_raw("x"), Symbol { attributes: IdentifierAttributes::Local, ty: Type::Long });
    let var = Expression { ty: Type::Long, kind: ExprKind::Var(Identifier::new_raw("x")), span: 2..3 };
    let e = Expression { ty: Type::Long, kind: ExprKind::Prefix(IncDec::Increment, Box::new(var)), span: 0..3 };
    let mut code = Vec::new();
    let r = e.lower(&mut code, &mut symbols);
    assert!(matches!(&r, Value::Var(Identifier(a, _)) if a == "x"));
    assert_eq!(code.len(), 1);
    match &code[0] {
        Instruction::Binary { lhs, rhs, dst, .. } => {
            assert!(matches!(lhs, Value::Var(Identifier(a, _)) if a == "x"));
            assert!(matches!(rhs, Value::Constant(Constant::Long(1))));
            assert!(matches!(dst, Value::Var(Identifier(a, _)) if a == "x"));
        },
        _ => panic!("expected an addition"),
    }
    assert_eq!(symbols.entries.len(), 1);
}

#[test]
fn switch_dispatch_uses_one_int_temporary() {
    let source = "int main(void) { int a = 2; switch (a) { case 1: return 1; case 2: return 2; } return 0; }";
    let tokens = lex(source).unwrap();
    let mut program = parse(source.to_string(), tokens).unwrap();
    let mut diagnostics = Diagnostics::new();
    let mut symbols = validate_program(&mut program, &mut diagnostics);
    assert!(diagnostics.is_empty());
    let ir = program.lower(&mut symbols);
    let f = match &ir.0[0] {
        TopLevel::F(f) => f,
        _ => panic!("expected a function"),
    };
    let mut temps: Vec<String> = Vec::new();
    for i in f.body.iter() {
        if let Instruction::Binary { lhs: Value::Constant(_), dst: Value::Var(t), .. } = i {
            temps.push(t.0.clone());
        }
    }
    assert_eq!(temps.len(), 2);
    assert_eq!(temps[0], temps[1]);
    let recorded = symbols.entries.iter().filter(|(id, _)| id.0 == temps[0]).count();
    assert_eq!(recorded, 1);
    let (_, sym) = symbols.entries.iter().find(|(id, _)| id.0 == temps[0]).unwrap();
    assert!(matches!(sym.attributes, IdentifierAttributes::Local));
    assert!(matches!(sym.ty, Type::Int));
}

#[test]
fn mixed_int_long_arithmetic_widens_int_side() {
    let source = "int main(void) { int a = 1; int b = 2; return a + b; }";
    let tokens = lex(source).unwrap();
    let mut program = parse(source.to_string(), tokens).unwrap();
    if let Declaration::Func(f) = &mut program.0[0] {
        if let BlockItem::Decl(Declaration::Var(v)) = &mut f.body.as_mut().unwrap()[1] {
            v.ty = Type::Long;
        }
    }
    let mut diagnostics = Diagnostics::new();
    validate_program(&mut program, &mut diagnostics);
    assert!(diagnostics.is_empty());
    let body = match &program.0[0] {
        Declaration::Func(f) => f.body.as_ref().unwrap(),
        _ => panic!("expected a function"),
    };
    let ret = match &body[2] {
        BlockItem::Stmt(s) => match &s.kind {
            StmtKind::Return(e) => e,
            _ => panic!("expected a return"),
        },
        _ => panic!("expected a statement"),
    };
    // The sum is long, cast back to the int return type.
    match &ret.kind {
        ExprKind::Cast { target_type, expr } => {
            assert!(matches!(target_type, Type::Int));
            assert!(matches!(expr.ty, Type::Long));
            match &expr.kind {
                ExprKind::Binary { lhs, rhs, .. } => {
                    assert!(matches!(lhs.ty, Type::Long));
                    assert!(matches!(&lhs.kind, ExprKind::Cast { target_type: Type::Long, expr } if matches!(expr.ty, Type::Int)));
                    assert!(matches!(rhs.ty, Type::Long));
                    assert!(matches!(rhs.kind, ExprKind::Var(_)));
                },
                _ => panic!("expected a sum"),
            }
        },
        _ => panic!("expected a cast to the return type"),
    }
}

#[test]
fn redefinition_reported_at_declaration_span() {
    let source = "int f(void) { return 1; } int f(void) { return 2; }";
    let ds = analysis_messages(source);
    assert_eq!(ds.len(), 1);
    assert_eq!(ds[0].message, "redefinition of function 'f'");
    assert_eq!(ds[0].span.start, 26);
}

#[test]
fn static_local_needs_constant_initializer() {
    let source = "int main(void) { int a = 1; int b = a; return 0; }";
    let tokens = lex(source).unwrap();
    let mut program = parse(source.to_string(), tokens).unwrap();
    if let Declaration::Func(f) = &mut program.0[0] {
        if let BlockItem::Decl(Declaration::Var(v)) = &mut f.body.as_mut().unwrap()[1] {
            v.storage_class = StorageClass::Static;
        }
    }
    let mut diagnostics = Diagnostics::new();
    validate_program(&mut program, &mut diagnostics);
    let ds = diagnostics.vec;
    assert_eq!(ds.len(), 1);
    assert_eq!(ds[0].message, "initializer is not a constant integer");
    assert_eq!(ds[0].span.start, 28);
}

#[test]
fn break_outside_loop_reported_at_its_span() {
    let ds = analysis_messages("int main(void) { break; }");
    assert_eq!(ds.len(), 1);
    assert_eq!(ds[0].message, "'break' outside of a loop or switch");
    assert_eq!(ds[0].span, 17..22);
}

#[test]
fn every_static_with_a_value_is_emitted_once() {
    let mut symbols = Table::new();
    let stat = |init: InitialValue, global: bool| Symbol { attributes: IdentifierAttributes::Static { init, global }, ty: Type::Int };
    symbols.insert(Identifier::new_raw("x"), stat(InitialValue::Tentitive, true));
    symbols.insert(Identifier::new_raw("y"), stat(InitialValue::Constant(StaticInit::Int(7)), false));
    symbols.insert(Identifier::new_raw("z"), stat(InitialValue::NoInitializer, true));
    symbols.insert(Identifier::new_raw("w"), Symbol { attributes: IdentifierAttributes::Local, ty: Type::Int });
    symbols.insert(Identifier::new_raw("x"), stat(InitialValue::Constant(StaticInit::Int(3)), true));
    let ir = Program(Vec::new()).lower(&mut symbols);
    let statics: Vec<(String, bool, i64)> = ir.0.iter().filter_map(|t| match t {
        TopLevel::V(v) => Some((v.name.0.clone(), v.global, match v.init {
            StaticInit::Int(i) => i as i64,
            StaticInit::Long(l) => l,
        })),
        _ => None,
    }).collect();
    assert_eq!(statics, vec![("y".to_string(), false, 7), ("x".to_string(), true, 3)]);
}

#[test]
fn added_return_zero_has_empty_span() {
    let source = "int main(void) { int a = 1; }";
    let tokens = lex(source).unwrap();
    let mut program = parse(source.to_string(), tokens).unwrap();
    add_return_zero(&mut program);
    let body = match &program.0[0] {
        Declaration::Func(f) => f.body.as_ref().unwrap(),
        _ => panic!("expected a function"),
    };
    assert_eq!(body.len(), 2);
    match &body[1] {
        BlockItem::Stmt(s) => {
            assert_eq!(s.span, 0..0);
            match &s.kind {
                StmtKind::Return(e) => {
                    assert!(matches!(e.kind, ExprKind::Constant(Constant::Int(0))));
                    assert_eq!(e.span, 0..0);
                },
                _ => panic!("expected a return"),
            }
        },
        _ => panic!("expected a statement"),
    }
}

#[test]
fn labels_and_gotos_get_function_suffix() {
    let source = "int main(void) { top: goto top; }";
    let tokens = lex(source).unwrap();
    let mut program = parse(source.to_string(), tokens).unwrap();
    let before = match &program.0[0] {
        Declaration::Func(f) => match &f.body.as_ref().unwrap()[0] {
            BlockItem::Stmt(s) => match &s.kind {
                StmtKind::Label(l, _) => l.0.clone(),
                _ => panic!("expected a label"),
            },
            _ => panic!("expected a statement"),
        },
        _ => panic!("expected a function"),
    };
    rename_all_gotos(&mut program);
    let body = match &program.0[0] {
        Declaration::Func(f) => f.body.as_ref().unwrap(),
        _ => panic!("expected a function"),
    };
    match &body[0] {
        BlockItem::Stmt(s) => match &s.kind {
            StmtKind::Label(l, inner) => {
                assert_eq!(l.0, format!("{before}.main"));
                assert!(matches!(&inner.kind, StmtKind::Goto(g) if g.0 == l.0));
            },
            _ => panic!("expected a label"),
        },
        _ => panic!("expected a statement"),
    }
}

#[test]
fn nested_definition_reported_at_its_span() {
    let ds = analysis_messages("int main(void) { int g(void) { return 1; } return 0; }");
    let nested: Vec<&Diagnostic> = ds
        .iter()
        .filter(|d| d.message == "function 'g' cannot be declared inside another function")
        .collect();
    assert_eq!(nested.len(), 1);
    assert_eq!(nested[0].span.start, 17);
}

#[test]
fn duplicate_case_reported_at_its_header() {
    let ds = analysis_messages("int main(void) { switch (1) { case 4: return 1; case 4: return 2; } return 0; }");
    assert_eq!(ds.len(), 1);
    assert_eq!(ds[0].message, "duplicate case value 4");
    assert_eq!(ds[0].span, 48..55);
}

#[test]
fn goto_errors_reported_at_their_statements() {
    let ds = analysis_messages("int main(void) { a: ; a: ; goto nowhere; return 0; }");
    assert_eq!(ds.len(), 2);
    assert_eq!(ds[0].message, "duplicate label 'a'");
    assert_eq!(ds[0].span.start, 22);
    assert_eq!(ds[1].message, "undeclared goto target 'nowhere'");
    assert_eq!(ds[1].span.start, 27);
}

#[test]
fn undeclared_variable_reported_at_its_use() {
    // Name resolution reports it, and so does type checking, which finds no
    // symbol for the name.
    let ds = analysis_messages("int main(void) { return x; }");
    assert_eq!(ds.len(), 2);
    for d in &ds {
        assert_eq!(d.message, "undeclared variable 'x'");
        assert_eq!(d.span, 24..25);
    }
}

#[test]
fn expression_parses_assignment_of_sum_and_product() {
    let mut p = Parser::new(
        "a = 1 + 2 * 3".to_string(),
        vec![
            st(Token::Ident, 0..1),
            st(Token::Assign, 2..3),
            st(Token::ConstantInt, 4..5),
            st(Token::Plus, 6..7),
            st(Token::ConstantInt, 8..9),
            st(Token::Asterisk, 10..11),
            st(Token::ConstantInt, 12..13),
            st(Token::EndOfInput, 13..13),
        ],
    );
    let e = p.expression(0).unwrap();
    assert_eq!(e.span, 0..13);
    match e.kind {
        ExprKind::Assignment(lhs, rhs) => {
            assert!(matches!(&lhs.kind, ExprKind::Var(Identifier(a, _)) if a == "a"));
            assert_eq!(lhs.span, 0..1);
            assert_eq!(rhs.span, 4..13);
            match rhs.kind {
                ExprKind::Binary { operator: BinaryOperator::Add, lhs: one, rhs: product } => {
                    assert!(matches!(one.kind, ExprKind::Constant(Constant::Int(1))));
                    assert_eq!(product.span, 8..13);
                    match product.kind {
                        ExprKind::Binary { operator: BinaryOperator::Multiply, lhs: two, rhs: three } => {
                            assert!(matches!(two.kind, ExprKind::Constant(Constant::Int(2))));
                            assert!(matches!(three.kind, ExprKind::Constant(Constant::Int(3))));
                            assert_eq!(three.span, 12..13);
                        },
                        _ => panic!("expected a product"),
                    }
                },
                _ => panic!("expected a sum"),
            }
        },
        _ => panic!("expected an assignment"),
    }
    assert_eq!(p.peek(), Some(Token::EndOfInput));
    assert!(p.errors.is_empty());
}

#[test]
fn statement_parses_while_loop_with_if_else_body() {
    let source = "while (x) if (x) x = x - 1; else { int y = 2; break; }";
    let tokens = lex(source).unwrap();
    let n = tokens.len();
    let mut p = Parser::new(source.to_string(), tokens);
    let s = p.statement().unwrap();
    assert!(p.errors.is_empty());
    assert_eq!(p.i, n - 1);
    assert_eq!(s.span, 0..source.len());
    match s.kind {
        StmtKind::While { body, .. } => match body.kind {
            StmtKind::If { else_, .. } => {
                let e = else_.unwrap();
                match e.kind {
                    StmtKind::Compound(items) => {
                        assert_eq!(items.len(), 2);
                        assert!(matches!(items[0], BlockItem::Decl(Declaration::Var(_))));
                        assert!(matches!(&items[1], BlockItem::Stmt(s) if matches!(s.kind, StmtKind::Break(_))));
                    },
                    _ => panic!("expected a block"),
                }
            },
            _ => panic!("expected an if statement"),
        },
        _ => panic!("expected a while loop"),
    }
}

#[test]
fn do_while_and_goto_parse_without_errors() {
    let source = "do { x = x + 1; goto done; } while (x < 10);";
    let tokens = lex(source).unwrap();
    let mut p = Parser::new(source.to_string(), tokens);
    let s = p.statement().unwrap();
    assert!(p.errors.is_empty());
    assert!(matches!(s.kind, StmtKind::DoWhile { .. }));
    assert_eq!(p.peek(), Some(Token::EndOfInput));
}

#[test]
fn lex_and_parse_accepts_functions_with_parameters() {
    let source = "int add(int a, int b) { return a + b; } int main(void) { int x = add(1, 2); return x; }";
    let program = lex_and_parse(source.to_string()).unwrap();
    assert_eq!(program.0.len(), 2);
    match &program.0[0] {
        Declaration::Func(f) => {
            assert_eq!(f.params.len(), 2);
            assert!(f.body.is_some());
        },
        _ => panic!("expected a function"),
    }
}

#[test]
fn lex_and_parse_reports_lexical_errors() {
    let r = lex_and_parse("int main(void) { return @; }".to_string());
    let es = r.err().unwrap();
    assert!(!es.is_empty());
    assert!(matches!(es[0].stage, Stage::Lex));
}

#[test]
fn lex_and_parse_reports_missing_semicolon() {
    let r = lex_and_parse("int main(void) { return 0 }".to_string());
    let es = r.err().unwrap();
    assert!(!es.is_empty());
    assert!(matches!(es[0].stage, Stage::Parse));
}

#[test]
fn conflicting_local_declarations_reported() {
    let ds = analysis_messages("int main(void) { int x; int x; return 0; }");
    assert!(!ds.is_empty());
    assert_eq!(ds[0].message, "conflicting declarations for local variable 'x'");
    assert_eq!(ds[0].span.start, 24);
}

#[test]
fn binary_operation_on_long_gets_long_temporary() {
    let mut symbols = Table::new();
    symbols.insert(Identifier::new_raw("x"), Symbol { attributes: IdentifierAttributes::Local, ty: Type::Long });
    let var = Expression { ty: Type::Long, kind: ExprKind::Var(Identifier::new_raw("x")), span: 0..1 };
    let one = Expression { ty: Type::Long, kind: ExprKind::Constant(Constant::Long(1)), span: 4..5 };
    let e = Expression {
        ty: Type::Long,
        kind: ExprKind::Binary { operator: BinaryOperator::Add, lhs: Box::new(var), rhs: Box::new(one) },
        span: 0..5,
    };
    let mut code = Vec::new();
    let r = e.lower(&mut code, &mut symbols);
    let t = match &r {
        Value::Var(t) => t.clone(),
        _ => panic!("expected a temporary"),
    };
    assert!(!matches!(&t, Identifier(a, _) if a == "x"));
    let sym = symbols.get(&t).unwrap();
    assert!(matches!(sym.attributes, IdentifierAttributes::Local));
    assert!(matches!(sym.ty, Type::Long));
}

#[test]
fn negation_of_int_gets_int_temporary() {
    let mut symbols = Table::new();
    symbols.insert(Identifier::new_raw("x"), Symbol { attributes: IdentifierAttributes::Local, ty: Type::Int });
    let var = Expression { ty: Type::Int, kind: ExprKind::Var(Identifier::new_raw("x")), span: 1..2 };
    let e = Expression {
        ty: Type::Int,
        kind: ExprKind::Unary { operator: UnaryOperator::Negate, expr: Box::new(var) },
        span: 0..2,
    };
    let mut code = Vec::new();
    let r = e.lower(&mut code, &mut symbols);
    let t = match &r {
        Value::Var(t) => t.clone(),
        _ => panic!("expected a temporary"),
    };
    let sym = symbols.get(&t).unwrap();
    assert!(matches!(sym.attributes, IdentifierAttributes::Local));
    assert!(matches!(sym.ty, Type::Int));
    assert_eq!(symbols.entries.len(), 2);
}

#[test]
fn for_switch_conditional_and_call_parse_without_errors() {
    let source = "for (int i = 0; i < 10; i = i + 1) switch (i) { case 1: x = i ? f(i, 2) : 3; break; default: ; }";
    let tokens = lex(source).unwrap();
    let mut p = Parser::new(source.to_string(), tokens);
    let s = p.statement().unwrap();
    assert!(p.errors.is_empty());
    assert_eq!(p.peek(), Some(Token::EndOfInput));
    match s.kind {
        StmtKind::For { body, .. } => assert!(matches!(body.kind, StmtKind::Switch(_))),
        _ => panic!("expected a for loop"),
    }
}

#[test]
fn expression_parses_conditional_with_call() {
    let source = "c ? g(1) : h()";
    let tokens = lex(source).unwrap();
    let mut p = Parser::new(source.to_string(), tokens);
    let e = p.expression(0).unwrap();
    assert!(p.errors.is_empty());
    assert_eq!(e.span, 0..source.len());
    match e.kind {
        ExprKind::Conditional(c, t, f) => {
            assert!(matches!(c.kind, ExprKind::Var(_)));
            assert!(matches!(&t.kind, ExprKind::FunctionCall { args, .. } if args.len() == 1));
            assert!(matches!(&f.kind, ExprKind::FunctionCall { args, .. } if args.is_empty()));
        },
        _ => panic!("expected a conditional"),
    }
}

#[test]
fn return_of_long_negation_records_long_temporary() {
    let mut symbols = Table::new();
    symbols.insert(Identifier::new_raw("x"), Symbol { attributes: IdentifierAttributes::Local, ty: Type::Long });
    let var = Expression { ty: Type::Long, kind: ExprKind::Var(Identifier::new_raw("x")), span: 8..9 };
    let neg = Expression {
        ty: Type::Long,
        kind: ExprKind::Unary { operator: UnaryOperator::Negate, expr: Box::new(var) },
        span: 7..9,
    };
    let stmt = Statement::new(StmtKind::Return(neg), 0..10);
    let mut code = Vec::new();
    stmt.lower(&mut code, &mut symbols);
    let v = match code.last() {
        Some(Instruction::Return(v)) => v.clone(),
        _ => panic!("expected a return"),
    };
    let t = match v {
        Value::Var(t) => t,
        _ => panic!("expected a temporary"),
    };
    let sym = symbols.get(&t).unwrap();
    assert!(matches!(sym.attributes, IdentifierAttributes::Local));
    assert!(matches!(sym.ty, Type::Long));
}

#[test]
fn goto_to_a_later_label_is_accepted() {
    let ds = analysis_messages("int main(void) { goto a; a: return 0; }");
    assert!(ds.is_empty());
}

#[test]
fn breaks_get_their_loop_label_and_orphans_keep_theirs() {
    let source = "int main(void) { while (1) { break; } break; return 0; }";
    let tokens = lex(source).unwrap();
    let mut program = parse(source.to_string(), tokens).unwrap();
    let orphan_before = match &program.0[0] {
        Declaration::Func(f) => match &f.body.as_ref().unwrap()[1] {
            BlockItem::Stmt(s) => match &s.kind {
                StmtKind::Break(i) => i.0.clone(),
                _ => panic!("expected a break"),
            },
            _ => panic!("expected a statement"),
        },
        _ => panic!("expected a function"),
    };
    let mut diagnostics = Diagnostics::new();
    c_compiler::analysis::label_all_loops(&mut program, &mut diagnostics);
    assert_eq!(diagnostics.vec.len(), 1);
    assert_eq!(diagnostics.vec[0].message, "'break' outside of a loop or switch");
    let body = match &program.0[0] {
        Declaration::Func(f) => f.body.as_ref().unwrap(),
        _ => panic!("expected a function"),
    };
    match &body[0] {
        BlockItem::Stmt(s) => match &s.kind {
            StmtKind::While { body, label, .. } => match &body.kind {
                StmtKind::Compound(items) => match &items[0] {
                    BlockItem::Stmt(b) => match &b.kind {
                        StmtKind::Break(i) => assert_eq!(i.0, label.0),
                        _ => panic!("expected a break"),
                    },
                    _ => panic!("expected a statement"),
                },
                _ => panic!("expected a block"),
            },
            _ => panic!("expected a while loop"),
        },
        _ => panic!("expected a statement"),
    }
    match &body[1] {
        BlockItem::Stmt(s) => match &s.kind {
            StmtKind::Break(i) => assert_eq!(i.0, orphan_before),
            _ => panic!("expected a break"),
        },
        _ => panic!("expected a statement"),
    }
}

#[test]
fn switch_holds_its_cases_after_validation() {
    let source = "int main(void) { int a = 2; switch (a) { case 1: return 1; case 2: return 2; default: return 0; } }";
    let tokens = lex(source).unwrap();
    let mut program = parse(source.to_string(), tokens).unwrap();
    let mut diagnostics = Diagnostics::new();
    validate_program(&mut program, &mut diagnostics);
    assert!(diagnostics.is_empty());
    let body = match &program.0[0] {
        Declaration::Func(f) => f.body.as_ref().unwrap(),
        _ => panic!("expected a function"),
    };
    match &body[1] {
        BlockItem::Stmt(s) => match &s.kind {
            StmtKind::Switch(sw) => {
                assert_eq!(sw.cases.len(), 2);
                assert_eq!(sw.case_set.len(), 2);
                assert!(sw.default_case.is_some());
            },
            _ => panic!("expected a switch"),
        },
        _ => panic!("expected a statement"),
    }
}

#[test]
fn for_init_expression_consumes_its_semicolon() {
    let source = "x = 1; y";
    let tokens = lex(source).unwrap();
    let mut p = Parser::new(source.to_string(), tokens);
    let init = p.for_init().unwrap();
    assert!(matches!(init, ForInit::Expr(_)));
    assert_eq!(p.current(), Some(Token::Semicolon));
}
