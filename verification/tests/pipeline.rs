use c_compiler::analysis::{label_all_loops, replace_compound_assign_with_assign_binary, validate_program};
use c_compiler::parser::{BlockItem, Declaration, Program, StmtKind};
use c_compiler::codegen::{is_transformable, transform};
use c_compiler::diagnostics::{Diagnostic, Diagnostics, Stage};
use c_compiler::lexer::lex;
use c_compiler::parser::parser::parse;
use c_compiler::table::Table;

/// Runs the front end and returns the IR text, or the diagnostics.
fn to_ir(source: &str) -> Result<String, Vec<Diagnostic>> {
    let tokens = lex(source)?;
    let mut program = parse(source.to_string(), tokens)?;
    let mut diagnostics = Diagnostics::new();
    let mut symbols = validate_program(&mut program, &mut diagnostics);
    if !diagnostics.is_empty() {
        return Err(diagnostics.vec);
    }
    assert!(program.is_lowerable());
    let ir = program.lower(&mut symbols);
    Ok(ir.text())
}

/// Runs the whole pipeline and returns the assembly text.
fn to_assembly(source: &str) -> Result<String, Vec<Diagnostic>> {
    let tokens = lex(source)?;
    let mut program = parse(source.to_string(), tokens)?;
    let mut diagnostics = Diagnostics::new();
    let mut symbols = validate_program(&mut program, &mut diagnostics);
    if !diagnostics.is_empty() {
        return Err(diagnostics.vec);
    }
    assert!(program.is_lowerable());
    let ir = program.lower(&mut symbols);
    assert!(ir.fits());
    let mut backend_symbols = Table::new();
    let mut code = ir.lower(&symbols, &mut backend_symbols);
    assert!(is_transformable(&code));
    transform(&mut code, &backend_symbols);
    assert!(code.is_printable());
    Ok(code.format(&backend_symbols))
}

fn messages(r: Result<String, Vec<Diagnostic>>) -> Vec<String> {
    match r {
        Ok(s) => panic!("expected errors, got {s}"),
        Err(ds) => ds.into_iter().map(|d| d.message).collect(),
    }
}

#[test]
fn return_constant_assembly() {
    let code = to_assembly("int main(void) { return 2; }").unwrap();
    assert!(code.starts_with("    .section .note.GNU-stack,\"\",@progbits\n    .text\n"));
    assert!(code.contains("\n    .globl main\n"));
    assert!(code.contains("\nmain:\n    pushq %rbp\n    movq %rsp, %rbp\n"));
    assert!(code.contains("    movl $2, %eax\n"));
    assert!(code.contains("    movq %rbp, %rsp\n    popq %rbp\n    ret"));
    assert!(code.ends_with("\n"));
}

#[test]
fn return_constant_ir() {
    let ir = to_ir("int main(void) { return 2; }").unwrap();
    assert!(ir.starts_with("fn main() {\n"));
    assert!(ir.contains("\treturn 2;\n"));
    assert!(ir.ends_with("}\n\n"));
}

#[test]
fn unary_and_binary_ir() {
    let ir = to_ir("int main(void) { return ~(-3) + 4 * 5; }").unwrap();
    assert!(ir.contains(" = -3;") || ir.contains(" = -3\n") || ir.contains("-3"));
    assert!(ir.contains(" = ~"));
    assert!(ir.contains(" * 5;"));
    assert!(ir.contains(" + "));
}

#[test]
fn call_to_undefined_function_goes_through_plt() {
    let code = to_assembly("int putchar(int c); int main(void) { putchar(72); return 0; }").unwrap();
    assert!(code.contains("    call putchar@PLT"));
    assert!(code.contains("    movl $72, %edi"));
}

#[test]
fn call_to_defined_function_is_direct() {
    let code = to_assembly("int f(int a, int b) { return a - b; } int main(void) { return f(5, 3); }").unwrap();
    assert!(code.contains("    call f\n"));
    assert!(!code.contains("call f@PLT"));
}

#[test]
fn division_uses_idiv() {
    let code = to_assembly("int main(void) { int a = 7; return a / 2; }").unwrap();
    assert!(code.contains("    cdq\n"));
    assert!(code.contains("    idivl "));
}

#[test]
fn comparison_uses_setcc() {
    let code = to_assembly("int main(void) { int a = 7; return a < 9; }").unwrap();
    assert!(code.contains("    setl "));
    assert!(code.contains("    cmpl "));
}

#[test]
fn loops_and_switch_compile() {
    let src = "int main(void) {
        int total = 0;
        for (int i = 0; i < 10; i = i + 1) {
            if (i == 3) continue;
            total += i;
        }
        while (total > 100) total -= 1;
        do { total = total + 1; } while (total < 5);
        switch (total) { case 1: return 1; case 2: break; default: total = 0; }
        return total;
    }";
    let code = to_assembly(src).unwrap();
    assert!(code.contains("main:"));
    assert!(code.contains("    jmp "));
    let ir = to_ir(src).unwrap();
    assert!(ir.contains("\tgoto "));
    assert!(ir.contains("\tjz "));
}

#[test]
fn goto_and_labels_compile() {
    let src = "int main(void) { int a = 0; start: a = a + 1; if (a < 3) goto start; return a; }";
    let ir = to_ir(src).unwrap();
    assert!(ir.contains("\tgoto "));
}

#[test]
fn missing_return_gets_zero() {
    let ir = to_ir("int main(void) { int a = 1; }").unwrap();
    assert!(ir.contains("\treturn 0;\n"));
}

#[test]
fn lex_error_message() {
    let errs = lex("int main(void) { return $; }").unwrap_err();
    assert_eq!(errs.len(), 1);
    assert_eq!(errs[0].stage, Stage::Lex);
    assert_eq!(errs[0].message, "unexpected character '$'");
    assert_eq!(errs[0].span, 24..25);
}

#[test]
fn lex_error_escapes_quote() {
    let errs = lex("'").unwrap_err();
    assert_eq!(errs[0].message, "unexpected character '\\''");
}

#[test]
fn parse_error_reports_expected_token() {
    let source = "int main(void) { return 2 }";
    let tokens = lex(source).unwrap();
    let errs = parse(source.to_string(), tokens).unwrap_err();
    assert!(!errs.is_empty());
    assert!(errs.iter().all(|d| d.stage == Stage::Parse));
    assert_eq!(errs[0].message, "expected ; but found '}'");
}

#[test]
fn parse_error_at_end_of_input() {
    let source = "int main(void) { return 2;";
    let tokens = lex(source).unwrap();
    let errs = parse(source.to_string(), tokens).unwrap_err();
    assert!(errs.iter().all(|d| d.stage == Stage::Parse));
    assert!(errs[0].message.contains("end of input"));
}

#[test]
fn undeclared_variable_reported() {
    let m = messages(to_ir("int main(void) { return x; }"));
    // Reported once by name resolution and once by the type checker, which
    // finds no symbol for the name.
    assert_eq!(m, vec!["undeclared variable 'x'".to_string(), "undeclared variable 'x'".to_string()]);
}

#[test]
fn break_outside_loop_reported() {
    let m = messages(to_ir("int main(void) { break; return 0; }"));
    assert_eq!(m, vec!["'break' outside of a loop or switch".to_string()]);
}

#[test]
fn continue_outside_loop_reported() {
    let m = messages(to_ir("int main(void) { continue; return 0; }"));
    assert_eq!(m, vec!["'continue' outside of a loop".to_string()]);
}

#[test]
fn duplicate_case_reported() {
    let m = messages(to_ir("int main(void) { switch (1) { case 4: return 1; case 4: return 2; } return 0; }"));
    assert_eq!(m, vec!["duplicate case value 4".to_string()]);
}

#[test]
fn duplicate_default_reported() {
    let m = messages(to_ir("int main(void) { switch (1) { default: return 1; default: return 2; } return 0; }"));
    assert_eq!(m, vec!["multiple 'default' cases in one switch".to_string()]);
}

#[test]
fn case_outside_switch_reported() {
    let m = messages(to_ir("int main(void) { case 1: return 0; }"));
    assert_eq!(m, vec!["'case'/'default' label outside of a switch".to_string()]);
}

#[test]
fn duplicate_label_reported() {
    let m = messages(to_ir("int main(void) { a: ; a: ; return 0; }"));
    assert_eq!(m, vec!["duplicate label 'a'".to_string()]);
}

#[test]
fn undeclared_goto_target_reported() {
    let m = messages(to_ir("int main(void) { goto nowhere; return 0; }"));
    assert_eq!(m, vec!["undeclared goto target 'nowhere'".to_string()]);
}

#[test]
fn variable_redeclaration_reported() {
    let m = messages(to_ir("int main(void) { int a = 1; int a = 2; return a; }"));
    assert_eq!(m, vec!["conflicting declarations for local variable 'a'".to_string()]);
}

#[test]
fn invalid_lvalue_reported() {
    let m = messages(to_ir("int main(void) { 2 = 3; return 0; }"));
    assert_eq!(m.len(), 1);
    assert!(m[0].starts_with("invalid assignment target"));
}

#[test]
fn wrong_argument_count_reported() {
    let m = messages(to_ir("int f(int a); int main(void) { return f(1, 2); }"));
    assert_eq!(m, vec!["wrong number of arguments: expected 1, found 2".to_string()]);
}

#[test]
fn function_used_as_variable_reported() {
    let m = messages(to_ir("int f(void); int main(void) { return f + 1; }"));
    assert_eq!(m, vec!["function name used as variable".to_string()]);
}

#[test]
fn function_redefinition_reported() {
    let m = messages(to_ir("int f(void) { return 1; } int f(void) { return 2; } int main(void) { return 0; }"));
    assert_eq!(m, vec!["redefinition of function 'f'".to_string()]);
}

#[test]
fn nested_function_definition_reported() {
    let m = messages(to_ir("int main(void) { int g(void) { return 1; } return 0; }"));
    assert!(!m.is_empty());
}

#[test]
fn case_constant_must_be_literal() {
    let source = "int main(void) { switch (1) { case -3: return 1; } return 0; }";
    let tokens = lex(source).unwrap();
    let errs = parse(source.to_string(), tokens).unwrap_err();
    assert_eq!(errs[0].message, "expected constant but found '-'");
}

#[test]
fn integer_constant_too_large() {
    let source = "int main(void) { return 3000000000; }";
    let tokens = lex(source).unwrap();
    let errs = parse(source.to_string(), tokens).unwrap_err();
    assert_eq!(errs[0].message, "integer constant is too large to fit in an 'int'");
    assert_eq!(errs[0].span, 24..34);
}

#[test]
fn distinct_case_values_accepted() {
    let ir = to_ir("int main(void) { switch (2) { case 1: return 1; case 2: return 2; default: return 3; } }").unwrap();
    assert!(ir.contains("	return 2;"));
}

#[test]
fn parse_error_on_bad_declaration() {
    let source = "int main(void) { int a + 1; return a; }";
    let tokens = lex(source).unwrap();
    let errs = parse(source.to_string(), tokens).unwrap_err();
    assert_eq!(errs[0].message, "expected = or ( but found '+'");
}

#[test]
fn one_variable_one_stack_slot() {
    let code = to_assembly("int main(void) { int a = 5; return a; }").unwrap();
    assert!(code.contains("    movl $5, -4(%rbp)\n"));
    assert!(code.contains("    movl -4(%rbp), %eax\n"));
    assert!(code.contains("    subq $16, %rsp\n"));
}

#[test]
fn two_variables_two_stack_slots() {
    let code = to_assembly("int main(void) { int a = 5; int b = 6; return a + b; }").unwrap();
    assert!(code.contains("    movl $5, -4(%rbp)\n"));
    assert!(code.contains("    movl $6, -8(%rbp)\n"));
}

#[test]
fn ir_of_short_circuit_and() {
    let ir = to_ir("int main(void) { int a = 1; return a && 0; }").unwrap();
    assert!(ir.contains("\tjz "));
    assert!(ir.contains(" = 1;\n"));
    assert!(ir.contains(" = 0;\n"));
}

#[test]
fn ir_of_while_loop_labels() {
    let ir = to_ir("int main(void) { int a = 0; while (a < 3) a = a + 1; return a; }").unwrap();
    assert!(ir.contains("_continue:\n"));
    assert!(ir.contains("_break:\n"));
}

#[test]
fn validated_program_with_every_construct_is_lowerable() {
    let source = "int helper(int a, int b);\n\
        int main(void) {\n\
            int x = 1;\n\
            int y = 2;\n\
            x += 5;\n\
            y <<= x;\n\
            for (int i = 0; i < 3; i++) { if (i == 1) continue; x *= 2; }\n\
            while (x > 0) { x -= 7; if (x < 3) break; }\n\
            do { --x; } while (x > 0);\n\
            switch (x) { case 0: x = 4; break; default: x = y; }\n\
            start: x = x ? x : 1;\n\
            if (x > 100) goto start;\n\
            return x + y;\n\
        }";
    let tokens = lex(source).unwrap();
    let mut program = parse(source.to_string(), tokens).unwrap();
    let mut diagnostics = Diagnostics::new();
    let _symbols = validate_program(&mut program, &mut diagnostics);
    assert!(diagnostics.is_empty());
    assert!(program.is_lowerable());
}

/// The text of the expression statement at `index` of the first function's body.
fn statement_text(program: &Program, index: usize) -> String {
    match &program.0[0] {
        Declaration::Func(f) => match &f.body.as_ref().unwrap()[index] {
            BlockItem::Stmt(s) => match &s.kind {
                StmtKind::Expression(e) => e.text(),
                other => panic!("not an expression statement: {other:?}"),
            },
            other => panic!("not a statement: {other:?}"),
        },
        other => panic!("not a function: {other:?}"),
    }
}

#[test]
fn compound_assignment_rewritten_into_assignment_of_binary() {
    let source = "int main(void) { int a = 1; a *= 3 + a; a <<= 2; return a; }";
    let tokens = lex(source).unwrap();
    let mut program = parse(source.to_string(), tokens).unwrap();
    assert_eq!(statement_text(&program, 1), "(a *= (3 + a))");
    replace_compound_assign_with_assign_binary(&mut program);
    assert_eq!(statement_text(&program, 1), "(a = (a * (3 + a)))");
    assert_eq!(statement_text(&program, 2), "(a = (a << 2))");
}

#[test]
fn labeling_loops_leaves_expressions_alone() {
    let source = "int main(void) { int a = 1; while (a < 5) { a = a + 2; break; } a = a - 1; return a; }";
    let tokens = lex(source).unwrap();
    let mut program = parse(source.to_string(), tokens).unwrap();
    let before = statement_text(&program, 2);
    let mut diagnostics = Diagnostics::new();
    label_all_loops(&mut program, &mut diagnostics);
    assert!(diagnostics.is_empty());
    assert_eq!(statement_text(&program, 2), before);
    assert_eq!(before, "(a = (a - 1))");
}
