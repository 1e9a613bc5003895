use c_compiler::analysis::typechecking::arity_text;
use c_compiler::diagnostics::{line_col, report_message, Diagnostic, Diagnostics, Stage};
use c_compiler::lexer::{lex, Token};
use c_compiler::parser::Identifier;
use c_compiler::text::{int_to_string, nat_to_string};
use c_compiler::utils::{align_to, can_fit_in_i32, round_up_16};

#[test]
fn align_to_rounds_up_to_multiple() {
    assert_eq!(align_to(0, 8), 0);
    assert_eq!(align_to(1, 8), 8);
    assert_eq!(align_to(8, 8), 8);
    assert_eq!(align_to(13, 4), 16);
}

#[test]
fn round_up_16_values() {
    assert_eq!(round_up_16(0), 0);
    assert_eq!(round_up_16(1), 16);
    assert_eq!(round_up_16(16), 16);
    assert_eq!(round_up_16(33), 48);
}

#[test]
fn can_fit_in_i32_is_half_open() {
    assert!(can_fit_in_i32(0));
    assert!(can_fit_in_i32(-2147483648));
    assert!(can_fit_in_i32(2147483646));
    assert!(!can_fit_in_i32(2147483647));
    assert!(!can_fit_in_i32(-2147483649));
    assert!(!can_fit_in_i32(1 << 40));
}

#[test]
fn integers_print_in_decimal() {
    assert_eq!(int_to_string(0), "0");
    assert_eq!(int_to_string(-45), "-45");
    assert_eq!(int_to_string(i64::MIN), "-9223372036854775808");
    assert_eq!(nat_to_string(1234567890), "1234567890");
}

#[test]
fn line_col_counts_lines_and_characters() {
    assert_eq!(line_col("ab\ncd", 0), (1, 1));
    assert_eq!(line_col("ab\ncd", 1), (1, 2));
    assert_eq!(line_col("ab\ncd", 3), (2, 1));
    assert_eq!(line_col("ab\ncd", 4), (2, 2));
    assert_eq!(line_col("ab\ncd", 100), (2, 3));
    // A two-byte character counts as one column.
    assert_eq!(line_col("é=1", 2), (1, 2));
}

#[test]
fn report_message_headline() {
    let d = Diagnostic::new(Stage::Parse, 3..4, "expected ; but found '}'".to_string());
    assert_eq!(report_message("ab\ncd", &d), "parser error: expected ; but found '}' (line 2, column 1)");
    let d = Diagnostic::new(Stage::Analysis, 0..1, "x".to_string());
    assert_eq!(report_message("", &d), "semantic analyzer error: x (line 1, column 1)");
}

#[test]
fn stage_names() {
    assert_eq!(Stage::Lex.text(), "lexer");
    assert_eq!(Stage::Parse.text(), "parser");
    assert_eq!(Stage::Analysis.text(), "semantic analyzer");
}

#[test]
fn diagnostics_collect_in_order() {
    let mut ds = Diagnostics::new();
    assert!(ds.is_empty());
    ds.lexing_error(0..1, "a".to_string());
    ds.analysis_error(2..3, "b".to_string());
    assert!(!ds.is_empty());
    assert_eq!(ds.vec.len(), 2);
    assert_eq!(ds.vec[0].stage, Stage::Lex);
    assert_eq!(ds.vec[1].stage, Stage::Analysis);
    assert_eq!(ds.vec[1].message, "b");
    assert_eq!(ds.vec[1].span, 2..3);
}

#[test]
fn lex_tokens_and_spans() {
    let tokens = lex("int x = 42;").unwrap();
    let kinds: Vec<Token> = tokens.iter().map(|t| t.token).collect();
    assert_eq!(
        kinds,
        vec![Token::Int, Token::Ident, Token::Assign, Token::ConstantInt, Token::Semicolon, Token::EndOfInput]
    );
    assert_eq!(tokens[0].span, 0..3);
    assert_eq!(tokens[1].span, 4..5);
    assert_eq!(tokens[3].span, 8..10);
    assert_eq!(tokens[5].span, 11..11);
}

#[test]
fn lex_longest_match() {
    let kinds: Vec<Token> = lex("a<<=b>>c<=d&&e||f++--").unwrap().iter().map(|t| t.token).collect();
    assert_eq!(
        kinds,
        vec![
            Token::Ident,
            Token::LeftShiftAssign,
            Token::Ident,
            Token::RightShift,
            Token::Ident,
            Token::LessEqual,
            Token::Ident,
            Token::LogicalAnd,
            Token::Ident,
            Token::LogicalOr,
            Token::Ident,
            Token::Increment,
            Token::Decrement,
            Token::EndOfInput,
        ]
    );
}

#[test]
fn lex_keywords_versus_identifiers() {
    let kinds: Vec<Token> = lex("int integer return returned").unwrap().iter().map(|t| t.token).collect();
    assert_eq!(kinds, vec![Token::Int, Token::Ident, Token::Return, Token::Ident, Token::EndOfInput]);
}

#[test]
fn lex_empty_source() {
    let tokens = lex("").unwrap();
    assert_eq!(tokens.len(), 1);
    assert_eq!(tokens[0].token, Token::EndOfInput);
    assert_eq!(tokens[0].span, 0..0);
}

#[test]
fn lex_reports_every_bad_character() {
    let errs = lex("@ int # x").unwrap_err();
    assert_eq!(errs.len(), 2);
    assert_eq!(errs[0].message, "unexpected character '@'");
    assert_eq!(errs[0].span, 0..1);
    assert_eq!(errs[1].message, "unexpected character '#'");
    assert_eq!(errs[1].span, 6..7);
}

#[test]
fn lex_error_escapes_control_character() {
    let errs = lex("\u{7}").unwrap_err();
    assert_eq!(errs[0].message, "unexpected character '\\u{7}'");
}

#[test]
fn token_text() {
    assert_eq!(Token::Semicolon.text(), ";");
    assert_eq!(Token::LeftShiftAssign.text(), "<<=");
    assert_eq!(Token::Ident.text(), "identifier");
}

#[test]
fn identifier_new_has_random_suffix() {
    let a = Identifier::new("while");
    assert_eq!(a.1, "while");
    assert!(a.0.starts_with(".L_while__"));
    let suffix = &a.0[".L_while__".len()..];
    assert_eq!(suffix.chars().count(), 4);
    assert!(suffix.chars().all(|c| ('a'..'z').contains(&c)));
}

#[test]
fn identifier_local_and_suffix() {
    let a = Identifier::new_raw("loop");
    assert_eq!(a.0, "loop");
    let b = a.with_suffix("_break");
    assert_eq!(b.0, "loop_break");
    assert_eq!(b.1, "loop");
    let c = b.local();
    assert_eq!(c.0, ".L_loop_break");
    assert_eq!(c.1, "loop");
}

#[test]
fn function_type_text() {
    assert_eq!(arity_text(0), "int()");
    assert_eq!(arity_text(1), "int(int)");
    assert_eq!(arity_text(3), "int(int, int, int)");
}
