//! The semantic errors, with their spans and messages.
use vstd::prelude::*;
use crate::analysis::typechecking::{Type, type_text};
use crate::diagnostics::Span;
use crate::parser::ast::{Constant, constant_value};
use crate::text::{decimal, int_text, push_decimal, push_int, push_str, push_string, string_of};

verus! {

#[derive(Debug)]
pub enum SemanticError {
    InvalidLValue { expr: String, span: Span },
    VariableRedeclaration { name: String, span: Span },
    FunctionRedeclaration { name: String, span: Span },
    UndeclaredVariable { name: String, span: Span },
    UndeclaredFunction { name: String, span: Span },
    BreakOutsideBreakable { span: Span },
    ContinueOutsideLoop { span: Span },
    DuplicateSwitchCase { value: Constant, span: Span },
    DuplicateDefaultSwitchCase { span: Span },
    CaseOutsideSwitch { span: Span },
    IncompatibleFunctionDeclarations { span: Span, type_a: Type, type_b: Type },
    FunctionRedefinition { name: String, span: Span },
    WrongNumberOfArguements { span: Span, expected: usize, found: usize },
    VariableUsedAsFunction { span: Span, name: String },
    FunctionUsedAsVariable { span: Span, name: String },
    UndeclaredGotoTarget { span: Span, name: String },
    DuplicateLabel { span: Span, name: String },
    NestedFunctionDeclaration { span: Span },
    NestedFunction { span: Span, name: String },
}

/// The span an error points at.
pub open spec fn error_span(e: SemanticError) -> Span {
    match e {
        SemanticError::InvalidLValue { span, .. } => span,
        SemanticError::VariableRedeclaration { span, .. } => span,
        SemanticError::FunctionRedeclaration { span, .. } => span,
        SemanticError::UndeclaredVariable { span, .. } => span,
        SemanticError::UndeclaredFunction { span, .. } => span,
        SemanticError::BreakOutsideBreakable { span } => span,
        SemanticError::ContinueOutsideLoop { span } => span,
        SemanticError::DuplicateSwitchCase { span, .. } => span,
        SemanticError::DuplicateDefaultSwitchCase { span } => span,
        SemanticError::CaseOutsideSwitch { span } => span,
        SemanticError::IncompatibleFunctionDeclarations { span, .. } => span,
        SemanticError::FunctionRedefinition { span, .. } => span,
        SemanticError::WrongNumberOfArguements { span, .. } => span,
        SemanticError::VariableUsedAsFunction { span, .. } => span,
        SemanticError::FunctionUsedAsVariable { span, .. } => span,
        SemanticError::UndeclaredGotoTarget { span, .. } => span,
        SemanticError::DuplicateLabel { span, .. } => span,
        SemanticError::NestedFunctionDeclaration { span } => span,
        SemanticError::NestedFunction { span, .. } => span,
    }
}

/// The message of an error.
pub open spec fn error_message(e: SemanticError) -> Seq<char> {
    match e {
        SemanticError::InvalidLValue { expr, .. } => "invalid assignment target '"@ + expr@ + "'"@,
        SemanticError::VariableRedeclaration { name, .. } => "redeclaration of variable '"@ + name@ + "'"@,
        SemanticError::UndeclaredVariable { name, .. } => "undeclared variable '"@ + name@ + "'"@,
        SemanticError::BreakOutsideBreakable { .. } => "'break' outside of a loop or switch"@,
        SemanticError::ContinueOutsideLoop { .. } => "'continue' outside of a loop"@,
        SemanticError::DuplicateSwitchCase { value, .. } => "duplicate case value "@ + int_text(constant_value(value)),
        SemanticError::DuplicateDefaultSwitchCase { .. } => "multiple 'default' cases in one switch"@,
        SemanticError::CaseOutsideSwitch { .. } => "'case'/'default' label outside of a switch"@,
        SemanticError::FunctionRedeclaration { name, .. } => "redeclaration of function '"@ + name@ + "'"@,
        SemanticError::UndeclaredFunction { name, .. } => "undeclared function '"@ + name@ + "'"@,
        SemanticError::IncompatibleFunctionDeclarations { type_a, type_b, .. } =>
            "incompatible function declarations: '"@ + type_text(type_a) + "' vs '"@ + type_text(type_b) + "'"@,
        SemanticError::FunctionRedefinition { name, .. } => "redefinition of function '"@ + name@ + "'"@,
        SemanticError::WrongNumberOfArguements { expected, found, .. } =>
            "wrong number of arguments: expected "@ + decimal(expected as nat) + ", found "@ + decimal(found as nat),
        SemanticError::VariableUsedAsFunction { name, .. } => "variable '"@ + name@ + "' used as a function"@,
        SemanticError::FunctionUsedAsVariable { name, .. } => "function '"@ + name@ + "' used as a variable"@,
        SemanticError::UndeclaredGotoTarget { name, .. } => "undeclared goto target '"@ + name@ + "'"@,
        SemanticError::DuplicateLabel { name, .. } => "duplicate label '"@ + name@ + "'"@,
        SemanticError::NestedFunctionDeclaration { .. } => "functions can only be declared at the top level"@,
        SemanticError::NestedFunction { name, .. } => "function '"@ + name@ + "' cannot be declared inside another function"@,
    }
}

fn quoted(before: &str, name: &String, after: &str) -> (s: String)
    ensures
        s@ == before@ + name@ + after@,
{
    let mut s = string_of(before);
    push_string(&mut s, name);
    push_str(&mut s, after);
    s
}

impl SemanticError {
    pub fn span(&self) -> (r: &Span)
        ensures
            *r == error_span(*self),
    {
        match self {
            Self::InvalidLValue { span, .. }
            | Self::VariableRedeclaration { span, .. }
            | Self::UndeclaredVariable { span, .. }
            | Self::BreakOutsideBreakable { span }
            | Self::ContinueOutsideLoop { span }
            | Self::DuplicateSwitchCase { span, .. }
            | Self::DuplicateDefaultSwitchCase { span }
            | Self::CaseOutsideSwitch { span }
            | Self::FunctionRedeclaration { span, .. }
            | Self::IncompatibleFunctionDeclarations { span, .. }
            | Self::FunctionRedefinition { span, .. }
            | Self::WrongNumberOfArguements { span, .. }
            | Self::VariableUsedAsFunction { span, .. }
            | Self::FunctionUsedAsVariable { span, .. }
            | Self::UndeclaredGotoTarget { span, .. }
            | Self::DuplicateLabel { span, .. }
            | Self::NestedFunctionDeclaration { span, .. }
            | Self::NestedFunction { span, .. }
            | Self::UndeclaredFunction { span, .. } => span,
        }
    }

    pub fn message(&self) -> (s: String)
        ensures
            s@ == error_message(*self),
    {
        match self {
            Self::InvalidLValue { expr, .. } => quoted("invalid assignment target '", expr, "'"),
            Self::VariableRedeclaration { name, .. } => quoted("redeclaration of variable '", name, "'"),
            Self::UndeclaredVariable { name, .. } => quoted("undeclared variable '", name, "'"),
            Self::BreakOutsideBreakable { .. } => string_of("'break' outside of a loop or switch"),
            Self::ContinueOutsideLoop { .. } => string_of("'continue' outside of a loop"),
            Self::DuplicateSwitchCase { value, .. } => {
                let mut s = string_of("duplicate case value ");
                push_int(&mut s, value.i64());
                s
            },
            Self::DuplicateDefaultSwitchCase { .. } => string_of("multiple 'default' cases in one switch"),
            Self::CaseOutsideSwitch { .. } => string_of("'case'/'default' label outside of a switch"),
            Self::FunctionRedeclaration { name, .. } => quoted("redeclaration of function '", name, "'"),
            Self::UndeclaredFunction { name, .. } => quoted("undeclared function '", name, "'"),
            Self::IncompatibleFunctionDeclarations { type_a, type_b, .. } => {
                let mut s = string_of("incompatible function declarations: '");
                push_string(&mut s, &type_a.text());
                push_str(&mut s, "' vs '");
                push_string(&mut s, &type_b.text());
                push_str(&mut s, "'");
                s
            },
            Self::FunctionRedefinition { name, .. } => quoted("redefinition of function '", name, "'"),
            Self::WrongNumberOfArguements { expected, found, .. } => {
                let mut s = string_of("wrong number of arguments: expected ");
                push_decimal(&mut s, *expected as u64);
                push_str(&mut s, ", found ");
                push_decimal(&mut s, *found as u64);
                s
            },
            Self::VariableUsedAsFunction { name, .. } => quoted("variable '", name, "' used as a function"),
            Self::FunctionUsedAsVariable { name, .. } => quoted("function '", name, "' used as a variable"),
            Self::UndeclaredGotoTarget { name, .. } => quoted("undeclared goto target '", name, "'"),
            Self::DuplicateLabel { name, .. } => quoted("duplicate label '", name, "'"),
            Self::NestedFunctionDeclaration { .. } => string_of("functions can only be declared at the top level"),
            Self::NestedFunction { name, .. } => quoted("function '", name, "' cannot be declared inside another function"),
        }
    }
}

} // verus!
