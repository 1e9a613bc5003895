//! Semantic analysis: name resolution, loop and label checks, type checking.
pub mod typechecking;
pub mod reporting;
pub mod functions;
pub mod compound;
pub mod declarations;
pub mod loops;
pub mod goto;
pub mod checker;
pub mod switch;
pub mod shape;
pub mod readiness;
pub mod errors;

pub use typechecking::{
    FunctionType, IdentifierAttributes, InitialValue, StaticInit, StaticIntType, Symbol, Type,
    TypeView, clone_type, same_type, same_types,
};
pub use checker::{Symbols, check_all_types};
pub use declarations::{IdentifierMap, Scope, ScopedIdentifier, resolve_all_identifiers};
pub use errors::SemanticError;
pub use functions::{add_return_zero, check_for_nested_functions};
pub use compound::replace_compound_assign_with_assign_binary;
pub use goto::{check_if_all_gotos_point_somewhere_valid, rename_all_gotos};
pub use loops::label_all_loops;
pub use switch::collect_all_switch_cases;

use vstd::prelude::*;
use crate::diagnostics::Diagnostics;
use crate::parser::ast::Program;
use crate::parser::lowering::program_lowerable;
use reporting::{appended, extended, lemma_appended_extended, lemma_extended_trans};

verus! {

broadcast use lemma_extended_trans;

/// Whether `n` is program `o` after the analysis passes, through the
/// programs `p1` to `p6` that they leave in turn, and `t` the symbol table
/// that type checking builds: `return 0;` added, compound assignments
/// rewritten, names resolved, `break` and `continue` given their loop's or
/// switch's label, labels renamed, expressions checked (when no error is
/// reported: `quiet`), switches filled with their cases.
pub open spec fn analysed(
    o: Seq<crate::parser::ast::Declaration>, p1: Seq<crate::parser::ast::Declaration>, p2: Seq<crate::parser::ast::Declaration>,
    p3: Seq<crate::parser::ast::Declaration>, p4: Seq<crate::parser::ast::Declaration>, p5: Seq<crate::parser::ast::Declaration>,
    p6: Seq<crate::parser::ast::Declaration>, n: Seq<crate::parser::ast::Declaration>,
    t: Map<crate::table::Key, checker::SymbolView>, quiet: bool,
) -> bool {
    &&& functions::zero_returned(o, p1)
    &&& p2.len() == p1.len()
    &&& forall|k: int| 0 <= k < p1.len() ==> compound::decl_replaced(#[trigger] p1[k], p2[k])
    &&& declarations::decls_resolved(p2, p3, Map::empty())
    &&& shape::decls_same_code(p3, p4)
    &&& forall|k: int| 0 <= k < p3.len() ==> loops::decl_loops_relabeled(#[trigger] p3[k], p4[k])
    &&& forall|k: int| 0 <= k < p4.len() ==> (reporting::body_of(#[trigger] p4[k]) matches Some(b)
        ==> loops::items_labeled(b, None, None))
    &&& shape::decls_same_code(p4, p5)
    &&& forall|k: int| 0 <= k < p4.len() ==> goto::decl_jumps_renamed(#[trigger] p4[k], p5[k])
    &&& t == checker::decls_effect(p5, Map::empty()).0
    &&& p6.len() == p5.len()
    &&& quiet ==> forall|k: int| 0 <= k < p5.len() ==> checker::decl_checked(#[trigger] p5[k], p6[k])
    &&& shape::decls_same_code(p6, n)
    &&& forall|k: int| 0 <= k < p6.len() ==> switch::decl_cases_refilled(#[trigger] p6[k], n[k])
    &&& forall|k: int| 0 <= k < n.len() ==> (#[trigger] n[k] matches crate::parser::ast::Declaration::Func(f)
        ==> (f.body matches Some(b) ==> switch::items_filled(b@, false)))
}

/// The errors the analysis passes report, in order, given the programs they
/// are run on: name resolution on `p2`, the loop labels on `p3`, the `goto`
/// check and type checking on `p5`, the switch cases on `p6`, the nested
/// definitions on `n`.
pub open spec fn analysis_errors(
    p2: Seq<crate::parser::ast::Declaration>, p3: Seq<crate::parser::ast::Declaration>,
    p5: Seq<crate::parser::ast::Declaration>, p6: Seq<crate::parser::ast::Declaration>,
    n: Seq<crate::parser::ast::Declaration>,
) -> reporting::Errors {
    declarations::decls_res_effect(p2, Map::empty()).0 + loops::decls_orphans(p3) + goto::decls_goto_errors(p5)
        + checker::decls_effect(p5, Map::empty()).1 + switch::decls_switch_errors(p6)
        + functions::decls_nested_definitions(n)
}

/// Runs the analysis passes in order and returns the symbol table that type
/// checking builds; every error found is added to `diagnostics`. When no
/// error is found in a program whose operators stand where the parser puts
/// them, the program can be lowered.
pub fn validate_program(program: &mut Program, diagnostics: &mut Diagnostics) -> (symbols: Symbols)
    ensures
        extended(*old(diagnostics), *final(diagnostics)),
        checker::quiet(*old(diagnostics), *final(diagnostics)) && readiness::program_every(old(program).0@, readiness::placed())
            ==> program_lowerable(*final(program)),
        exists|p1: Seq<crate::parser::ast::Declaration>, p2: Seq<crate::parser::ast::Declaration>,
            p3: Seq<crate::parser::ast::Declaration>, p4: Seq<crate::parser::ast::Declaration>,
            p5: Seq<crate::parser::ast::Declaration>, p6: Seq<crate::parser::ast::Declaration>|
            #[trigger] analysed(old(program).0@, p1, p2, p3, p4, p5, p6, final(program).0@, checker::table_view(symbols@),
                checker::quiet(*old(diagnostics), *final(diagnostics)))
            && reporting::appended_errors(*old(diagnostics), *final(diagnostics),
                analysis_errors(p2, p3, p5, p6, final(program).0@)),
{
    let ghost p0 = program.0@;
    add_return_zero(program);
    let ghost p1 = program.0@;
    replace_compound_assign_with_assign_binary(program);
    let ghost p2 = program.0@;
    resolve_all_identifiers(program, diagnostics);
    let ghost d1 = *diagnostics;
    let ghost p3 = program.0@;
    label_all_loops(program, diagnostics);
    let ghost d1b = *diagnostics;
    proof { lemma_appended_extended(d1, *diagnostics, loops::decls_orphans(p3).len()); }
    let ghost p4 = program.0@;
    rename_all_gotos(program);
    let ghost p5 = program.0@;
    let ghost d2 = *diagnostics;
    check_if_all_gotos_point_somewhere_valid(program, diagnostics);
    let ghost d2b = *diagnostics;
    proof { lemma_appended_extended(d2, *diagnostics, goto::decls_goto_errors(program.0@).len()); }
    let symbols = check_all_types(program, diagnostics);
    let ghost d5 = *diagnostics;
    let ghost p6 = program.0@;
    collect_all_switch_cases(program, diagnostics);
    let ghost p7 = program.0@;
    let ghost d3 = *diagnostics;
    proof { lemma_appended_extended(d5, d3, switch::decls_switch_errors(p6).len()); }
    check_for_nested_functions(program, diagnostics);
    proof {
        lemma_appended_extended(d3, *diagnostics, functions::decls_nested_definitions(program.0@).len());
        if checker::quiet(*old(diagnostics), *diagnostics) && readiness::program_every(p0, readiness::placed()) {
            readiness::lemma_program_return_zero(p0, p1);
            readiness::lemma_program_replaced(p1, p2);
            readiness::lemma_decls_resolved_every(p2, p3, Map::empty());
            readiness::lemma_program_lvalues(p3);
            readiness::lemma_program_same_code(p3, p4, readiness::lowerable());
            readiness::lemma_program_same_code(p4, p5, readiness::lowerable());
            readiness::lemma_program_checked(p5, p6);
            readiness::lemma_program_same_code(p6, p7, readiness::lowerable());
            readiness::lemma_program_lowerable(*program);
        }
    }
    proof {
        let e1 = declarations::decls_res_effect(p2, Map::empty()).0;
        let e2 = loops::decls_orphans(p3);
        let e3 = goto::decls_goto_errors(p5);
        let e4 = checker::decls_effect(p5, Map::empty()).1;
        let e5 = switch::decls_switch_errors(p6);
        let e6 = functions::decls_nested_definitions(program.0@);
        reporting::lemma_errors_trans(*old(diagnostics), d1, d1b, e1, e2);
        reporting::lemma_errors_trans(*old(diagnostics), d1b, d2b, e1 + e2, e3);
        reporting::lemma_errors_trans(*old(diagnostics), d2b, d5, e1 + e2 + e3, e4);
        reporting::lemma_errors_trans(*old(diagnostics), d5, d3, e1 + e2 + e3 + e4, e5);
        reporting::lemma_errors_trans(*old(diagnostics), d3, *diagnostics, e1 + e2 + e3 + e4 + e5, e6);
        assert(analysed(p0, p1, p2, p3, p4, p5, p6, program.0@, checker::table_view(symbols@),
            checker::quiet(*old(diagnostics), *diagnostics)));
    }
    symbols
}

} // verus!
