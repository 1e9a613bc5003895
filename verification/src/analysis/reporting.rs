//! Error reporting shared by the analysis passes.
use vstd::prelude::*;
use crate::diagnostics::{Diagnostics, Span, Stage};
use crate::parser::ast::{BlockItem, Declaration};
use crate::text::string_of;

verus! {

/// Whether `new` is `old` with analysis errors appended.
pub open spec fn appended(old: Diagnostics, new: Diagnostics, n: nat) -> bool {
    &&& new.vec@.len() == old.vec@.len() + n
    &&& old.vec@.is_prefix_of(new.vec@)
    &&& forall|k: int| old.vec@.len() <= k < new.vec@.len() ==> (#[trigger] new.vec@[k]).stage == Stage::Analysis
}

pub proof fn lemma_appended_trans(a: Diagnostics, b: Diagnostics, c: Diagnostics, m: nat, n: nat)
    requires
        appended(a, b, m),
        appended(b, c, n),
    ensures
        appended(a, c, m + n),
{
    assert forall|k: int| a.vec@.len() <= k < c.vec@.len() implies (#[trigger] c.vec@[k]).stage == Stage::Analysis by {
        if k < b.vec@.len() {
            assert(c.vec@[k] == b.vec@[k]);
        }
    }
}

pub proof fn lemma_appended_refl(a: Diagnostics)
    ensures
        appended(a, a, 0),
{
}

/// The errors an analysis reports: each with its span and message, in order.
pub type Errors = Seq<(Span, Seq<char>)>;

/// Whether `new` is `old` with analysis errors `errs` appended, in order.
pub open spec fn appended_errors(old: Diagnostics, new: Diagnostics, errs: Errors) -> bool {
    &&& appended(old, new, errs.len())
    &&& forall|k: int| 0 <= k < errs.len() ==> {
        &&& new.vec@[old.vec@.len() + k].span == (#[trigger] errs[k]).0
        &&& new.vec@[old.vec@.len() + k].message@ == errs[k].1
    }
}

pub proof fn lemma_errors_trans(a: Diagnostics, b: Diagnostics, c: Diagnostics, e1: Errors, e2: Errors)
    requires
        appended_errors(a, b, e1),
        appended_errors(b, c, e2),
    ensures
        appended_errors(a, c, e1 + e2),
{
    lemma_appended_trans(a, b, c, e1.len(), e2.len());
    assert forall|k: int| 0 <= k < (e1 + e2).len() implies {
        &&& c.vec@[a.vec@.len() + k].span == (#[trigger] (e1 + e2)[k]).0
        &&& c.vec@[a.vec@.len() + k].message@ == (e1 + e2)[k].1
    } by {
        if k < e1.len() {
            assert(c.vec@[a.vec@.len() + k] == b.vec@[a.vec@.len() + k]);
            assert((e1 + e2)[k] == e1[k]);
        } else {
            let j = k - e1.len();
            assert((e1 + e2)[k] == e2[j]);
            assert(a.vec@.len() + k == b.vec@.len() + j);
        }
    }
}

pub proof fn lemma_errors_none(a: Diagnostics)
    ensures
        appended_errors(a, a, seq![]),
{
}

pub fn report(diagnostics: &mut Diagnostics, span: Span, message: &str)
    ensures
        appended(*old(diagnostics), *final(diagnostics), 1),
        appended_errors(*old(diagnostics), *final(diagnostics), seq![(span, message@)]),
        final(diagnostics).vec@.last().span == span,
        final(diagnostics).vec@.last().message@ == message@,
{
    diagnostics.analysis_error(span, string_of(message));
    proof {
        assert(old(diagnostics).vec@ == diagnostics.vec@.drop_last());
    }
}

/// The body of a declaration, when it defines a function.
pub open spec fn body_of(d: Declaration) -> Option<Seq<BlockItem>> {
    match d {
        Declaration::Func(f) => match f.body {
            Some(b) => Some(b@),
            None => None,
        },
        _ => None,
    }
}


/// Whether `new` is `old` with some analysis errors appended.
pub open spec fn extended(old: Diagnostics, new: Diagnostics) -> bool {
    &&& old.vec@.is_prefix_of(new.vec@)
    &&& forall|k: int| old.vec@.len() <= k < new.vec@.len() ==> (#[trigger] new.vec@[k]).stage == Stage::Analysis
}

pub broadcast proof fn lemma_extended_trans(a: Diagnostics, b: Diagnostics, c: Diagnostics)
    requires
        #[trigger] extended(a, b),
        #[trigger] extended(b, c),
    ensures
        extended(a, c),
{
    assert forall|k: int| a.vec@.len() <= k < c.vec@.len() implies (#[trigger] c.vec@[k]).stage == Stage::Analysis by {
        if k < b.vec@.len() {
            assert(c.vec@[k] == b.vec@[k]);
        }
    }
}

pub proof fn lemma_extended_refl(a: Diagnostics)
    ensures
        extended(a, a),
{
}

pub proof fn lemma_appended_extended(a: Diagnostics, b: Diagnostics, n: nat)
    requires
        appended(a, b, n),
    ensures
        extended(a, b),
{
}

/// Reports an error, extending the diagnostics.
pub fn report_string(diagnostics: &mut Diagnostics, span: Span, message: String)
    ensures
        appended(*old(diagnostics), *final(diagnostics), 1),
        appended_errors(*old(diagnostics), *final(diagnostics), seq![(span, message@)]),
        final(diagnostics).vec@.last().span == span,
        final(diagnostics).vec@.last().message@ == message@,
{
    diagnostics.analysis_error(span, message);
    proof {
        assert(old(diagnostics).vec@ == diagnostics.vec@.drop_last());
    }
}

} // verus!
