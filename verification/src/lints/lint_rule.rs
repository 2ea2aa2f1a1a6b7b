//! The contract between the analyzer and its lint rules.

use crate::ast::ast_context::{AstContext, ContextView};
use crate::diagnostics::lint::{lint_views, Lint, LintView};
use vstd::prelude::*;

verus! {

/// A named policy that inspects a finished context and reports findings.
///
/// What a rule reports is a function of the facts in the context alone: the
/// rule names that function as `findings`, and `lint` computes it. A rule
/// therefore keeps no state between calls and reports the same findings
/// whenever it is shown the same facts. A rule says what it reports by
/// giving `rule_name` and `findings` a body of its own; of a rule that
/// gives them none, only this much is known.
pub trait LintRule {
    /// The stable identifier of the rule, as characters.
    open spec fn rule_name(&self) -> Seq<char> {
        arbitrary()
    }

    /// The findings that the rule reports on the facts `context`, in the
    /// order in which it reports them.
    open spec fn findings(&self, context: ContextView) -> Seq<LintView> {
        arbitrary()
    }

    /// Returns the unique name of the lint.
    fn name(&self) -> (name: &'static str)
        ensures
            name@ == self.rule_name(),
    ;

    /// Reports the findings of the rule on `context`.
    fn lint(&self, context: &AstContext) -> (lints: Vec<Lint>)
        requires
            context@.wf(),
        ensures
            lint_views(lints@) == self.findings(context@),
    ;
}

} // verus!
