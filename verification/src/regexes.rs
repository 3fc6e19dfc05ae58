use vstd::prelude::*;

use crate::ehir::{
    lemma_tokens_view_concat, spec_capturing, spec_consume_one, spec_non_capturing,
    spec_rep_bounded, spec_rep_unbounded, tokens_view, Decision, Ehir, Range, SpecDecision,
    SpecToken, Token,
};
use crate::native_regex::Engine;

verus! {

/// The ranges of the template class: every character but the braces.
pub open spec fn cn_class_ranges() -> Seq<Range> {
    seq![Range::Multiple(0, 122), Range::Single(124), Range::Multiple(126, 1114111)]
}

/// What the template-scanning program runs after its leading dollar sign:
/// an optional captured second dollar sign, then an optional braced,
/// captured name.
pub open spec fn cn_rest() -> Seq<SpecToken> {
    spec_rep_bounded(
        spec_capturing(1, spec_consume_one(SpecDecision::Literal(36), true)),
        false,
        0,
        1,
    ) + spec_rep_bounded(
        spec_non_capturing(
            spec_consume_one(SpecDecision::Literal(123), true) + spec_capturing(
                2,
                spec_rep_unbounded(
                    spec_consume_one(SpecDecision::CharacterSet(cn_class_ranges()), true),
                    true,
                    0,
                ),
            ) + spec_consume_one(SpecDecision::Literal(125), true),
        ),
        false,
        0,
        1,
    )
}

/// The body of the template-scanning program: a dollar sign, then the
/// optional forms.
pub open spec fn cn_inner() -> Seq<SpecToken> {
    spec_consume_one(SpecDecision::Literal(36), false) + cn_rest()
}

/// The token program that recognises the replacement forms of the expand
/// grammar: an escaped dollar sign or a braced group reference.
pub open spec fn cn_program() -> Seq<SpecToken> {
    spec_capturing(0, cn_inner())
}

/// The pre-compiled matcher for the expand grammar: it finds the next
/// dollar form in a replacement template. Slot one captures the second
/// dollar sign of an escape, slot two the braced group name or index.
pub struct CaptureNameRegex {
    pub(crate) engine: Engine,
}

impl CaptureNameRegex {
    /// The ghost shape of the matcher's program.
    pub closed spec fn program_view(&self) -> Seq<SpecToken> {
        self.engine.program_view()
    }

    /// The matcher's slot count.
    pub closed spec fn count_view(&self) -> usize {
        self.engine.count_view()
    }

    /// The matcher's engine carries exactly the grammar's program.
    pub(crate) proof fn lemma_views(&self)
        ensures
            self.engine.program_view() == self.program_view(),
            self.engine.count_view() == self.count_view(),
    {
    }

    /// Builds the matcher; its program is the lowering of the grammar's
    /// pattern, with three capture slots and no named groups.
    pub fn new() -> (r: CaptureNameRegex)
        ensures
            r.program_view() == cn_program(),
            r.count_view() == 3,
    {
        let mut ranges: Vec<Range> = Vec::new();
        ranges.push(Range::Multiple(0, 122));
        ranges.push(Range::Single(124));
        ranges.push(Range::Multiple(126, 1114111));
        proof {
            assert(ranges@ =~= cn_class_ranges());
        }
        let g1 = Ehir::capturing_to_snippet(1, Ehir::consume_one(Decision::Literal(36), true));
        let mut r1 = Ehir::bounded_to_snippet(g1, false, 0, 1);
        let mut braced = Ehir::consume_one(Decision::Literal(123), true);
        let class_one = Ehir::consume_one(Decision::CharacterSet(ranges), true);
        let star = Ehir::unbounded_to_snippet(class_one, true, 0);
        let mut g2 = Ehir::capturing_to_snippet(2, star);
        let ghost a1 = braced@;
        let ghost b1 = g2@;
        braced.append(&mut g2);
        proof {
            lemma_tokens_view_concat(a1, b1);
        }
        let mut close = Ehir::consume_one(Decision::Literal(125), true);
        let ghost a2 = braced@;
        let ghost b2 = close@;
        braced.append(&mut close);
        proof {
            lemma_tokens_view_concat(a2, b2);
        }
        let mut r2 = Ehir::bounded_to_snippet(Ehir::non_capturing_to_snippet(braced), false, 0, 1);
        let mut inner = Ehir::consume_one(Decision::Literal(36), false);
        let ghost a3 = inner@;
        let ghost b3 = r1@;
        inner.append(&mut r1);
        proof {
            lemma_tokens_view_concat(a3, b3);
        }
        let ghost a4 = inner@;
        let ghost b4 = r2@;
        inner.append(&mut r2);
        proof {
            lemma_tokens_view_concat(a4, b4);
        }
        proof {
            assert(tokens_view(inner@) =~= cn_inner());
        }
        let program = Ehir::capturing_to_snippet(0, inner);
        let named_groups: Vec<(String, usize)> = Vec::new();
        CaptureNameRegex { engine: Engine::from_raw_parts(program, named_groups, 3) }
    }
}

} // verus!
