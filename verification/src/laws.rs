use vstd::prelude::*;

use crate::captures::expand_spec;
use crate::ehir::{program_shape, SpecToken};
use crate::native_regex::{
    caps_chain, empty_caps, lemma_literal_prefix_fail, lemma_match_caps_chain, lemma_rf_success,
    lemma_splice_identity, match_caps, rf_spec, splice_from, splice_tail_start, whole_text,
};
use crate::regexes::{cn_program, cn_rest};

verus! {

/// Matching, finding and capturing agree: `is_match`, `find` and `captures`
/// all report through the same leftmost scan, and the match walk emits at
/// least one match exactly when that scan succeeds.
pub proof fn law_match_agreement(prog: Seq<SpecToken>, cc: nat, text: Seq<char>)
    requires
        program_shape(prog),
        cc >= 1,
        text.len() <= usize::MAX,
    ensures
        (rf_spec(prog, cc, text, 0) is Some) <==> match_caps(prog, cc, text, 0, None).len() > 0,
{
    crate::native_regex::lemma_cm_next_bounds(prog, cc, text, 0, None);
}

/// Every successful match lies within the text: the whole-match span of a
/// successful scan runs from a position at or after the scan start to one no
/// later than the end of the text.
pub proof fn law_match_bounds(prog: Seq<SpecToken>, cc: nat, text: Seq<char>, start: int)
    requires
        program_shape(prog),
        cc >= 1,
        0 <= start,
        text.len() <= usize::MAX,
    ensures
        match rf_spec(prog, cc, text, start) {
            Some(c) => {
                &&& c[0] matches Some(q)
                &&& start <= c[0]->Some_0.0 <= c[0]->Some_0.1 <= text.len()
            },
            None => true,
        },
{
    lemma_rf_success(prog, cc, text, start);
}

/// A chain yields matches in order: every match lies within the text, their
/// starts never decrease, consecutive matches do not overlap, and after an
/// empty match the next one starts at least one character later.
pub proof fn lemma_chain_pairwise(text: Seq<char>, cs: Seq<Seq<Option<(usize, usize)>>>, last: int)
    requires
        caps_chain(text, cs, last),
    ensures
        forall|i: int|
            0 <= i < cs.len() ==> ((#[trigger] cs[i])[0] matches Some(q) && last <= cs[i][0]->Some_0.0
                <= cs[i][0]->Some_0.1 <= text.len()),
        forall|i: int|
            0 <= i < cs.len() - 1 ==> (#[trigger] cs[i + 1])[0]->Some_0.0
                >= if cs[i][0]->Some_0.0 == cs[i][0]->Some_0.1 {
                cs[i][0]->Some_0.1 + 1
            } else {
                cs[i][0]->Some_0.1 as int
            },
    decreases cs.len(),
{
    if cs.len() > 0 {
        let e0 = cs[0][0]->Some_0.1 as int;
        let next = if cs[0][0]->Some_0.0 == cs[0][0]->Some_0.1 {
            e0 + 1
        } else {
            e0
        };
        let tail = cs.subrange(1, cs.len() as int);
        lemma_chain_pairwise(text, tail, next);
        assert forall|i: int|
            0 <= i < cs.len() implies ((#[trigger] cs[i])[0] matches Some(q) && last
            <= cs[i][0]->Some_0.0 <= cs[i][0]->Some_0.1 <= text.len()) by {
            if i > 0 {
                assert(cs[i] == tail[i - 1]);
                assert(next >= last);
            }
        }
        assert forall|i: int|
            0 <= i < cs.len() - 1 implies (#[trigger] cs[i + 1])[0]->Some_0.0
            >= if cs[i][0]->Some_0.0 == cs[i][0]->Some_0.1 {
            cs[i][0]->Some_0.1 + 1
        } else {
            cs[i][0]->Some_0.1 as int
        } by {
            if i == 0 {
                assert(cs[1] == tail[0]);
            } else {
                assert(cs[i] == tail[i - 1]);
                assert(cs[i + 1] == tail[i]);
            }
        }
    }
}

/// The matches of a walk over a text come in input order and never overlap:
/// each starts no earlier than the previous one ended, and one past that
/// when the previous match was empty.
pub proof fn law_matches_ordered(prog: Seq<SpecToken>, cc: nat, text: Seq<char>)
    requires
        program_shape(prog),
        cc >= 1,
        text.len() <= usize::MAX,
    ensures
        ({
            let cs = match_caps(prog, cc, text, 0, None);
            &&& caps_chain(text, cs, 0)
            &&& forall|i: int|
                0 <= i < cs.len() ==> ((#[trigger] cs[i])[0] matches Some(q) && 0
                    <= cs[i][0]->Some_0.0 <= cs[i][0]->Some_0.1 <= text.len())
            &&& forall|i: int|
                0 <= i < cs.len() - 1 ==> (#[trigger] cs[i + 1])[0]->Some_0.0
                    >= if cs[i][0]->Some_0.0 == cs[i][0]->Some_0.1 {
                    cs[i][0]->Some_0.1 + 1
                } else {
                    cs[i][0]->Some_0.1 as int
                }
        }),
{
    lemma_match_caps_chain(prog, cc, text, 0, None);
    lemma_chain_pairwise(text, match_caps(prog, cc, text, 0, None), 0);
}

/// Splitting reconstructs the text: the pieces between the matches of a
/// walk, interleaved with the matched stretches themselves and closed by the
/// tail after the last match, give back the text unchanged.
pub proof fn law_split_reconstructs(prog: Seq<SpecToken>, cc: nat, text: Seq<char>)
    requires
        program_shape(prog),
        cc >= 1,
        text.len() <= usize::MAX,
    ensures
        ({
            let cs = match_caps(prog, cc, text, 0, None);
            splice_from(text, cs, Seq::new(cs.len(), |i: int| whole_text(text, cs[i])), 0)
                + text.subrange(splice_tail_start(cs, 0), text.len() as int) == text
        }),
{
    let cs = match_caps(prog, cc, text, 0, None);
    let ins = Seq::new(cs.len(), |i: int| whole_text(text, cs[i]));
    lemma_match_caps_chain(prog, cc, text, 0, None);
    lemma_splice_identity(text, cs, ins, 0);
    assert(text.subrange(0, text.len() as int) =~= text);
}

/// Replacing every match by its own text leaves the text unchanged: when
/// each insertion equals the matched stretch, the spliced result is the
/// input.
pub proof fn law_replace_identity(
    prog: Seq<SpecToken>,
    cc: nat,
    text: Seq<char>,
    ins: Seq<Seq<char>>,
)
    requires
        program_shape(prog),
        cc >= 1,
        text.len() <= usize::MAX,
        ins.len() == match_caps(prog, cc, text, 0, None).len(),
        forall|i: int|
            0 <= i < ins.len() ==> #[trigger] ins[i] == whole_text(
                text,
                match_caps(prog, cc, text, 0, None)[i],
            ),
    ensures
        ({
            let cs = match_caps(prog, cc, text, 0, None);
            splice_from(text, cs, ins, 0) + text.subrange(
                splice_tail_start(cs, 0),
                text.len() as int,
            ) == text
        }),
{
    let cs = match_caps(prog, cc, text, 0, None);
    lemma_match_caps_chain(prog, cc, text, 0, None);
    lemma_splice_identity(text, cs, ins, 0);
    assert(text.subrange(0, text.len() as int) =~= text);
}

/// The template scanner finds nothing in a template without dollar signs.
proof fn lemma_cn_rf_none(tmpl: Seq<char>, start: int)
    requires
        0 <= start,
        tmpl.len() <= usize::MAX,
        forall|i: int| start <= i < tmpl.len() ==> tmpl[i] != '$',
    ensures
        rf_spec(cn_program(), 3, tmpl, start) is None,
    decreases tmpl.len() - start + 1,
{
    if start <= tmpl.len() {
        assert('$' as u32 == 36);
        if start < tmpl.len() {
            assert(tmpl[start] != '$');
            assert(crate::character::cur_at(tmpl, start) == Some(tmpl[start]));
            if tmpl[start] as u32 == 36 {
                vstd::utf8::char_u32_cast(tmpl[start], 36);
                vstd::utf8::char_u32_cast('$', 36);
                assert(false);
            }
            assert(tmpl[start] as u32 != 36);
        }
        lemma_literal_prefix_fail(36, cn_rest(), tmpl, empty_caps(3), start);
        lemma_cn_rf_none(tmpl, start + 1);
    }
}

/// Expanding a template that holds no dollar sign copies it unchanged,
/// whatever the captures are.
pub proof fn law_expand_literal(
    cv: Seq<Option<(usize, usize)>>,
    ctext: Seq<char>,
    names: Seq<(Seq<char>, usize)>,
    tmpl: Seq<char>,
)
    requires
        tmpl.len() <= usize::MAX,
        forall|i: int| 0 <= i < tmpl.len() ==> tmpl[i] != '$',
    ensures
        expand_spec(cv, ctext, names, tmpl, 0) == tmpl,
{
    lemma_cn_rf_none(tmpl, 0);
    assert(tmpl.subrange(0, tmpl.len() as int) =~= tmpl);
}

} // verus!
