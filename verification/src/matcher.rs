use vstd::prelude::*;

use crate::character::{cur_at, prev_at, Advancer, Previous};
use crate::ehir::{
    decision_view, token_view, tokens_view, AnchorLocation, AnchorType, Decision, Modifier,
    NoMatch, Range, SpecDecision, SpecToken, Token, WordBoundaryType,
};
use crate::vectormap::VectorMap;
use crate::{is_word_char_ascii, is_word_character, spec_is_word_char_ascii, unicode_word};

verus! {

/// How running a token ended: it completed, it left the innermost repetition
/// loop, or it failed the whole match attempt.
#[derive(Clone, Copy, Debug, PartialEq, Eq, Structural)]
pub enum Flow {
    Proceed,
    Broke,
    Stopped,
}

/// The state a token program runs on: the cursor position, the stack of
/// repetition counters, and the capture slots.
pub struct MState {
    pub pos: int,
    pub counts: Seq<u64>,
    pub caps: Seq<Option<(usize, usize)>>,
}

/// Whether a code point lies in a range.
pub open spec fn range_has(r: Range, cp: u32) -> bool {
    match r {
        Range::Single(n) => cp == n,
        Range::Multiple(a, b) => a <= cp <= b,
    }
}

/// Whether a code point lies in any of the ranges.
pub open spec fn in_ranges(rs: Seq<Range>, cp: u32) -> bool {
    exists|i: int| 0 <= i < rs.len() && range_has(rs[i], cp)
}

/// Whether a character counts as a word character under the given scope.
pub open spec fn spec_word_char(c: char, scope: WordBoundaryType) -> bool {
    match scope {
        WordBoundaryType::Byte => spec_is_word_char_ascii(c),
        WordBoundaryType::Character => unicode_word(c),
    }
}

/// The wordness of the character before the position; the start of the text
/// counts as non-word.
pub open spec fn word_before(text: Seq<char>, pos: int, scope: WordBoundaryType) -> bool {
    match prev_at(text, pos) {
        Previous::Start => false,
        Previous::Character(c) => spec_word_char(c, scope),
    }
}

/// The wordness of the character at the position; the end of the text counts
/// as non-word.
pub open spec fn word_here(text: Seq<char>, pos: int, scope: WordBoundaryType) -> bool {
    match cur_at(text, pos) {
        None => false,
        Some(c) => spec_word_char(c, scope),
    }
}

/// What a decision is at a position: the truth of the test before any
/// modifier is applied.
pub open spec fn eval_decision_spec(
    d: SpecDecision,
    text: Seq<char>,
    pos: int,
    counts: Seq<u64>,
) -> bool {
    match d {
        SpecDecision::Literal(v) => cur_at(text, pos) matches Some(c) && c as u32 == v,
        SpecDecision::CharacterSet(rs) => cur_at(text, pos) matches Some(c) && in_ranges(
            rs,
            c as u32,
        ),
        SpecDecision::CountEquals(n) => counts.len() > 0 && counts.last() == n as u64,
        SpecDecision::CountLessThan(n) => counts.len() > 0 && counts.last() < n as u64,
        SpecDecision::Anchor(AnchorType::Regular, AnchorLocation::Start) => prev_at(text, pos)
            is Start,
        SpecDecision::Anchor(AnchorType::Newline, AnchorLocation::Start) => prev_at(text, pos)
            is Start || prev_at(text, pos) == Previous::Character('\n'),
        SpecDecision::Anchor(AnchorType::Regular, AnchorLocation::End) => cur_at(text, pos)
            is None,
        SpecDecision::Anchor(AnchorType::Newline, AnchorLocation::End) => cur_at(text, pos)
            is None || cur_at(text, pos) == Some('\n'),
        SpecDecision::WordBoundary(scope) => word_before(text, pos, scope) != word_here(
            text,
            pos,
            scope,
        ),
        SpecDecision::Middle => cur_at(text, pos) is Some,
    }
}

/// The counter stack with its innermost counter advanced; the count
/// saturates rather than wrap, and a stack without an open counter is left
/// alone.
pub open spec fn bump_counts(counts: Seq<u64>) -> Seq<u64> {
    if counts.len() == 0 {
        counts
    } else if counts.last() < u64::MAX {
        counts.update(counts.len() - 1, (counts.last() + 1) as u64)
    } else {
        counts
    }
}

/// What running one token does to the state, and how it ends.
pub open spec fn run_tok(t: SpecToken, text: Seq<char>, st: MState) -> (MState, Flow)
    decreases t, 1int, 0int,
{
    match t {
        SpecToken::If(m, d, nm) => {
            let pass = eval_decision_spec(d, text, st.pos, st.counts) == (m is Not);
            if pass {
                (st, Flow::Proceed)
            } else {
                (
                    st,
                    match nm {
                        NoMatch::Stop => Flow::Stopped,
                        NoMatch::Break => Flow::Broke,
                    },
                )
            }
        },
        SpecToken::While(d, body) => run_while(d, body, text, st),
        SpecToken::StartCount => (
            MState { counts: st.counts.push(0), ..st },
            Flow::Proceed,
        ),
        SpecToken::IncrementCount => (
            MState { counts: bump_counts(st.counts), ..st },
            Flow::Proceed,
        ),
        SpecToken::Advance => (
            MState {
                pos: if st.pos < text.len() {
                    st.pos + 1
                } else {
                    st.pos
                },
                ..st
            },
            Flow::Proceed,
        ),
        SpecToken::Capture(i, body) => {
            let (st1, f) = run_seq(body, text, st);
            if f is Proceed && 0 <= i < st1.caps.len() {
                (
                    MState {
                        caps: st1.caps.update(i as int, Some((st.pos as usize, st1.pos as usize))),
                        ..st1
                    },
                    Flow::Proceed,
                )
            } else {
                (st1, f)
            }
        },
        SpecToken::Block(ts) => {
            let depth = st.counts.len() as int;
            let (st1, f) = run_seq(ts, text, st);
            (
                MState {
                    counts: if st1.counts.len() >= depth {
                        st1.counts.subrange(0, depth)
                    } else {
                        st1.counts
                    },
                    ..st1
                },
                f,
            )
        },
        SpecToken::Empty => (st, Flow::Proceed),
    }
}

/// What running a row of tokens does: each in turn, as long as each
/// completes.
pub open spec fn run_seq(ts: Seq<SpecToken>, text: Seq<char>, st: MState) -> (MState, Flow)
    decreases ts, 2int, 0int,
{
    if ts.len() == 0 {
        (st, Flow::Proceed)
    } else {
        let (st1, f) = run_tok(ts[0], text, st);
        if f is Proceed {
            run_seq(ts.subrange(1, ts.len() as int), text, st1)
        } else {
            (st1, f)
        }
    }
}

/// What a repetition loop does: run the body while the decision holds. A
/// body that stops fails the attempt; one that breaks ends the loop; one
/// that completes without consuming a character ends it too, since another
/// round could consume nothing more.
pub open spec fn run_while(d: SpecDecision, body: Seq<SpecToken>, text: Seq<char>, st: MState) -> (
    MState,
    Flow,
)
    decreases body, 3int, text.len() - st.pos,
{
    if !eval_decision_spec(d, text, st.pos, st.counts) {
        (st, Flow::Proceed)
    } else {
        let (st1, f) = run_seq(body, text, st);
        if f is Stopped {
            (st1, Flow::Stopped)
        } else if f is Broke {
            (st1, Flow::Proceed)
        } else if st.pos < st1.pos && st1.pos <= text.len() {
            run_while(d, body, text, st1)
        } else {
            (st1, Flow::Proceed)
        }
    }
}

/// What one match attempt returns: the capture slots after a completed run,
/// or nothing when the program stopped.
pub open spec fn step_spec(
    prog: Seq<SpecToken>,
    text: Seq<char>,
    caps0: Seq<Option<(usize, usize)>>,
    start: int,
) -> Option<Seq<Option<(usize, usize)>>> {
    let (st1, f) = run_seq(prog, text, MState { pos: start, counts: Seq::empty(), caps: caps0 });
    if f is Proceed {
        Some(st1.caps)
    } else {
        None
    }
}


/// The state triple as the spec functions see it.
pub open spec fn st_of(adv: Advancer, counts: Seq<u64>, caps: Seq<Option<(usize, usize)>>) -> MState {
    MState { pos: adv.pos_view(), counts, caps }
}

/// Running one token as a row of one equals running the token.
pub proof fn lemma_run_seq_singleton(t: SpecToken, text: Seq<char>, st: MState)
    ensures
        run_seq(seq![t], text, st) == run_tok(t, text, st),
{
    reveal_with_fuel(run_seq, 2);
    assert(seq![t].subrange(1, 1) =~= Seq::<SpecToken>::empty());
    assert(seq![t][0] == t);
}

/// Whether a character counts as a word character under the given scope.
fn word_char(c: char, scope: &WordBoundaryType) -> (r: bool)
    ensures
        r == spec_word_char(c, *scope),
{
    match scope {
        WordBoundaryType::Byte => is_word_char_ascii(c),
        WordBoundaryType::Character => is_word_character(c),
    }
}

/// Whether a code point lies in any of the ranges.
fn in_ranges_exec(rs: &Vec<Range>, cp: u32) -> (r: bool)
    ensures
        r == in_ranges(rs@, cp),
{
    let n = rs.len();
    let mut k: usize = 0;
    while k < n
        invariant
            k <= n,
            n == rs@.len(),
            forall|j: int| 0 <= j < k ==> !range_has(rs@[j], cp),
        decreases n - k,
    {
        let hit = match rs[k] {
            Range::Single(v) => cp == v,
            Range::Multiple(a, b) => a <= cp && cp <= b,
        };
        if hit {
            proof {
                assert(range_has(rs@[k as int], cp));
            }
            return true;
        }
        k += 1;
    }
    false
}

/// Evaluates a decision on the cursor and counter stack, before any
/// modifier is applied.
fn eval_decision(d: &Decision, adv: &Advancer, counts: &Vec<u64>) -> (r: bool)
    ensures
        r == eval_decision_spec(decision_view(*d), adv.text_view(), adv.pos_view(), counts@),
{
    match d {
        Decision::Literal(v) => match adv.current() {
            Some(c) => c as u32 == *v,
            None => false,
        },
        Decision::CharacterSet(rs) => match adv.current() {
            Some(c) => in_ranges_exec(rs, c as u32),
            None => false,
        },
        Decision::CountEquals(n) => if counts.len() > 0 {
            counts[counts.len() - 1] == *n as u64
        } else {
            false
        },
        Decision::CountLessThan(n) => if counts.len() > 0 {
            counts[counts.len() - 1] < *n as u64
        } else {
            false
        },
        Decision::Anchor(t, loc) => match (t, loc) {
            (AnchorType::Regular, AnchorLocation::Start) => match adv.prev() {
                Previous::Start => true,
                Previous::Character(_) => false,
            },
            (AnchorType::Newline, AnchorLocation::Start) => match adv.prev() {
                Previous::Start => true,
                Previous::Character(c) => c == '\n',
            },
            (AnchorType::Regular, AnchorLocation::End) => adv.current().is_none(),
            (AnchorType::Newline, AnchorLocation::End) => match adv.current() {
                None => true,
                Some(c) => c == '\n',
            },
        },
        Decision::WordBoundary(scope) => {
            let wp = match adv.prev() {
                Previous::Start => false,
                Previous::Character(c) => word_char(c, scope),
            };
            let wc = match adv.current() {
                None => false,
                Some(c) => word_char(c, scope),
            };
            wp != wc
        },
        Decision::Middle => adv.current().is_some(),
    }
}

/// Runs one token on the cursor, counters and capture slots, exactly as the
/// spec semantics say.
fn run_token(
    t: &Token,
    adv: &mut Advancer,
    counts: &mut Vec<u64>,
    caps: &mut VectorMap<(usize, usize)>,
) -> (r: Flow)
    ensures
        final(adv).text_view() == old(adv).text_view(),
        ({
            let (st1, fl) = run_tok(
                token_view(*t),
                old(adv).text_view(),
                st_of(*old(adv), old(counts)@, old(caps)@),
            );
            &&& r == fl
            &&& final(adv).pos_view() == st1.pos
            &&& final(counts)@ == st1.counts
            &&& final(caps)@ == st1.caps
        }),
    decreases *t, 1int,
{
    match t {
        Token::If(m, d, nm) => {
            let v = eval_decision(d, adv, counts);
            let pass = match m {
                Modifier::Not => v,
                Modifier::Is => !v,
            };
            if pass {
                Flow::Proceed
            } else {
                match nm {
                    NoMatch::Stop => Flow::Stopped,
                    NoMatch::Break => Flow::Broke,
                }
            }
        },
        Token::While(d, body) => {
            let ghost dv = decision_view(*d);
            let ghost bodyv = seq![token_view(**body)];
            let ghost text = adv.text_view();
            let ghost st_entry = st_of(*adv, counts@, caps@);
            let mut flow = Flow::Proceed;
            proof {
                assert(decreases_to!(*t => **body));
            }
            loop
                invariant_except_break
                    dv == decision_view(*d),
                    bodyv == seq![token_view(**body)],
                    decreases_to!(*t => **body),
                    adv.text_view() == text,
                    run_while(dv, bodyv, text, st_entry) == run_while(
                        dv,
                        bodyv,
                        text,
                        st_of(*adv, counts@, caps@),
                    ),
                ensures
                    adv.text_view() == text,
                    ({
                        let (st1, fl) = run_while(dv, bodyv, text, st_entry);
                        &&& flow == fl
                        &&& st_of(*adv, counts@, caps@) == st1
                    }),
                decreases text.len() - adv.pos_view(),
            {
                if !eval_decision(d, adv, counts) {
                    proof {
                        assert(run_while(dv, bodyv, text, st_of(*adv, counts@, caps@)) == (
                            st_of(*adv, counts@, caps@),
                            Flow::Proceed,
                        ));
                    }
                    flow = Flow::Proceed;
                    break;
                }
                let before = adv.index();
                let ghost st_before = st_of(*adv, counts@, caps@);
                let f = run_token(body, adv, counts, caps);
                proof {
                    lemma_run_seq_singleton(token_view(**body), text, st_before);
                }
                if f == Flow::Stopped {
                    flow = Flow::Stopped;
                    break;
                }
                if f == Flow::Broke {
                    flow = Flow::Proceed;
                    break;
                }
                if adv.index() <= before {
                    flow = Flow::Proceed;
                    break;
                }
            }
            flow
        },
        Token::StartCount => {
            counts.push(0);
            Flow::Proceed
        },
        Token::IncrementCount => {
            if counts.len() > 0 {
                let l = counts.len() - 1;
                let c = counts[l];
                if c < u64::MAX {
                    counts[l] = c + 1;
                }
            }
            proof {
                if counts@.len() > 0 && old(counts)@.last() >= u64::MAX {
                    assert(counts@ =~= bump_counts(old(counts)@));
                }
            }
            Flow::Proceed
        },
        Token::Advance => {
            adv.bump();
            Flow::Proceed
        },
        Token::Capture(i, body) => {
            let start = adv.index();
            let f = run_tokens(body, adv, counts, caps);
            if f == Flow::Proceed {
                if (*i as usize) < caps.len() {
                    caps.insert(*i as usize, (start, adv.index()));
                }
                Flow::Proceed
            } else {
                f
            }
        },
        Token::Block(ts) => {
            let depth = counts.len();
            let f = run_tokens(ts, adv, counts, caps);
            counts.truncate(depth);
            f
        },
        Token::Empty => Flow::Proceed,
    }
}

/// Runs a row of tokens in order, stopping at the first that does not
/// complete.
pub(crate) fn run_tokens(
    ts: &Vec<Token>,
    adv: &mut Advancer,
    counts: &mut Vec<u64>,
    caps: &mut VectorMap<(usize, usize)>,
) -> (r: Flow)
    ensures
        final(adv).text_view() == old(adv).text_view(),
        ({
            let (st1, fl) = run_seq(
                tokens_view(ts@),
                old(adv).text_view(),
                st_of(*old(adv), old(counts)@, old(caps)@),
            );
            &&& r == fl
            &&& final(adv).pos_view() == st1.pos
            &&& final(counts)@ == st1.counts
            &&& final(caps)@ == st1.caps
        }),
    decreases ts@, 2int,
{
    broadcast use crate::ehir::group_tokens_view;

    let ghost text = adv.text_view();
    let ghost st_entry = st_of(*adv, counts@, caps@);
    let n = ts.len();
    proof {
        assert(tokens_view(ts@).subrange(0, n as int) =~= tokens_view(ts@));
    }
    let mut k: usize = 0;
    while k < n
        invariant
            k <= n,
            n == ts@.len(),
            text == old(adv).text_view(),
            st_entry == st_of(*old(adv), old(counts)@, old(caps)@),
            adv.text_view() == text,
            run_seq(tokens_view(ts@), text, st_entry) == run_seq(
                tokens_view(ts@).subrange(k as int, n as int),
                text,
                st_of(*adv, counts@, caps@),
            ),
        decreases n - k,
    {
        let ghost st_before = st_of(*adv, counts@, caps@);
        let ghost rest = tokens_view(ts@).subrange(k as int, n as int);
        let f = run_token(&ts[k], adv, counts, caps);
        proof {
            broadcast use crate::ehir::group_tokens_view;

            assert(rest[0] == token_view(ts@[k as int]));
            assert(rest.subrange(1, rest.len() as int) =~= tokens_view(ts@).subrange(
                k + 1,
                n as int,
            ));
        }
        if f != Flow::Proceed {
            return f;
        }
        k += 1;
    }
    proof {
        assert(tokens_view(ts@).subrange(n as int, n as int) =~= Seq::<SpecToken>::empty());
    }
    Flow::Proceed
}


/// Every filled capture slot lies within the text.
pub open spec fn caps_ok(caps: Seq<Option<(usize, usize)>>, len: int) -> bool {
    forall|i: int|
        0 <= i < caps.len() ==> ((#[trigger] caps[i]) matches Some(p) ==> p.0 <= p.1 <= len)
}

/// How capture slots may change during a run from position `lo` to position
/// `hi`: a slot keeps its value or records a span inside `[lo, hi]`.
pub open spec fn caps_evolve(
    caps0: Seq<Option<(usize, usize)>>,
    caps1: Seq<Option<(usize, usize)>>,
    lo: int,
    hi: int,
) -> bool {
    &&& caps1.len() == caps0.len()
    &&& forall|i: int|
        0 <= i < caps1.len() ==> (caps1[i] == caps0[i] || ((#[trigger] caps1[i]) matches Some(p)
            && lo <= p.0 && p.0 <= p.1 <= hi))
}

/// Slot changes compose across consecutive runs.
proof fn lemma_caps_evolve_trans(
    a: Seq<Option<(usize, usize)>>,
    b: Seq<Option<(usize, usize)>>,
    c: Seq<Option<(usize, usize)>>,
    p0: int,
    p1: int,
    p2: int,
)
    requires
        caps_evolve(a, b, p0, p1),
        caps_evolve(b, c, p1, p2),
        p0 <= p1 <= p2,
    ensures
        caps_evolve(a, c, p0, p2),
{
}

/// Running one token moves the cursor only forward and never past the end,
/// and touches capture slots only within the span it ran over.
pub proof fn lemma_run_tok_frame(t: SpecToken, text: Seq<char>, st: MState)
    requires
        0 <= st.pos <= text.len(),
        text.len() <= usize::MAX,
    ensures
        ({
            let (st1, f) = run_tok(t, text, st);
            &&& st.pos <= st1.pos <= text.len()
            &&& caps_evolve(st.caps, st1.caps, st.pos, st1.pos)
        }),
    decreases t, 1int, 0int,
{
    match t {
        SpecToken::While(d, body) => {
            lemma_run_while_frame(d, body, text, st);
        },
        SpecToken::Capture(i, body) => {
            lemma_run_seq_frame(body, text, st);
        },
        SpecToken::Block(ts) => {
            lemma_run_seq_frame(ts, text, st);
        },
        _ => {},
    }
}

/// Running a row of tokens moves the cursor only forward and never past the
/// end, and touches capture slots only within the span it ran over.
pub proof fn lemma_run_seq_frame(ts: Seq<SpecToken>, text: Seq<char>, st: MState)
    requires
        0 <= st.pos <= text.len(),
        text.len() <= usize::MAX,
    ensures
        ({
            let (st1, f) = run_seq(ts, text, st);
            &&& st.pos <= st1.pos <= text.len()
            &&& caps_evolve(st.caps, st1.caps, st.pos, st1.pos)
        }),
    decreases ts, 2int, 0int,
{
    if ts.len() > 0 {
        lemma_run_tok_frame(ts[0], text, st);
        let (st1, f) = run_tok(ts[0], text, st);
        if f is Proceed {
            lemma_run_seq_frame(ts.subrange(1, ts.len() as int), text, st1);
            let (st2, f2) = run_seq(ts.subrange(1, ts.len() as int), text, st1);
            lemma_caps_evolve_trans(st.caps, st1.caps, st2.caps, st.pos, st1.pos, st2.pos);
        }
    }
}

/// A repetition loop moves the cursor only forward and never past the end,
/// and touches capture slots only within the span it ran over.
pub proof fn lemma_run_while_frame(d: SpecDecision, body: Seq<SpecToken>, text: Seq<char>, st: MState)
    requires
        0 <= st.pos <= text.len(),
        text.len() <= usize::MAX,
    ensures
        ({
            let (st1, f) = run_while(d, body, text, st);
            &&& st.pos <= st1.pos <= text.len()
            &&& caps_evolve(st.caps, st1.caps, st.pos, st1.pos)
        }),
    decreases body, 3int, text.len() - st.pos,
{
    if eval_decision_spec(d, text, st.pos, st.counts) {
        lemma_run_seq_frame(body, text, st);
        let (st1, f) = run_seq(body, text, st);
        if !(f is Stopped) && !(f is Broke) && st.pos < st1.pos && st1.pos <= text.len() {
            lemma_run_while_frame(d, body, text, st1);
            let (st2, f2) = run_while(d, body, text, st1);
            lemma_caps_evolve_trans(st.caps, st1.caps, st2.caps, st.pos, st1.pos, st2.pos);
        }
    }
}


/// Control flow never reads the capture slots: two runs of one token from
/// states that agree on position and counters end the same way and at the
/// same position, whatever their slots hold.
pub proof fn lemma_run_tok_flow(t: SpecToken, text: Seq<char>, st_a: MState, st_b: MState)
    requires
        st_a.pos == st_b.pos,
        st_a.counts == st_b.counts,
    ensures
        ({
            let (ra, fa) = run_tok(t, text, st_a);
            let (rb, fb) = run_tok(t, text, st_b);
            &&& fa == fb
            &&& ra.pos == rb.pos
            &&& ra.counts == rb.counts
        }),
    decreases t, 1int, 0int,
{
    match t {
        SpecToken::While(d, body) => {
            lemma_run_while_flow(d, body, text, st_a, st_b);
        },
        SpecToken::Capture(i, body) => {
            lemma_run_seq_flow(body, text, st_a, st_b);
        },
        SpecToken::Block(ts) => {
            lemma_run_seq_flow(ts, text, st_a, st_b);
        },
        _ => {},
    }
}

/// Control flow never reads the capture slots, over a row of tokens.
pub proof fn lemma_run_seq_flow(ts: Seq<SpecToken>, text: Seq<char>, st_a: MState, st_b: MState)
    requires
        st_a.pos == st_b.pos,
        st_a.counts == st_b.counts,
    ensures
        ({
            let (ra, fa) = run_seq(ts, text, st_a);
            let (rb, fb) = run_seq(ts, text, st_b);
            &&& fa == fb
            &&& ra.pos == rb.pos
            &&& ra.counts == rb.counts
        }),
    decreases ts, 2int, 0int,
{
    if ts.len() > 0 {
        lemma_run_tok_flow(ts[0], text, st_a, st_b);
        let (sa1, fa1) = run_tok(ts[0], text, st_a);
        let (sb1, fb1) = run_tok(ts[0], text, st_b);
        if fa1 is Proceed {
            lemma_run_seq_flow(ts.subrange(1, ts.len() as int), text, sa1, sb1);
        }
    }
}

/// Control flow never reads the capture slots, over a repetition loop.
pub proof fn lemma_run_while_flow(
    d: SpecDecision,
    body: Seq<SpecToken>,
    text: Seq<char>,
    st_a: MState,
    st_b: MState,
)
    requires
        st_a.pos == st_b.pos,
        st_a.counts == st_b.counts,
    ensures
        ({
            let (ra, fa) = run_while(d, body, text, st_a);
            let (rb, fb) = run_while(d, body, text, st_b);
            &&& fa == fb
            &&& ra.pos == rb.pos
            &&& ra.counts == rb.counts
        }),
    decreases body, 3int, text.len() - st_a.pos,
{
    if eval_decision_spec(d, text, st_a.pos, st_a.counts) {
        lemma_run_seq_flow(body, text, st_a, st_b);
        let (sa1, fa1) = run_seq(body, text, st_a);
        let (sb1, fb1) = run_seq(body, text, st_b);
        if !(fa1 is Stopped) && !(fa1 is Broke) && st_a.pos < sa1.pos && sa1.pos <= text.len() {
            lemma_run_while_flow(d, body, text, sa1, sb1);
        }
    }
}

} // verus!
