use vstd::prelude::*;

use crate::error::{Construct, Error};
use crate::hir::{AnchorKind, BoundaryKind, HirExpr, HirGroup, RepeatKind, parsed_hir};

verus! {

/// What a failed decision does: `Stop` fails the whole match attempt,
/// `Break` leaves the innermost repetition loop.
#[derive(Clone, Copy, Debug)]
pub enum NoMatch {
    Stop,
    Break,
}

/// An inclusive range of code points, or a single one.
#[derive(Clone, Copy, Debug)]
pub enum Range {
    Single(u32),
    Multiple(u32, u32),
}

/// Which position an anchor decision asserts.
#[derive(Clone, Copy, Debug)]
pub enum AnchorLocation {
    Start,
    End,
}

/// Whether an anchor is a text anchor or also accepts a line break.
#[derive(Clone, Copy, Debug)]
pub enum AnchorType {
    Regular,
    Newline,
}

/// Which word class a word-boundary decision tests: the ASCII class or the
/// Unicode one.
#[derive(Clone, Copy, Debug)]
pub enum WordBoundaryType {
    Byte,
    Character,
}

/// Whether a decision is taken as it stands or negated.
#[derive(Clone, Copy, Debug, PartialEq, Eq, Structural)]
pub enum Modifier {
    Is,
    Not,
}

/// A test on the cursor or on the innermost repetition counter.
#[derive(Clone, Debug)]
pub enum Decision {
    /// The current code point lies in one of the ranges.
    CharacterSet(Vec<Range>),
    /// The current code point equals the value.
    Literal(u32),
    /// The innermost counter equals the value.
    CountEquals(u32),
    /// The innermost counter is below the value.
    CountLessThan(u32),
    /// The cursor stands at an anchored position.
    Anchor(AnchorType, AnchorLocation),
    /// The wordness of the previous and the current character differ.
    WordBoundary(WordBoundaryType),
    /// The cursor has a current character.
    Middle,
}

/// One imperative token of the EHIR: the intermediate form a pattern is
/// lowered to and that the matcher interprets.
#[derive(Debug)]
pub enum Token {
    /// Evaluate the decision under the modifier; on failure take the exit.
    If(Modifier, Decision, NoMatch),
    /// Run the body while the decision holds.
    While(Decision, Box<Token>),
    /// Open a counter for the enclosing block, starting at zero.
    StartCount,
    /// Advance the innermost counter.
    IncrementCount,
    /// Consume one character.
    Advance,
    /// Run the body; on completion record the consumed span in the slot.
    Capture(u32, Vec<Token>),
    /// A lexical scope: counters opened inside end with it.
    Block(Vec<Token>),
    /// Do nothing.
    Empty,
}

/// The ghost shape of a `Decision`, with ranges as a sequence.
#[verifier::ext_equal]
pub enum SpecDecision {
    CharacterSet(Seq<Range>),
    Literal(u32),
    CountEquals(u32),
    CountLessThan(u32),
    Anchor(AnchorType, AnchorLocation),
    WordBoundary(WordBoundaryType),
    Middle,
}

/// The ghost shape of a `Token`, with children as sequences; a `While` body
/// is the singleton sequence of its body token.
#[verifier::ext_equal]
pub enum SpecToken {
    If(Modifier, SpecDecision, NoMatch),
    While(SpecDecision, Seq<SpecToken>),
    StartCount,
    IncrementCount,
    Advance,
    Capture(u32, Seq<SpecToken>),
    Block(Seq<SpecToken>),
    Empty,
}

/// The ghost shape of a decision.
pub open spec fn decision_view(d: Decision) -> SpecDecision {
    match d {
        Decision::CharacterSet(rs) => SpecDecision::CharacterSet(rs@),
        Decision::Literal(v) => SpecDecision::Literal(v),
        Decision::CountEquals(v) => SpecDecision::CountEquals(v),
        Decision::CountLessThan(v) => SpecDecision::CountLessThan(v),
        Decision::Anchor(t, l) => SpecDecision::Anchor(t, l),
        Decision::WordBoundary(t) => SpecDecision::WordBoundary(t),
        Decision::Middle => SpecDecision::Middle,
    }
}

/// The ghost shape of a token.
pub open spec fn token_view(t: Token) -> SpecToken
    decreases t,
{
    match t {
        Token::If(m, d, nm) => SpecToken::If(m, decision_view(d), nm),
        Token::While(d, b) => SpecToken::While(decision_view(d), seq![token_view(*b)]),
        Token::StartCount => SpecToken::StartCount,
        Token::IncrementCount => SpecToken::IncrementCount,
        Token::Advance => SpecToken::Advance,
        Token::Capture(i, v) => SpecToken::Capture(i, tokens_view(v@)),
        Token::Block(v) => SpecToken::Block(tokens_view(v@)),
        Token::Empty => SpecToken::Empty,
    }
}

/// The ghost shape of a token sequence, element for element.
pub open spec fn tokens_view(s: Seq<Token>) -> Seq<SpecToken>
    decreases s,
{
    if s.len() == 0 {
        Seq::empty()
    } else {
        tokens_view(s.subrange(0, s.len() - 1)).push(token_view(s[s.len() - 1]))
    }
}

pub broadcast proof fn lemma_tokens_view_len(s: Seq<Token>)
    ensures
        #[trigger] tokens_view(s).len() == s.len(),
    decreases s,
{
    if s.len() > 0 {
        lemma_tokens_view_len(s.subrange(0, s.len() - 1));
    }
}

pub broadcast proof fn lemma_tokens_view_index(s: Seq<Token>, i: int)
    requires
        0 <= i < s.len(),
    ensures
        #[trigger] tokens_view(s)[i] == token_view(s[i]),
    decreases s,
{
    lemma_tokens_view_len(s);
    if i < s.len() - 1 {
        lemma_tokens_view_index(s.subrange(0, s.len() - 1), i);
    }
}

pub broadcast group group_tokens_view {
    lemma_tokens_view_len,
    lemma_tokens_view_index,
}

/// The shape of a one-token sequence.
pub proof fn lemma_tokens_view_singleton(t: Token)
    ensures
        tokens_view(seq![t]) == seq![token_view(t)],
{
    reveal_with_fuel(tokens_view, 2);
    assert(seq![t].subrange(0, 0) =~= Seq::<Token>::empty());
    assert(tokens_view(seq![t]) =~= seq![token_view(t)]);
}

/// The shape of a concatenation is the concatenation of the shapes.
pub proof fn lemma_tokens_view_concat(a: Seq<Token>, b: Seq<Token>)
    ensures
        tokens_view(a + b) == tokens_view(a) + tokens_view(b),
{
    broadcast use group_tokens_view;

    assert(tokens_view(a + b) =~= tokens_view(a) + tokens_view(b));
}

/// The ghost shape of a capture-name table: each name as its characters.
pub open spec fn names_view(s: Seq<(String, u32)>) -> Seq<(Seq<char>, u32)> {
    Seq::new(s.len(), |i: int| (s[i].0@, s[i].1))
}

/// The exit taken when a decision fails: `Break` inside a repetition body,
/// `Stop` elsewhere.
pub open spec fn spec_stop_break(in_inner_loop: bool) -> NoMatch {
    if in_inner_loop {
        NoMatch::Break
    } else {
        NoMatch::Stop
    }
}

/// The token that fails an attempt when the cursor has no current character.
pub open spec fn spec_bounds_check() -> SpecToken {
    SpecToken::If(Modifier::Not, SpecDecision::Middle, NoMatch::Stop)
}

/// The range a pair of code points lowers to: a single point when the two
/// ends coincide.
pub open spec fn spec_range(p: (u32, u32)) -> Range {
    if p.0 == p.1 {
        Range::Single(p.0)
    } else {
        Range::Multiple(p.0, p.1)
    }
}

/// The ranges a class lowers to, pair for pair.
pub open spec fn spec_ranges(ps: Seq<(u32, u32)>) -> Seq<Range> {
    Seq::new(ps.len(), |i: int| spec_range(ps[i]))
}

/// The larger of two optional capture indices, treating `None` as absent.
pub open spec fn max_opt(a: Option<u32>, b: Option<u32>) -> Option<u32> {
    match b {
        None => a,
        Some(y) => match a {
            None => Some(y),
            Some(x) => if y > x {
                Some(y)
            } else {
                Some(x)
            },
        },
    }
}

/// The skeleton of a repetition with a bounded maximum `m` and minimum `n`:
/// a counted loop whose body breaks once `m` repetitions have matched, and a
/// final check that at least `n` matched.
pub open spec fn spec_rep_bounded(body: Seq<SpecToken>, in_inner_loop: bool, n: u32, m: u32) -> Seq<
    SpecToken,
> {
    seq![
        SpecToken::Block(
            seq![
                SpecToken::StartCount,
                SpecToken::While(
                    SpecDecision::Middle,
                    seq![
                        SpecToken::Block(
                            body + seq![
                                SpecToken::IncrementCount,
                                SpecToken::If(
                                    Modifier::Is,
                                    SpecDecision::CountEquals(m),
                                    NoMatch::Break,
                                ),
                            ],
                        ),
                    ],
                ),
                SpecToken::If(
                    Modifier::Is,
                    SpecDecision::CountLessThan(n),
                    spec_stop_break(in_inner_loop),
                ),
            ],
        ),
    ]
}

/// The skeleton of a repetition without an upper bound: a counted loop and a
/// final check that at least `n` repetitions matched.
pub open spec fn spec_rep_unbounded(body: Seq<SpecToken>, in_inner_loop: bool, n: u32) -> Seq<
    SpecToken,
> {
    seq![
        SpecToken::Block(
            seq![
                SpecToken::StartCount,
                SpecToken::While(
                    SpecDecision::Middle,
                    seq![SpecToken::Block(body + seq![SpecToken::IncrementCount])],
                ),
                SpecToken::If(
                    Modifier::Is,
                    SpecDecision::CountLessThan(n),
                    spec_stop_break(in_inner_loop),
                ),
            ],
        ),
    ]
}

/// The tokens of a capturing group: the body runs inside a block and its
/// span is recorded in the slot.
pub open spec fn spec_capturing(ind: u32, body: Seq<SpecToken>) -> Seq<SpecToken> {
    seq![SpecToken::Block(seq![SpecToken::Capture(ind, body)])]
}

/// The tokens of a non-capturing group: the body in a block of its own.
pub open spec fn spec_non_capturing(body: Seq<SpecToken>) -> Seq<SpecToken> {
    seq![SpecToken::Block(body)]
}

/// The tokens a single-point test lowers to: a bounds check, the test, and a
/// step over the accepted character.
pub open spec fn spec_consume_one(d: SpecDecision, in_inner_loop: bool) -> Seq<SpecToken> {
    seq![
        spec_bounds_check(),
        SpecToken::If(Modifier::Not, d, spec_stop_break(in_inner_loop)),
        SpecToken::Advance,
    ]
}

/// The anchor decision an anchor kind lowers to.
pub open spec fn spec_anchor(k: AnchorKind) -> SpecDecision {
    match k {
        AnchorKind::StartText => SpecDecision::Anchor(AnchorType::Regular, AnchorLocation::Start),
        AnchorKind::EndText => SpecDecision::Anchor(AnchorType::Regular, AnchorLocation::End),
        AnchorKind::StartLine => SpecDecision::Anchor(AnchorType::Newline, AnchorLocation::Start),
        AnchorKind::EndLine => SpecDecision::Anchor(AnchorType::Newline, AnchorLocation::End),
    }
}

/// The modifier and scope a word-boundary kind lowers to: negated variants
/// fail when the boundary is present.
pub open spec fn spec_boundary(k: BoundaryKind) -> (Modifier, WordBoundaryType) {
    match k {
        BoundaryKind::Unicode => (Modifier::Not, WordBoundaryType::Character),
        BoundaryKind::Ascii => (Modifier::Not, WordBoundaryType::Byte),
        BoundaryKind::UnicodeNegate => (Modifier::Is, WordBoundaryType::Character),
        BoundaryKind::AsciiNegate => (Modifier::Is, WordBoundaryType::Byte),
    }
}

/// What a pattern node lowers to: its tokens, the highest capture index it
/// contains, and the named groups it introduces, in order of completion; or
/// the construct on which lowering fails.
pub open spec fn lower_spec(h: HirExpr, in_inner_loop: bool) -> Result<
    (Seq<SpecToken>, Option<u32>, Seq<(Seq<char>, u32)>),
    Construct,
>
    decreases h,
{
    match h {
        HirExpr::Empty => Ok((seq![SpecToken::Empty], None, Seq::empty())),
        HirExpr::Literal(cp) => Ok(
            (spec_consume_one(SpecDecision::Literal(cp), in_inner_loop), None, Seq::empty()),
        ),
        HirExpr::Class(rs) => Ok(
            (
                spec_consume_one(SpecDecision::CharacterSet(spec_ranges(rs@)), in_inner_loop),
                None,
                Seq::empty(),
            ),
        ),
        HirExpr::Anchor(k) => Ok(
            (
                seq![
                    SpecToken::If(Modifier::Not, spec_anchor(k), spec_stop_break(in_inner_loop)),
                ],
                None,
                Seq::empty(),
            ),
        ),
        HirExpr::WordBoundary(k) => Ok(
            (
                seq![
                    SpecToken::If(
                        spec_boundary(k).0,
                        SpecDecision::WordBoundary(spec_boundary(k).1),
                        spec_stop_break(in_inner_loop),
                    ),
                ],
                None,
                Seq::empty(),
            ),
        ),
        HirExpr::Repetition(k, greedy, b) => if !greedy {
            Err(Construct::NonGreedyRepetition)
        } else {
            match lower_spec(*b, true) {
                Err(c) => Err(c),
                Ok((bts, bmx, bnms)) => Ok(
                    (
                        match k {
                            RepeatKind::ZeroOrOne => spec_rep_bounded(bts, in_inner_loop, 0, 1),
                            RepeatKind::ZeroOrMore => spec_rep_unbounded(bts, in_inner_loop, 0),
                            RepeatKind::OneOrMore => spec_rep_unbounded(bts, in_inner_loop, 1),
                            RepeatKind::Exactly(n) => spec_rep_bounded(bts, in_inner_loop, n, n),
                            RepeatKind::AtLeast(n) => spec_rep_unbounded(bts, in_inner_loop, n),
                            RepeatKind::Bounded(n, m) => spec_rep_bounded(bts, in_inner_loop, n, m),
                        },
                        bmx,
                        bnms,
                    ),
                ),
            }
        },
        HirExpr::Group(gk, b) => match lower_spec(*b, in_inner_loop) {
            Err(c) => Err(c),
            Ok((bts, bmx, bnms)) => match gk {
                HirGroup::NonCapturing => Ok((spec_non_capturing(bts), bmx, bnms)),
                HirGroup::CaptureIndex(i) => Ok(
                    (spec_capturing(i, bts), max_opt(Some(i), bmx), bnms),
                ),
                HirGroup::CaptureName(nm, i) => Ok(
                    (spec_capturing(i, bts), max_opt(Some(i), bmx), bnms + seq![(nm@, i)]),
                ),
            },
        },
        HirExpr::Concat(hs) => lower_concat_spec(hs@, in_inner_loop),
        HirExpr::Alternation => Err(Construct::Alternation),
    }
}

/// What a row of pattern nodes lowers to: the concatenation of what each
/// lowers to, with the highest capture index of any of them; the first
/// failure in order wins.
pub open spec fn lower_concat_spec(hs: Seq<HirExpr>, in_inner_loop: bool) -> Result<
    (Seq<SpecToken>, Option<u32>, Seq<(Seq<char>, u32)>),
    Construct,
>
    decreases hs,
{
    if hs.len() == 0 {
        Ok((Seq::empty(), None, Seq::empty()))
    } else {
        match lower_concat_spec(hs.subrange(0, hs.len() - 1), in_inner_loop) {
            Err(c) => Err(c),
            Ok((t1, m1, n1)) => match lower_spec(hs[hs.len() - 1], in_inner_loop) {
                Err(c) => Err(c),
                Ok((t2, m2, n2)) => Ok((t1 + t2, max_opt(m1, m2), n1 + n2)),
            },
        }
    }
}


/// A capture index, or zero when none is present.
pub open spec fn opt_or_zero(m: Option<u32>) -> u32 {
    match m {
        Some(v) => v,
        None => 0,
    }
}

/// The shape every compiled program has: one block holding one capture of
/// the whole match into slot zero.
pub open spec fn program_shape(p: Seq<SpecToken>) -> bool {
    &&& p.len() == 1
    &&& p[0] matches SpecToken::Block(b) && (b.len() == 1 && (b[0] matches SpecToken::Capture(i, _)
        && i == 0))
}

/// A pattern lowered to its imperative form: the token program, the capture
/// names, and the number of capture slots, slot zero (the whole match)
/// included.
#[derive(Debug)]
pub struct Ehir {
    regex: String,
    tokens: Vec<Token>,
    capture_names: Vec<(String, u32)>,
    capture_count: u32,
}

/// Extends a sequence of ranges by the lowering of one more code-point pair.
fn push_range(ranges: &mut Vec<Range>, p: (u32, u32))
    ensures
        final(ranges)@ == old(ranges)@.push(spec_range(p)),
{
    if p.0 == p.1 {
        ranges.push(Range::Single(p.0));
    } else {
        ranges.push(Range::Multiple(p.0, p.1));
    }
}

impl Ehir {
    #[verifier::type_invariant]
    closed spec fn wf(self) -> bool {
        &&& 1 <= self.capture_count <= 63
        &&& program_shape(tokens_view(self.tokens@))
    }

    /// The ghost shape of the token program.
    pub closed spec fn program_view(&self) -> Seq<SpecToken> {
        tokens_view(self.tokens@)
    }

    /// The ghost shape of the capture-name table.
    pub closed spec fn names_v(&self) -> Seq<(Seq<char>, u32)> {
        names_view(self.capture_names@)
    }

    /// The pattern this program was lowered from.
    pub closed spec fn regex_view(&self) -> Seq<char> {
        self.regex@
    }

    /// The number of capture slots.
    pub closed spec fn count_view(&self) -> u32 {
        self.capture_count
    }

    /// The token program.
    pub fn tokens(&self) -> (r: &Vec<Token>)
        ensures
            tokens_view(r@) == self.program_view(),
    {
        &self.tokens
    }

    /// The capture-name table: each named group and its slot index.
    pub fn capture_names(&self) -> (r: &Vec<(String, u32)>)
        ensures
            names_view(r@) == self.names_v(),
    {
        &self.capture_names
    }

    /// The number of capture slots, slot zero included.
    pub fn capture_count(&self) -> (r: u32)
        ensures
            r == self.count_view(),
            1 <= r <= 63,
    {
        proof {
            use_type_invariant(self);
        }
        self.capture_count
    }

    /// The pattern text.
    pub fn regex(&self) -> (r: &str)
        ensures
            r@ == self.regex_view(),
    {
        self.regex.as_str()
    }

    /// Takes the parts of the program apart; used when building an engine.
    pub(crate) fn into_parts(self) -> (r: (Vec<Token>, Vec<(String, u32)>, u32))
        ensures
            tokens_view(r.0@) == self.program_view(),
            names_view(r.1@) == self.names_v(),
            r.2 == self.count_view(),
            1 <= r.2 <= 63,
            program_shape(tokens_view(r.0@)),
    {
        proof {
            use_type_invariant(&self);
        }
        let Ehir { regex: _, tokens, capture_names, capture_count } = self;
        (tokens, capture_names, capture_count)
    }

    /// The token that fails an attempt at the end of the text.
    fn bounds_check() -> (t: Token)
        ensures
            token_view(t) == spec_bounds_check(),
    {
        Token::If(Modifier::Not, Decision::Middle, NoMatch::Stop)
    }

    /// The exit a failing decision takes at this nesting depth.
    fn stop_break(is_inner_loop: bool) -> (r: NoMatch)
        ensures
            r == spec_stop_break(is_inner_loop),
    {
        if is_inner_loop {
            NoMatch::Break
        } else {
            NoMatch::Stop
        }
    }

    /// A bounds check, the given test, and a step over the accepted
    /// character.
    pub(crate) fn consume_one(d: Decision, is_inner_loop: bool) -> (r: Vec<Token>)
        ensures
            tokens_view(r@) == spec_consume_one(decision_view(d), is_inner_loop),
    {
        let ghost dv = decision_view(d);
        let mut r: Vec<Token> = Vec::new();
        r.push(Self::bounds_check());
        r.push(Token::If(Modifier::Not, d, Self::stop_break(is_inner_loop)));
        r.push(Token::Advance);
        proof {
            broadcast use group_tokens_view;

            assert(tokens_view(r@) =~~= spec_consume_one(dv, is_inner_loop));
        }
        r
    }

    /// The loop skeleton of a repetition with a bounded maximum.
    pub(crate) fn bounded_to_snippet(mut inner_code: Vec<Token>, in_inner_loop: bool, n: u32, m: u32) -> (r:
        Vec<Token>)
        ensures
            tokens_view(r@) == spec_rep_bounded(tokens_view(inner_code@), in_inner_loop, n, m),
    {
        let ghost body0 = inner_code@;
        inner_code.push(Token::IncrementCount);
        inner_code.push(Token::If(Modifier::Is, Decision::CountEquals(m), NoMatch::Break));
        let mut block: Vec<Token> = Vec::new();
        block.push(Token::StartCount);
        let inner_block = Token::Block(inner_code);
        let ghost ibv = token_view(inner_block);
        block.push(Token::While(Decision::Middle, Box::new(inner_block)));
        block.push(Token::If(Modifier::Is, Decision::CountLessThan(n), Self::stop_break(in_inner_loop)));
        let mut r: Vec<Token> = Vec::new();
        r.push(Token::Block(block));
        proof {
            broadcast use group_tokens_view;

            let ghost innerv = body0.push(Token::IncrementCount).push(
                Token::If(Modifier::Is, Decision::CountEquals(m), NoMatch::Break),
            );
            let ghost whilet = block@[1];
            let ghost ift = block@[2];
            assert(tokens_view(innerv) =~= tokens_view(body0) + seq![
                SpecToken::IncrementCount,
                SpecToken::If(Modifier::Is, SpecDecision::CountEquals(m), NoMatch::Break),
            ]);
            assert(ibv == SpecToken::Block(tokens_view(innerv)));
            assert(token_view(whilet) == SpecToken::While(SpecDecision::Middle, seq![ibv]));
            assert(tokens_view(block@) =~= seq![
                SpecToken::StartCount,
                token_view(whilet),
                token_view(ift),
            ]);
            lemma_tokens_view_singleton(Token::Block(block));
            assert(tokens_view(r@) =~= seq![SpecToken::Block(tokens_view(block@))]);
            assert(tokens_view(r@) == spec_rep_bounded(tokens_view(body0), in_inner_loop, n, m));
        }
        r
    }

    /// The loop skeleton of a repetition without an upper bound.
    pub(crate) fn unbounded_to_snippet(mut inner_code: Vec<Token>, in_inner_loop: bool, n: u32) -> (r: Vec<
        Token,
    >)
        ensures
            tokens_view(r@) == spec_rep_unbounded(tokens_view(inner_code@), in_inner_loop, n),
    {
        let ghost body0 = inner_code@;
        inner_code.push(Token::IncrementCount);
        let mut block: Vec<Token> = Vec::new();
        block.push(Token::StartCount);
        let inner_block = Token::Block(inner_code);
        let ghost ibv = token_view(inner_block);
        block.push(Token::While(Decision::Middle, Box::new(inner_block)));
        block.push(Token::If(Modifier::Is, Decision::CountLessThan(n), Self::stop_break(in_inner_loop)));
        let mut r: Vec<Token> = Vec::new();
        r.push(Token::Block(block));
        proof {
            broadcast use group_tokens_view;

            let ghost innerv = body0.push(Token::IncrementCount);
            let ghost whilet = block@[1];
            let ghost ift = block@[2];
            assert(tokens_view(innerv) =~= tokens_view(body0) + seq![SpecToken::IncrementCount]);
            assert(ibv == SpecToken::Block(tokens_view(innerv)));
            assert(token_view(whilet) == SpecToken::While(SpecDecision::Middle, seq![ibv]));
            assert(tokens_view(block@) =~= seq![
                SpecToken::StartCount,
                token_view(whilet),
                token_view(ift),
            ]);
            lemma_tokens_view_singleton(Token::Block(block));
            assert(tokens_view(r@) =~= seq![SpecToken::Block(tokens_view(block@))]);
            assert(tokens_view(r@) == spec_rep_unbounded(tokens_view(body0), in_inner_loop, n));
        }
        r
    }

    /// A capturing group: the body inside a block, recorded in the slot.
    pub(crate) fn capturing_to_snippet(ind: u32, snippet: Vec<Token>) -> (r: Vec<Token>)
        ensures
            tokens_view(r@) == spec_capturing(ind, tokens_view(snippet@)),
    {
        let ghost body0 = snippet@;
        let mut block: Vec<Token> = Vec::new();
        block.push(Token::Capture(ind, snippet));
        let mut r: Vec<Token> = Vec::new();
        r.push(Token::Block(block));
        proof {
            assert(block@ =~= seq![Token::Capture(ind, snippet)]);
            assert(r@ =~= seq![Token::Block(Token::Block(block)->Block_0)]);
            lemma_tokens_view_singleton(Token::Capture(ind, snippet));
            lemma_tokens_view_singleton(Token::Block(block));
            assert(tokens_view(r@) == spec_capturing(ind, tokens_view(body0)));
        }
        r
    }

    /// A non-capturing group: the body in a block of its own.
    pub(crate) fn non_capturing_to_snippet(snippet: Vec<Token>) -> (r: Vec<Token>)
        ensures
            tokens_view(r@) == spec_non_capturing(tokens_view(snippet@)),
    {
        let ghost body0 = snippet@;
        let mut r: Vec<Token> = Vec::new();
        r.push(Token::Block(snippet));
        proof {
            broadcast use group_tokens_view;

            assert(tokens_view(r@) =~~= spec_non_capturing(tokens_view(body0)));
        }
        r
    }

    /// The larger of two optional capture indices.
    fn merge_max(a: Option<u32>, b: Option<u32>) -> (r: Option<u32>)
        ensures
            r == max_opt(a, b),
    {
        match b {
            None => a,
            Some(y) => match a {
                None => Some(y),
                Some(x) => if y > x {
                    Some(y)
                } else {
                    Some(x)
                },
            },
        }
    }
}


/// A sequence of names is unchanged by appending none.
proof fn lemma_names_extend_empty(s: Seq<(String, u32)>)
    ensures
        names_view(s) == names_view(s) + Seq::<(Seq<char>, u32)>::empty(),
{
    assert(names_view(s) =~= names_view(s) + Seq::<(Seq<char>, u32)>::empty());
}

/// A failed row of nodes keeps its failure when more nodes follow.
proof fn lemma_concat_err_extends(hs: Seq<HirExpr>, in_inner_loop: bool, j: int, k: int)
    requires
        0 <= j <= k <= hs.len(),
        lower_concat_spec(hs.subrange(0, j), in_inner_loop) is Err,
    ensures
        lower_concat_spec(hs.subrange(0, k), in_inner_loop) == lower_concat_spec(
            hs.subrange(0, j),
            in_inner_loop,
        ),
    decreases k - j,
{
    if k > j {
        lemma_concat_err_extends(hs, in_inner_loop, j, k - 1);
        assert(hs.subrange(0, k).subrange(0, k - 1) =~= hs.subrange(0, k - 1));
        assert(hs.subrange(0, k).len() == k);
    }
}

/// The parts of a successfully lowered row of nodes.
pub open spec fn concat_parts(hs: Seq<HirExpr>, in_inner_loop: bool) -> (
    Seq<SpecToken>,
    Option<u32>,
    Seq<(Seq<char>, u32)>,
)
    recommends
        lower_concat_spec(hs, in_inner_loop) is Ok,
{
    match lower_concat_spec(hs, in_inner_loop) {
        Ok(o) => o,
        Err(_) => (Seq::empty(), None, Seq::empty()),
    }
}

impl Ehir {
    /// One decision token taking the failure exit of this nesting depth.
    fn single_if(m: Modifier, d: Decision, is_inner_loop: bool) -> (r: Vec<Token>)
        ensures
            tokens_view(r@) == seq![
                SpecToken::If(m, decision_view(d), spec_stop_break(is_inner_loop)),
            ],
    {
        let ghost dv = decision_view(d);
        let mut r: Vec<Token> = Vec::new();
        r.push(Token::If(m, d, Self::stop_break(is_inner_loop)));
        proof {
            broadcast use group_tokens_view;

            assert(tokens_view(r@) =~~= seq![
                SpecToken::If(m, dv, spec_stop_break(is_inner_loop)),
            ]);
        }
        r
    }

    /// Lowers one pattern node to its tokens and highest capture index,
    /// appending the named groups it introduces to the table.
    #[verifier::loop_isolation(false)]
    pub(crate) fn translate_hir(
        hir: &HirExpr,
        capture_names: &mut Vec<(String, u32)>,
        in_inner_loop: bool,
    ) -> (r: Result<(Vec<Token>, Option<u32>), Error>)
        ensures
            match lower_spec(*hir, in_inner_loop) {
                Ok(out) => r matches Ok(p) && tokens_view(p.0@) == out.0 && p.1 == out.1
                    && names_view(final(capture_names)@) == names_view(old(capture_names)@)
                    + out.2,
                Err(c) => r matches Err(e) && (e matches Error::UnsupportedConstruct(c2) && c2
                    == c),
            },
        decreases *hir,
    {
        proof {
            lemma_names_extend_empty(capture_names@);
        }
        match hir {
            HirExpr::Empty => {
                let mut v: Vec<Token> = Vec::new();
                v.push(Token::Empty);
                proof {
                    broadcast use group_tokens_view;

                    assert(tokens_view(v@) =~= seq![SpecToken::Empty]);
                }
                Ok((v, None))
            },
            HirExpr::Literal(cp) => {
                Ok((Self::consume_one(Decision::Literal(*cp), in_inner_loop), None))
            },
            HirExpr::Class(rs) => {
                let mut ranges: Vec<Range> = Vec::new();
                let n = rs.len();
                let mut k: usize = 0;
                while k < n
                    invariant
                        k <= n,
                        n == rs@.len(),
                        ranges@.len() == k,
                        forall|j: int| 0 <= j < k ==> ranges@[j] == spec_range(rs@[j]),
                    decreases n - k,
                {
                    push_range(&mut ranges, rs[k]);
                    k += 1;
                }
                proof {
                    assert(ranges@ =~= spec_ranges(rs@));
                }
                Ok((Self::consume_one(Decision::CharacterSet(ranges), in_inner_loop), None))
            },
            HirExpr::Anchor(k) => {
                let d = match k {
                    AnchorKind::StartText => Decision::Anchor(
                        AnchorType::Regular,
                        AnchorLocation::Start,
                    ),
                    AnchorKind::EndText => Decision::Anchor(AnchorType::Regular, AnchorLocation::End),
                    AnchorKind::StartLine => Decision::Anchor(
                        AnchorType::Newline,
                        AnchorLocation::Start,
                    ),
                    AnchorKind::EndLine => Decision::Anchor(AnchorType::Newline, AnchorLocation::End),
                };
                proof {
                    assert(decision_view(d) == spec_anchor(*k)) by {
                        match *k {
                            AnchorKind::StartText => {},
                            AnchorKind::EndText => {},
                            AnchorKind::StartLine => {},
                            AnchorKind::EndLine => {},
                        }
                    }
                }
                Ok((Self::single_if(Modifier::Not, d, in_inner_loop), None))
            },
            HirExpr::WordBoundary(k) => {
                let (m, scope) = match k {
                    BoundaryKind::Unicode => (Modifier::Not, WordBoundaryType::Character),
                    BoundaryKind::Ascii => (Modifier::Not, WordBoundaryType::Byte),
                    BoundaryKind::UnicodeNegate => (Modifier::Is, WordBoundaryType::Character),
                    BoundaryKind::AsciiNegate => (Modifier::Is, WordBoundaryType::Byte),
                };
                proof {
                    assert((m, scope) == spec_boundary(*k)) by {
                        match *k {
                            BoundaryKind::Unicode => {},
                            BoundaryKind::Ascii => {},
                            BoundaryKind::UnicodeNegate => {},
                            BoundaryKind::AsciiNegate => {},
                        }
                    }
                }
                Ok((Self::single_if(m, Decision::WordBoundary(scope), in_inner_loop), None))
            },
            HirExpr::Repetition(k, greedy, b) => {
                if !*greedy {
                    return Err(Error::UnsupportedConstruct(Construct::NonGreedyRepetition));
                }
                match Self::translate_hir(b, capture_names, true) {
                    Err(e) => Err(e),
                    Ok((subset, m)) => {
                        let toks = match k {
                            RepeatKind::ZeroOrOne => Self::bounded_to_snippet(
                                subset,
                                in_inner_loop,
                                0,
                                1,
                            ),
                            RepeatKind::ZeroOrMore => Self::unbounded_to_snippet(
                                subset,
                                in_inner_loop,
                                0,
                            ),
                            RepeatKind::OneOrMore => Self::unbounded_to_snippet(
                                subset,
                                in_inner_loop,
                                1,
                            ),
                            RepeatKind::Exactly(n) => Self::bounded_to_snippet(
                                subset,
                                in_inner_loop,
                                *n,
                                *n,
                            ),
                            RepeatKind::AtLeast(n) => Self::unbounded_to_snippet(
                                subset,
                                in_inner_loop,
                                *n,
                            ),
                            RepeatKind::Bounded(n, mm) => Self::bounded_to_snippet(
                                subset,
                                in_inner_loop,
                                *n,
                                *mm,
                            ),
                        };
                        Ok((toks, m))
                    },
                }
            },
            HirExpr::Group(gk, b) => {
                match Self::translate_hir(b, capture_names, in_inner_loop) {
                    Err(e) => Err(e),
                    Ok((subset, m)) => match gk {
                        HirGroup::NonCapturing => Ok((Self::non_capturing_to_snippet(subset), m)),
                        HirGroup::CaptureIndex(i) => Ok(
                            (Self::capturing_to_snippet(*i, subset), Self::merge_max(Some(*i), m)),
                        ),
                        HirGroup::CaptureName(nm, i) => {
                            let ghost before = capture_names@;
                            let ghost bnms = match lower_spec(**b, in_inner_loop) {
                                Ok(o) => o.2,
                                Err(_) => Seq::<(Seq<char>, u32)>::empty(),
                            };
                            let cloned = nm.clone();
                            capture_names.push((cloned, *i));
                            proof {
                                assert(lower_spec(**b, in_inner_loop) is Ok);
                                assert(names_view(before) == names_view(old(capture_names)@)
                                    + bnms);
                                assert(capture_names@.len() == before.len() + 1);
                                assert(capture_names@[before.len() as int].0@ == nm@);
                                assert(capture_names@[before.len() as int].1 == *i);
                                assert(forall|k: int| 0 <= k < before.len() ==> capture_names@[k]
                                    == before[k]);
                                let rhs = names_view(old(capture_names)@) + (bnms + seq![
                                    (nm@, *i),
                                ]);
                                assert(names_view(capture_names@).len() == capture_names@.len());
                                assert(names_view(old(capture_names)@).len() == old(
                                    capture_names,
                                )@.len());
                                assert(names_view(before).len() == before.len());
                                assert(before.len() == old(capture_names)@.len() + bnms.len());
                                assert(rhs.len() == names_view(old(capture_names)@).len()
                                    + bnms.len() + 1);
                                assert(names_view(capture_names@).len() == rhs.len());
                                assert forall|k: int|
                                    0 <= k < capture_names@.len() implies names_view(
                                    capture_names@,
                                )[k] == rhs[k] by {
                                    if k < before.len() {
                                        assert(capture_names@[k] == before[k]);
                                        assert(names_view(capture_names@)[k] == names_view(
                                            before,
                                        )[k]);
                                        assert(names_view(before)[k] == (names_view(
                                            old(capture_names)@,
                                        ) + bnms)[k]);
                                    }
                                }
                                assert(names_view(capture_names@) =~= rhs);
                            }
                            Ok(
                                (
                                    Self::capturing_to_snippet(*i, subset),
                                    Self::merge_max(Some(*i), m),
                                ),
                            )
                        },
                    },
                }
            },
            HirExpr::Concat(hs) => {
                let mut snippet: Vec<Token> = Vec::new();
                let mut max: Option<u32> = None;
                let ghost names0 = capture_names@;
                let mut idx: usize = 0;
                proof {
                    assert(hs@.subrange(0, 0) =~= Seq::<HirExpr>::empty());
                    lemma_names_extend_empty(names0);
                }
                while idx < hs.len()
                    invariant
                        idx <= hs@.len(),
                        lower_concat_spec(hs@.subrange(0, idx as int), in_inner_loop) is Ok,
                        tokens_view(snippet@) == concat_parts(
                            hs@.subrange(0, idx as int),
                            in_inner_loop,
                        ).0,
                        max == concat_parts(hs@.subrange(0, idx as int), in_inner_loop).1,
                        names_view(capture_names@) == names_view(names0) + concat_parts(
                            hs@.subrange(0, idx as int),
                            in_inner_loop,
                        ).2,
                    decreases hs@.len() - idx,
                {
                    let ghost prefix = hs@.subrange(0, idx as int);
                    proof {
                        assert(decreases_to!((*hir)->Concat_0@ => (*hir)->Concat_0@[idx as int]));
                        assert(decreases_to!(*hir => (*hir)->Concat_0));
                        assert(decreases_to!((*hir)->Concat_0 => (*hir)->Concat_0@));
                        assert(decreases_to!(*hir => hs@[idx as int]));
                    }
                    match Self::translate_hir(&hs[idx], capture_names, in_inner_loop) {
                        Err(e) => {
                            proof {
                                assert(lower_spec(hs@[idx as int], in_inner_loop) is Err);
                                let extended = hs@.subrange(0, idx + 1);
                                assert(extended.subrange(0, idx as int) =~= prefix);
                                assert(extended[idx as int] == hs@[idx as int]);
                                assert(lower_concat_spec(extended, in_inner_loop) is Err);
                                lemma_concat_err_extends(
                                    hs@,
                                    in_inner_loop,
                                    idx + 1,
                                    hs@.len() as int,
                                );
                                assert(hs@.subrange(0, hs@.len() as int) =~= hs@);
                            }
                            return Err(e);
                        },
                        Ok((mut subset, m)) => {
                            let ghost pre = snippet@;
                            let ghost sub_v = subset@;
                            let ghost names_mid = capture_names@;
                            snippet.append(&mut subset);
                            max = Self::merge_max(max, m);
                            idx += 1;
                            proof {
                                lemma_tokens_view_concat(pre, sub_v);
                                let extended = hs@.subrange(0, idx as int);
                                assert(extended.subrange(0, idx - 1) =~= prefix);
                                assert(extended[idx - 1] == hs@[idx - 1]);
                                assert(names_view(capture_names@) =~= names_view(names0)
                                    + concat_parts(extended, in_inner_loop).2);
                            }
                        },
                    }
                }
                proof {
                    assert(hs@.subrange(0, hs@.len() as int) =~= hs@);
                }
                Ok((snippet, max))
            },
            HirExpr::Alternation => Err(Error::UnsupportedConstruct(Construct::Alternation)),
        }
    }
}


impl Ehir {
    /// Lowers a pattern into its imperative program: the pattern is parsed,
    /// each node is lowered, and the whole body is wrapped in a capture of
    /// slot zero, the whole match. A candidate position at the very end of
    /// the text is a valid match start, so no leading bounds check is
    /// emitted: anchors and empty repetitions may match there.
    pub fn translate(regex: &str) -> (r: Result<Ehir, Error>)
        ensures
            match r {
                Ok(e) => {
                    &&& parsed_hir(regex@) matches Ok(h)
                    &&& lower_spec(h, false) matches Ok(out)
                    &&& e.program_view() == spec_capturing(0, out.0)
                    &&& opt_or_zero(out.1) < 63
                    &&& e.count_view() == opt_or_zero(out.1) + 1
                    &&& e.names_v() == out.2
                    &&& forall|i: int|
                        0 <= i < e.names_v().len() ==> (#[trigger] e.names_v()[i]).1
                            < e.count_view()
                    &&& e.regex_view() == regex@
                },
                Err(err) => match err {
                    Error::InvalidPattern(m) => parsed_hir(regex@) == Err::<HirExpr, Seq<char>>(
                        m@,
                    ),
                    Error::UnsupportedConstruct(c) => parsed_hir(regex@) matches Ok(h)
                        && lower_spec(h, false) matches Err(c2) && c2 == c,
                    Error::CaptureLimitExceeded => parsed_hir(regex@) matches Ok(h) && (lower_spec(
                        h,
                        false,
                    ) matches Ok(out) && opt_or_zero(out.1) >= 63),
                    Error::InvalidIdentifier(_) => false,
                },
            },
    {
        match crate::hir::parse_pattern(regex) {
            Err(m) => Err(Error::InvalidPattern(m)),
            Ok(h) => {
                let mut names: Vec<(String, u32)> = Vec::new();
                let ghost out = match lower_spec(h, false) {
                    Ok(o) => o,
                    Err(_) => (Seq::empty(), None, Seq::empty()),
                };
                match Self::translate_hir(&h, &mut names, false) {
                    Err(e) => Err(e),
                    Ok((inner, mx)) => {
                        let max_val: u32 = match mx {
                            Some(v) => v,
                            None => 0,
                        };
                        if max_val >= 63 {
                            Err(Error::CaptureLimitExceeded)
                        } else {
                            proof {
                                lemma_lower_names_bounded(h, false);
                            }
                            let ghost innerv = tokens_view(inner@);
                            let tokens = Self::capturing_to_snippet(0, inner);
                            proof {
                                assert(names_view(Seq::<(String, u32)>::empty()) =~= Seq::<
                                    (Seq<char>, u32),
                                >::empty());
                                assert(names_view(names@) =~= out.2);
                                assert(tokens_view(tokens@) == spec_capturing(0, innerv));
                                assert(program_shape(tokens_view(tokens@)));
                            }
                            Ok(
                                Ehir {
                                    regex: regex.to_owned(),
                                    tokens,
                                    capture_names: names,
                                    capture_count: max_val + 1,
                                },
                            )
                        }
                    },
                }
            },
        }
    }
}


/// Every named group a node introduces refers to a capture index the node
/// also counts: the name table is a subset of the indexed groups.
pub proof fn lemma_lower_names_bounded(h: HirExpr, in_inner_loop: bool)
    ensures
        match lower_spec(h, in_inner_loop) {
            Ok(out) => forall|i: int|
                0 <= i < out.2.len() ==> (#[trigger] out.2[i]).1 <= opt_or_zero(out.1),
            Err(_) => true,
        },
    decreases h, 0int,
{
    match h {
        HirExpr::Repetition(k, greedy, b) => {
            if greedy {
                lemma_lower_names_bounded(*b, true);
            }
        },
        HirExpr::Group(gk, b) => {
            lemma_lower_names_bounded(*b, in_inner_loop);
        },
        HirExpr::Concat(hs) => {
            lemma_lower_concat_names_bounded(hs@, in_inner_loop);
        },
        _ => {},
    }
}

/// Every named group a row of nodes introduces refers to a capture index the
/// row also counts.
pub proof fn lemma_lower_concat_names_bounded(hs: Seq<HirExpr>, in_inner_loop: bool)
    ensures
        match lower_concat_spec(hs, in_inner_loop) {
            Ok(out) => forall|i: int|
                0 <= i < out.2.len() ==> (#[trigger] out.2[i]).1 <= opt_or_zero(out.1),
            Err(_) => true,
        },
    decreases hs, 1int,
{
    if hs.len() > 0 {
        lemma_lower_concat_names_bounded(hs.subrange(0, hs.len() - 1), in_inner_loop);
        lemma_lower_names_bounded(hs[hs.len() - 1], in_inner_loop);
    }
}

} // verus!
