use vstd::prelude::*;
use vstd::string::StrSliceExecFns;

use crate::captures::{names_of, Captures, Match};
use crate::character::{chars_of, Advancer, AdvancerIterator};
use crate::ehir::{
    program_shape, spec_capturing, spec_consume_one, tokens_view, Ehir, Modifier, NoMatch,
    SpecDecision, SpecToken, Token,
};
use crate::matcher::{
    caps_evolve, caps_ok, eval_decision_spec, lemma_run_seq_frame, lemma_run_seq_singleton,
    run_seq, run_tok, run_tokens, st_of, step_spec, Flow, MState,
};
use crate::vectormap::VectorMap;

verus! {

/// Capture slots before any attempt: `n` empty slots.
pub open spec fn empty_caps(n: nat) -> Seq<Option<(usize, usize)>> {
    Seq::new(n, |i: int| None)
}

/// What the leftmost scan returns: the capture slots of the first position
/// at or after `start` where an attempt of the program succeeds, with the
/// slots cleared before every attempt.
pub open spec fn rf_spec(prog: Seq<SpecToken>, cc: nat, text: Seq<char>, start: int) -> Option<
    Seq<Option<(usize, usize)>>,
>
    decreases text.len() - start + 1,
{
    if start > text.len() || start < 0 {
        None
    } else {
        match step_spec(prog, text, empty_caps(cc), start) {
            Some(c) => Some(c),
            None => rf_spec(prog, cc, text, start + 1),
        }
    }
}

/// A successful attempt of a whole-match-shaped program records the whole
/// match in slot zero: it begins at the attempt position and ends within
/// the text; the other slots hold spans from the same range.
pub proof fn lemma_step_success(
    prog: Seq<SpecToken>,
    text: Seq<char>,
    caps0: Seq<Option<(usize, usize)>>,
    start: int,
)
    requires
        program_shape(prog),
        0 <= start <= text.len() <= usize::MAX,
        caps0.len() >= 1,
    ensures
        match step_spec(prog, text, caps0, start) {
            Some(c) => {
                &&& c.len() == caps0.len()
                &&& c[0] matches Some(p)
                &&& c[0]->Some_0.0 == start
                &&& start <= c[0]->Some_0.1 <= text.len()
                &&& caps_evolve(caps0, c, start, c[0]->Some_0.1 as int)
            },
            None => true,
        },
{
    let st0 = MState { pos: start, counts: Seq::empty(), caps: caps0 };
    let b = prog[0]->Block_0;
    let inner = b[0]->Capture_1;
    let (sti, fi) = run_seq(inner, text, st0);
    lemma_run_seq_frame(inner, text, st0);
    lemma_run_seq_singleton(b[0], text, st0);
    assert(b =~= seq![b[0]]);
    lemma_run_seq_singleton(prog[0], text, st0);
    assert(prog =~= seq![prog[0]]);
    let (st1, f1) = run_tok(b[0], text, st0);
    if fi is Proceed {
        assert(st1.caps == sti.caps.update(0, Some((start as usize, sti.pos as usize))));
    }
}

/// A successful leftmost scan yields slots whose whole match starts at or
/// after the scan start, and every recorded span lies within the text.
pub proof fn lemma_rf_success(prog: Seq<SpecToken>, cc: nat, text: Seq<char>, start: int)
    requires
        program_shape(prog),
        0 <= start,
        text.len() <= usize::MAX,
        cc >= 1,
    ensures
        match rf_spec(prog, cc, text, start) {
            Some(c) => {
                &&& c.len() == cc
                &&& c[0] matches Some(p)
                &&& start <= c[0]->Some_0.0 == c[0]->Some_0.1 || start <= c[0]->Some_0.0
                    < c[0]->Some_0.1
                &&& c[0]->Some_0.0 <= c[0]->Some_0.1 <= text.len()
                &&& caps_ok(c, text.len() as int)
            },
            None => true,
        },
    decreases text.len() - start + 1,
{
    if 0 <= start <= text.len() {
        lemma_step_success(prog, text, empty_caps(cc), start);
        match step_spec(prog, text, empty_caps(cc), start) {
            Some(c) => {},
            None => {
                lemma_rf_success(prog, cc, text, start + 1);
            },
        }
    }
}

/// A compiled matcher held as data: the token program of the pattern, its
/// capture names, and its slot count. Matching runs the program with the
/// interpreter; the engine itself is immutable.
#[derive(Debug)]
pub struct Engine {
    program: Vec<Token>,
    named_groups: Vec<(String, usize)>,
    capture_count: usize,
}

/// Name-table entries with the slot index widened to a machine word.
pub open spec fn names_widened(s: Seq<(Seq<char>, u32)>) -> Seq<(Seq<char>, usize)> {
    Seq::new(s.len(), |i: int| (s[i].0, s[i].1 as usize))
}

impl Engine {
    #[verifier::type_invariant]
    closed spec fn wf(self) -> bool {
        &&& 1 <= self.capture_count < 64
        &&& program_shape(tokens_view(self.program@))
    }

    /// The ghost shape of the token program.
    pub closed spec fn program_view(&self) -> Seq<SpecToken> {
        tokens_view(self.program@)
    }

    /// The named groups and their slot indices.
    pub closed spec fn names_view(&self) -> Seq<(Seq<char>, usize)> {
        names_of(self.named_groups@)
    }

    /// The number of capture slots, slot zero included.
    pub closed spec fn count_view(&self) -> usize {
        self.capture_count
    }

    /// Builds the engine of a lowered pattern.
    pub fn new(ehir: Ehir) -> (r: Engine)
        ensures
            r.program_view() == ehir.program_view(),
            r.names_view() == names_widened(ehir.names_v()),
            r.count_view() == ehir.count_view(),
    {
        let (program, names32, capture_count) = ehir.into_parts();
        let mut named_groups: Vec<(String, usize)> = Vec::new();
        let n = names32.len();
        let mut k: usize = 0;
        while k < n
            invariant
                k <= n,
                n == names32@.len(),
                named_groups@.len() == k,
                forall|i: int|
                    0 <= i < k ==> (#[trigger] named_groups@[i]).0@ == names32@[i].0@
                        && named_groups@[i].1 == names32@[i].1 as usize,
            decreases n - k,
        {
            let nm = names32[k].0.clone();
            let ix = names32[k].1;
            named_groups.push((nm, ix as usize));
            k += 1;
        }
        let r = Engine { program, named_groups, capture_count: capture_count as usize };
        proof {
            assert(r.names_view() =~= names_widened(crate::ehir::names_view(names32@)));
        }
        r
    }

    /// Builds an engine directly from a token program; used for the
    /// library's own pre-compiled patterns.
    pub(crate) fn from_raw_parts(
        program: Vec<Token>,
        named_groups: Vec<(String, usize)>,
        capture_count: usize,
    ) -> (r: Engine)
        requires
            1 <= capture_count < 64,
            program_shape(tokens_view(program@)),
        ensures
            r.program_view() == tokens_view(program@),
            r.names_view() == names_of(named_groups@),
            r.count_view() == capture_count,
    {
        Engine { program, named_groups, capture_count }
    }

    /// Every engine's program captures the whole match into slot zero, and
    /// its slot count fits the capture store.
    pub(crate) fn shape_facts(&self)
        ensures
            program_shape(self.program_view()),
            1 <= self.count_view() < 64,
    {
        proof {
            use_type_invariant(self);
        }
    }

    /// The number of capture slots, slot zero included.
    pub fn capture_count(&self) -> (r: usize)
        ensures
            r == self.count_view(),
            1 <= r < 64,
    {
        proof {
            use_type_invariant(self);
        }
        self.capture_count
    }

    /// The capture-name table: each named group and its slot index.
    pub fn capture_names(&self) -> (r: &Vec<(String, usize)>)
        ensures
            names_of(r@) == self.names_view(),
    {
        &self.named_groups
    }

    /// Tries one match attempt starting at the cursor's position. On success
    /// the slots hold the recorded spans; on failure they may be partially
    /// written and the caller clears them.
    pub fn step(&self, chars: Advancer, captures: &mut VectorMap<(usize, usize)>) -> (r: Option<
        (),
    >)
        ensures
            match step_spec(
                self.program_view(),
                chars.text_view(),
                old(captures)@,
                chars.pos_view(),
            ) {
                Some(c) => r is Some && final(captures)@ == c,
                None => r is None,
            },
            final(captures)@.len() == old(captures)@.len(),
    {
        let mut adv = chars;
        let _bounds = adv.index();
        let _len = adv.text_len();
        proof {
            lemma_run_seq_frame(
                self.program_view(),
                adv.text_view(),
                st_of(adv, Seq::empty(), captures@),
            );
        }
        let mut counts: Vec<u64> = Vec::new();
        let f = run_tokens(&self.program, &mut adv, &mut counts, captures);
        if f == Flow::Proceed {
            Some(())
        } else {
            None
        }
    }

    /// The leftmost scan: try one attempt per candidate position from
    /// `start` on, clearing the slots in between, and return the slots of
    /// the first success.
    pub fn regex_function(&self, text: &str, start: usize) -> (r: Option<VectorMap<(usize, usize)>>)
        requires
            start <= text@.len(),
        ensures
            text@.len() <= usize::MAX,
            match rf_spec(self.program_view(), self.count_view() as nat, text@, start as int) {
                Some(c) => r matches Some(m) && m@ == c,
                None => r is None,
            },
    {
        proof {
            use_type_invariant(self);
        }
        let ghost prog = self.program_view();
        let ghost cc = self.count_view() as nat;
        let chars = chars_of(text);
        let _len = chars.len();
        let mut captures: VectorMap<(usize, usize)> = VectorMap::new(self.capture_count);
        let mut it = AdvancerIterator::new(&chars, start);
        loop
            invariant
                prog == self.program_view(),
                cc == self.count_view() as nat,
                text@.len() <= usize::MAX,
                it.text_view() == text@,
                captures@.len() == cc,
                match it.next_start() {
                    Some(p) => start <= p <= text@.len() && rf_spec(prog, cc, text@, start as int)
                        == rf_spec(prog, cc, text@, p),
                    None => rf_spec(prog, cc, text@, start as int) is None,
                },
            decreases (match it.next_start() {
                Some(p) => text@.len() + 1 - p,
                None => 0int,
            }),
        {
            captures.clear();
            match it.next() {
                None => {
                    return None;
                },
                Some(adv) => {
                    let ghost p = adv.pos_view();
                    proof {
                        assert(captures@ =~= empty_caps(cc));
                    }
                    match self.step(adv, &mut captures) {
                        Some(_) => {
                            return Some(captures);
                        },
                        None => {
                            proof {
                                if p == text@.len() {
                                    assert(rf_spec(prog, cc, text@, p + 1) is None);
                                }
                            }
                        },
                    }
                },
            }
        }
    }

    /// Whether the pattern matches anywhere in the text.
    pub fn is_match(&self, text: &str) -> (r: bool)
        ensures
            r == (rf_spec(self.program_view(), self.count_view() as nat, text@, 0) is Some),
    {
        self.regex_function(text, 0).is_some()
    }

    /// The leftmost match, if any: the whole-match span of the first
    /// position where an attempt succeeds.
    pub fn find<'t>(&self, text: &'t str) -> (r: Option<Match<'t>>)
        ensures
            match rf_spec(self.program_view(), self.count_view() as nat, text@, 0) {
                Some(c) => {
                    &&& r matches Some(m)
                    &&& m.text_view() == text@
                    &&& c[0] matches Some(p)
                    &&& m.start_view() == c[0]->Some_0.0
                    &&& m.end_view() == c[0]->Some_0.1
                },
                None => r is None,
            },
    {
        proof {
            use_type_invariant(self);
        }
        match self.regex_function(text, 0) {
            Some(matches) => {
                proof {
                    lemma_rf_success(
                        self.program_view(),
                        self.count_view() as nat,
                        text@,
                        0,
                    );
                }
                match matches.get(0) {
                    Some(p) => Some(Match::new(text, p.0, p.1)),
                    None => vstd::pervasive::unreached(),
                }
            },
            None => None,
        }
    }

    /// The captures of the leftmost match, if any.
    pub fn captures<'t>(&self, text: &'t str) -> (r: Option<Captures<'t>>)
        ensures
            match rf_spec(self.program_view(), self.count_view() as nat, text@, 0) {
                Some(c) => {
                    &&& r matches Some(cap)
                    &&& cap.text_view() == text@
                    &&& cap.caps_view() == c
                    &&& cap.names_view() == self.names_view()
                },
                None => r is None,
            },
    {
        proof {
            use_type_invariant(self);
        }
        match self.regex_function(text, 0) {
            Some(captures) => {
                proof {
                    lemma_rf_success(
                        self.program_view(),
                        self.count_view() as nat,
                        text@,
                        0,
                    );
                }
                Some(
                    Captures::from_parts(
                        text,
                        captures,
                        clone_names(&self.named_groups),
                        self.capture_count,
                    ),
                )
            },
            None => None,
        }
    }
}

/// Copies a capture-name table, name for name.
pub(crate) fn clone_names(src: &Vec<(String, usize)>) -> (r: Vec<(String, usize)>)
    ensures
        names_of(r@) == names_of(src@),
{
    let n = src.len();
    let mut out: Vec<(String, usize)> = Vec::new();
    let mut k: usize = 0;
    while k < n
        invariant
            k <= n,
            n == src@.len(),
            out@.len() == k,
            forall|i: int|
                0 <= i < k ==> (#[trigger] out@[i]).0@ == src@[i].0@ && out@[i].1 == src@[i].1,
        decreases n - k,
    {
        let nm = src[k].0.clone();
        let ix = src[k].1;
        out.push((nm, ix));
        k += 1;
    }
    proof {
        assert(names_of(out@) =~= names_of(src@));
    }
    out
}


/// One step of capture iteration from a scan state: the next emitted slots,
/// if any, with the scan state that follows. An empty match advances the
/// state one character to guarantee progress, and an empty match exactly
/// where the previous match ended is skipped.
pub open spec fn cm_next(
    prog: Seq<SpecToken>,
    cc: nat,
    text: Seq<char>,
    last_end: int,
    last_match: Option<int>,
) -> (Option<Seq<Option<(usize, usize)>>>, int, Option<int>)
    decreases text.len() + 2 - last_end,
{
    if last_end > text.len() {
        (None, last_end, last_match)
    } else {
        match rf_spec(prog, cc, text, last_end) {
            None => (None, last_end, last_match),
            Some(c) => {
                let p = c[0]->Some_0;
                let s = p.0 as int;
                let e = p.1 as int;
                if s == e {
                    if last_match == Some(e) {
                        if last_end < e + 1 && e <= text.len() {
                            cm_next(prog, cc, text, e + 1, last_match)
                        } else {
                            (None, last_end, last_match)
                        }
                    } else {
                        (Some(c), e + 1, Some(e))
                    }
                } else {
                    (Some(c), e, Some(e))
                }
            },
        }
    }
}

/// What one iteration step emits and where it leaves the state: the emitted
/// whole match lies between the old scan position and the end of the text,
/// and the state moves past it.
pub proof fn lemma_cm_next_bounds(
    prog: Seq<SpecToken>,
    cc: nat,
    text: Seq<char>,
    last_end: int,
    last_match: Option<int>,
)
    requires
        program_shape(prog),
        cc >= 1,
        0 <= last_end,
        text.len() <= usize::MAX,
    ensures
        ({
            let (r, le2, lm2) = cm_next(prog, cc, text, last_end, last_match);
            match r {
                Some(c) => {
                    &&& c.len() == cc
                    &&& caps_ok(c, text.len() as int)
                    &&& c[0] matches Some(p)
                    &&& last_end <= c[0]->Some_0.0 <= c[0]->Some_0.1 <= text.len()
                    &&& le2 == if c[0]->Some_0.0 == c[0]->Some_0.1 {
                        c[0]->Some_0.1 + 1
                    } else {
                        c[0]->Some_0.1 as int
                    }
                    &&& last_end < le2 <= text.len() + 1
                    &&& lm2 == Some(c[0]->Some_0.1 as int)
                },
                None => cm_next(prog, cc, text, le2, lm2) == (
                    None::<Seq<Option<(usize, usize)>>>,
                    le2,
                    lm2,
                ),
            }
        }),
    decreases text.len() + 2 - last_end,
{
    if last_end <= text.len() {
        lemma_rf_success(prog, cc, text, last_end);
        match rf_spec(prog, cc, text, last_end) {
            None => {},
            Some(c) => {
                let p = c[0]->Some_0;
                if p.0 == p.1 && last_match == Some(p.1 as int) {
                    lemma_cm_next_bounds(prog, cc, text, p.1 + 1, last_match);
                }
            },
        }
    }
}

/// Walks the captures of every match of a pattern in a text, in input
/// order.
pub struct CaptureMatches<'t, 'r> {
    regex: &'r Engine,
    text: &'t str,
    last_end: usize,
    last_match: Option<usize>,
    finished: bool,
}

impl<'t, 'r> CaptureMatches<'t, 'r> {
    #[verifier::type_invariant]
    closed spec fn wf(self) -> bool {
        !self.finished ==> self.last_end <= self.text@.len()
    }

    /// The text being scanned.
    pub closed spec fn text_view(&self) -> Seq<char> {
        self.text@
    }

    /// The engine driving the scan.
    pub closed spec fn engine_view(&self) -> Engine {
        *self.regex
    }

    /// The position the next scan starts at; one past the end once the scan
    /// is over.
    pub closed spec fn le_view(&self) -> int {
        if self.finished {
            self.text@.len() as int + 1
        } else {
            self.last_end as int
        }
    }

    /// The end of the last emitted match, if any.
    pub closed spec fn lm_view(&self) -> Option<int> {
        match self.last_match {
            Some(e) => Some(e as int),
            None => None,
        }
    }

    pub(crate) fn new(regex: &'r Engine, text: &'t str) -> (r: CaptureMatches<'t, 'r>)
        ensures
            r.text_view() == text@,
            r.engine_view() == *regex,
            r.le_view() == 0,
            r.lm_view() == None::<int>,
    {
        CaptureMatches { regex, text, last_end: 0, last_match: None, finished: false }
    }

    /// The text being scanned.
    pub fn text(&self) -> (r: &'t str)
        ensures
            r@ == self.text_view(),
    {
        self.text
    }

    /// The captures of the next match, or `None` once no match remains.
    pub fn next(&mut self) -> (r: Option<Captures<'t>>)
        ensures
            final(self).text_view() == old(self).text_view(),
            final(self).engine_view() == old(self).engine_view(),
            ({
                let (r0, le2, lm2) = cm_next(
                    old(self).engine_view().program_view(),
                    old(self).engine_view().count_view() as nat,
                    old(self).text_view(),
                    old(self).le_view(),
                    old(self).lm_view(),
                );
                &&& final(self).le_view() == le2
                &&& final(self).lm_view() == lm2
                &&& match r {
                    Some(cap) => {
                        &&& r0 matches Some(c)
                        &&& cap.caps_view() == c
                        &&& cap.text_view() == old(self).text_view()
                        &&& cap.names_view() == old(self).engine_view().names_view()
                    },
                    None => r0 is None,
                }
            }),
    {
        proof {
            use_type_invariant(&*self);
        }
        let ghost prog = self.regex.program_view();
        let ghost cc = self.regex.count_view() as nat;
        let ghost text = self.text@;
        let ghost le0 = self.le_view();
        let ghost lm0 = self.lm_view();
        let textlen = self.text.unicode_len();
        loop
            invariant
                prog == self.regex.program_view(),
                cc == self.regex.count_view() as nat,
                text == self.text@,
                textlen == text.len(),
                self.wf(),
                cm_next(prog, cc, text, le0, lm0) == cm_next(
                    prog,
                    cc,
                    text,
                    self.le_view(),
                    self.lm_view(),
                ),
                *self.regex == old(self).engine_view(),
                self.text@ == old(self).text_view(),
                le0 == old(self).le_view(),
                lm0 == old(self).lm_view(),
                le0 >= 0,
            decreases text.len() + 2 - self.le_view(),
        {
            proof {
                use_type_invariant(self.regex);
            }
            if self.finished {
                proof {
                    assert(cm_next(prog, cc, text, self.le_view(), self.lm_view()) == (
                        None::<Seq<Option<(usize, usize)>>>,
                        self.le_view(),
                        self.lm_view(),
                    ));
                }
                return None;
            }
            proof {
                lemma_cm_next_bounds(prog, cc, text, self.le_view(), self.lm_view());
            }
            match self.regex.regex_function(self.text, self.last_end) {
                None => {
                    proof {
                        assert(cm_next(prog, cc, text, self.le_view(), self.lm_view()) == (
                            None::<Seq<Option<(usize, usize)>>>,
                            self.le_view(),
                            self.lm_view(),
                        ));
                    }
                    return None;
                },
                Some(vm) => {
                    proof {
                        lemma_rf_success(prog, cc, text, self.last_end as int);
                    }
                    let (s, e) = match vm.get(0) {
                        Some(p) => (p.0, p.1),
                        None => vstd::pervasive::unreached(),
                    };
                    let ghost le_pre = self.le_view();
                    let ghost lm_pre = self.lm_view();
                    if s == e {
                        let skip = match self.last_match {
                            Some(lm) => lm == e,
                            None => false,
                        };
                        if e < textlen {
                            self.last_end = e + 1;
                        } else {
                            self.finished = true;
                        }
                        if skip {
                            proof {
                                assert(cm_next(prog, cc, text, le_pre, lm_pre) == cm_next(
                                    prog,
                                    cc,
                                    text,
                                    self.le_view(),
                                    self.lm_view(),
                                ));
                            }
                            continue ;
                        }
                        self.last_match = Some(e);
                        proof {
                            assert(self.le_view() == e + 1);
                            assert(cm_next(prog, cc, text, le_pre, lm_pre) == (
                                Some(vm@),
                                self.le_view(),
                                self.lm_view(),
                            ));
                        }
                        return Some(
                            Captures::from_parts(
                                self.text,
                                vm,
                                clone_names(self.regex.capture_names()),
                                self.regex.capture_count(),
                            ),
                        );
                    } else {
                        self.last_end = e;
                        self.last_match = Some(e);
                        proof {
                            assert(cm_next(prog, cc, text, le_pre, lm_pre) == (
                                Some(vm@),
                                self.le_view(),
                                self.lm_view(),
                            ));
                        }
                        return Some(
                            Captures::from_parts(
                                self.text,
                                vm,
                                clone_names(self.regex.capture_names()),
                                self.regex.capture_count(),
                            ),
                        );
                    }
                },
            }
        }
    }
}

/// Walks the whole-match spans of every match of a pattern in a text, in
/// input order.
pub struct Matches<'t, 'r> {
    capture_match: CaptureMatches<'t, 'r>,
}

impl<'t, 'r> Matches<'t, 'r> {
    /// The text being scanned.
    pub closed spec fn text_view(&self) -> Seq<char> {
        self.capture_match.text_view()
    }

    /// The engine driving the scan.
    pub closed spec fn engine_view(&self) -> Engine {
        self.capture_match.engine_view()
    }

    /// The position the next scan starts at.
    pub closed spec fn le_view(&self) -> int {
        self.capture_match.le_view()
    }

    /// The end of the last emitted match, if any.
    pub closed spec fn lm_view(&self) -> Option<int> {
        self.capture_match.lm_view()
    }

    pub(crate) fn new(capture_match: CaptureMatches<'t, 'r>) -> (r: Matches<'t, 'r>)
        ensures
            r.text_view() == capture_match.text_view(),
            r.engine_view() == capture_match.engine_view(),
            r.le_view() == capture_match.le_view(),
            r.lm_view() == capture_match.lm_view(),
    {
        Matches { capture_match }
    }

    /// The text being scanned.
    pub fn text(&self) -> (r: &'t str)
        ensures
            r@ == self.text_view(),
    {
        self.capture_match.text()
    }

    /// The span of the next match, or `None` once no match remains.
    pub fn next(&mut self) -> (r: Option<Match<'t>>)
        ensures
            final(self).text_view() == old(self).text_view(),
            final(self).engine_view() == old(self).engine_view(),
            ({
                let (r0, le2, lm2) = cm_next(
                    old(self).engine_view().program_view(),
                    old(self).engine_view().count_view() as nat,
                    old(self).text_view(),
                    old(self).le_view(),
                    old(self).lm_view(),
                );
                &&& final(self).le_view() == le2
                &&& final(self).lm_view() == lm2
                &&& match r {
                    Some(m) => {
                        &&& r0 matches Some(c)
                        &&& c[0] matches Some(p)
                        &&& m.text_view() == old(self).text_view()
                        &&& m.start_view() == c[0]->Some_0.0
                        &&& m.end_view() == c[0]->Some_0.1
                    },
                    None => r0 is None,
                }
            }),
    {
        match self.capture_match.next() {
            Some(capture) => Some(capture.first()),
            None => None,
        }
    }
}

impl Engine {
    /// Walks the whole-match spans of every match in the text.
    pub fn find_iter<'t, 'r>(&'r self, text: &'t str) -> (r: Matches<'t, 'r>)
        ensures
            r.text_view() == text@,
            r.engine_view() == *self,
            r.le_view() == 0,
            r.lm_view() == None::<int>,
    {
        Matches::new(self.captures_iter(text))
    }

    /// Walks the captures of every match in the text.
    pub fn captures_iter<'t, 'r>(&'r self, text: &'t str) -> (r: CaptureMatches<'t, 'r>)
        ensures
            r.text_view() == text@,
            r.engine_view() == *self,
            r.le_view() == 0,
            r.lm_view() == None::<int>,
    {
        CaptureMatches::new(self, text)
    }
}


/// Walks the stretches of text between the matches of a pattern; after the
/// last match the remaining tail is yielded once.
pub struct Split<'t, 'r> {
    finder: Matches<'t, 'r>,
    last: usize,
    done: bool,
}

impl<'t, 'r> Split<'t, 'r> {
    /// The split state stays valid: the next piece starts inside the text
    /// and no later than the next scan position.
    pub closed spec fn inv(&self) -> bool {
        !self.done ==> self.last <= self.finder.text_view().len() && self.last as int
            <= self.finder.le_view()
    }

    /// The text being split.
    pub closed spec fn text_view(&self) -> Seq<char> {
        self.finder.text_view()
    }

    /// The engine driving the scan.
    pub closed spec fn engine_view(&self) -> Engine {
        self.finder.engine_view()
    }

    /// The scan state of the underlying match walk.
    pub closed spec fn le_view(&self) -> int {
        self.finder.le_view()
    }

    /// The end of the last emitted match, if any.
    pub closed spec fn lm_view(&self) -> Option<int> {
        self.finder.lm_view()
    }

    /// Where the next piece starts.
    pub closed spec fn last_view(&self) -> int {
        self.last as int
    }

    /// Whether the tail piece has been yielded.
    pub closed spec fn done_view(&self) -> bool {
        self.done
    }

    pub(crate) fn new(finder: Matches<'t, 'r>) -> (r: Split<'t, 'r>)
        requires
            finder.le_view() == 0,
        ensures
            r.text_view() == finder.text_view(),
            r.engine_view() == finder.engine_view(),
            r.le_view() == finder.le_view(),
            r.lm_view() == finder.lm_view(),
            r.last_view() == 0,
            !r.done_view(),
            r.inv(),
    {
        Split { finder, last: 0, done: false }
    }

    /// The stretch of text before the next match, or the tail after the
    /// last one; `None` once the tail has been yielded.
    pub fn next(&mut self) -> (r: Option<&'t str>)
        requires
            old(self).inv(),
        ensures
            final(self).inv(),
            final(self).text_view() == old(self).text_view(),
            final(self).engine_view() == old(self).engine_view(),
            ({
                let (r0, le2, lm2) = cm_next(
                    old(self).engine_view().program_view(),
                    old(self).engine_view().count_view() as nat,
                    old(self).text_view(),
                    old(self).le_view(),
                    old(self).lm_view(),
                );
                if old(self).done_view() {
                    r is None && final(self).done_view()
                } else {
                    match r0 {
                        Some(c) => {
                            &&& c[0] matches Some(p)
                            &&& r matches Some(piece)
                            &&& piece@ == old(self).text_view().subrange(
                                old(self).last_view(),
                                c[0]->Some_0.0 as int,
                            )
                            &&& final(self).last_view() == c[0]->Some_0.1
                            &&& final(self).le_view() == le2
                            &&& final(self).lm_view() == lm2
                            &&& !final(self).done_view()
                        },
                        None => {
                            &&& r matches Some(piece)
                            &&& piece@ == old(self).text_view().subrange(
                                old(self).last_view(),
                                old(self).text_view().len() as int,
                            )
                            &&& final(self).done_view()
                        },
                    }
                }
            }),
    {
        proof {
            use_type_invariant(self.finder.capture_match.regex);
        }
        if self.done {
            return None;
        }
        let ghost prog = self.engine_view().program_view();
        let ghost cc = self.engine_view().count_view() as nat;
        let ghost text = self.text_view();
        let t = self.finder.text();
        let tl = t.unicode_len();
        proof {
            lemma_cm_next_bounds(prog, cc, text, self.le_view(), self.lm_view());
        }
        match self.finder.next() {
            None => {
                let piece = t.substring_char(self.last, tl);
                self.done = true;
                Some(piece)
            },
            Some(m) => {
                let piece = t.substring_char(self.last, m.start());
                self.last = m.end();
                Some(piece)
            },
        }
    }
}

impl Engine {
    /// Walks the stretches of text between the matches, the tail included.
    pub fn split<'t, 'r>(&'r self, text: &'t str) -> (r: Split<'t, 'r>)
        ensures
            r.text_view() == text@,
            r.engine_view() == *self,
            r.le_view() == 0,
            r.lm_view() == None::<int>,
            r.last_view() == 0,
            !r.done_view(),
            r.inv(),
    {
        Split::new(self.find_iter(text))
    }
}


/// Whether an attempt succeeds does not depend on what the slots held
/// beforehand.
pub proof fn lemma_step_flow(
    prog: Seq<SpecToken>,
    text: Seq<char>,
    caps_a: Seq<Option<(usize, usize)>>,
    caps_b: Seq<Option<(usize, usize)>>,
    start: int,
)
    ensures
        step_spec(prog, text, caps_a, start) is Some <==> step_spec(prog, text, caps_b, start)
            is Some,
{
    crate::matcher::lemma_run_seq_flow(
        prog,
        text,
        MState { pos: start, counts: Seq::empty(), caps: caps_a },
        MState { pos: start, counts: Seq::empty(), caps: caps_b },
    );
}

/// The leftmost scan succeeds exactly when an attempt succeeds at some
/// position between the scan start and the end of the text.
pub proof fn lemma_rf_exists(prog: Seq<SpecToken>, cc: nat, text: Seq<char>, start: int)
    requires
        0 <= start,
    ensures
        rf_spec(prog, cc, text, start) is Some <==> exists|p: int|
            start <= p <= text.len() && step_spec(prog, text, empty_caps(cc), p) is Some,
    decreases text.len() - start + 1,
{
    if start <= text.len() {
        lemma_rf_exists(prog, cc, text, start + 1);
        if step_spec(prog, text, empty_caps(cc), start) is Some {
            assert(start <= start <= text.len() && step_spec(prog, text, empty_caps(cc), start)
                is Some);
        }
    }
}

/// Whether an engine matches a text anywhere.
pub open spec fn engine_matches(e: Engine, text: Seq<char>) -> bool {
    rf_spec(e.program_view(), e.count_view() as nat, text, 0) is Some
}


/// Whether a scan succeeds does not depend on how many slots the capture
/// store was given.
pub proof fn lemma_rf_caps_any(prog: Seq<SpecToken>, cc1: nat, cc2: nat, text: Seq<char>, start: int)
    requires
        0 <= start,
    ensures
        rf_spec(prog, cc1, text, start) is Some <==> rf_spec(prog, cc2, text, start) is Some,
{
    lemma_rf_exists(prog, cc1, text, start);
    lemma_rf_exists(prog, cc2, text, start);
    if rf_spec(prog, cc1, text, start) is Some {
        let p = choose|p: int|
            start <= p <= text.len() && step_spec(prog, text, empty_caps(cc1), p) is Some;
        lemma_step_flow(prog, text, empty_caps(cc1), empty_caps(cc2), p);
        assert(start <= p <= text.len() && step_spec(prog, text, empty_caps(cc2), p) is Some);
    }
    if rf_spec(prog, cc2, text, start) is Some {
        let p = choose|p: int|
            start <= p <= text.len() && step_spec(prog, text, empty_caps(cc2), p) is Some;
        lemma_step_flow(prog, text, empty_caps(cc2), empty_caps(cc1), p);
        assert(start <= p <= text.len() && step_spec(prog, text, empty_caps(cc1), p) is Some);
    }
}


/// A program whose body begins by consuming one required literal fails its
/// attempt wherever that literal is not the current character.
pub proof fn lemma_literal_prefix_fail(
    cp: u32,
    rest: Seq<SpecToken>,
    text: Seq<char>,
    caps0: Seq<Option<(usize, usize)>>,
    p: int,
)
    requires
        0 <= p <= text.len(),
        !(crate::character::cur_at(text, p) matches Some(c) && c as u32 == cp),
    ensures
        step_spec(
            spec_capturing(0, spec_consume_one(SpecDecision::Literal(cp), false) + rest),
            text,
            caps0,
            p,
        ) is None,
{
    let sco = spec_consume_one(SpecDecision::Literal(cp), false);
    let inner = sco + rest;
    let prog = spec_capturing(0, inner);
    let st0 = MState { pos: p, counts: Seq::empty(), caps: caps0 };
    lemma_run_seq_singleton(prog[0], text, st0);
    assert(prog =~= seq![prog[0]]);
    let b = prog[0]->Block_0;
    lemma_run_seq_singleton(b[0], text, st0);
    assert(b =~= seq![b[0]]);
    assert(inner[0] == sco[0]);
    assert(inner[1] == sco[1]);
    if p == text.len() {
        assert(inner[0] == SpecToken::If(Modifier::Not, SpecDecision::Middle, NoMatch::Stop));
        assert(!eval_decision_spec(SpecDecision::Middle, text, p, st0.counts));
        assert(run_tok(inner[0], text, st0) == (st0, Flow::Stopped));
        assert(run_seq(inner, text, st0) == (st0, Flow::Stopped));
    } else {
        let tail1 = inner.subrange(1, inner.len() as int);
        assert(run_tok(inner[0], text, st0) == (st0, Flow::Proceed));
        assert(run_seq(inner, text, st0) == run_seq(tail1, text, st0));
        assert(tail1[0] == inner[1]);
        assert(run_tok(inner[1], text, st0) == (st0, Flow::Stopped));
        assert(run_seq(tail1, text, st0) == (st0, Flow::Stopped));
    }
}

/// A successful attempt of a program whose body begins by consuming one
/// required literal spans at least that character: the whole match runs
/// from the attempt position to some later one, and every slot it records
/// beyond slot zero lies strictly inside the match.
pub proof fn lemma_literal_prefix_span(
    cp: u32,
    rest: Seq<SpecToken>,
    text: Seq<char>,
    caps0: Seq<Option<(usize, usize)>>,
    p: int,
)
    requires
        0 <= p <= text.len() <= usize::MAX,
        caps0.len() >= 1,
    ensures
        ({
            let prog = spec_capturing(0, spec_consume_one(SpecDecision::Literal(cp), false) + rest);
            match step_spec(prog, text, caps0, p) {
                Some(c) => {
                    &&& c.len() == caps0.len()
                    &&& c[0] matches Some(q)
                    &&& c[0]->Some_0.0 == p
                    &&& p + 1 <= c[0]->Some_0.1 <= text.len()
                    &&& forall|i: int|
                        1 <= i < c.len() ==> (#[trigger] c[i] == caps0[i] || (c[i] matches Some(q2)
                            && p + 1 <= q2.0 <= q2.1 <= c[0]->Some_0.1))
                },
                None => true,
            }
        }),
{
    let sco = spec_consume_one(SpecDecision::Literal(cp), false);
    let inner = sco + rest;
    let prog = spec_capturing(0, inner);
    let st0 = MState { pos: p, counts: Seq::empty(), caps: caps0 };
    lemma_run_seq_singleton(prog[0], text, st0);
    assert(prog =~= seq![prog[0]]);
    let b = prog[0]->Block_0;
    lemma_run_seq_singleton(b[0], text, st0);
    assert(b =~= seq![b[0]]);
    assert(inner[0] == sco[0]);
    assert(inner[1] == sco[1]);
    assert(inner[2] == sco[2]);
    if step_spec(prog, text, caps0, p) is Some {
        let tail1 = inner.subrange(1, inner.len() as int);
        let tail2 = inner.subrange(2, inner.len() as int);
        assert(tail1[0] == inner[1]);
        assert(tail2[0] == inner[2]);
        assert(tail1.subrange(1, tail1.len() as int) =~= tail2);
        assert(tail2.subrange(1, tail2.len() as int) =~= rest);
        if p == text.len() {
            assert(inner[0] == SpecToken::If(Modifier::Not, SpecDecision::Middle, NoMatch::Stop));
            assert(!eval_decision_spec(SpecDecision::Middle, text, p, st0.counts));
            assert(run_tok(inner[0], text, st0) == (st0, Flow::Stopped));
            assert(run_seq(inner, text, st0) == (st0, Flow::Stopped));
            assert(false);
        }
        if !(crate::character::cur_at(text, p) matches Some(c) && c as u32 == cp) {
            assert(run_tok(inner[0], text, st0) == (st0, Flow::Proceed));
            assert(run_seq(inner, text, st0) == run_seq(tail1, text, st0));
            assert(run_tok(inner[1], text, st0) == (st0, Flow::Stopped));
            assert(run_seq(tail1, text, st0) == (st0, Flow::Stopped));
            assert(false);
        }
        let st3 = MState { pos: p + 1, ..st0 };
        assert(run_tok(inner[0], text, st0) == (st0, Flow::Proceed));
        assert(run_seq(inner, text, st0) == run_seq(tail1, text, st0));
        assert(run_tok(inner[1], text, st0) == (st0, Flow::Proceed));
        assert(run_seq(tail1, text, st0) == run_seq(tail2, text, st0));
        assert(run_tok(inner[2], text, st0) == (st3, Flow::Proceed));
        assert(run_seq(tail2, text, st0) == run_seq(rest, text, st3));
        lemma_run_seq_frame(rest, text, st3);
        let (sti, fi) = run_seq(rest, text, st3);
        assert(run_seq(inner, text, st0) == (sti, fi));
    }
}

/// The leftmost scan of a literal-prefixed program: on success the whole
/// match spans at least one character and the other slots lie strictly
/// inside it.
pub proof fn lemma_literal_prefix_rf(
    cp: u32,
    rest: Seq<SpecToken>,
    cc: nat,
    text: Seq<char>,
    start: int,
)
    requires
        0 <= start,
        text.len() <= usize::MAX,
        cc >= 1,
    ensures
        ({
            let prog = spec_capturing(0, spec_consume_one(SpecDecision::Literal(cp), false) + rest);
            match rf_spec(prog, cc, text, start) {
                Some(c) => {
                    &&& c.len() == cc
                    &&& c[0] matches Some(q)
                    &&& start <= c[0]->Some_0.0
                    &&& c[0]->Some_0.0 + 1 <= c[0]->Some_0.1 <= text.len()
                    &&& forall|i: int|
                        1 <= i < c.len() ==> (#[trigger] c[i] is None || (c[i] matches Some(q2)
                            && c[0]->Some_0.0 + 1 <= q2.0 <= q2.1 <= c[0]->Some_0.1))
                },
                None => true,
            }
        }),
    decreases text.len() - start + 1,
{
    let prog = spec_capturing(0, spec_consume_one(SpecDecision::Literal(cp), false) + rest);
    if 0 <= start <= text.len() {
        lemma_literal_prefix_span(cp, rest, text, empty_caps(cc), start);
        match step_spec(prog, text, empty_caps(cc), start) {
            Some(c) => {},
            None => {
                lemma_literal_prefix_rf(cp, rest, cc, text, start + 1);
            },
        }
    }
}


/// Every capture set the iteration emits from a scan state, in order.
pub open spec fn match_caps(
    prog: Seq<SpecToken>,
    cc: nat,
    text: Seq<char>,
    last_end: int,
    last_match: Option<int>,
) -> Seq<Seq<Option<(usize, usize)>>>
    decreases text.len() + 2 - last_end,
{
    let (r, le2, lm2) = cm_next(prog, cc, text, last_end, last_match);
    match r {
        None => Seq::empty(),
        Some(c) => {
            if last_end < le2 <= text.len() + 1 {
                seq![c] + match_caps(prog, cc, text, le2, lm2)
            } else {
                seq![c]
            }
        },
    }
}

/// A chain of capture sets from `last` on: each whole match lies within the
/// text, starts no earlier than the chain position, and hands the position
/// one past its end (one further for an empty match) to the next.
pub open spec fn caps_chain(
    text: Seq<char>,
    cs: Seq<Seq<Option<(usize, usize)>>>,
    last: int,
) -> bool
    decreases cs.len(),
{
    if cs.len() == 0 {
        true
    } else {
        &&& cs[0][0] matches Some(q)
        &&& last <= cs[0][0]->Some_0.0
        &&& cs[0][0]->Some_0.0 <= cs[0][0]->Some_0.1 <= text.len()
        &&& caps_chain(
            text,
            cs.subrange(1, cs.len() as int),
            if cs[0][0]->Some_0.0 == cs[0][0]->Some_0.1 {
                cs[0][0]->Some_0.1 + 1
            } else {
                cs[0][0]->Some_0.1 as int
            },
        )
    }
}

/// What the iteration emits forms a chain: matches come in input order and
/// never overlap, and after an empty match the next one starts at least one
/// character later.
pub proof fn lemma_match_caps_chain(
    prog: Seq<SpecToken>,
    cc: nat,
    text: Seq<char>,
    last_end: int,
    last_match: Option<int>,
)
    requires
        program_shape(prog),
        cc >= 1,
        0 <= last_end,
        text.len() <= usize::MAX,
    ensures
        caps_chain(text, match_caps(prog, cc, text, last_end, last_match), last_end),
    decreases text.len() + 2 - last_end,
{
    lemma_cm_next_bounds(prog, cc, text, last_end, last_match);
    let (r, le2, lm2) = cm_next(prog, cc, text, last_end, last_match);
    match r {
        None => {},
        Some(c) => {
            if last_end < le2 <= text.len() + 1 {
                lemma_match_caps_chain(prog, cc, text, le2, lm2);
                let cs = match_caps(prog, cc, text, last_end, last_match);
                assert(cs.subrange(1, cs.len() as int) =~= match_caps(prog, cc, text, le2, lm2));
                lemma_caps_chain_weaken(
                    text,
                    match_caps(prog, cc, text, le2, lm2),
                    le2,
                    if c[0]->Some_0.0 == c[0]->Some_0.1 {
                        c[0]->Some_0.1 + 1
                    } else {
                        c[0]->Some_0.1 as int
                    },
                );
            }
        },
    }
}

/// A chain stays a chain when its starting position moves back.
pub proof fn lemma_caps_chain_weaken(
    text: Seq<char>,
    cs: Seq<Seq<Option<(usize, usize)>>>,
    last: int,
    last2: int,
)
    requires
        caps_chain(text, cs, last),
        last2 <= last,
    ensures
        caps_chain(text, cs, last2),
    decreases cs.len(),
{
    if cs.len() > 0 {
    }
}

/// The text of the whole match of a capture set.
pub open spec fn whole_text(text: Seq<char>, c: Seq<Option<(usize, usize)>>) -> Seq<char> {
    text.subrange(c[0]->Some_0.0 as int, c[0]->Some_0.1 as int)
}

/// The stretches of text between the chained matches, interleaved with the
/// given insertions, one per match.
pub open spec fn splice_from(
    text: Seq<char>,
    cs: Seq<Seq<Option<(usize, usize)>>>,
    ins: Seq<Seq<char>>,
    last: int,
) -> Seq<char>
    decreases cs.len(),
{
    if cs.len() == 0 {
        Seq::empty()
    } else {
        text.subrange(last, cs[0][0]->Some_0.0 as int) + ins[0] + splice_from(
            text,
            cs.subrange(1, cs.len() as int),
            ins.subrange(1, ins.len() as int),
            cs[0][0]->Some_0.1 as int,
        )
    }
}

/// Where the tail piece after the last chained match begins.
pub open spec fn splice_tail_start(cs: Seq<Seq<Option<(usize, usize)>>>, last: int) -> int {
    if cs.len() == 0 {
        last
    } else {
        cs.last()[0]->Some_0.1 as int
    }
}

/// Splicing each match's own text back between the pieces rebuilds the text.
pub proof fn lemma_splice_identity(
    text: Seq<char>,
    cs: Seq<Seq<Option<(usize, usize)>>>,
    ins: Seq<Seq<char>>,
    last: int,
)
    requires
        caps_chain(text, cs, last),
        0 <= last <= text.len(),
        ins.len() == cs.len(),
        forall|i: int| 0 <= i < cs.len() ==> #[trigger] ins[i] == whole_text(text, cs[i]),
    ensures
        splice_from(text, cs, ins, last) + text.subrange(
            splice_tail_start(cs, last),
            text.len() as int,
        ) == text.subrange(last, text.len() as int),
    decreases cs.len(),
{
    if cs.len() == 0 {
        assert(splice_from(text, cs, ins, last) + text.subrange(
            splice_tail_start(cs, last),
            text.len() as int,
        ) =~= text.subrange(last, text.len() as int));
    } else {
        let cs1 = cs.subrange(1, cs.len() as int);
        let ins1 = ins.subrange(1, ins.len() as int);
        let s = cs[0][0]->Some_0.0 as int;
        let e = cs[0][0]->Some_0.1 as int;
        lemma_caps_chain_weaken(text, cs1, if s == e { e + 1 } else { e }, e);
        lemma_splice_identity(text, cs1, ins1, e);
        if cs1.len() == 0 {
            assert(splice_tail_start(cs, last) == e);
        } else {
            assert(cs.last() == cs1.last());
            assert(splice_tail_start(cs, last) == splice_tail_start(cs1, e));
        }
        assert(splice_from(text, cs, ins, last) + text.subrange(
            splice_tail_start(cs, last),
            text.len() as int,
        ) =~= text.subrange(last, s) + whole_text(text, cs[0]) + (splice_from(text, cs1, ins1, e)
            + text.subrange(splice_tail_start(cs1, e), text.len() as int)));
        assert(text.subrange(last, s) + whole_text(text, cs[0]) + text.subrange(
            e,
            text.len() as int,
        ) =~= text.subrange(last, text.len() as int));
    }
}


/// What a replacer appends for each of a row of matches, in order.
pub open spec fn rep_inserts<R: crate::replacer::Replacer>(
    rep: R,
    cs: Seq<Seq<Option<(usize, usize)>>>,
    ctext: Seq<char>,
    names: Seq<(Seq<char>, usize)>,
) -> Seq<Seq<char>> {
    Seq::new(cs.len(), |i: int| rep.replacement_view(cs[i], ctext, names))
}

impl Engine {
    /// Replaces every match in the text: the stretches between matches are
    /// kept as they stand and each match is handed to the replacer.
    #[verifier::rlimit(100)]
    pub fn replace<R: crate::replacer::Replacer>(&self, text: &str, rep: R) -> (r: String)
        ensures
            ({
                let cs = match_caps(
                    self.program_view(),
                    self.count_view() as nat,
                    text@,
                    0,
                    None,
                );
                r@ == splice_from(
                    text@,
                    cs,
                    rep_inserts(rep, cs, text@, self.names_view()),
                    0,
                ) + text@.subrange(splice_tail_start(cs, 0), text@.len() as int)
            }),
    {
        proof {
            use_type_invariant(self);
        }
        let ghost prog = self.program_view();
        let ghost cc = self.count_view() as nat;
        let ghost names = self.names_view();
        let ghost rep0 = rep;
        let mut rep = rep;
        let tlen = text.unicode_len();
        let ghost cs_full = match_caps(prog, cc, text@, 0, None);
        let mut iter = self.captures_iter(text);
        let mut new = String::new();
        let mut last_match: usize = 0;
        let ghost mut k: int = 0;
        loop
            invariant
                prog == self.program_view(),
                cc == self.count_view() as nat,
                names == self.names_view(),
                program_shape(prog),
                cc >= 1,
                rep == rep0,
                tlen == text@.len(),
                text@.len() <= usize::MAX,
                iter.text_view() == text@,
                iter.engine_view() == *self,
                cs_full == match_caps(prog, cc, text@, 0, None),
                0 <= k <= cs_full.len(),
                match_caps(prog, cc, text@, iter.le_view(), iter.lm_view()) == cs_full.subrange(
                    k,
                    cs_full.len() as int,
                ),
                0 <= iter.le_view(),
                last_match <= tlen,
                last_match as int == splice_tail_start(cs_full.subrange(0, k), 0),
                k < cs_full.len() ==> last_match as int <= cs_full[k][0]->Some_0.0,
                new@ == splice_from(
                    text@,
                    cs_full.subrange(0, k),
                    rep_inserts(rep0, cs_full.subrange(0, k), text@, names),
                    0,
                ),
            ensures
                rep == rep0,
                tlen == text@.len(),
                last_match <= tlen,
                cs_full == match_caps(prog, cc, text@, 0, None),
                last_match as int == splice_tail_start(cs_full, 0),
                new@ == splice_from(text@, cs_full, rep_inserts(rep0, cs_full, text@, names), 0),
            decreases text@.len() + 2 - iter.le_view(),
        {
            let ghost le0 = iter.le_view();
            let ghost lm0 = iter.lm_view();
            proof {
                lemma_cm_next_bounds(prog, cc, text@, le0, lm0);
            }
            match iter.next() {
                None => {
                    proof {
                        assert(cs_full.subrange(k, cs_full.len() as int) =~= Seq::<
                            Seq<Option<(usize, usize)>>,
                        >::empty());
                        assert(k == cs_full.len());
                        assert(cs_full.subrange(0, k) =~= cs_full);
                        assert(rep_inserts(rep0, cs_full.subrange(0, k), text@, names)
                            == rep_inserts(rep0, cs_full, text@, names));
                    }
                    break ;
                },
                Some(capture) => {
                    let m = capture.first();
                    let ghost c = capture.caps_view();
                    let ghost remaining = cs_full.subrange(k, cs_full.len() as int);
                    proof {
                        assert(match_caps(prog, cc, text@, le0, lm0) == seq![c] + match_caps(
                            prog,
                            cc,
                            text@,
                            iter.le_view(),
                            iter.lm_view(),
                        ));
                        assert(remaining.len() > 0);
                        assert(remaining[0] == c);
                        assert(cs_full[k] == c);
                        assert(remaining.subrange(1, remaining.len() as int) =~= cs_full.subrange(
                            k + 1,
                            cs_full.len() as int,
                        ));
                        assert(match_caps(prog, cc, text@, iter.le_view(), iter.lm_view())
                            =~= cs_full.subrange(k + 1, cs_full.len() as int));
                    }
                    new.append(text.substring_char(last_match, m.start()));
                    let ghost pre_insert = new@;
                    rep.replace_append(&capture, &mut new);
                    last_match = m.end();
                    proof {
                        k = k + 1;
                        let done = cs_full.subrange(0, k);
                        assert(done.subrange(0, k - 1) =~= cs_full.subrange(0, k - 1));
                        assert(done.last() == c);
                        lemma_splice_push(
                            text@,
                            cs_full.subrange(0, k - 1),
                            rep_inserts(rep0, cs_full.subrange(0, k - 1), text@, names),
                            c,
                            rep0.replacement_view(c, text@, names),
                            0,
                        );
                        assert(rep_inserts(rep0, done, text@, names) =~= rep_inserts(
                            rep0,
                            cs_full.subrange(0, k - 1),
                            text@,
                            names,
                        ).push(rep0.replacement_view(c, text@, names)));
                        assert(done =~= cs_full.subrange(0, k - 1).push(c));
                        assert(new@ == splice_from(
                            text@,
                            done,
                            rep_inserts(rep0, done, text@, names),
                            0,
                        ));
                        if k < cs_full.len() {
                            lemma_match_caps_chain(prog, cc, text@, iter.le_view(), iter.lm_view());
                            let rem2 = cs_full.subrange(k, cs_full.len() as int);
                            assert(caps_chain(text@, rem2, iter.le_view()));
                            assert(rem2[0] == cs_full[k]);
                        }
                    }
                },
            }
        }
        new.append(text.substring_char(last_match, tlen));
        new
    }
}

/// Extending a chain by one match extends its splice by the piece before
/// the match and the match's insertion.
pub proof fn lemma_splice_push(
    text: Seq<char>,
    cs: Seq<Seq<Option<(usize, usize)>>>,
    ins: Seq<Seq<char>>,
    c: Seq<Option<(usize, usize)>>,
    seg: Seq<char>,
    last: int,
)
    requires
        ins.len() == cs.len(),
    ensures
        splice_from(text, cs.push(c), ins.push(seg), last) == splice_from(text, cs, ins, last)
            + text.subrange(splice_tail_start(cs, last), c[0]->Some_0.0 as int) + seg,
    decreases cs.len(),
{
    if cs.len() == 0 {
        assert(cs.push(c).subrange(1, 1) =~= Seq::<Seq<Option<(usize, usize)>>>::empty());
        assert(ins.push(seg).subrange(1, 1) =~= Seq::<Seq<char>>::empty());
        assert(cs.push(c)[0] == c);
        assert(ins.push(seg)[0] == seg);
        assert(splice_from(
            text,
            cs.push(c).subrange(1, 1),
            ins.push(seg).subrange(1, 1),
            c[0]->Some_0.1 as int,
        ) == Seq::<char>::empty());
        assert(splice_from(text, cs.push(c), ins.push(seg), last) == text.subrange(
            last,
            c[0]->Some_0.0 as int,
        ) + seg + Seq::<char>::empty());
        assert(splice_from(text, cs, ins, last) == Seq::<char>::empty());
        assert(splice_tail_start(cs, last) == last);
        assert(text.subrange(last, c[0]->Some_0.0 as int) + seg + Seq::<char>::empty()
            =~= Seq::<char>::empty() + text.subrange(last, c[0]->Some_0.0 as int) + seg);
    } else {
        let e0 = cs[0][0]->Some_0.1 as int;
        assert(cs.push(c).subrange(1, cs.push(c).len() as int) =~= cs.subrange(
            1,
            cs.len() as int,
        ).push(c));
        assert(ins.push(seg).subrange(1, ins.push(seg).len() as int) =~= ins.subrange(
            1,
            ins.len() as int,
        ).push(seg));
        lemma_splice_push(
            text,
            cs.subrange(1, cs.len() as int),
            ins.subrange(1, ins.len() as int),
            c,
            seg,
            e0,
        );
        if cs.len() == 1 {
            assert(splice_tail_start(cs, last) == e0);
            assert(cs.subrange(1, cs.len() as int) =~= Seq::<Seq<Option<(usize, usize)>>>::empty());
        } else {
            assert(cs.subrange(1, cs.len() as int).last() == cs.last());
        }
        let cs1 = cs.subrange(1, cs.len() as int);
        let ins1 = ins.subrange(1, ins.len() as int);
        assert(cs.push(c)[0] == cs[0]);
        assert(ins.push(seg)[0] == ins[0]);
        assert(splice_tail_start(cs1, e0) == splice_tail_start(cs, last));
        let piece = text.subrange(last, cs[0][0]->Some_0.0 as int);
        let tailpiece = text.subrange(splice_tail_start(cs, last), c[0]->Some_0.0 as int);
        assert(splice_from(text, cs.push(c), ins.push(seg), last) == piece + ins[0] + splice_from(
            text,
            cs1.push(c),
            ins1.push(seg),
            e0,
        ));
        assert(splice_from(text, cs1.push(c), ins1.push(seg), e0) == splice_from(
            text,
            cs1,
            ins1,
            e0,
        ) + tailpiece + seg);
        assert(splice_from(text, cs, ins, last) == piece + ins[0] + splice_from(
            text,
            cs1,
            ins1,
            e0,
        ));
        assert(piece + ins[0] + (splice_from(text, cs1, ins1, e0) + tailpiece + seg) =~= (piece
            + ins[0] + splice_from(text, cs1, ins1, e0)) + tailpiece + seg);
        assert(splice_from(text, cs.push(c), ins.push(seg), last) == splice_from(
            text,
            cs,
            ins,
            last,
        ) + tailpiece + seg);
    }
}

} // verus!
