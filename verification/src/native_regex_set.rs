use vstd::prelude::*;

use crate::captures::Captures;
use crate::character::{chars_of, AdvancerIterator};
use crate::native_regex::{
    clone_names, empty_caps, engine_matches, lemma_rf_caps_any, lemma_rf_exists,
    lemma_step_success, rf_spec, Engine,
};
use crate::vectormap::VectorMap;

verus! {

/// The first match of each engine of a set that matched at all, keyed by
/// the engine's position in the set.
#[derive(Debug)]
pub struct SetMatches<'t> {
    matches: Vec<(usize, Captures<'t>)>,
}

impl<'t> SetMatches<'t> {
    /// The recorded matches: engine index and its captures, in the order
    /// they were found.
    pub closed spec fn view_seq(&self) -> Seq<(usize, Captures<'t>)> {
        self.matches@
    }

    fn new() -> (r: SetMatches<'t>)
        ensures
            r.view_seq() == Seq::<(usize, Captures<'t>)>::empty(),
    {
        SetMatches { matches: Vec::new() }
    }

    /// Walks the recorded matches in the order they were found.
    pub fn iter(&self) -> (r: SetMatchesIterator<'_, 't>)
        ensures
            r.entries_view() == self.view_seq(),
            r.pos_view() == 0,
    {
        SetMatchesIterator { entries: &self.matches, pos: 0 }
    }
}

/// Walks the entries of a `SetMatches` in order.
pub struct SetMatchesIterator<'a, 't> {
    entries: &'a Vec<(usize, Captures<'t>)>,
    pos: usize,
}

impl<'a, 't> SetMatchesIterator<'a, 't> {
    /// The entries being walked.
    pub closed spec fn entries_view(&self) -> Seq<(usize, Captures<'t>)> {
        self.entries@
    }

    /// The index of the next entry to yield.
    pub closed spec fn pos_view(&self) -> int {
        self.pos as int
    }

    /// The next entry, or `None` once all have been seen.
    pub fn next(&mut self) -> (r: Option<&'a (usize, Captures<'t>)>)
        ensures
            final(self).entries_view() == old(self).entries_view(),
            match r {
                Some(e) => {
                    &&& old(self).pos_view() < old(self).entries_view().len()
                    &&& *e == old(self).entries_view()[old(self).pos_view()]
                    &&& final(self).pos_view() == old(self).pos_view() + 1
                },
                None => {
                    &&& old(self).pos_view() >= old(self).entries_view().len()
                    &&& final(self).pos_view() == old(self).pos_view()
                },
            },
    {
        if self.pos < self.entries.len() {
            let e = &self.entries[self.pos];
            self.pos += 1;
            Some(e)
        } else {
            None
        }
    }
}

/// Runs several compiled matchers over one pass of the input and reports
/// which of them match.
#[derive(Debug)]
pub struct NativeRegexSet {
    engines: Vec<Engine>,
    max_capture_count: usize,
}

impl NativeRegexSet {
    #[verifier::type_invariant]
    closed spec fn wf(self) -> bool {
        &&& self.engines@.len() > 0
        &&& 1 <= self.max_capture_count < 64
        &&& forall|i: int|
            0 <= i < self.engines@.len() ==> (#[trigger] self.engines@[i]).count_view()
                <= self.max_capture_count
    }

    /// The engines of the set, in registration order.
    pub closed spec fn engines_view(&self) -> Seq<Engine> {
        self.engines@
    }

    /// The shared capture store is sized for the largest engine.
    pub closed spec fn max_view(&self) -> usize {
        self.max_capture_count
    }

    /// Builds a set over the given engines; there must be at least one.
    pub fn new(regexes: Vec<Engine>) -> (r: NativeRegexSet)
        requires
            regexes@.len() > 0,
        ensures
            r.engines_view() == regexes@,
    {
        let n = regexes.len();
        let mut max_capture_count: usize = 0;
        let mut k: usize = 0;
        while k < n
            invariant
                k <= n,
                n == regexes@.len(),
                k == 0 ==> max_capture_count == 0,
                k > 0 ==> 1 <= max_capture_count < 64,
                forall|i: int|
                    0 <= i < k ==> (#[trigger] regexes@[i]).count_view() <= max_capture_count,
            decreases n - k,
        {
            let cc = regexes[k].capture_count();
            if cc > max_capture_count {
                max_capture_count = cc;
            }
            proof {
                assert(1 <= max_capture_count < 64);
            }
            k += 1;
        }
        NativeRegexSet { engines: regexes, max_capture_count }
    }

    /// Whether any engine of the set matches the text.
    pub fn is_match(&self, text: &str) -> (r: bool)
        ensures
            r == exists|i: int|
                0 <= i < self.engines_view().len() && engine_matches(
                    #[trigger] self.engines_view()[i],
                    text@,
                ),
    {
        proof {
            use_type_invariant(self);
        }
        let ghost engines = self.engines@;
        let n = self.engines.len();
        let chars = chars_of(text);
        let _len = chars.len();
        let mut captures: VectorMap<(usize, usize)> = VectorMap::new(self.max_capture_count);
        let ghost mcc = self.max_capture_count as nat;
        let mut it = AdvancerIterator::new(&chars, 0);
        loop
            invariant
                engines == self.engines@,
                n == engines.len(),
                text@.len() <= usize::MAX,
                it.text_view() == text@,
                captures@.len() == mcc,
                mcc == self.max_capture_count as nat,
                self.wf(),
                match it.next_start() {
                    Some(p) => 0 <= p <= text@.len() && forall|i: int|
                        0 <= i < n ==> rf_spec(
                            (#[trigger] engines[i]).program_view(),
                            mcc,
                            text@,
                            0,
                        ) == rf_spec(engines[i].program_view(), mcc, text@, p),
                    None => forall|i: int|
                        0 <= i < n ==> rf_spec(
                            (#[trigger] engines[i]).program_view(),
                            mcc,
                            text@,
                            0,
                        ) is None,
                },
            decreases (match it.next_start() {
                Some(p) => text@.len() + 1 - p,
                None => 0int,
            }),
        {
            match it.next() {
                None => {
                    proof {
                        assert forall|i: int| 0 <= i < n implies !engine_matches(
                            #[trigger] engines[i],
                            text@,
                        ) by {
                            lemma_rf_caps_any(
                                engines[i].program_view(),
                                engines[i].count_view() as nat,
                                mcc,
                                text@,
                                0,
                            );
                        }
                    }
                    return false;
                },
                Some(adv) => {
                    let ghost p = adv.pos_view();
                    let mut j: usize = 0;
                    while j < n
                        invariant
                            engines == self.engines@,
                            n == engines.len(),
                            n == self.engines@.len(),
                            text@.len() <= usize::MAX,
                            captures@.len() == mcc,
                            mcc == self.max_capture_count as nat,
                            adv.text_view() == text@,
                            adv.pos_view() == p,
                            0 <= p <= text@.len(),
                            j <= n,
                            forall|i: int|
                                0 <= i < j ==> crate::matcher::step_spec(
                                    (#[trigger] engines[i]).program_view(),
                                    text@,
                                    empty_caps(mcc),
                                    p,
                                ) is None,
                        decreases n - j,
                    {
                        captures.clear();
                        proof {
                            assert(captures@ =~= empty_caps(mcc));
                        }
                        let e = &self.engines[j];
                        if e.step(adv, &mut captures).is_some() {
                            proof {
                                lemma_rf_exists(e.program_view(), mcc, text@, 0);
                                lemma_rf_caps_any(
                                    e.program_view(),
                                    e.count_view() as nat,
                                    mcc,
                                    text@,
                                    0,
                                );
                                assert(0 <= p <= text@.len() && crate::matcher::step_spec(
                                    e.program_view(),
                                    text@,
                                    empty_caps(mcc),
                                    p,
                                ) is Some);
                                assert(engine_matches(engines[j as int], text@));
                                assert(0 <= j < self.engines_view().len() && engine_matches(
                                    self.engines_view()[j as int],
                                    text@,
                                ));
                            }
                            return true;
                        }
                        j += 1;
                    }
                    proof {
                        assert forall|i: int|
                            0 <= i < n implies rf_spec(
                            (#[trigger] engines[i]).program_view(),
                            mcc,
                            text@,
                            p,
                        ) == rf_spec(engines[i].program_view(), mcc, text@, p + 1) by {
                            assert(crate::matcher::step_spec(
                                engines[i].program_view(),
                                text@,
                                empty_caps(mcc),
                                p,
                            ) is None);
                        }
                        if p == text@.len() {
                            assert forall|i: int|
                                0 <= i < n implies rf_spec(
                                (#[trigger] engines[i]).program_view(),
                                mcc,
                                text@,
                                p + 1,
                            ) is None by {}
                        }
                    }
                },
            }
        }
    }
}


/// How many entries of a sequence of flags are set.
pub open spec fn count_trues(s: Seq<bool>) -> int
    decreases s.len(),
{
    if s.len() == 0 {
        0
    } else {
        count_trues(s.drop_last()) + if s.last() {
            1int
        } else {
            0int
        }
    }
}

proof fn lemma_count_trues_bound(s: Seq<bool>)
    ensures
        0 <= count_trues(s) <= s.len(),
        count_trues(s) == s.len() ==> forall|i: int| 0 <= i < s.len() ==> s[i],
    decreases s.len(),
{
    if s.len() > 0 {
        lemma_count_trues_bound(s.drop_last());
        if count_trues(s) == s.len() {
            assert forall|i: int| 0 <= i < s.len() implies s[i] by {
                if i < s.len() - 1 {
                    assert(s.drop_last()[i] == s[i]);
                }
            }
        }
    }
}

proof fn lemma_count_trues_update(s: Seq<bool>, i: int)
    requires
        0 <= i < s.len(),
        !s[i],
    ensures
        count_trues(s.update(i, true)) == count_trues(s) + 1,
    decreases s.len(),
{
    if i == s.len() - 1 {
        assert(s.update(i, true).drop_last() =~= s.drop_last());
    } else {
        assert(s.update(i, true).drop_last() =~= s.drop_last().update(i, true));
        lemma_count_trues_update(s.drop_last(), i);
    }
}

/// A recorded set entry is sound: the key is an engine of the set and the
/// captures are what that engine's leftmost scan of the whole text returns.
pub open spec fn set_entry_ok(
    engines: Seq<Engine>,
    mcc: nat,
    text: Seq<char>,
    entry: (usize, Captures),
) -> bool {
    &&& (entry.0 as int) < engines.len()
    &&& rf_spec(engines[entry.0 as int].program_view(), mcc, text, 0) matches Some(c)
        && entry.1.caps_view() == c
    &&& entry.1.text_view() == text
    &&& entry.1.names_view() == engines[entry.0 as int].names_view()
}

impl NativeRegexSet {
    /// Runs every engine over the text in one pass and records, for each
    /// engine that matches at all, the captures of its first match.
    pub fn matches<'t>(&self, text: &'t str) -> (r: SetMatches<'t>)
        ensures
            forall|k: int|
                0 <= k < r.view_seq().len() ==> set_entry_ok(
                    self.engines_view(),
                    self.max_view() as nat,
                    text@,
                    #[trigger] r.view_seq()[k],
                ),
            forall|i: int|
                0 <= i < self.engines_view().len() ==> ((exists|k: int|
                    0 <= k < r.view_seq().len() && (#[trigger] r.view_seq()[k]).0 == i)
                    <==> engine_matches(#[trigger] self.engines_view()[i], text@)),
            forall|k1: int, k2: int|
                0 <= k1 < k2 < r.view_seq().len() ==> (#[trigger] r.view_seq()[k1]).0 != (
                #[trigger] r.view_seq()[k2]).0,
    {
        proof {
            use_type_invariant(self);
        }
        let ghost engines = self.engines@;
        let n = self.engines.len();
        let chars = chars_of(text);
        let _len = chars.len();
        let mut captures: VectorMap<(usize, usize)> = VectorMap::new(self.max_capture_count);
        let ghost mcc = self.max_capture_count as nat;
        let mut set_matches = SetMatches::new();
        let mut finished: Vec<bool> = Vec::new();
        let mut k0: usize = 0;
        while k0 < n
            invariant
                k0 <= n,
                finished@.len() == k0,
                forall|i: int| 0 <= i < k0 ==> !(#[trigger] finished@[i]),
            decreases n - k0,
        {
            finished.push(false);
            k0 += 1;
        }
        let mut finished_count: usize = 0;
        proof {
            lemma_count_trues_bound(finished@);
            assert(count_trues(finished@) == 0) by {
                lemma_count_trues_bound(finished@);
                if count_trues(finished@) > 0 {
                    lemma_count_trues_nonzero(finished@);
                }
            }
        }
        let mut it = AdvancerIterator::new(&chars, 0);
        loop
            invariant
                engines == self.engines@,
                n == engines.len(),
                text@.len() <= usize::MAX,
                it.text_view() == text@,
                captures@.len() == mcc,
                mcc == self.max_capture_count as nat,
                self.wf(),
                self.max_view() == self.max_capture_count,
                self.engines_view() == engines,
                finished@.len() == n,
                finished_count == count_trues(finished@),
                forall|k: int|
                    0 <= k < set_matches.view_seq().len() ==> set_entry_ok(
                        engines,
                        mcc,
                        text@,
                        #[trigger] set_matches.view_seq()[k],
                    ),
                forall|i: int|
                    0 <= i < n ==> ((exists|k: int|
                        0 <= k < set_matches.view_seq().len() && (
                        #[trigger] set_matches.view_seq()[k]).0 == i) <==> #[trigger] finished@[i]),
                forall|k1: int, k2: int|
                    0 <= k1 < k2 < set_matches.view_seq().len() ==> (
                    #[trigger] set_matches.view_seq()[k1]).0 != (
                    #[trigger] set_matches.view_seq()[k2]).0,
                match it.next_start() {
                    Some(p) => 0 <= p <= text@.len() && forall|i: int|
                        0 <= i < n && !(#[trigger] finished@[i]) ==> rf_spec(
                            engines[i].program_view(),
                            mcc,
                            text@,
                            0,
                        ) == rf_spec(engines[i].program_view(), mcc, text@, p),
                    None => forall|i: int|
                        0 <= i < n && !(#[trigger] finished@[i]) ==> rf_spec(
                            engines[i].program_view(),
                            mcc,
                            text@,
                            0,
                        ) is None,
                },
            decreases (match it.next_start() {
                Some(p) => text@.len() + 1 - p,
                None => 0int,
            }),
        {
            if finished_count == n {
                proof {
                    lemma_count_trues_bound(finished@);
                    lemma_matches_post(engines, mcc, text@, finished@, set_matches.view_seq());
                }
                return set_matches;
            }
            match it.next() {
                None => {
                    proof {
                        lemma_matches_post(engines, mcc, text@, finished@, set_matches.view_seq());
                    }
                    return set_matches;
                },
                Some(adv) => {
                    let ghost p = adv.pos_view();
                    let mut j: usize = 0;
                    while j < n
                        invariant
                            engines == self.engines@,
                            n == engines.len(),
                            n == self.engines@.len(),
                            text@.len() <= usize::MAX,
                            captures@.len() == mcc,
                            mcc == self.max_capture_count as nat,
                            self.wf(),
                            adv.text_view() == text@,
                            adv.pos_view() == p,
                            0 <= p <= text@.len(),
                            j <= n,
                            finished@.len() == n,
                            finished_count == count_trues(finished@),
                            forall|k: int|
                                0 <= k < set_matches.view_seq().len() ==> set_entry_ok(
                                    engines,
                                    mcc,
                                    text@,
                                    #[trigger] set_matches.view_seq()[k],
                                ),
                            forall|i: int|
                                0 <= i < n ==> ((exists|k: int|
                                    0 <= k < set_matches.view_seq().len() && (
                                    #[trigger] set_matches.view_seq()[k]).0 == i) <==> #[trigger] finished@[i]),
                            forall|k1: int, k2: int|
                                0 <= k1 < k2 < set_matches.view_seq().len() ==> (
                                #[trigger] set_matches.view_seq()[k1]).0 != (
                                #[trigger] set_matches.view_seq()[k2]).0,
                            forall|i: int|
                                j <= i < n && !(#[trigger] finished@[i]) ==> rf_spec(
                                    engines[i].program_view(),
                                    mcc,
                                    text@,
                                    0,
                                ) == rf_spec(engines[i].program_view(), mcc, text@, p),
                            forall|i: int|
                                0 <= i < j && !(#[trigger] finished@[i]) ==> rf_spec(
                                    engines[i].program_view(),
                                    mcc,
                                    text@,
                                    0,
                                ) == rf_spec(engines[i].program_view(), mcc, text@, p + 1),
                        decreases n - j,
                    {
                        let already = finished[j];
                        if !already {
                            captures.clear();
                            proof {
                                assert(captures@ =~= empty_caps(mcc));
                            }
                            let e = &self.engines[j];
                            e.shape_facts();
                            let ghost fin_before = finished@;
                            match e.step(adv, &mut captures) {
                                Some(_) => {
                                    proof {
                                        lemma_step_success(
                                            e.program_view(),
                                            text@,
                                            empty_caps(mcc),
                                            p,
                                        );
                                        lemma_count_trues_update(finished@, j as int);
                                        lemma_count_trues_bound(finished@.update(j as int, true));
                                    }
                                    finished[j] = true;
                                    finished_count += 1;
                                    let caps = Captures::from_parts(
                                        text,
                                        captures.duplicate(),
                                        clone_names(e.capture_names()),
                                        e.capture_count(),
                                    );
                                    let ghost sm_before = set_matches.view_seq();
                                    set_matches.matches.push((j, caps));
                                    proof {
                                        assert(rf_spec(e.program_view(), mcc, text@, p)
                                            matches Some(c) && c == captures@);
                                        assert(set_entry_ok(
                                            engines,
                                            mcc,
                                            text@,
                                            set_matches.view_seq()[sm_before.len() as int],
                                        ));
                                        let smn = set_matches.view_seq();
                                        assert forall|i: int|
                                            0 <= i < n implies ((exists|k: int|
                                            0 <= k < smn.len() && (#[trigger] smn[k]).0 == i)
                                            <==> finished@[i]) by {
                                            if i == j {
                                                assert(smn[sm_before.len() as int].0 == i);
                                            } else {
                                                if fin_before[i] {
                                                    let k = choose|k: int|
                                                        0 <= k < sm_before.len() && (
                                                        #[trigger] sm_before[k]).0 == i;
                                                    assert(smn[k] == sm_before[k]);
                                                    assert(smn[k].0 == i);
                                                }
                                                if exists|k: int|
                                                    0 <= k < smn.len() && (#[trigger] smn[k]).0
                                                        == i {
                                                    let k = choose|k: int|
                                                        0 <= k < smn.len() && (#[trigger] smn[k]).0
                                                            == i;
                                                    if k < sm_before.len() {
                                                        assert(sm_before[k] == smn[k]);
                                                    } else {
                                                        assert(smn[k].0 == j);
                                                    }
                                                }
                                            }
                                        }
                                    }
                                },
                                None => {
                                },
                            }
                        }
                        j += 1;
                    }
                    proof {
                        if p == text@.len() {
                            assert forall|i: int|
                                0 <= i < n && !(#[trigger] finished@[i]) implies rf_spec(
                                engines[i].program_view(),
                                mcc,
                                text@,
                                p + 1,
                            ) is None by {}
                        }
                    }
                },
            }
        }
    }
}

/// A set whose unfinished engines match nowhere satisfies the promised
/// key property.
proof fn lemma_matches_post(
    engines: Seq<Engine>,
    mcc: nat,
    text: Seq<char>,
    finished: Seq<bool>,
    sm: Seq<(usize, Captures)>,
)
    requires
        finished.len() == engines.len(),
        forall|k: int| 0 <= k < sm.len() ==> set_entry_ok(engines, mcc, text, #[trigger] sm[k]),
        forall|i: int|
            0 <= i < engines.len() ==> ((exists|k: int|
                0 <= k < sm.len() && (#[trigger] sm[k]).0 == i) <==> #[trigger] finished[i]),
        forall|i: int|
            0 <= i < engines.len() && !(#[trigger] finished[i]) ==> rf_spec(
                engines[i].program_view(),
                mcc,
                text,
                0,
            ) is None,
    ensures
        forall|i: int|
            0 <= i < engines.len() ==> ((exists|k: int|
                0 <= k < sm.len() && (#[trigger] sm[k]).0 == i) <==> engine_matches(
                #[trigger] engines[i],
                text,
            )),
{
    assert forall|i: int| 0 <= i < engines.len() implies ((exists|k: int|
        0 <= k < sm.len() && (#[trigger] sm[k]).0 == i) <==> engine_matches(engines[i], text)) by {
        lemma_rf_caps_any(engines[i].program_view(), engines[i].count_view() as nat, mcc, text, 0);
        if finished[i] {
            let k = choose|k: int| 0 <= k < sm.len() && (#[trigger] sm[k]).0 == i;
            assert(set_entry_ok(engines, mcc, text, sm[k]));
        }
    }
}

/// A flag sequence with a positive count has a set flag.
proof fn lemma_count_trues_nonzero(s: Seq<bool>)
    requires
        count_trues(s) > 0,
    ensures
        exists|i: int| 0 <= i < s.len() && s[i],
    decreases s.len(),
{
    if s.len() > 0 {
        if s.last() {
            assert(s[s.len() - 1]);
        } else {
            lemma_count_trues_nonzero(s.drop_last());
            let i = choose|i: int| 0 <= i < s.drop_last().len() && s.drop_last()[i];
            assert(s[i]);
        }
    }
}

} // verus!
