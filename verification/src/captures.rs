use vstd::prelude::*;
use vstd::string::StrSliceExecFns;

use crate::matcher::caps_ok;
use crate::native_regex::{lemma_literal_prefix_rf, rf_spec};
use crate::regexes::{cn_program, cn_rest, CaptureNameRegex};
use crate::vectormap::VectorMap;
use vstd::string::StringExecFns;

verus! {

/// One matched span of the input: character positions `start..end` within
/// the borrowed text, with `start <= end <= len(text)`.
#[derive(Clone, Copy, Debug)]
pub struct Match<'t> {
    text: &'t str,
    start: usize,
    end: usize,
}

impl<'t> Match<'t> {
    #[verifier::type_invariant]
    closed spec fn wf(self) -> bool {
        self.start <= self.end <= self.text@.len()
    }

    /// The text the match points into.
    pub closed spec fn text_view(&self) -> Seq<char> {
        self.text@
    }

    /// The position of the first matched character.
    pub closed spec fn start_view(&self) -> int {
        self.start as int
    }

    /// The position one past the last matched character.
    pub closed spec fn end_view(&self) -> int {
        self.end as int
    }

    /// A match over `text` from `start` to `end`, which must lie inside the
    /// text in order.
    pub fn new(text: &'t str, start: usize, end: usize) -> (r: Match<'t>)
        requires
            start <= end <= text@.len(),
        ensures
            r.text_view() == text@,
            r.start_view() == start,
            r.end_view() == end,
    {
        Match { text, start, end }
    }

    /// The position of the first matched character.
    pub fn start(&self) -> (r: usize)
        ensures
            r == self.start_view(),
            self.start_view() <= self.end_view() <= self.text_view().len(),
    {
        proof {
            use_type_invariant(self);
        }
        self.start
    }

    /// The position one past the last matched character.
    pub fn end(&self) -> (r: usize)
        ensures
            r == self.end_view(),
            self.start_view() <= self.end_view() <= self.text_view().len(),
    {
        proof {
            use_type_invariant(self);
        }
        self.end
    }

    /// The matched span as a range of character positions.
    pub fn range(&self) -> (r: core::ops::Range<usize>)
        ensures
            r.start == self.start_view(),
            r.end == self.end_view(),
    {
        proof {
            use_type_invariant(self);
        }
        self.start..self.end
    }

    /// The matched text itself.
    pub fn as_str(&self) -> (r: &'t str)
        ensures
            r@ == self.text_view().subrange(self.start_view(), self.end_view()),
    {
        proof {
            use_type_invariant(self);
        }
        self.text.substring_char(self.start, self.end)
    }
}

/// The index of the first table entry carrying the name, if any.
pub open spec fn lookup_name(names: Seq<(Seq<char>, usize)>, n: Seq<char>) -> Option<usize>
    decreases names.len(),
{
    if names.len() == 0 {
        None
    } else if names[0].0 == n {
        Some(names[0].1)
    } else {
        lookup_name(names.subrange(1, names.len() as int), n)
    }
}

/// The ghost shape of a capture-name table with slot indices.
pub open spec fn names_of(s: Seq<(String, usize)>) -> Seq<(Seq<char>, usize)> {
    Seq::new(s.len(), |i: int| (s[i].0@, s[i].1))
}

/// The capture slots of one successful match: the whole match in slot zero,
/// each group's span in its slot, and the pattern's named groups.
#[derive(Debug)]
pub struct Captures<'t> {
    text: &'t str,
    locations: VectorMap<(usize, usize)>,
    named_groups: Vec<(String, usize)>,
    count: usize,
}

impl<'t> Captures<'t> {
    #[verifier::type_invariant]
    closed spec fn wf(self) -> bool {
        &&& self.locations@.len() >= 1
        &&& self.locations@[0] is Some
        &&& caps_ok(self.locations@, self.text@.len() as int)
    }

    /// The text the captures point into.
    pub closed spec fn text_view(&self) -> Seq<char> {
        self.text@
    }

    /// The capture slots: group index to recorded span.
    pub closed spec fn caps_view(&self) -> Seq<Option<(usize, usize)>> {
        self.locations@
    }

    /// The named groups and their slot indices.
    pub closed spec fn names_view(&self) -> Seq<(Seq<char>, usize)> {
        names_of(self.named_groups@)
    }

    /// Captures over `text`: slot zero must hold the whole match and every
    /// recorded span must lie inside the text.
    pub(crate) fn from_parts(
        text: &'t str,
        locations: VectorMap<(usize, usize)>,
        named_groups: Vec<(String, usize)>,
        count: usize,
    ) -> (r: Captures<'t>)
        requires
            locations@.len() >= 1,
            locations@[0] is Some,
            caps_ok(locations@, text@.len() as int),
        ensures
            r.text_view() == text@,
            r.caps_view() == locations@,
            r.names_view() == names_of(named_groups@),
    {
        Captures { text, locations, named_groups, count }
    }

    /// The span of group `i`, or `None` when the group is out of range or
    /// did not take part in the match.
    pub fn get(&self, i: usize) -> (r: Option<Match<'t>>)
        ensures
            match r {
                Some(m) => {
                    &&& i < self.caps_view().len()
                    &&& self.caps_view()[i as int] matches Some(p)
                    &&& m.text_view() == self.text_view()
                    &&& m.start_view() == self.caps_view()[i as int]->Some_0.0
                    &&& m.end_view() == self.caps_view()[i as int]->Some_0.1
                },
                None => i >= self.caps_view().len() || self.caps_view()[i as int] is None,
            },
    {
        proof {
            use_type_invariant(self);
        }
        match self.locations.get(i) {
            Some(p) => Some(Match::new(self.text, p.0, p.1)),
            None => None,
        }
    }

    /// The whole match: the span in slot zero.
    pub fn first(&self) -> (r: Match<'t>)
        ensures
            self.caps_view().len() >= 1,
            self.caps_view()[0] matches Some(p),
            r.text_view() == self.text_view(),
            r.start_view() == self.caps_view()[0]->Some_0.0,
            r.end_view() == self.caps_view()[0]->Some_0.1,
    {
        proof {
            use_type_invariant(self);
        }
        match self.locations.get(0) {
            Some(p) => Match::new(self.text, p.0, p.1),
            None => vstd::pervasive::unreached(),
        }
    }

    /// The span of the group with the given name, or `None` when the pattern
    /// has no such name or the group did not take part.
    pub fn name(&self, name: &str) -> (r: Option<Match<'t>>)
        ensures
            match lookup_name(self.names_view(), name@) {
                Some(i) => match r {
                    Some(m) => {
                        &&& i < self.caps_view().len()
                        &&& self.caps_view()[i as int] matches Some(p)
                        &&& m.text_view() == self.text_view()
                        &&& m.start_view() == self.caps_view()[i as int]->Some_0.0
                        &&& m.end_view() == self.caps_view()[i as int]->Some_0.1
                    },
                    None => i >= self.caps_view().len() || self.caps_view()[i as int] is None,
                },
                None => r is None,
            },
    {
        let n = self.named_groups.len();
        proof {
            assert(self.names_view().subrange(0, n as int) =~= self.names_view());
        }
        let mut k: usize = 0;
        while k < n
            invariant
                k <= n,
                n == self.named_groups@.len(),
                lookup_name(self.names_view(), name@) == lookup_name(
                    self.names_view().subrange(k as int, n as int),
                    name@,
                ),
            decreases n - k,
        {
            let ghost rest = self.names_view().subrange(k as int, n as int);
            let hit = {
                let entry = &self.named_groups[k];
                compare_str(entry.0.as_str(), name)
            };
            proof {
                assert(rest[0] == (self.named_groups@[k as int].0@, self.named_groups@[k as int].1));
                assert(rest.subrange(1, rest.len() as int) =~= self.names_view().subrange(
                    k + 1,
                    n as int,
                ));
            }
            if hit {
                return self.get(self.named_groups[k].1);
            }
            k += 1;
        }
        proof {
            assert(self.names_view().subrange(n as int, n as int) =~= Seq::<
                (Seq<char>, usize),
            >::empty());
        }
        None
    }

    /// Every slot as an optional match, in slot order.
    pub fn iter(&self) -> (r: Vec<Option<Match<'t>>>)
        ensures
            r@.len() == self.caps_view().len(),
            forall|i: int|
                0 <= i < r@.len() ==> match #[trigger] r@[i] {
                    Some(m) => {
                        &&& self.caps_view()[i] matches Some(p)
                        &&& m.text_view() == self.text_view()
                        &&& m.start_view() == self.caps_view()[i]->Some_0.0
                        &&& m.end_view() == self.caps_view()[i]->Some_0.1
                    },
                    None => self.caps_view()[i] is None,
                },
    {
        proof {
            use_type_invariant(self);
        }
        let n = self.locations.len();
        let mut out: Vec<Option<Match<'t>>> = Vec::new();
        let mut k: usize = 0;
        while k < n
            invariant
                k <= n,
                n == self.caps_view().len(),
                out@.len() == k,
                forall|i: int|
                    0 <= i < k ==> match #[trigger] out@[i] {
                        Some(m) => {
                            &&& self.caps_view()[i] matches Some(p)
                            &&& m.text_view() == self.text_view()
                            &&& m.start_view() == self.caps_view()[i]->Some_0.0
                            &&& m.end_view() == self.caps_view()[i]->Some_0.1
                        },
                        None => self.caps_view()[i] is None,
                    },
            decreases n - k,
        {
            out.push(self.get(k));
            k += 1;
        }
        out
    }

    /// The number of capture slots, unset ones included.
    pub fn len(&self) -> (r: usize)
        ensures
            r == self.caps_view().len(),
    {
        self.locations.len()
    }
}

/// Whether two string slices hold the same characters.
pub fn compare_str(a: &str, b: &str) -> (r: bool)
    ensures
        r == (a@ == b@),
{
    let na = a.unicode_len();
    let nb = b.unicode_len();
    if na != nb {
        proof {
            assert(a@ != b@);
        }
        return false;
    }
    let mut k: usize = 0;
    while k < na
        invariant
            k <= na,
            na == a@.len(),
            na == b@.len(),
            forall|i: int| 0 <= i < k ==> a@[i] == b@[i],
        decreases na - k,
    {
        if a.get_char(k) != b.get_char(k) {
            proof {
                assert(a@ != b@);
            }
            return false;
        }
        k += 1;
    }
    proof {
        assert(a@ =~= b@);
    }
    true
}


/// Whether a character is a decimal digit.
pub open spec fn spec_is_digit(c: char) -> bool {
    '0' <= c <= '9'
}

/// The value of a decimal digit.
pub open spec fn digit_of(c: char) -> int {
    c as u32 - 48
}

/// Parsing the digits from position `i` on, with `acc` already read; fails
/// on a non-digit or when the value outgrows a machine word.
pub open spec fn parse_rec(s: Seq<char>, i: int, acc: int) -> Option<usize>
    decreases s.len() - i,
{
    if i < 0 || i > s.len() {
        None
    } else if i == s.len() {
        if 0 <= acc <= usize::MAX {
            Some(acc as usize)
        } else {
            None
        }
    } else if !spec_is_digit(s[i]) {
        None
    } else {
        let a2 = acc * 10 + digit_of(s[i]);
        if a2 > usize::MAX {
            None
        } else {
            parse_rec(s, i + 1, a2)
        }
    }
}

/// What a group reference body parses to: the value of a non-empty row of
/// decimal digits that fits a machine word, and nothing otherwise.
pub open spec fn parse_usize_spec(s: Seq<char>) -> Option<usize> {
    if s.len() == 0 {
        None
    } else {
        parse_rec(s, 0, 0)
    }
}

/// Parses a non-empty row of decimal digits; anything else, or a value too
/// large for a machine word, is `None`.
pub fn parse_decimal(s: &str) -> (r: Option<usize>)
    ensures
        r == parse_usize_spec(s@),
{
    let n = s.unicode_len();
    if n == 0 {
        return None;
    }
    let max_div: usize = usize::MAX / 10;
    let max_mod: usize = usize::MAX % 10;
    let mut acc: usize = 0;
    let mut k: usize = 0;
    while k < n
        invariant
            k <= n,
            n == s@.len(),
            max_div == usize::MAX / 10,
            max_mod == usize::MAX % 10,
            parse_usize_spec(s@) == parse_rec(s@, k as int, acc as int),
        decreases n - k,
    {
        let c = s.get_char(k);
        if !('0' <= c && c <= '9') {
            return None;
        }
        let d = ((c as u32) - 48) as usize;
        if acc > max_div || (acc == max_div && d > max_mod) {
            proof {
                assert(acc * 10 + d > usize::MAX);
            }
            return None;
        }
        proof {
            assert(acc * 10 + d <= usize::MAX);
        }
        acc = acc * 10 + d;
        k += 1;
    }
    Some(acc)
}

/// The text of group `i`, or nothing when the group is out of range or
/// unset.
pub open spec fn group_text(cv: Seq<Option<(usize, usize)>>, ctext: Seq<char>, i: int) -> Seq<
    char,
> {
    if 0 <= i < cv.len() && cv[i] is Some {
        ctext.subrange(cv[i]->Some_0.0 as int, cv[i]->Some_0.1 as int)
    } else {
        Seq::empty()
    }
}

/// The text of the group carrying the name, or nothing when there is none.
pub open spec fn named_text(
    cv: Seq<Option<(usize, usize)>>,
    ctext: Seq<char>,
    names: Seq<(Seq<char>, usize)>,
    n: Seq<char>,
) -> Seq<char> {
    match lookup_name(names, n) {
        Some(i) => group_text(cv, ctext, i as int),
        None => Seq::empty(),
    }
}

/// The expansion of a template from position `pos` on, against the given
/// capture slots: text outside the recognised forms is copied, `$$` gives a
/// dollar sign, and `${body}` gives the group the body picks, by index when
/// it parses as a number and by name otherwise.
pub open spec fn expand_spec(
    cv: Seq<Option<(usize, usize)>>,
    ctext: Seq<char>,
    names: Seq<(Seq<char>, usize)>,
    tmpl: Seq<char>,
    pos: int,
) -> Seq<char>
    decreases tmpl.len() - pos,
{
    if !(0 <= pos <= tmpl.len()) {
        Seq::empty()
    } else {
        match rf_spec(cn_program(), 3, tmpl, pos) {
            None => tmpl.subrange(pos, tmpl.len() as int),
            Some(c) => {
                let q = c[0]->Some_0;
                let s = q.0 as int;
                let e = q.1 as int;
                let head = if pos <= s <= tmpl.len() {
                    tmpl.subrange(pos, s)
                } else {
                    Seq::empty()
                };
                if c.len() == 3 && c[1] is Some {
                    let e1 = c[1]->Some_0.1 as int;
                    if pos < e1 <= tmpl.len() {
                        head + seq!['$'] + expand_spec(cv, ctext, names, tmpl, e1)
                    } else {
                        head + seq!['$']
                    }
                } else {
                    let ins = if c.len() == 3 && c[2] is Some {
                        let g = c[2]->Some_0;
                        let gs = if g.0 <= g.1 <= tmpl.len() {
                            tmpl.subrange(g.0 as int, g.1 as int)
                        } else {
                            Seq::empty()
                        };
                        match parse_usize_spec(gs) {
                            Some(nv) => group_text(cv, ctext, nv as int),
                            None => named_text(cv, ctext, names, gs),
                        }
                    } else {
                        Seq::empty()
                    };
                    if pos < e <= tmpl.len() {
                        head + ins + expand_spec(cv, ctext, names, tmpl, e)
                    } else {
                        head + ins
                    }
                }
            },
        }
    }
}

impl<'t> Captures<'t> {
    /// Appends the expansion of the template to `dst`: text outside the
    /// dollar forms verbatim, `$$` as one dollar sign, and `${body}` as the
    /// text of the group the body picks — by index when the body is a
    /// number, by name otherwise; a missing group expands to nothing.
    pub fn expand(&self, replacement: &str, dst: &mut String)
        ensures
            final(dst)@ == old(dst)@ + expand_spec(
                self.caps_view(),
                self.text_view(),
                self.names_view(),
                replacement@,
                0,
            ),
    {
        let capture_reg = CaptureNameRegex::new();
        let ghost cv = self.caps_view();
        let ghost ctext = self.text_view();
        let ghost names = self.names_view();
        let ghost tmpl = replacement@;
        let tlen = replacement.unicode_len();
        let mut pos: usize = 0;
        proof {
            reveal_strlit("$");
        }
        loop
            invariant
                cv == self.caps_view(),
                ctext == self.text_view(),
                names == self.names_view(),
                tmpl == replacement@,
                tlen == tmpl.len(),
                tmpl.len() <= usize::MAX,
                pos <= tlen,
                capture_reg.program_view() == cn_program(),
                capture_reg.count_view() == 3,
                old(dst)@ + expand_spec(cv, ctext, names, tmpl, 0) == dst@ + expand_spec(
                    cv,
                    ctext,
                    names,
                    tmpl,
                    pos as int,
                ),
                "$"@ == seq!['$'],
            decreases tlen - pos,
        {
            let ghost pos0 = pos as int;
            let ghost dst0 = dst@;
            proof {
                capture_reg.lemma_views();
                assert(cn_program() == crate::ehir::spec_capturing(
                    0,
                    crate::ehir::spec_consume_one(
                        crate::ehir::SpecDecision::Literal(36),
                        false,
                    ) + cn_rest(),
                )) by {
                    assert(crate::regexes::cn_inner() == crate::ehir::spec_consume_one(
                        crate::ehir::SpecDecision::Literal(36),
                        false,
                    ) + cn_rest());
                }
                lemma_literal_prefix_rf(36, cn_rest(), 3, tmpl, pos as int);
            }
            match capture_reg.engine.regex_function(replacement, pos) {
                None => {
                    dst.append(replacement.substring_char(pos, tlen));
                    proof {
                        assert(expand_spec(cv, ctext, names, tmpl, pos0) == tmpl.subrange(
                            pos0,
                            tmpl.len() as int,
                        ));
                        assert(final(dst)@ =~= old(dst)@ + expand_spec(cv, ctext, names, tmpl, 0));
                    }
                    return ;
                },
                Some(vm) => {
                    let (s, e) = match vm.get(0) {
                        Some(p) => (p.0, p.1),
                        None => vstd::pervasive::unreached(),
                    };
                    dst.append(replacement.substring_char(pos, s));
                    let ghost c = vm@;
                    let ghost head = tmpl.subrange(pos0, s as int);
                    match vm.get(1) {
                        Some(g1) => {
                            let g1end = g1.1;
                            dst.append("$");
                            pos = g1end;
                            proof {
                                assert(pos0 < pos as int <= tmpl.len());
                                assert(expand_spec(cv, ctext, names, tmpl, pos0) == head + seq![
                                    '$',
                                ] + expand_spec(cv, ctext, names, tmpl, pos as int));
                                assert(dst@ =~= dst0 + (head + seq!['$']));
                                assert(dst0 + (head + seq!['$']) + expand_spec(
                                    cv,
                                    ctext,
                                    names,
                                    tmpl,
                                    pos as int,
                                ) =~= dst0 + expand_spec(cv, ctext, names, tmpl, pos0));
                            }
                        },
                        None => {
                            let ghost ins = match (if c.len() == 3 && c[2] is Some {
                                c[2]
                            } else {
                                None
                            }) {
                                Some(g) => {
                                    let gsv = tmpl.subrange(g.0 as int, g.1 as int);
                                    match parse_usize_spec(gsv) {
                                        Some(nv) => group_text(cv, ctext, nv as int),
                                        None => named_text(cv, ctext, names, gsv),
                                    }
                                },
                                None => Seq::<char>::empty(),
                            };
                            match vm.get(2) {
                                Some(g2) => {
                                    let gs = replacement.substring_char(g2.0, g2.1);
                                    match parse_decimal(gs) {
                                        Some(nv) => {
                                            match self.get(nv) {
                                                Some(m) => {
                                                    dst.append(m.as_str());
                                                },
                                                None => {},
                                            }
                                        },
                                        None => {
                                            match self.name(gs) {
                                                Some(m) => {
                                                    dst.append(m.as_str());
                                                },
                                                None => {},
                                            }
                                        },
                                    }
                                },
                                None => {},
                            }
                            pos = e;
                            proof {
                                assert(pos0 < pos as int <= tmpl.len());
                                assert(expand_spec(cv, ctext, names, tmpl, pos0) == head + ins
                                    + expand_spec(cv, ctext, names, tmpl, pos as int));
                                assert(dst@ =~= dst0 + (head + ins));
                                assert(dst0 + (head + ins) + expand_spec(
                                    cv,
                                    ctext,
                                    names,
                                    tmpl,
                                    pos as int,
                                ) =~= dst0 + expand_spec(cv, ctext, names, tmpl, pos0));
                            }
                        },
                    }
                },
            }
        }
    }
}

} // verus!
