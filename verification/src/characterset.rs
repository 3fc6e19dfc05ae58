use vstd::prelude::*;
use vstd::string::StringExecFns;

use crate::rust_translate::spec_digits;

verus! {

/// An inclusive range of byte values, or a single one, as it appears in a
/// character class.
#[derive(Clone, Copy, Debug)]
pub enum CharacterRange {
    Single(u8),
    Multiple(u8, u8),
}

/// The comparison a range renders to: membership, or exclusion when
/// inverted.
pub open spec fn range_code(r: CharacterRange, invert: bool, ident: Seq<char>) -> Seq<char> {
    match r {
        CharacterRange::Single(ch) => if invert {
            ident + " != "@ + spec_digits(ch as int)
        } else {
            ident + " == "@ + spec_digits(ch as int)
        },
        CharacterRange::Multiple(a, b) => if invert {
            "("@ + ident + " < "@ + spec_digits(a as int) + " || "@ + ident + " > "@ + spec_digits(
                b as int,
            ) + ")"@
        } else {
            "("@ + ident + " >= "@ + spec_digits(a as int) + " && "@ + ident + " <= "@
                + spec_digits(b as int) + ")"@
        },
    }
}

/// Appends the decimal digits of a byte value.
fn push_u8(n: u8, code: &mut String)
    ensures
        final(code)@ == old(code)@ + spec_digits(n as int),
{
    crate::rust_translate::push_u32(n as u32, code);
}

impl CharacterRange {
    /// Renders the comparison for this range against the given character
    /// variable; inverted, it tests for exclusion.
    pub fn code(&self, invert: bool, char_identifier: &str) -> (r: String)
        ensures
            r@ == range_code(*self, invert, char_identifier@),
    {
        let mut out = String::new();
        match self {
            CharacterRange::Single(ch) => {
                if invert {
                    out.append(char_identifier);
                    out.append(" != ");
                    push_u8(*ch, &mut out);
                } else {
                    out.append(char_identifier);
                    out.append(" == ");
                    push_u8(*ch, &mut out);
                }
            },
            CharacterRange::Multiple(a, b) => {
                if invert {
                    out.append("(");
                    out.append(char_identifier);
                    out.append(" < ");
                    push_u8(*a, &mut out);
                    out.append(" || ");
                    out.append(char_identifier);
                    out.append(" > ");
                    push_u8(*b, &mut out);
                    out.append(")");
                } else {
                    out.append("(");
                    out.append(char_identifier);
                    out.append(" >= ");
                    push_u8(*a, &mut out);
                    out.append(" && ");
                    out.append(char_identifier);
                    out.append(" <= ");
                    push_u8(*b, &mut out);
                    out.append(")");
                }
            },
        }
        proof {
            assert(out@ =~= range_code(*self, invert, char_identifier@));
        }
        out
    }
}

/// One bracketed part of a character class: a row of ranges, possibly
/// inverted as a whole.
#[derive(Clone, Debug)]
pub struct SubSet {
    ranges: Vec<CharacterRange>,
    inverted: bool,
}

/// The rendered test of a row of ranges: joined by disjunction, or by
/// conjunction when the row is inverted.
pub open spec fn subset_code(rs: Seq<CharacterRange>, invert: bool, ident: Seq<char>) -> Seq<char>
    decreases rs.len(),
{
    if rs.len() <= 1 {
        range_code(rs[0], invert, ident)
    } else {
        subset_code(rs.subrange(0, rs.len() - 1), invert, ident) + (if invert {
            " && "@
        } else {
            " || "@
        }) + range_code(rs.last(), invert, ident)
    }
}

impl SubSet {
    /// The ranges of the row.
    pub closed spec fn ranges_view(&self) -> Seq<CharacterRange> {
        self.ranges@
    }

    /// Whether the row is inverted.
    pub closed spec fn inverted_view(&self) -> bool {
        self.inverted
    }

    /// A row of ranges, inverted or not.
    pub fn new(inverted: bool, ranges: Vec<CharacterRange>) -> (r: SubSet)
        ensures
            r.ranges_view() == ranges@,
            r.inverted_view() == inverted,
    {
        SubSet { inverted, ranges }
    }

    /// Renders the test of the row; the caller's inversion and the row's own
    /// cancel each other out.
    pub fn code(&self, invert: bool, char_identifier: &str) -> (r: String)
        requires
            self.ranges_view().len() > 0,
        ensures
            r@ == subset_code(
                self.ranges_view(),
                invert ^ self.inverted_view(),
                char_identifier@,
            ),
    {
        let inv = invert ^ self.inverted;
        let n = self.ranges.len();
        let mut out = self.ranges[0].code(inv, char_identifier);
        proof {
            assert(self.ranges@.subrange(0, 1int)[0] == self.ranges@[0]);
            assert(out@ == subset_code(self.ranges@.subrange(0, 1int), inv, char_identifier@));
        }
        let mut k: usize = 1;
        while k < n
            invariant
                1 <= k <= n,
                n == self.ranges@.len(),
                out@ == subset_code(self.ranges@.subrange(0, k as int), inv, char_identifier@),
            decreases n - k,
        {
            if inv {
                out.append(" && ");
            } else {
                out.append(" || ");
            }
            let piece = self.ranges[k].code(inv, char_identifier);
            out.append(piece.as_str());
            proof {
                assert(self.ranges@.subrange(0, k + 1).subrange(0, k as int) =~= self.ranges@
                    .subrange(0, k as int));
                assert(self.ranges@.subrange(0, k + 1).last() == self.ranges@[k as int]);
                assert(out@ =~= subset_code(
                    self.ranges@.subrange(0, k + 1),
                    inv,
                    char_identifier@,
                ));
            }
            k += 1;
        }
        proof {
            assert(self.ranges@.subrange(0, n as int) =~= self.ranges@);
        }
        out
    }
}

/// A whole character class: its rows, and whether the class as a whole is
/// inverted.
#[derive(Clone, Debug)]
pub struct CharacterSet {
    subsets: Vec<SubSet>,
    inverted: bool,
}

/// The rendered test of the rows after the first: each in parentheses,
/// joined by conjunction when the class is inverted and by disjunction
/// otherwise.
pub open spec fn set_code_rest(ss: Seq<SubSet>, inverted: bool, ident: Seq<char>) -> Seq<char>
    decreases ss.len(),
{
    if ss.len() == 0 {
        Seq::empty()
    } else {
        set_code_rest(ss.subrange(0, ss.len() - 1), inverted, ident) + (if inverted {
            " && ("@
        } else {
            " || ("@
        }) + subset_code(ss.last().ranges_view(), inverted ^ ss.last().inverted_view(), ident)
            + ")"@
    }
}

/// The rendered test of a whole class: the first row, in parentheses when
/// more follow, then the remaining rows.
pub open spec fn set_code(ss: Seq<SubSet>, inverted: bool, ident: Seq<char>) -> Seq<char> {
    if ss.len() == 1 {
        subset_code(ss[0].ranges_view(), inverted ^ ss[0].inverted_view(), ident)
    } else {
        "("@ + subset_code(ss[0].ranges_view(), inverted ^ ss[0].inverted_view(), ident) + ")"@
            + set_code_rest(ss.subrange(1, ss.len() as int), inverted, ident)
    }
}

impl CharacterSet {
    /// The rows of the class.
    pub closed spec fn subsets_view(&self) -> Seq<SubSet> {
        self.subsets@
    }

    /// Whether the class is inverted.
    pub closed spec fn inverted_view(&self) -> bool {
        self.inverted
    }

    /// An empty, non-inverted class.
    pub fn new() -> (r: CharacterSet)
        ensures
            r.subsets_view() == Seq::<SubSet>::empty(),
            !r.inverted_view(),
    {
        CharacterSet { subsets: Vec::new(), inverted: false }
    }

    /// Sets whether the class is inverted.
    pub fn invert(&mut self, invert: bool)
        ensures
            final(self).subsets_view() == old(self).subsets_view(),
            final(self).inverted_view() == invert,
    {
        self.inverted = invert;
    }

    /// Adds one row to the class.
    pub fn add_subsets(&mut self, subset: SubSet)
        ensures
            final(self).subsets_view() == old(self).subsets_view().push(subset),
            final(self).inverted_view() == old(self).inverted_view(),
    {
        self.subsets.push(subset);
    }

    /// Adds a row of a single range to the class.
    pub fn add_subset(&mut self, invert: bool, range: CharacterRange)
        ensures
            final(self).subsets_view().len() == old(self).subsets_view().len() + 1,
            final(self).subsets_view().last().ranges_view() == seq![range],
            final(self).subsets_view().last().inverted_view() == invert,
            final(self).subsets_view().subrange(0, old(self).subsets_view().len() as int) == old(
                self,
            ).subsets_view(),
            final(self).inverted_view() == old(self).inverted_view(),
    {
        let mut ranges: Vec<CharacterRange> = Vec::new();
        ranges.push(range);
        proof {
            assert(ranges@ =~= seq![range]);
        }
        self.subsets.push(SubSet::new(invert, ranges));
        proof {
            assert(final(self).subsets_view().subrange(0, old(self).subsets_view().len() as int)
                =~= old(self).subsets_view());
        }
    }

    /// Renders the whole class as one test of the given character variable.
    pub fn code(&self, char_identifier: &str) -> (r: String)
        requires
            self.subsets_view().len() > 0,
            forall|i: int|
                0 <= i < self.subsets_view().len() ==> (#[trigger] self.subsets_view()[i])
                    .ranges_view().len() > 0,
        ensures
            r@ == set_code(self.subsets_view(), self.inverted_view(), char_identifier@),
    {
        let n = self.subsets.len();
        proof {
            assert(self.subsets_view()[0].ranges_view().len() > 0);
        }
        let first = self.subsets[0].code(self.inverted, char_identifier);
        if n == 1 {
            return first;
        }
        let mut out = String::new();
        out.append("(");
        out.append(first.as_str());
        out.append(")");
        let ghost rest = self.subsets@.subrange(1, n as int);
        let ghost head = "("@ + subset_code(
            self.subsets@[0].ranges_view(),
            self.inverted ^ self.subsets@[0].inverted_view(),
            char_identifier@,
        ) + ")"@;
        proof {
            assert(rest.subrange(0, 0int) =~= Seq::<SubSet>::empty());
            assert(out@ =~= head + set_code_rest(rest.subrange(0, 0int), self.inverted,
                char_identifier@));
        }
        let mut k: usize = 1;
        while k < n
            invariant
                1 <= k <= n,
                n == self.subsets@.len(),
                n > 1,
                rest == self.subsets@.subrange(1, n as int),
                head == "("@ + subset_code(
                    self.subsets@[0].ranges_view(),
                    self.inverted ^ self.subsets@[0].inverted_view(),
                    char_identifier@,
                ) + ")"@,
                forall|i: int|
                    0 <= i < self.subsets_view().len() ==> (#[trigger] self.subsets_view()[i])
                        .ranges_view().len() > 0,
                out@ == head + set_code_rest(rest.subrange(0, k - 1), self.inverted,
                char_identifier@),
            decreases n - k,
        {
            if self.inverted {
                out.append(" && (");
            } else {
                out.append(" || (");
            }
            proof {
                assert(self.subsets_view()[k as int].ranges_view().len() > 0);
            }
            let piece = self.subsets[k].code(self.inverted, char_identifier);
            out.append(piece.as_str());
            out.append(")");
            proof {
                assert(rest.subrange(0, k as int).subrange(0, k - 1) =~= rest.subrange(0, k - 1));
                assert(rest.subrange(0, k as int).last() == self.subsets@[k as int]);
                assert(out@ =~= head + set_code_rest(
                    rest.subrange(0, k as int),
                    self.inverted,
                    char_identifier@,
                ));
            }
            k += 1;
        }
        proof {
            assert(rest.subrange(0, n - 1) =~= rest);
        }
        out
    }
}

} // verus!
