use vstd::prelude::*;
use vstd::string::{StrSliceExecFns, StringExecFns};

use crate::captures::{expand_spec, Captures};

verus! {

/// A source of replacement text: for each match's captures it appends the
/// replacement to the output. Implementations must append — the text
/// already written stays — and must not change their own state.
pub trait Replacer: Sized {
    /// What this replacer appends for a match with the given capture slots
    /// over the given text and named groups.
    spec fn replacement_view(
        &self,
        cv: Seq<Option<(usize, usize)>>,
        ctext: Seq<char>,
        names: Seq<(Seq<char>, usize)>,
    ) -> Seq<char>;

    /// Appends the replacement for one match to `dst`.
    fn replace_append(&mut self, caps: &Captures, dst: &mut String)
        ensures
            final(dst)@ == old(dst)@ + old(self).replacement_view(
                caps.caps_view(),
                caps.text_view(),
                caps.names_view(),
            ),
            *final(self) == *old(self),
    ;
}

/// A literal replacement: the text is appended as it stands, with no
/// expansion of dollar forms.
#[derive(Clone, Copy, Debug)]
pub struct NoExpand<'t>(pub &'t str);

impl<'t> NoExpand<'t> {
    /// Wraps a replacement that is to be used verbatim.
    pub fn new(replacement: &'t str) -> (r: NoExpand<'t>)
        ensures
            r.0@ == replacement@,
    {
        NoExpand(replacement)
    }
}

impl<'t> Replacer for NoExpand<'t> {
    open spec fn replacement_view(
        &self,
        cv: Seq<Option<(usize, usize)>>,
        ctext: Seq<char>,
        names: Seq<(Seq<char>, usize)>,
    ) -> Seq<char> {
        self.0@
    }

    fn replace_append(&mut self, caps: &Captures, dst: &mut String) {
        dst.append(self.0);
    }
}

impl<'a> Replacer for &'a str {
    open spec fn replacement_view(
        &self,
        cv: Seq<Option<(usize, usize)>>,
        ctext: Seq<char>,
        names: Seq<(Seq<char>, usize)>,
    ) -> Seq<char> {
        expand_spec(cv, ctext, names, self@, 0)
    }

    fn replace_append(&mut self, caps: &Captures, dst: &mut String) {
        caps.expand(*self, dst);
    }
}

impl Replacer for String {
    open spec fn replacement_view(
        &self,
        cv: Seq<Option<(usize, usize)>>,
        ctext: Seq<char>,
        names: Seq<(Seq<char>, usize)>,
    ) -> Seq<char> {
        expand_spec(cv, ctext, names, self@, 0)
    }

    fn replace_append(&mut self, caps: &Captures, dst: &mut String) {
        let s: &str = self.as_str();
        caps.expand(s, dst);
    }
}

} // verus!
