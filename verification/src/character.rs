use vstd::prelude::*;

verus! {

/// The character just before the cursor, or `Start` when the cursor stands at
/// the beginning of the input.
#[derive(Clone, Copy, Debug)]
pub enum Previous {
    Start,
    Character(char),
}

/// The previous character at position `pos` of `text`: `Start` at position 0,
/// otherwise the character one place back.
pub open spec fn prev_at(text: Seq<char>, pos: int) -> Previous {
    if pos <= 0 {
        Previous::Start
    } else {
        Previous::Character(text[pos - 1])
    }
}

/// The character under position `pos` of `text`, or `None` at the end.
pub open spec fn cur_at(text: Seq<char>, pos: int) -> Option<char> {
    if 0 <= pos < text.len() {
        Some(text[pos])
    } else {
        None
    }
}

impl Previous {
    /// The previous character; callers must know the cursor is not at the
    /// start of the input.
    pub fn unwrap(&self) -> (c: char)
        requires
            self is Character,
        ensures
            *self == Previous::Character(c),
    {
        match self {
            Previous::Character(ch) => *ch,
            Previous::Start => vstd::pervasive::unreached(),
        }
    }
}

/// A snapshot of the cursor: the position of the current character, the
/// character itself (`None` at the end of the text), and the one before it.
#[derive(Clone, Copy, Debug)]
pub struct CharacterInfo {
    index: usize,
    current: Option<char>,
    previous: Previous,
}

impl CharacterInfo {
    fn new(index: usize, current: Option<char>, previous: Previous) -> (r: CharacterInfo)
        ensures
            r.spec_index() == index,
            r.spec_current() == current,
            r.spec_previous() == previous,
    {
        CharacterInfo { index, current, previous }
    }

    /// The position this snapshot was taken at.
    pub closed spec fn spec_index(&self) -> int {
        self.index as int
    }

    /// The character at the snapshot position, if any.
    pub closed spec fn spec_current(&self) -> Option<char> {
        self.current
    }

    /// The character before the snapshot position.
    pub closed spec fn spec_previous(&self) -> Previous {
        self.previous
    }

    /// The position of the snapshot.
    pub fn index(&self) -> (r: usize)
        ensures
            r == self.spec_index(),
    {
        self.index
    }

    /// The character at the snapshot position, or `None` at the end.
    pub fn current(&self) -> (r: Option<char>)
        ensures
            r == self.spec_current(),
    {
        self.current
    }

    /// The character before the snapshot position.
    pub fn previous(&self) -> (r: Previous)
        ensures
            r == self.spec_previous(),
    {
        self.previous
    }
}

/// A cursor over the characters of an input, keeping one character of
/// lookback so that anchors and word boundaries need no rescanning. Copying
/// it is constant-time.
#[derive(Clone, Copy)]
pub struct Advancer<'t> {
    text: &'t Vec<char>,
    pos: usize,
    prev: Previous,
}

impl<'t> Advancer<'t> {
    #[verifier::type_invariant]
    closed spec fn wf(self) -> bool {
        &&& self.pos <= self.text@.len()
        &&& self.prev == prev_at(self.text@, self.pos as int)
    }

    /// The characters being scanned.
    pub closed spec fn text_view(&self) -> Seq<char> {
        self.text@
    }

    /// The position of the current character.
    pub closed spec fn pos_view(&self) -> int {
        self.pos as int
    }

    pub(crate) fn new(text: &'t Vec<char>, pos: usize) -> (r: Advancer<'t>)
        requires
            pos <= text@.len(),
        ensures
            r.text_view() == text@,
            r.pos_view() == pos,
    {
        let prev = if pos == 0 {
            Previous::Start
        } else {
            Previous::Character(text[pos - 1])
        };
        Advancer { text, pos, prev }
    }

    /// The character before the current position, without consuming anything.
    pub fn prev(&self) -> (r: Previous)
        ensures
            r == prev_at(self.text_view(), self.pos_view()),
    {
        proof {
            use_type_invariant(self);
        }
        self.prev
    }

    /// The length of the scanned text.
    pub(crate) fn text_len(&self) -> (r: usize)
        ensures
            r == self.text_view().len(),
    {
        self.text.len()
    }

    /// The current position; it never exceeds the text length.
    pub(crate) fn index(&self) -> (r: usize)
        ensures
            r == self.pos_view(),
            r <= self.text_view().len(),
    {
        proof {
            use_type_invariant(self);
        }
        self.pos
    }

    /// The character at the current position, or `None` at the end.
    pub(crate) fn current(&self) -> (r: Option<char>)
        ensures
            r == cur_at(self.text_view(), self.pos_view()),
    {
        proof {
            use_type_invariant(self);
        }
        if self.pos < self.text.len() {
            Some(self.text[self.pos])
        } else {
            None
        }
    }

    /// Consumes one character: past the end the position stays put, so the
    /// lookback remains the last character observed.
    pub(crate) fn bump(&mut self)
        ensures
            final(self).text_view() == old(self).text_view(),
            final(self).pos_view() == if old(self).pos_view() < old(self).text_view().len() {
                old(self).pos_view() + 1
            } else {
                old(self).pos_view()
            },
    {
        proof {
            use_type_invariant(&*self);
        }
        if self.pos < self.text.len() {
            *self = Advancer {
                text: self.text,
                pos: self.pos + 1,
                prev: Previous::Character(self.text[self.pos]),
            };
        }
    }

    /// Returns the snapshot for the current position and moves past it; at
    /// the end of the text it keeps returning an end snapshot.
    pub fn advance(&mut self) -> (info: CharacterInfo)
        ensures
            final(self).text_view() == old(self).text_view(),
            final(self).pos_view() == if old(self).pos_view() < old(self).text_view().len() {
                old(self).pos_view() + 1
            } else {
                old(self).pos_view()
            },
            info.spec_index() == old(self).pos_view(),
            info.spec_current() == cur_at(old(self).text_view(), old(self).pos_view()),
            info.spec_previous() == prev_at(old(self).text_view(), old(self).pos_view()),
    {
        proof {
            use_type_invariant(&*self);
        }
        let current = self.current();
        let info = CharacterInfo::new(self.pos, current, self.prev);
        self.bump();
        info
    }
}

/// Yields one independent `Advancer` per candidate match start: every
/// character boundary of the input from the chosen start up to and including
/// the end of the text.
pub struct AdvancerIterator<'t> {
    text: &'t Vec<char>,
    pos: usize,
    done: bool,
}

impl<'t> AdvancerIterator<'t> {
    #[verifier::type_invariant]
    closed spec fn wf(self) -> bool {
        self.pos <= self.text@.len()
    }

    /// The characters being scanned.
    pub closed spec fn text_view(&self) -> Seq<char> {
        self.text@
    }

    /// The boundary the next cursor will stand at, or `None` once every
    /// boundary has been handed out.
    pub closed spec fn next_start(&self) -> Option<int> {
        if self.done {
            None
        } else {
            Some(self.pos as int)
        }
    }

    pub fn new(text: &'t Vec<char>, start: usize) -> (r: AdvancerIterator<'t>)
        requires
            start <= text@.len(),
        ensures
            r.text_view() == text@,
            r.next_start() == Some(start as int),
    {
        AdvancerIterator { text, pos: start, done: false }
    }

    /// The cursor for the next candidate start, or `None` when every
    /// boundary has been handed out.
    pub fn next(&mut self) -> (r: Option<Advancer<'t>>)
        ensures
            final(self).text_view() == old(self).text_view(),
            match r {
                Some(adv) => {
                    &&& old(self).next_start() == Some(adv.pos_view())
                    &&& adv.text_view() == old(self).text_view()
                    &&& adv.pos_view() <= old(self).text_view().len()
                    &&& final(self).next_start() == if adv.pos_view()
                        < old(self).text_view().len() {
                        Some(adv.pos_view() + 1)
                    } else {
                        None::<int>
                    }
                },
                None => {
                    &&& old(self).next_start() is None
                    &&& final(self).next_start() is None
                },
            },
    {
        proof {
            use_type_invariant(&*self);
        }
        if self.done {
            None
        } else {
            let adv = Advancer::new(self.text, self.pos);
            if self.pos < self.text.len() {
                self.pos += 1;
            } else {
                self.done = true;
            }
            Some(adv)
        }
    }
}

/// Collects the characters of a string slice into a vector, preserving the
/// sequence of characters exactly.
pub fn chars_of(text: &str) -> (r: Vec<char>)
    ensures
        r@ == text@,
{
    let n = text.unicode_len();
    let mut out: Vec<char> = Vec::new();
    let mut k: usize = 0;
    while k < n
        invariant
            k <= n,
            n == text@.len(),
            out@ =~= text@.subrange(0, k as int),
        decreases n - k,
    {
        out.push(text.get_char(k));
        k += 1;
    }
    proof {
        assert(out@ =~= text@);
    }
    out
}

} // verus!
