//! A source of characters with one character of lookahead.

use vstd::prelude::*;

verus! {

/// Whether `c` is white space: one of the characters that Unicode gives the
/// property `White_Space`.
pub open spec fn is_whitespace(c: char) -> bool {
    let code = c as u32;
    ||| 0x09 <= code <= 0x0D
    ||| code == 0x20
    ||| code == 0x85
    ||| code == 0xA0
    ||| code == 0x1680
    ||| 0x2000 <= code <= 0x200A
    ||| code == 0x2028
    ||| code == 0x2029
    ||| code == 0x202F
    ||| code == 0x205F
    ||| code == 0x3000
}

/// Tells whether `c` is white space.
pub fn char_is_whitespace(c: char) -> (white: bool)
    ensures
        white == is_whitespace(c),
{
    let code = c as u32;
    (0x09 <= code && code <= 0x0D) || code == 0x20 || code == 0x85 || code == 0xA0 || code
        == 0x1680 || (0x2000 <= code && code <= 0x200A) || code == 0x2028 || code == 0x2029
        || code == 0x202F || code == 0x205F || code == 0x3000
}

/// The first position from `from` on that holds no white space, or the
/// end of the text.
pub open spec fn skip_whitespace(text: Seq<char>, from: int) -> int
    decreases text.len() - from,
{
    if 0 <= from < text.len() && is_whitespace(text[from]) {
        skip_whitespace(text, from + 1)
    } else {
        from
    }
}

/// White space is skipped forwards, within the text, up to a character
/// that is none.
pub proof fn lemma_skip_whitespace(text: Seq<char>, from: int)
    requires
        0 <= from <= text.len(),
    ensures
        from <= skip_whitespace(text, from) <= text.len(),
        skip_whitespace(text, from) < text.len() ==> !is_whitespace(
            text[skip_whitespace(text, from)],
        ),
        forall|k: int| from <= k < skip_whitespace(text, from) ==> is_whitespace(text[k]),
    decreases text.len() - from,
{
    if from < text.len() && is_whitespace(text[from]) {
        lemma_skip_whitespace(text, from + 1);
    }
}

/// A text and a position in it: the characters before the position have
/// been consumed, the one at the position comes next.
pub struct CharSource {
    chars: Vec<char>,
    pos: usize,
}

impl CharSource {
    #[verifier::type_invariant]
    spec fn in_text(&self) -> bool {
        self.pos <= self.chars.len()
    }

    /// The whole text, consumed or not.
    pub closed spec fn text(&self) -> Seq<char> {
        self.chars@
    }

    /// How many characters have been consumed.
    pub closed spec fn position(&self) -> int {
        self.pos as int
    }

    /// A source that holds `text`, with nothing consumed.
    pub fn new(text: &str) -> (source: Self)
        ensures
            source.text() == text@,
            source.position() == 0,
    {
        let mut chars: Vec<char> = Vec::new();
        for c in it: text.chars()
            invariant
                it.seq() == text@,
                chars@ == it.history(),
        {
            chars.push(c);
        }
        assert(chars@ =~= text@);
        CharSource { chars, pos: 0 }
    }

    /// The number of characters consumed so far.
    pub fn consumed(&self) -> (n: usize)
        ensures
            n == self.position(),
    {
        self.pos
    }

    /// The next character, which stays in the source; `None` at the end.
    pub fn peek(&self) -> (c: Option<char>)
        ensures
            0 <= self.position() <= self.text().len(),
            c == if self.position() < self.text().len() {
                Some(self.text()[self.position()])
            } else {
                None
            },
    {
        proof {
            use_type_invariant(self);
        }
        if self.pos < self.chars.len() {
            Some(self.chars[self.pos])
        } else {
            None
        }
    }

    /// Consumes the next character and returns it; `None` at the end, where
    /// nothing changes.
    pub fn next(&mut self) -> (c: Option<char>)
        ensures
            final(self).text() == old(self).text(),
            0 <= old(self).position() <= old(self).text().len(),
            old(self).position() < old(self).text().len() ==> c == Some(
                old(self).text()[old(self).position()],
            ) && final(self).position() == old(self).position() + 1,
            old(self).position() == old(self).text().len() ==> c is None
                && final(self).position() == old(self).position(),
    {
        proof {
            use_type_invariant(&*self);
        }
        if self.pos < self.chars.len() {
            let c = self.chars[self.pos];
            self.pos = self.pos + 1;
            Some(c)
        } else {
            None
        }
    }

    /// Consumes the white space that comes next, if any.
    pub fn skip_whitespace(&mut self)
        ensures
            final(self).text() == old(self).text(),
            final(self).position() == skip_whitespace(old(self).text(), old(self).position()),
            0 <= old(self).position() <= final(self).position() <= old(self).text().len(),
    {
        proof {
            use_type_invariant(&*self);
            lemma_skip_whitespace(self.chars@, self.pos as int);
        }
        while self.pos < self.chars.len() && char_is_whitespace(self.chars[self.pos])
            invariant
                self.pos <= self.chars.len(),
                self.chars == old(self).chars,
                skip_whitespace(self.chars@, self.pos as int) == skip_whitespace(
                    old(self).chars@,
                    old(self).pos as int,
                ),
            decreases self.chars.len() - self.pos,
        {
            self.pos = self.pos + 1;
        }
    }
}

} // verus!
