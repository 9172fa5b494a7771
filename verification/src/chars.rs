//! The located character source: the characters of a text, one at a time,
//! with the line and column of the cursor.

use itertools::Itertools;
use vstd::prelude::*;
use vstd::string::*;
use crate::machine::{blank_run, blank_width, cursor_at, is_blank, run_width, Slice};
use crate::token::{not_after, Location};

verus! {

/// Line and column together never exceed the number of characters read.
pub proof fn lemma_cursor_bound(text: Seq<char>, n: nat)
    ensures
        cursor_at(text, n).line + cursor_at(text, n).column <= n,
    decreases n,
{
    if n > 0 {
        lemma_cursor_bound(text, (n - 1) as nat);
    }
}

/// The cursor never moves back as more characters are read.
pub proof fn lemma_cursor_monotone(text: Seq<char>, a: nat, b: nat)
    requires
        a <= b,
    ensures
        not_after(cursor_at(text, a), cursor_at(text, b)),
    decreases b - a,
{
    if a < b {
        lemma_cursor_monotone(text, a, (b - 1) as nat);
    }
}

/// A run of spaces and tabs ends inside the text, holds nothing else, and
/// cannot be made longer.
pub proof fn lemma_blank_run(text: Seq<char>, from: nat)
    requires
        from <= text.len(),
    ensures
        from + blank_run(text, from) <= text.len(),
        forall|i: int| from <= i < from + blank_run(text, from) ==> is_blank(#[trigger] text[i]),
        from + blank_run(text, from) < text.len() ==> !is_blank(
            text[(from + blank_run(text, from)) as int],
        ),
    decreases text.len() - from,
{
    if from < text.len() && is_blank(text[from as int]) {
        lemma_blank_run(text, from + 1);
    }
}

/// A stretch of `n` spaces and tabs that is followed by something else, or
/// by the end of the text, is the longest run.
pub proof fn lemma_blank_run_is(text: Seq<char>, from: nat, n: nat)
    requires
        from + n <= text.len(),
        forall|i: int| from <= i < from + n ==> is_blank(#[trigger] text[i]),
        from + n < text.len() ==> !is_blank(text[(from + n) as int]),
    ensures
        blank_run(text, from) == n,
    decreases n,
{
    if n > 0 {
        lemma_blank_run_is(text, from + 1, (n - 1) as nat);
    }
}

/// A run of `n` spaces and tabs is at most `4 * n` wide.
pub proof fn lemma_run_width_bound(text: Seq<char>, from: nat, n: nat)
    ensures
        run_width(text, from, n) <= 4 * n,
    decreases n,
{
    if n > 0 {
        lemma_run_width_bound(text, from, (n - 1) as nat);
    }
}

/// Whether `c` is a space or a tab.
pub fn is_indent_char(c: char) -> (blank: bool)
    ensures
        blank == is_blank(c),
{
    c == ' ' || c == '\t'
}

/// The width by which a space or a tab indents.
pub fn indent_width(c: char) -> (width: usize)
    ensures
        width == blank_width(c),
{
    if c == '\t' {
        4
    } else {
        1
    }
}

/// Calls `Itertools::take_while_ref` over the characters from `from` on,
/// with the test for a space or a tab, and collects what it hands out. The
/// adaptor hands out elements for as long as the test accepts them and
/// stops at the first that it rejects: so the result is the stretch of
/// spaces and tabs that starts at `from` and is followed by another
/// character or by the end.
#[verifier::external_body]
fn take_blanks(chars: &Vec<char>, from: usize) -> (run: Vec<char>)
    requires
        from <= chars@.len(),
    ensures
        from + run@.len() <= chars@.len(),
        run@ == chars@.subrange(from as int, from + run@.len()),
        forall|i: int| 0 <= i < run@.len() ==> is_blank(#[trigger] run@[i]),
        from + run@.len() < chars@.len() ==> !is_blank(chars@[from + run@.len()]),
{
    let mut rest = chars[from..].iter();
    rest.take_while_ref(|c| is_indent_char(**c)).copied().collect()
}

/// The characters of a text with a cursor into them.
pub struct CharsLoc<'a> {
    source: &'a str,
    chars: Vec<char>,
    pos: usize,
    location: Location,
}

impl<'a> CharsLoc<'a> {
    /// The whole text.
    pub closed spec fn text(&self) -> Seq<char> {
        self.chars@
    }

    /// How many characters have been read.
    pub closed spec fn offset(&self) -> nat {
        self.pos as nat
    }

    /// The cursor is inside the text, and the location is the one that the
    /// characters read so far lead to.
    pub closed spec fn wf(&self) -> bool {
        &&& self.source@ == self.chars@
        &&& self.pos <= self.chars@.len()
        &&& self.location@ == cursor_at(self.chars@, self.pos as nat)
    }

    /// A source at the start of `input`.
    pub fn new(input: &'a str) -> (source: CharsLoc<'a>)
        ensures
            source.wf(),
            source.text() == input@,
            source.offset() == 0,
    {
        let mut chars: Vec<char> = Vec::new();
        for c in rest: input.chars()
            invariant
                rest.seq() == input@,
                chars@ == input@.take(rest.index() as int),
        {
            chars.push(c);
        }
        assert(chars@ == input@);
        CharsLoc { source: input, chars, pos: 0, location: Location { line: 0, column: 0 } }
    }

    /// Where the cursor stands.
    pub fn location(&self) -> (loc: Location)
        requires
            self.wf(),
        ensures
            loc@ == cursor_at(self.text(), self.offset()),
    {
        self.location
    }

    /// The character that the cursor stands before, with its offset; `None`
    /// at the end of the text.
    pub open spec fn peek_spec(&self) -> Option<(usize, char)> {
        if self.offset() < self.text().len() {
            Some((self.offset() as usize, self.text()[self.offset() as int]))
        } else {
            None
        }
    }

    /// The next character with its offset, without reading it.
    pub fn peek(&self) -> (item: Option<(usize, char)>)
        requires
            self.wf(),
        ensures
            item == self.peek_spec(),
    {
        if self.pos < self.chars.len() {
            Some((self.pos, self.chars[self.pos]))
        } else {
            None
        }
    }

    /// Reads the next character and gives it with its offset. A line feed
    /// moves the cursor to the start of the next line, any other character
    /// one column on. At the end of the text nothing changes.
    pub fn next(&mut self) -> (item: Option<(usize, char)>)
        requires
            old(self).wf(),
        ensures
            final(self).wf(),
            final(self).text() == old(self).text(),
            item == old(self).peek_spec(),
            final(self).offset() == if item is Some {
                old(self).offset() + 1
            } else {
                old(self).offset()
            },
    {
        if self.pos < self.chars.len() {
            let index = self.pos;
            let c = self.chars[index];
            proof {
                lemma_cursor_bound(self.chars@, self.pos as nat);
            }
            if c == '\n' {
                self.location = Location { line: self.location.line + 1, column: 0 };
            } else {
                self.location = Location {
                    line: self.location.line,
                    column: self.location.column + 1,
                };
            }
            self.pos = index + 1;
            Some((index, c))
        } else {
            None
        }
    }

    /// The text between the two offsets of `slice`, both included.
    pub fn take_str(&self, slice: &Slice) -> (text: &'a str)
        requires
            self.wf(),
            slice.start <= slice.end < self.text().len(),
        ensures
            text@ == self.text().subrange(slice.start as int, slice.end + 1),
    {
        let n = self.chars.len();
        assert(slice.end < n);
        self.source.substring_char(slice.start, slice.end + 1)
    }

    /// Reads the whole run of spaces and tabs that the cursor stands
    /// before, and gives its summed width.
    pub fn skip_blanks(&mut self) -> (width: usize)
        requires
            old(self).wf(),
            4 * old(self).text().len() <= usize::MAX,
        ensures
            final(self).wf(),
            final(self).text() == old(self).text(),
            final(self).offset() == old(self).offset() + blank_run(
                old(self).text(),
                old(self).offset(),
            ),
            width == run_width(
                old(self).text(),
                old(self).offset(),
                blank_run(old(self).text(), old(self).offset()),
            ),
    {
        let run = take_blanks(&self.chars, self.pos);
        let ghost from = self.pos as nat;
        let ghost text = self.chars@;
        proof {
            assert forall|i: int| from <= i < from + run@.len() implies is_blank(
                #[trigger] text[i],
            ) by {
                assert(text[i] == run@[i - from]);
            }
            lemma_blank_run_is(text, from, run@.len());
        }
        let mut width: usize = 0;
        let mut i: usize = 0;
        while i < run.len()
            invariant
                self.wf(),
                self.chars@ == text,
                i <= run.len(),
                from + run@.len() <= text.len(),
                4 * text.len() <= usize::MAX,
                self.pos == from + i,
                run@ == text.subrange(from as int, (from + run@.len()) as int),
                width == run_width(text, from, i as nat),
            decreases run.len() - i,
        {
            proof {
                lemma_run_width_bound(text, from, i as nat);
                assert(run@[i as int] == text[from + i]);
            }
            width = width + indent_width(run[i]);
            let _ = self.next();
            i = i + 1;
        }
        width
    }
}

} // verus!
