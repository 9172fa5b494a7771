//! The tokenizer as a mathematical state machine.
//!
//! A `Machine` is the whole state of a tokenizer over a text: how far it
//! has read, what it is in the middle of, the current indentation and the
//! token it still owes. `Machine::next` says which token comes next and in
//! which state that leaves the machine; `Machine::tokens` is the whole run
//! of tokens from a state on. The executable tokenizer is proved to follow
//! this machine step by step.

use vstd::prelude::*;
use crate::token::{
    de_indent_token, indent_token, move_token, name_text, name_token, newline_token, not_after,
    MoveKind, NamePart, Position, TokenView,
};

verus! {

/// A run of text inside the source: the offsets of its first and of its
/// last character, counted in characters.
#[derive(Debug, PartialEq, Eq, Clone, Copy)]
pub struct Slice {
    pub start: usize,
    pub end: usize,
}

/// What the machine is in the middle of.
pub ghost enum Mode {
    /// At the start of a line, its indentation not yet measured.
    Newline,
    /// Inside a line, outside any name.
    Normal,
    /// Inside a name that began when the cursor stood at `start`.
    PartialName { start: Position, parts: Seq<NamePart<Slice>> },
}

/// The state of a tokenizer.
pub ghost struct Machine {
    /// The whole source.
    pub text: Seq<char>,
    /// How many characters have been read.
    pub pos: nat,
    pub mode: Mode,
    /// The indentation width that was measured or emitted last.
    pub depth: nat,
    /// A token that was produced ahead of its turn.
    pub pending: Option<TokenView>,
}

/// Where the cursor stands after the first `n` characters of `text`: a line
/// feed starts a new line, any other character moves one column on.
pub open spec fn cursor_at(text: Seq<char>, n: nat) -> Position
    decreases n,
{
    if n == 0 {
        Position { line: 0, column: 0 }
    } else {
        let before = cursor_at(text, (n - 1) as nat);
        if text[n - 1] == '\n' {
            Position { line: before.line + 1, column: 0 }
        } else {
            Position { line: before.line, column: before.column + 1 }
        }
    }
}

/// Spaces and tabs are the characters that indent.
pub open spec fn is_blank(c: char) -> bool {
    c == ' ' || c == '\t'
}

/// A space indents by one column, a tab by four.
pub open spec fn blank_width(c: char) -> nat {
    if c == '\t' {
        4
    } else {
        1
    }
}

/// The length of the longest run of spaces and tabs that starts at `from`.
pub open spec fn blank_run(text: Seq<char>, from: nat) -> nat
    decreases text.len() - from,
{
    if from < text.len() && is_blank(text[from as int]) {
        1 + blank_run(text, from + 1)
    } else {
        0
    }
}

/// The summed widths of the `n` characters that start at `from`.
pub open spec fn run_width(text: Seq<char>, from: nat, n: nat) -> nat
    decreases n,
{
    if n == 0 {
        0
    } else {
        run_width(text, from, (n - 1) as nat) + blank_width(text[from + n - 1])
    }
}

/// How many characters a comment takes from `from` on: all up to the end
/// of the line, the line feed included, or up to the end of the text.
pub open spec fn line_rest(text: Seq<char>, from: nat) -> nat
    decreases text.len() - from,
{
    if from >= text.len() {
        0
    } else if text[from as int] == '\n' {
        1
    } else {
        1 + line_rest(text, from + 1)
    }
}

/// The text that a part recorded by its offsets stands for.
pub open spec fn resolve_part(text: Seq<char>, part: NamePart<Slice>) -> NamePart<Seq<char>> {
    match part {
        NamePart::Ident(slice) => NamePart::Ident(
            text.subrange(slice.start as int, slice.end + 1),
        ),
        NamePart::Star => NamePart::Star,
        NamePart::Ampersand => NamePart::Ampersand,
        NamePart::Slash => NamePart::Slash,
    }
}

/// The parts of a name, each with the text that its offsets stand for.
pub open spec fn resolve(text: Seq<char>, parts: Seq<NamePart<Slice>>) -> Seq<NamePart<Seq<char>>> {
    Seq::new(parts.len(), |i: int| resolve_part(text, parts[i]))
}

/// The parts of a name after one more character of ordinary text, found at
/// `index`: a trailing run of text is stretched to end there, and after a
/// marker a new run of one character begins.
pub open spec fn with_text(parts: Seq<NamePart<Slice>>, index: usize) -> Seq<NamePart<Slice>> {
    if parts.len() > 0 && parts.last() is Ident {
        parts.update(
            parts.len() - 1,
            NamePart::Ident(Slice { start: parts.last()->Ident_0.start, end: index }),
        )
    } else {
        parts.push(NamePart::Ident(Slice { start: index, end: index }))
    }
}

/// How many characters the text of a name has.
pub open spec fn name_len(text: Seq<char>, parts: Seq<NamePart<Slice>>) -> nat {
    name_text(resolve(text, parts)).len()
}

/// What holds of the parts of a name while it is accumulated, `pos`
/// characters into the text: there is at least one part, every run of text
/// lies in what was read, no run of text follows another directly, and the
/// name is no longer than what was read, nor than what was read up to the
/// end of a trailing run of text.
pub open spec fn parts_fit(text: Seq<char>, parts: Seq<NamePart<Slice>>, pos: nat) -> bool {
    &&& parts.len() > 0
    &&& forall|i: int|
        0 <= i < parts.len() ==> (#[trigger] parts[i] matches NamePart::Ident(slice)
            ==> slice.start <= slice.end < pos)
    &&& forall|i: int|
        0 < i < parts.len() ==> !(parts[i - 1] is Ident && #[trigger] parts[i] is Ident)
    &&& name_len(text, parts) <= pos
    &&& (parts.last() matches NamePart::Ident(slice) ==> name_len(text, parts) <= slice.end + 1)
}

/// Whether `c`, read right after an operator's first character, completes
/// the operator: `>` after `-` for a link, a space or a tab after `>` for a
/// copy.
pub open spec fn completes(kind: MoveKind, c: char) -> bool {
    match kind {
        MoveKind::Link => c == '>',
        MoveKind::Copy => is_blank(c),
    }
}

impl Machine {
    /// The machine before anything of `text` was read.
    pub open spec fn start(text: Seq<char>) -> Machine {
        Machine { text, pos: 0, mode: Mode::Newline, depth: 0, pending: None }
    }

    /// What holds of every state that the tokenizer reaches: the cursor is
    /// inside the text, whose offsets fit the machine's word; the indentation is no wider than what was read
    /// could make it; an owed token is a line end that stands at or before
    /// the cursor, and is owed only at the start of a line; a name that is
    /// being accumulated began at or before the cursor, and its parts fit
    /// what was read.
    pub open spec fn wf(self) -> bool {
        &&& self.pos <= self.text.len() <= usize::MAX
        &&& self.depth <= 4 * self.pos
        &&& (self.pending matches Some(token) ==> {
            &&& token == newline_token(token.location)
            &&& not_after(token.location, self.cursor())
            &&& self.mode is Newline
        })
        &&& (self.mode matches Mode::PartialName { start, parts } ==> {
            &&& not_after(start, self.cursor())
            &&& parts_fit(self.text, parts, self.pos)
        })
    }

    pub open spec fn cursor(self) -> Position {
        cursor_at(self.text, self.pos)
    }

    pub open spec fn at_end(self) -> bool {
        self.pos >= self.text.len()
    }

    /// How many characters are still to be read.
    pub open spec fn unread(self) -> nat {
        if self.pos <= self.text.len() {
            (self.text.len() - self.pos) as nat
        } else {
            0
        }
    }

    /// The machine with the cursor at `pos`, all else as it is.
    pub open spec fn moved_to(self, pos: nat) -> Machine {
        Machine { pos, ..self }
    }

    /// The machine after one more character was read.
    pub open spec fn advance(self) -> Machine {
        Machine { pos: self.pos + 1, ..self }
    }

    /// The token for the name that is being accumulated.
    pub open spec fn flushed(self) -> TokenView
        recommends
            self.mode is PartialName,
    {
        name_token(self.mode->start, resolve(self.text, self.mode->parts))
    }

    /// Ends the line with a line-end token that stands at `at`. A name that
    /// was being accumulated comes out first, and the line-end token is
    /// kept for the next pull.
    pub open spec fn end_line(self, at: Position) -> (Machine, Option<TokenView>) {
        let ended = Machine { mode: Mode::Newline, ..self };
        if self.mode is PartialName {
            (Machine { pending: Some(newline_token(at)), ..ended }, Some(self.flushed()))
        } else {
            (ended, Some(newline_token(at)))
        }
    }

    /// After `#`: the rest of the line is dropped, and the line ends with a
    /// token that stands where the comment's text began.
    pub open spec fn line_comment(self) -> (Machine, Option<TokenView>) {
        self.moved_to(self.pos + line_rest(self.text, self.pos)).end_line(self.cursor())
    }

    /// After a line feed.
    pub open spec fn newline(self) -> (Machine, Option<TokenView>) {
        self.end_line(self.cursor())
    }

    /// After a space (`delta` 1) or a tab (`delta` 4). At the start of a
    /// line the whole run of spaces and tabs is measured and compared with
    /// the current indentation; inside a name it ends the name; elsewhere
    /// it is passed over.
    pub open spec fn white_space(self, delta: nat) -> (Machine, Option<TokenView>) {
        match self.mode {
            Mode::Newline => {
                let run = blank_run(self.text, self.pos);
                let width = delta + run_width(self.text, self.pos, run);
                let after = Machine {
                    pos: self.pos + run,
                    mode: Mode::Normal,
                    depth: width,
                    ..self
                };
                if self.depth < width {
                    (after, Some(indent_token(after.cursor(), (width - self.depth) as nat)))
                } else if self.depth == width {
                    (after, None)
                } else {
                    (after, Some(de_indent_token(after.cursor(), (self.depth - width) as nat)))
                }
            },
            Mode::PartialName { .. } => (
                Machine { mode: Mode::Normal, ..self },
                Some(self.flushed()),
            ),
            Mode::Normal => (self, None),
        }
    }

    /// Begins a name with `part`. A name that begins a line without leading
    /// blanks closes all open indentation first.
    pub open spec fn set_partial(self, part: NamePart<Slice>) -> (Machine, Option<TokenView>) {
        let named = Machine {
            mode: Mode::PartialName { start: self.cursor(), parts: seq![part] },
            ..self
        };
        if self.mode is Newline && self.depth != 0 {
            (Machine { depth: 0, ..named }, Some(de_indent_token(self.cursor(), self.depth)))
        } else {
            (named, None)
        }
    }

    /// After one of the markers `*`, `&` and `/`.
    pub open spec fn single_name(self, part: NamePart<Slice>) -> (Machine, Option<TokenView>) {
        match self.mode {
            Mode::PartialName { start, parts } => (
                Machine { mode: Mode::PartialName { start, parts: parts.push(part) }, ..self },
                None,
            ),
            _ => self.set_partial(part),
        }
    }

    /// After a character of ordinary text that was found at `index`.
    pub open spec fn name(self, index: usize) -> (Machine, Option<TokenView>) {
        match self.mode {
            Mode::PartialName { start, parts } => (
                Machine {
                    mode: Mode::PartialName { start, parts: with_text(parts, index) },
                    ..self
                },
                None,
            ),
            _ => self.set_partial(NamePart::Ident(Slice { start: index, end: index })),
        }
    }

    /// After `>` or `-`, found at `start`. Whatever was being accumulated
    /// is given up. The character that follows is read; where it completes
    /// the operator the operator's token comes out, else a name begins whose
    /// first part is the operator's character alone.
    pub open spec fn move_kind(self, start: usize, kind: MoveKind) -> (Machine, Option<TokenView>) {
        let cleared = Machine { mode: Mode::Normal, ..self };
        if self.at_end() {
            cleared.name(start)
        } else if completes(kind, self.text[self.pos as int]) {
            (cleared.advance(), Some(move_token(cleared.advance().cursor(), kind)))
        } else {
            cleared.advance().name(start)
        }
    }

    /// At the end of the text: a name that was being accumulated comes out;
    /// then open indentation is closed; then the run of tokens ends.
    pub open spec fn finalizer(self) -> (Machine, Option<TokenView>) {
        if self.mode is PartialName {
            (Machine { mode: Mode::Normal, ..self }, Some(self.flushed()))
        } else if self.depth > 0 {
            (Machine { depth: 0, ..self }, Some(de_indent_token(self.cursor(), self.depth)))
        } else {
            (self, None)
        }
    }

    /// Reads one character and acts on it.
    pub open spec fn step(self) -> (Machine, Option<TokenView>)
        recommends
            !self.at_end(),
    {
        let c = self.text[self.pos as int];
        let index = self.pos as usize;
        let read = self.advance();
        if c == '#' {
            read.line_comment()
        } else if c == '\n' {
            read.newline()
        } else if c == ' ' {
            read.white_space(1)
        } else if c == '\t' {
            read.white_space(4)
        } else if c == '>' {
            read.move_kind(index, MoveKind::Copy)
        } else if c == '-' {
            read.move_kind(index, MoveKind::Link)
        } else if c == '*' {
            read.single_name(NamePart::Star)
        } else if c == '&' {
            read.single_name(NamePart::Ampersand)
        } else if c == '/' {
            read.single_name(NamePart::Slash)
        } else {
            read.name(index)
        }
    }

    /// One pull: the state it leaves and the token it gives, `None` once
    /// the run of tokens has ended. A token that is owed comes first;
    /// otherwise characters are read until one of them gives a token or the
    /// text ends.
    pub open spec fn next(self) -> (Machine, Option<TokenView>)
        decreases self.unread(),
    {
        if self.pending is Some {
            (Machine { pending: None, ..self }, self.pending)
        } else if self.at_end() {
            self.finalizer()
        } else {
            let (after, token) = self.step();
            if token is Some {
                (after, token)
            } else {
                proof {
                    self.lemma_step_reads();
                }
                after.next()
            }
        }
    }

    /// A bound on what is still to come: every pull that gives a token
    /// lowers it.
    pub open spec fn fuel(self) -> nat {
        4 * self.unread() + (if self.pending is Some {
            1nat
        } else {
            0
        }) + (if self.depth > 0 {
            1nat
        } else {
            0
        }) + (if self.mode is PartialName {
            1nat
        } else {
            0
        })
    }

    /// All the tokens that are still to come, in the order of the pulls.
    pub open spec fn tokens(self) -> Seq<TokenView>
        decreases self.fuel(),
    {
        match self.next().1 {
            Some(token) => {
                proof {
                    self.lemma_next_burns();
                }
                seq![token] + self.next().0.tokens()
            },
            None => Seq::empty(),
        }
    }

    /// A pull that gives a token lowers the bound on what is to come.
    pub proof fn lemma_next_burns(self)
        ensures
            self.next().1 is Some ==> self.next().0.fuel() < self.fuel(),
        decreases self.unread(),
    {
        if self.pending is None && !self.at_end() {
            self.lemma_step_reads();
            if self.step().1 is None {
                self.step().0.lemma_next_burns();
            }
        }
    }

    /// Once a pull has given no token, no later pull gives one.
    pub proof fn lemma_ended(self)
        requires
            self.next().1 is None,
        ensures
            self.tokens() == Seq::<TokenView>::empty(),
            self.next().0.next().1 is None,
            self.next().0.tokens() == Seq::<TokenView>::empty(),
        decreases self.unread(),
    {
        if self.pending is None && !self.at_end() {
            self.lemma_step_reads();
            self.step().0.lemma_ended();
        }
    }

    /// A step reads at least one character, and leaves the text as it is.
    pub proof fn lemma_step_reads(self)
        requires
            !self.at_end(),
        ensures
            self.step().0.text == self.text,
            self.step().0.pos > self.pos,
    {
    }
}

} // verus!
