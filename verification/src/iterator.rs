//! The tokenizer: it pulls characters from a located source and gives
//! tokens, one per pull, as the state machine says.

use vstd::prelude::*;
use crate::chars::{
    is_indent_char, lemma_blank_run, lemma_cursor_monotone, lemma_run_width_bound, CharsLoc,
};
use crate::machine::{blank_run, line_rest, name_len, resolve, Machine, Mode, Slice};
use crate::token::{
    name_token, not_after, parts_view, Location, MoveKind, NamePart, Token, TokenView,
};
use crate::wellformed::lemma_line_rest;

verus! {

/// What the tokenizer is in the middle of.
enum State {
    Newline,
    Normal,
    PartialName { start_loc: Location, slices: Vec<NamePart<Slice>> },
}

impl View for State {
    type V = Mode;

    closed spec fn view(&self) -> Mode {
        match *self {
            State::Newline => Mode::Newline,
            State::Normal => Mode::Normal,
            State::PartialName { start_loc, slices } => Mode::PartialName {
                start: start_loc@,
                parts: slices@,
            },
        }
    }
}

/// The value of a token that may be there.
pub open spec fn token_view(token: Option<Token>) -> Option<TokenView> {
    match token {
        Some(token) => Some(token@),
        None => None,
    }
}

/// The values of a run of tokens.
pub open spec fn tokens_view(tokens: Seq<Token>) -> Seq<TokenView> {
    Seq::new(tokens.len(), |i: int| tokens[i]@)
}

/// A tokenizer over one text. It is pulled with `next_token` until that
/// gives `None`; it cannot be started again.
pub struct TokenIterator<'a> {
    chars_loc: CharsLoc<'a>,
    state: State,
    indentation: usize,
    token_stack: Option<Token<'a>>,
}

impl<'a> View for TokenIterator<'a> {
    type V = Machine;

    closed spec fn view(&self) -> Machine {
        Machine {
            text: self.chars_loc.text(),
            pos: self.chars_loc.offset(),
            mode: self.state@,
            depth: self.indentation as nat,
            pending: token_view(self.token_stack),
        }
    }
}

impl<'a> TokenIterator<'a> {
    /// The source agrees with itself, and four times the text's length fits
    /// the machine's word, so that no indentation width can overflow.
    closed spec fn fits(&self) -> bool {
        &&& self.chars_loc.wf()
        &&& 4 * self.chars_loc.text().len() <= usize::MAX
    }

    /// What holds of a tokenizer between two pulls.
    pub closed spec fn wf(&self) -> bool {
        self.fits() && self@.wf()
    }

    /// What holds right after a character was read.
    closed spec fn just_read(&self) -> bool {
        self.fits() && self@.just_read()
    }

    /// A tokenizer at the start of `input`.
    pub fn new(input: &'a str) -> (tokens: TokenIterator<'a>)
        requires
            4 * input@.len() <= usize::MAX,
        ensures
            tokens.wf(),
            tokens@ == Machine::start(input@),
    {
        TokenIterator {
            chars_loc: CharsLoc::new(input),
            state: State::Newline,
            indentation: 0,
            token_stack: None,
        }
    }

    /// The token for a name whose parts are given by their offsets.
    fn to_str_slices(&self, start_loc: Location, slices: &Vec<NamePart<Slice>>) -> (token: Token<'a>)
        requires
            self.chars_loc.wf(),
            name_len(self.chars_loc.text(), slices@) <= usize::MAX,
            forall|i: int|
                0 <= i < slices@.len() ==> (#[trigger] slices@[i] matches NamePart::Ident(slice)
                    ==> slice.start <= slice.end < self.chars_loc.text().len()),
        ensures
            token@ == name_token(start_loc@, resolve(self.chars_loc.text(), slices@)),
    {
        let ghost text = self.chars_loc.text();
        let mut with_strs: Vec<NamePart<&'a str>> = Vec::new();
        let mut i: usize = 0;
        while i < slices.len()
            invariant
                self.chars_loc.wf(),
                text == self.chars_loc.text(),
                i <= slices.len(),
                forall|i: int|
                    0 <= i < slices@.len() ==> (#[trigger] slices@[i] matches NamePart::Ident(slice)
                        ==> slice.start <= slice.end < text.len()),
                with_strs@.len() == i,
                parts_view(with_strs@) == resolve(text, slices@).take(i as int),
            decreases slices.len() - i,
        {
            let part: NamePart<&'a str> = match slices[i] {
                NamePart::Ident(slice) => NamePart::Ident(self.chars_loc.take_str(&slice)),
                NamePart::Star => NamePart::Star,
                NamePart::Ampersand => NamePart::Ampersand,
                NamePart::Slash => NamePart::Slash,
            };
            let ghost done = with_strs@;
            with_strs.push(part);
            i = i + 1;
            proof {
                let want = resolve(text, slices@);
                assert(part@ == want[i - 1]);
                assert forall|j: int| 0 <= j < i implies parts_view(with_strs@)[j] == want.take(
                    i as int,
                )[j] by {
                    assert(parts_view(with_strs@)[j] == with_strs@[j]@);
                    if j < i - 1 {
                        assert(with_strs@[j] == done[j]);
                        assert(parts_view(done)[j] == done[j]@);
                        assert(parts_view(done)[j] == want.take(i - 1)[j]);
                    } else {
                        assert(with_strs@[j] == part);
                    }
                }
                assert(parts_view(with_strs@) =~= want.take(i as int));
            }
        }
        assert(resolve(text, slices@).take(i as int) =~= resolve(text, slices@));
        Token::name(start_loc, with_strs)
    }

    /// Ends the line with a line-end token at `at`; a name that was being
    /// accumulated comes out first.
    fn end_line(&mut self, at: Location) -> (token: Token<'a>)
        requires
            old(self).wf(),
            old(self)@.pending is None,
            not_after(at@, old(self)@.cursor()),
        ensures
            final(self).wf(),
            (final(self)@, Some(token@)) == old(self)@.end_line(at@),
    {
        let newline_token = Token::newline(at);
        let mut state = State::Newline;
        core::mem::swap(&mut self.state, &mut state);
        proof {
            old(self)@.lemma_end_line_wf(at@);
        }
        match state {
            State::PartialName { start_loc, slices } => {
                let token = self.to_str_slices(start_loc, &slices);
                self.token_stack = Some(newline_token);
                token
            },
            _ => newline_token,
        }
    }

    /// After `#`: reads to the end of the line and ends it.
    fn line_comment(&mut self) -> (token: Token<'a>)
        requires
            old(self).just_read(),
        ensures
            final(self).wf(),
            (final(self)@, Some(token@)) == old(self)@.line_comment(),
    {
        let comment_loc = self.chars_loc.location();
        let ghost before = self@;
        let ghost end = before.pos + line_rest(before.text, before.pos);
        proof {
            lemma_line_rest(before.text, before.pos);
            before.moved_to((before.pos - 1) as nat).lemma_read_on(1);
        }
        let mut in_comment = true;
        while in_comment
            invariant
                self.wf(),
                self@ == before.moved_to(self@.pos),
                before.pos <= self@.pos <= end <= before.text.len(),
                before.wf(),
                before.pending is None,
                in_comment ==> self@.pos + line_rest(before.text, self@.pos) == end,
                !in_comment ==> self@.pos == end,
            decreases end - self@.pos + (if in_comment { 1int } else { 0int }),
        {
            proof {
                if self@.pos < before.text.len() {
                    before.lemma_read_on((self@.pos + 1 - before.pos) as nat);
                }
            }
            match self.chars_loc.next() {
                Some((_, c)) => {
                    if c == '\n' {
                        in_comment = false;
                    }
                },
                None => {
                    in_comment = false;
                },
            }
        }
        proof {
            lemma_cursor_monotone(before.text, before.pos, end);
        }
        self.end_line(comment_loc)
    }

    /// After a line feed.
    fn newline(&mut self) -> (token: Token<'a>)
        requires
            old(self).just_read(),
        ensures
            final(self).wf(),
            (final(self)@, Some(token@)) == old(self)@.newline(),
    {
        proof {
            self@.moved_to((self@.pos - 1) as nat).lemma_read_on(1);
        }
        let at = self.chars_loc.location();
        self.end_line(at)
    }

    /// After a space or a tab, which indents by `delta`.
    fn white_space(&mut self, delta: usize) -> (token: Option<Token<'a>>)
        requires
            old(self).just_read(),
            delta <= 4,
        ensures
            final(self).wf(),
            (final(self)@, token_view(token)) == old(self)@.white_space(delta as nat),
    {
        proof {
            self@.lemma_white_space_wf(delta as nat);
            lemma_blank_run(self@.text, self@.pos);
            lemma_run_width_bound(
                self@.text,
                self@.pos,
                blank_run(self@.text, self@.pos),
            );
        }
        let mut state = State::Normal;
        core::mem::swap(&mut self.state, &mut state);
        match state {
            State::Newline => {
                let depth = self.chars_loc.skip_blanks() + delta;
                let indentation = self.indentation;
                self.indentation = depth;
                if indentation < depth {
                    Some(Token::indent(self.chars_loc.location(), depth - indentation))
                } else if indentation == depth {
                    None
                } else {
                    Some(Token::de_indent(self.chars_loc.location(), indentation - depth))
                }
            },
            State::PartialName { start_loc, slices } => {
                let token = self.to_str_slices(start_loc, &slices);
                Some(token)
            },
            State::Normal => None,
        }
    }

    /// Begins a name with `name_part`.
    fn set_partial(&mut self, name_part: NamePart<Slice>) -> (token: Option<Token<'a>>)
        requires
            old(self).just_read(),
            !(old(self)@.mode is PartialName),
            name_part matches NamePart::Ident(slice) ==> slice.start == slice.end < old(self)@.pos,
        ensures
            final(self).wf(),
            (final(self)@, token_view(token)) == old(self)@.set_partial(name_part),
    {
        proof {
            self@.lemma_set_partial_wf(name_part);
        }
        let was_newline = match self.state {
            State::Newline => true,
            _ => false,
        };
        let start_loc = self.chars_loc.location();
        let mut slices: Vec<NamePart<Slice>> = Vec::new();
        slices.push(name_part);
        assert(slices@ =~= seq![name_part]);
        self.state = State::PartialName { start_loc, slices };
        let indentation = self.indentation;
        if was_newline && indentation != 0 {
            self.indentation = 0;
            Some(Token::de_indent(start_loc, indentation))
        } else {
            None
        }
    }

    /// After one of the markers `*`, `&` and `/`.
    fn single_name(&mut self, name_part: NamePart<Slice>) -> (token: Option<Token<'a>>)
        requires
            old(self).just_read(),
            !(name_part is Ident),
        ensures
            final(self).wf(),
            (final(self)@, token_view(token)) == old(self)@.single_name(name_part),
    {
        proof {
            self@.lemma_single_name_wf(name_part);
        }
        let mut state = State::Normal;
        core::mem::swap(&mut self.state, &mut state);
        match state {
            State::PartialName { start_loc, mut slices } => {
                slices.push(name_part);
                self.state = State::PartialName { start_loc, slices };
                None
            },
            other => {
                self.state = other;
                self.set_partial(name_part)
            },
        }
    }

    /// After a character of ordinary text that was found at `index`.
    fn name(&mut self, index: usize) -> (token: Option<Token<'a>>)
        requires
            old(self).just_read(),
            index < old(self)@.pos,
            old(self)@.mode is PartialName ==> index + 1 == old(self)@.pos,
        ensures
            final(self).wf(),
            (final(self)@, token_view(token)) == old(self)@.name(index),
    {
        proof {
            self@.lemma_name_wf(index);
        }
        let mut state = State::Normal;
        core::mem::swap(&mut self.state, &mut state);
        match state {
            State::PartialName { start_loc, mut slices } => {
                let n = slices.len();
                let fresh = NamePart::Ident(Slice { start: index, end: index });
                if n > 0 {
                    match slices[n - 1] {
                        NamePart::Ident(slice) => {
                            slices.set(
                                n - 1,
                                NamePart::Ident(Slice { start: slice.start, end: index }),
                            );
                        },
                        _ => {
                            slices.push(fresh);
                        },
                    }
                } else {
                    slices.push(fresh);
                }
                self.state = State::PartialName { start_loc, slices };
                None
            },
            other => {
                self.state = other;
                self.set_partial(NamePart::Ident(Slice { start: index, end: index }))
            },
        }
    }

    /// After `>` or `-`, found at `start`.
    fn move_kind(&mut self, start: usize, move_kind: MoveKind) -> (token: Option<Token<'a>>)
        requires
            old(self).just_read(),
            start < old(self)@.pos,
        ensures
            final(self).wf(),
            (final(self)@, token_view(token)) == old(self)@.move_kind(start, move_kind),
    {
        proof {
            self@.lemma_move_kind_wf(start, move_kind);
            let before = self@.moved_to((self@.pos - 1) as nat);
            if !self@.at_end() {
                (Machine { mode: Mode::Normal, ..before }).lemma_read_on(2);
            }
        }
        self.state = State::Normal;
        let completed = match self.chars_loc.next() {
            Some((_, c)) => match move_kind {
                MoveKind::Copy => is_indent_char(c),
                MoveKind::Link => c == '>',
            },
            None => false,
        };
        if completed {
            Some(Token::move_kind(self.chars_loc.location(), move_kind))
        } else {
            self.name(start)
        }
    }

    /// At the end of the text.
    fn finalizer(&mut self) -> (token: Option<Token<'a>>)
        requires
            old(self).wf(),
            old(self)@.pending is None,
        ensures
            final(self).wf(),
            (final(self)@, token_view(token)) == old(self)@.finalizer(),
    {
        proof {
            self@.lemma_finalizer_wf();
        }
        let mut state = State::Normal;
        core::mem::swap(&mut self.state, &mut state);
        match state {
            State::PartialName { start_loc, slices } => {
                Some(self.to_str_slices(start_loc, &slices))
            },
            other => {
                self.state = other;
                let indentation = self.indentation;
                if indentation > 0 {
                    self.indentation = 0;
                    Some(Token::de_indent(self.chars_loc.location(), indentation))
                } else {
                    None
                }
            },
        }
    }

    /// Gives the next token, or `None` once the text is read to its end and
    /// all indentation is closed. Every pull ends: it reads each character
    /// at most once.
    pub fn next_token(&mut self) -> (token: Option<Token<'a>>)
        requires
            old(self).wf(),
        ensures
            final(self).wf(),
            (final(self)@, token_view(token)) == old(self)@.next(),
    {
        if self.token_stack.is_some() {
            return self.token_stack.take();
        }
        let ghost first = self@;
        loop
            invariant
                self.wf(),
                self@.pending is None,
                first == old(self)@,
                self@.next() == first.next(),
            decreases self@.unread(),
        {
            let ghost before = self@;
            match self.chars_loc.next() {
                None => {
                    assert(before.next() == before.finalizer());
                    return self.finalizer();
                },
                Some((index, c)) => {
                    proof {
                        before.lemma_step_reads();
                    }
                    let token = if c == '#' {
                        Some(self.line_comment())
                    } else if c == '\n' {
                        Some(self.newline())
                    } else if c == ' ' {
                        self.white_space(1)
                    } else if c == '\t' {
                        self.white_space(4)
                    } else if c == '>' {
                        self.move_kind(index, MoveKind::Copy)
                    } else if c == '-' {
                        self.move_kind(index, MoveKind::Link)
                    } else if c == '*' {
                        self.single_name(NamePart::Star)
                    } else if c == '&' {
                        self.single_name(NamePart::Ampersand)
                    } else if c == '/' {
                        self.single_name(NamePart::Slash)
                    } else {
                        self.name(index)
                    };
                    assert((self@, token_view(token)) == before.step());
                    assert(before.next() == if before.step().1 is Some {
                        before.step()
                    } else {
                        before.step().0.next()
                    });
                    if token.is_some() {
                        return token;
                    }
                },
            }
        }
    }

    /// Pulls until the run of tokens ends, and gives all that came.
    pub fn collect(&mut self) -> (tokens: Vec<Token<'a>>)
        requires
            old(self).wf(),
        ensures
            final(self).wf(),
            tokens_view(tokens@) == old(self)@.tokens(),
            final(self)@.tokens() == Seq::<TokenView>::empty(),
    {
        let ghost first = self@;
        let mut tokens: Vec<Token<'a>> = Vec::new();
        loop
            invariant
                self.wf(),
                first == old(self)@,
                tokens_view(tokens@) + self@.tokens() == first.tokens(),
            decreases self@.fuel(),
        {
            let ghost before = self@;
            let ghost done = tokens@;
            proof {
                before.lemma_next_burns();
            }
            match self.next_token() {
                Some(token) => {
                    tokens.push(token);
                    proof {
                        assert(tokens_view(tokens@) =~= tokens_view(done) + seq![token@]);
                        assert(before.tokens() == seq![token@] + self@.tokens());
                        assert(tokens_view(tokens@) + self@.tokens() =~= tokens_view(done) + (
                        seq![token@] + self@.tokens()));
                    }
                },
                None => {
                    proof {
                        before.lemma_ended();
                        assert(tokens_view(tokens@) =~= tokens_view(tokens@) + before.tokens());
                    }
                    return tokens;
                },
            }
        }
    }
}

/// Texts that can be tokenized where they stand.
pub trait Lex {
    /// The characters of the text.
    spec fn text(&self) -> Seq<char>;

    /// A tokenizer at the start of the text.
    fn lex(&self) -> (tokens: TokenIterator<'_>)
        requires
            4 * self.text().len() <= usize::MAX,
        ensures
            tokens.wf(),
            tokens@ == Machine::start(self.text()),
    ;
}

impl Lex for str {
    open spec fn text(&self) -> Seq<char> {
        self@
    }

    fn lex(&self) -> (tokens: TokenIterator<'_>) {
        TokenIterator::new(self)
    }
}

impl Lex for String {
    open spec fn text(&self) -> Seq<char> {
        self@
    }

    fn lex(&self) -> (tokens: TokenIterator<'_>) {
        TokenIterator::new(self.as_str())
    }
}

} // verus!
