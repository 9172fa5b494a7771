//! The token data model and its canonical text rendering.

use vstd::prelude::*;
use vstd::string::*;

verus! {

/// The two operations that a manifest line can ask for.
#[derive(Debug, PartialEq, Eq, PartialOrd, Clone, Copy)]
pub enum MoveKind {
    Link,
    Copy,
}

/// One piece of a compound name: a run of ordinary text, or one of the
/// three single-character markers.
#[derive(Debug, PartialEq, Eq, PartialOrd, Clone, Copy)]
pub enum NamePart<A> {
    Ident(A),
    Star,
    Ampersand,
    Slash,
}

/// What a token is. The indentation kinds carry the width by which the
/// indentation grew or shrank.
#[derive(Debug, PartialEq, PartialOrd, Clone)]
pub enum TokenKind<'a> {
    Indent(usize),
    DeIndent(usize),
    Newline,
    Move(MoveKind),
    Name(Vec<NamePart<&'a str>>),
}

/// A cursor position: zero-based line and column, counted in Unicode
/// scalar values.
#[derive(Debug, PartialEq, Eq, PartialOrd, Clone, Copy)]
pub struct Location {
    pub line: usize,
    pub column: usize,
}

/// How many characters of the source a token spans.
#[derive(Debug, PartialEq, Eq, PartialOrd, Clone, Copy)]
pub struct Length(pub usize);

/// A token: its kind, the cursor position at which it was produced, and the
/// width of its text.
#[derive(Debug, PartialEq, PartialOrd, Clone)]
pub struct Token<'a> {
    pub kind: TokenKind<'a>,
    pub location: Location,
    pub length: Length,
}

/// The mathematical value of a `Location`.
pub ghost struct Position {
    pub line: nat,
    pub column: nat,
}

/// The mathematical value of a `TokenKind`.
pub ghost enum KindView {
    Indent(nat),
    DeIndent(nat),
    Newline,
    Move(MoveKind),
    Name(Seq<NamePart<Seq<char>>>),
}

/// The mathematical value of a `Token`.
pub ghost struct TokenView {
    pub kind: KindView,
    pub location: Position,
    pub length: nat,
}

impl View for Location {
    type V = Position;

    open spec fn view(&self) -> Position {
        Position { line: self.line as nat, column: self.column as nat }
    }
}

impl<'a> View for NamePart<&'a str> {
    type V = NamePart<Seq<char>>;

    open spec fn view(&self) -> NamePart<Seq<char>> {
        match *self {
            NamePart::Ident(text) => NamePart::Ident(text@),
            NamePart::Star => NamePart::Star,
            NamePart::Ampersand => NamePart::Ampersand,
            NamePart::Slash => NamePart::Slash,
        }
    }
}

/// The parts of a name, each by its value.
pub open spec fn parts_view(parts: Seq<NamePart<&str>>) -> Seq<NamePart<Seq<char>>> {
    Seq::new(parts.len(), |i: int| parts[i]@)
}

impl<'a> View for TokenKind<'a> {
    type V = KindView;

    open spec fn view(&self) -> KindView {
        match *self {
            TokenKind::Indent(depth) => KindView::Indent(depth as nat),
            TokenKind::DeIndent(depth) => KindView::DeIndent(depth as nat),
            TokenKind::Newline => KindView::Newline,
            TokenKind::Move(kind) => KindView::Move(kind),
            TokenKind::Name(parts) => KindView::Name(parts_view(parts@)),
        }
    }
}

impl<'a> View for Token<'a> {
    type V = TokenView;

    open spec fn view(&self) -> TokenView {
        TokenView { kind: self.kind@, location: self.location@, length: self.length.0 as nat }
    }
}

/// Whether `a` stands at or before `b`, by line first and column second.
pub open spec fn not_after(a: Position, b: Position) -> bool {
    a.line < b.line || (a.line == b.line && a.column <= b.column)
}

/// The text that one part of a name stands for.
pub open spec fn part_text(part: NamePart<Seq<char>>) -> Seq<char> {
    match part {
        NamePart::Ident(text) => text,
        NamePart::Star => seq!['*'],
        NamePart::Ampersand => seq!['&'],
        NamePart::Slash => seq!['/'],
    }
}

/// The text of a whole name: its parts' texts, one after the other.
pub open spec fn name_text(parts: Seq<NamePart<Seq<char>>>) -> Seq<char>
    decreases parts.len(),
{
    if parts.len() == 0 {
        Seq::empty()
    } else {
        name_text(parts.drop_last()) + part_text(parts.last())
    }
}

/// The width of an operator's text: `->` for a link, `>` for a copy.
pub open spec fn move_width(kind: MoveKind) -> nat {
    match kind {
        MoveKind::Link => 2,
        MoveKind::Copy => 1,
    }
}

pub open spec fn indent_token(at: Position, depth: nat) -> TokenView {
    TokenView { kind: KindView::Indent(depth), location: at, length: depth }
}

pub open spec fn de_indent_token(at: Position, depth: nat) -> TokenView {
    TokenView { kind: KindView::DeIndent(depth), location: at, length: depth }
}

pub open spec fn newline_token(at: Position) -> TokenView {
    TokenView { kind: KindView::Newline, location: at, length: 1 }
}

pub open spec fn move_token(at: Position, kind: MoveKind) -> TokenView {
    TokenView { kind: KindView::Move(kind), location: at, length: move_width(kind) }
}

pub open spec fn name_token(at: Position, parts: Seq<NamePart<Seq<char>>>) -> TokenView {
    TokenView { kind: KindView::Name(parts), location: at, length: name_text(parts).len() }
}

/// The text of a name grows by one part's text when a part is added.
pub proof fn lemma_name_text_push(parts: Seq<NamePart<Seq<char>>>, part: NamePart<Seq<char>>)
    ensures
        name_text(parts.push(part)) == name_text(parts) + part_text(part),
{
    assert(parts.push(part).drop_last() == parts);
}

/// A prefix of a name is no longer than the name.
pub proof fn lemma_name_text_prefix(parts: Seq<NamePart<Seq<char>>>, n: int)
    requires
        0 <= n <= parts.len(),
    ensures
        name_text(parts.take(n)).len() <= name_text(parts).len(),
    decreases parts.len() - n,
{
    if n < parts.len() {
        lemma_name_text_prefix(parts, n + 1);
        assert(parts.take(n + 1).drop_last() == parts.take(n));
    } else {
        assert(parts.take(n) == parts);
    }
}

impl<'a> Token<'a> {
    /// A token for indentation that grew by `depth`.
    pub fn indent(loc: Location, depth: usize) -> (token: Token<'a>)
        ensures
            token@ == indent_token(loc@, depth as nat),
    {
        Token { kind: TokenKind::Indent(depth), location: loc, length: Length(depth) }
    }

    /// A token for indentation that shrank by `depth`.
    pub fn de_indent(loc: Location, depth: usize) -> (token: Token<'a>)
        ensures
            token@ == de_indent_token(loc@, depth as nat),
    {
        Token { kind: TokenKind::DeIndent(depth), location: loc, length: Length(depth) }
    }

    /// A token for the end of a line.
    pub fn newline(loc: Location) -> (token: Token<'a>)
        ensures
            token@ == newline_token(loc@),
    {
        Token { kind: TokenKind::Newline, location: loc, length: Length(1) }
    }

    /// A token for a move operator, as wide as the operator's text.
    pub fn move_kind(loc: Location, move_k: MoveKind) -> (token: Token<'a>)
        ensures
            token@ == move_token(loc@, move_k),
    {
        let len: usize = match move_k {
            MoveKind::Link => 2,
            MoveKind::Copy => 1,
        };
        Token { kind: TokenKind::Move(move_k), location: loc, length: Length(len) }
    }

    /// A token for a compound name, as wide as the texts of its parts
    /// together, counted in characters.
    pub fn name(loc: Location, input: Vec<NamePart<&'a str>>) -> (token: Token<'a>)
        requires
            name_text(parts_view(input@)).len() <= usize::MAX,
        ensures
            token@ == name_token(loc@, parts_view(input@)),
    {
        let ghost parts = parts_view(input@);
        let mut len: usize = 0;
        let mut i: usize = 0;
        while i < input.len()
            invariant
                i <= input.len(),
                parts == parts_view(input@),
                name_text(parts).len() <= usize::MAX,
                len == name_text(parts.take(i as int)).len(),
            decreases input.len() - i,
        {
            proof {
                lemma_name_text_prefix(parts, i + 1);
                assert(parts.take(i + 1).drop_last() == parts.take(i as int));
            }
            let width: usize = match input[i] {
                NamePart::Ident(text) => text.unicode_len(),
                _ => 1,
            };
            len = len + width;
            i = i + 1;
        }
        proof {
            assert(parts.take(i as int) == parts);
        }
        Token { kind: TokenKind::Name(input), location: loc, length: Length(len) }
    }
}

/// The decimal digit for a number below ten.
pub open spec fn digit_char(d: nat) -> char {
    if d == 0 {
        '0'
    } else if d == 1 {
        '1'
    } else if d == 2 {
        '2'
    } else if d == 3 {
        '3'
    } else if d == 4 {
        '4'
    } else if d == 5 {
        '5'
    } else if d == 6 {
        '6'
    } else if d == 7 {
        '7'
    } else if d == 8 {
        '8'
    } else {
        '9'
    }
}

/// A number written in decimal digits, with no leading zero.
pub open spec fn decimal(n: nat) -> Seq<char>
    decreases n,
{
    if n < 10 {
        seq![digit_char(n)]
    } else {
        decimal(n / 10).push(digit_char(n % 10))
    }
}

/// The texts of the parts of a name with `@` between each two.
pub open spec fn joined(parts: Seq<NamePart<Seq<char>>>) -> Seq<char>
    decreases parts.len(),
{
    if parts.len() == 0 {
        Seq::empty()
    } else if parts.len() == 1 {
        part_text(parts[0])
    } else {
        joined(parts.drop_last()) + "@"@ + part_text(parts.last())
    }
}

/// The canonical short form of a token.
pub open spec fn rendered(token: TokenView) -> Seq<char> {
    match token.kind {
        KindView::Indent(_) => "INDENT "@ + decimal(token.length),
        KindView::DeIndent(_) => "DEINDENT "@ + decimal(token.length),
        KindView::Newline => "NEWLINE"@,
        KindView::Move(MoveKind::Link) => "LINK"@,
        KindView::Move(MoveKind::Copy) => "COPY"@,
        KindView::Name(parts) => "<"@ + joined(parts) + ">"@,
    }
}

/// The text of one decimal digit.
fn digit_str(d: usize) -> (text: &'static str)
    requires
        d < 10,
    ensures
        text@ == seq![digit_char(d as nat)],
{
    proof {
        reveal_strlit("0");
        reveal_strlit("1");
        reveal_strlit("2");
        reveal_strlit("3");
        reveal_strlit("4");
        reveal_strlit("5");
        reveal_strlit("6");
        reveal_strlit("7");
        reveal_strlit("8");
        reveal_strlit("9");
    }
    let text = if d == 0 {
        "0"
    } else if d == 1 {
        "1"
    } else if d == 2 {
        "2"
    } else if d == 3 {
        "3"
    } else if d == 4 {
        "4"
    } else if d == 5 {
        "5"
    } else if d == 6 {
        "6"
    } else if d == 7 {
        "7"
    } else if d == 8 {
        "8"
    } else {
        "9"
    };
    assert(text@ =~= seq![digit_char(d as nat)]);
    text
}

/// Writes `n` in decimal digits at the end of `out`.
fn push_decimal(out: &mut String, n: usize)
    ensures
        final(out)@ == old(out)@ + decimal(n as nat),
    decreases n,
{
    if n >= 10 {
        push_decimal(out, n / 10);
    }
    let ghost head = out@;
    out.append(digit_str(n % 10));
    proof {
        if n >= 10 {
            assert(head + seq![digit_char((n % 10) as nat)] =~= old(out)@ + decimal(n as nat));
        }
    }
}

impl Length {
    /// The length in decimal digits.
    pub fn render(&self) -> (text: String)
        ensures
            text@ == decimal(self.0 as nat),
    {
        let mut text = String::new();
        push_decimal(&mut text, self.0);
        assert(text@ =~= decimal(self.0 as nat));
        text
    }
}

impl<'a> NamePart<&'a str> {
    /// The text that the part stands for: its own text, or its marker.
    pub fn render(&self) -> (text: &'a str)
        ensures
            text@ == part_text(self@),
    {
        proof {
            reveal_strlit("*");
            reveal_strlit("&");
            reveal_strlit("/");
        }
        let text = match *self {
            NamePart::Ident(ident) => ident,
            NamePart::Star => "*",
            NamePart::Ampersand => "&",
            NamePart::Slash => "/",
        };
        assert(text@ =~= part_text(self@));
        text
    }
}

impl<'a> Token<'a> {
    /// The canonical short form of the token: `INDENT n`, `DEINDENT n`,
    /// `NEWLINE`, `LINK`, `COPY`, or the parts of a name between `<` and
    /// `>` with `@` between each two.
    pub fn render(&self) -> (text: String)
        ensures
            text@ == rendered(self@),
    {
        match &self.kind {
            TokenKind::Indent(_) => {
                let mut text = String::from_str("INDENT ");
                push_decimal(&mut text, self.length.0);
                text
            },
            TokenKind::DeIndent(_) => {
                let mut text = String::from_str("DEINDENT ");
                push_decimal(&mut text, self.length.0);
                text
            },
            TokenKind::Newline => String::from_str("NEWLINE"),
            TokenKind::Move(MoveKind::Link) => String::from_str("LINK"),
            TokenKind::Move(MoveKind::Copy) => String::from_str("COPY"),
            TokenKind::Name(nps) => {
                let ghost parts = parts_view(nps@);
                let mut text = String::from_str("<");
                let mut index: usize = 0;
                while index < nps.len()
                    invariant
                        index <= nps.len(),
                        parts == parts_view(nps@),
                        text@ == "<"@ + joined(parts.take(index as int)),
                    decreases nps.len() - index,
                {
                    let ghost head = text@;
                    if index > 0 {
                        text.append("@");
                    }
                    text.append(nps[index].render());
                    proof {
                        let now = parts.take(index + 1);
                        assert(now.drop_last() =~= parts.take(index as int));
                        assert(now.last() == nps@[index as int]@);
                        if index > 0 {
                            assert(text@ =~= "<"@ + joined(now));
                        } else {
                            assert(joined(parts.take(0)) =~= Seq::<char>::empty());
                            assert(text@ =~= "<"@ + joined(now));
                        }
                    }
                    index = index + 1;
                }
                assert(parts.take(index as int) =~= parts);
                text.append(">");
                text
            },
        }
    }
}

} // verus!
