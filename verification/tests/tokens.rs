use spotfiles::chars::{indent_width, is_indent_char, CharsLoc};
use spotfiles::machine::Slice;
use spotfiles::token::{Length, Location, MoveKind, NamePart, Token, TokenKind};

fn origin() -> Location {
    Location { line: 3, column: 7 }
}

#[test]
fn indent_token_carries_its_depth() {
    let token = Token::indent(origin(), 4);
    assert_eq!(token, Token { kind: TokenKind::Indent(4), location: origin(), length: Length(4) });
}

#[test]
fn de_indent_token_carries_its_depth() {
    let token = Token::de_indent(origin(), 6);
    assert_eq!(token, Token { kind: TokenKind::DeIndent(6), location: origin(), length: Length(6) });
}

#[test]
fn newline_token_is_one_wide() {
    let token = Token::newline(origin());
    assert_eq!(token, Token { kind: TokenKind::Newline, location: origin(), length: Length(1) });
}

#[test]
fn move_tokens_are_as_wide_as_their_text() {
    assert_eq!(Token::move_kind(origin(), MoveKind::Link).length, Length(2));
    assert_eq!(Token::move_kind(origin(), MoveKind::Copy).length, Length(1));
    assert_eq!(Token::move_kind(origin(), MoveKind::Copy).kind, TokenKind::Move(MoveKind::Copy));
}

#[test]
fn name_token_sums_the_widths_of_its_parts() {
    let token = Token::name(
        origin(),
        vec![NamePart::Ident("caf\u{e9}"), NamePart::Slash, NamePart::Star, NamePart::Ident("xy")],
    );
    assert_eq!(token.length, Length(8));
    assert_eq!(token.location, origin());
    assert_eq!(Token::name(origin(), vec![]).length, Length(0));
}

#[test]
fn tokens_render_in_their_short_form() {
    assert_eq!(Token::indent(origin(), 12).render(), "INDENT 12");
    assert_eq!(Token::de_indent(origin(), 0).render(), "DEINDENT 0");
    assert_eq!(Token::de_indent(origin(), 1000).render(), "DEINDENT 1000");
    assert_eq!(Token::newline(origin()).render(), "NEWLINE");
    assert_eq!(Token::move_kind(origin(), MoveKind::Link).render(), "LINK");
    assert_eq!(Token::move_kind(origin(), MoveKind::Copy).render(), "COPY");
}

#[test]
fn names_render_with_a_separator_between_parts() {
    let token = Token::name(
        origin(),
        vec![NamePart::Ident("a"), NamePart::Star, NamePart::Ident("bc"), NamePart::Slash],
    );
    assert_eq!(token.render(), "<a@*@bc@/>");
    assert_eq!(Token::name(origin(), vec![NamePart::Ident("solo")]).render(), "<solo>");
    assert_eq!(Token::name(origin(), vec![NamePart::Ampersand]).render(), "<&>");
    assert_eq!(Token::name(origin(), vec![]).render(), "<>");
}

#[test]
fn name_parts_render_as_their_text() {
    assert_eq!(NamePart::Ident("word").render(), "word");
    assert_eq!(NamePart::<&str>::Star.render(), "*");
    assert_eq!(NamePart::<&str>::Ampersand.render(), "&");
    assert_eq!(NamePart::<&str>::Slash.render(), "/");
}

#[test]
fn lengths_render_in_decimal() {
    assert_eq!(Length(0).render(), "0");
    assert_eq!(Length(7).render(), "7");
    assert_eq!(Length(10).render(), "10");
    assert_eq!(Length(9876543210).render(), "9876543210");
}

#[test]
fn source_tracks_line_and_column() {
    let mut source = CharsLoc::new("ab\n\u{e9}");
    assert_eq!(source.location(), Location { line: 0, column: 0 });
    assert_eq!(source.peek(), Some((0, 'a')));
    assert_eq!(source.next(), Some((0, 'a')));
    assert_eq!(source.location(), Location { line: 0, column: 1 });
    assert_eq!(source.next(), Some((1, 'b')));
    assert_eq!(source.peek(), Some((2, '\n')));
    assert_eq!(source.location(), Location { line: 0, column: 2 });
    assert_eq!(source.next(), Some((2, '\n')));
    assert_eq!(source.location(), Location { line: 1, column: 0 });
    assert_eq!(source.next(), Some((3, '\u{e9}')));
    assert_eq!(source.location(), Location { line: 1, column: 1 });
    assert_eq!(source.peek(), None);
    assert_eq!(source.next(), None);
    assert_eq!(source.location(), Location { line: 1, column: 1 });
}

#[test]
fn source_takes_text_by_character_offsets() {
    let source = CharsLoc::new("h\u{e9}llo w\u{f6}rld");
    assert_eq!(source.take_str(&Slice { start: 0, end: 4 }), "h\u{e9}llo");
    assert_eq!(source.take_str(&Slice { start: 7, end: 7 }), "\u{f6}");
    assert_eq!(source.take_str(&Slice { start: 6, end: 10 }), "w\u{f6}rld");
}

#[test]
fn source_skips_a_run_of_blanks() {
    let mut source = CharsLoc::new(" \t\t x \t");
    assert_eq!(source.skip_blanks(), 10);
    assert_eq!(source.location(), Location { line: 0, column: 4 });
    assert_eq!(source.peek(), Some((4, 'x')));
    assert_eq!(source.skip_blanks(), 0);
    assert_eq!(source.next(), Some((4, 'x')));
    assert_eq!(source.skip_blanks(), 5);
    assert_eq!(source.peek(), None);
    assert_eq!(source.skip_blanks(), 0);
}

#[test]
fn blanks_and_their_widths() {
    assert!(is_indent_char(' '));
    assert!(is_indent_char('\t'));
    assert!(!is_indent_char('\n'));
    assert!(!is_indent_char('\r'));
    assert!(!is_indent_char('a'));
    assert_eq!(indent_width(' '), 1);
    assert_eq!(indent_width('\t'), 4);
}
