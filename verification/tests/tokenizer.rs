use spotfiles::iterator::{Lex, TokenIterator};
use spotfiles::token::{Length, Location, MoveKind, NamePart, Token, TokenKind};

fn lex(input: &str) -> Vec<Token<'_>> {
    assert!(input.chars().count() <= usize::MAX / 4);
    TokenIterator::new(input).collect()
}

fn kinds(input: &str) -> Vec<TokenKind<'_>> {
    lex(input).into_iter().map(|token| token.kind).collect()
}

fn at(line: usize, column: usize) -> Location {
    Location { line, column }
}

fn word(text: &str) -> TokenKind<'_> {
    TokenKind::Name(vec![NamePart::Ident(text)])
}

#[test]
fn empty_input_gives_no_token() {
    assert_eq!(lex(""), vec![]);
    let mut tokens = TokenIterator::new("");
    assert_eq!(tokens.next_token(), None);
    assert_eq!(tokens.next_token(), None);
}

#[test]
fn single_name_line() {
    assert_eq!(kinds("foo\n"), vec![word("foo"), TokenKind::Newline]);
}

#[test]
fn single_name_line_locations_and_lengths() {
    assert_eq!(
        lex("foo\n"),
        vec![
            Token { kind: word("foo"), location: at(0, 1), length: Length(3) },
            Token { kind: TokenKind::Newline, location: at(1, 0), length: Length(1) },
        ]
    );
}

#[test]
fn indented_second_line() {
    assert_eq!(
        kinds("a\n  b\n"),
        vec![
            word("a"),
            TokenKind::Newline,
            TokenKind::Indent(2),
            word("b"),
            TokenKind::Newline,
            TokenKind::DeIndent(2),
        ]
    );
}

#[test]
fn indented_second_line_locations() {
    let tokens = lex("a\n  b\n");
    let locations: Vec<Location> = tokens.iter().map(|token| token.location).collect();
    assert_eq!(locations, vec![at(0, 1), at(1, 0), at(1, 2), at(1, 3), at(2, 0), at(2, 0)]);
    let lengths: Vec<usize> = tokens.iter().map(|token| token.length.0).collect();
    assert_eq!(lengths, vec![1, 1, 2, 1, 1, 2]);
}

#[test]
fn link_between_two_names() {
    assert_eq!(
        kinds("a -> b\n"),
        vec![word("a"), TokenKind::Move(MoveKind::Link), word("b"), TokenKind::Newline]
    );
}

#[test]
fn link_token_is_two_wide() {
    let tokens = lex("a -> b\n");
    assert_eq!(
        tokens[1],
        Token { kind: TokenKind::Move(MoveKind::Link), location: at(0, 4), length: Length(2) }
    );
}

#[test]
fn copy_between_two_names() {
    assert_eq!(
        lex("a > b\n"),
        vec![
            Token { kind: word("a"), location: at(0, 1), length: Length(1) },
            Token { kind: TokenKind::Move(MoveKind::Copy), location: at(0, 4), length: Length(1) },
            Token { kind: word("b"), location: at(0, 5), length: Length(1) },
            Token { kind: TokenKind::Newline, location: at(1, 0), length: Length(1) },
        ]
    );
}

#[test]
fn copy_followed_by_tab() {
    assert_eq!(
        kinds("a >\tb\n"),
        vec![word("a"), TokenKind::Move(MoveKind::Copy), word("b"), TokenKind::Newline]
    );
}

#[test]
fn spaces_then_tab_indent_twice() {
    assert_eq!(
        kinds("  x\n\tx\n"),
        vec![
            TokenKind::Indent(2),
            word("x"),
            TokenKind::Newline,
            TokenKind::Indent(2),
            word("x"),
            TokenKind::Newline,
            TokenKind::DeIndent(4),
        ]
    );
}

#[test]
fn comment_line_gives_only_a_newline() {
    assert_eq!(kinds("# comment\nfoo\n"), vec![TokenKind::Newline, word("foo"), TokenKind::Newline]);
}

#[test]
fn comment_newline_stands_where_the_comment_text_begins() {
    let tokens = lex("# comment\nfoo\n");
    assert_eq!(tokens[0], Token { kind: TokenKind::Newline, location: at(0, 1), length: Length(1) });
    assert_eq!(tokens[1].location, at(1, 1));
}

#[test]
fn comment_without_line_feed_ends_the_text() {
    assert_eq!(kinds("# only a comment"), vec![TokenKind::Newline]);
}

#[test]
fn comment_after_a_name_gives_the_name_first() {
    assert_eq!(
        kinds("foo#bar\nx\n"),
        vec![word("foo"), TokenKind::Newline, word("x"), TokenKind::Newline]
    );
}

#[test]
fn name_then_newline_come_from_two_pulls() {
    let mut tokens = TokenIterator::new("ab\n");
    assert_eq!(tokens.next_token().map(|token| token.kind), Some(word("ab")));
    assert_eq!(tokens.next_token().map(|token| token.kind), Some(TokenKind::Newline));
    assert_eq!(tokens.next_token(), None);
    assert_eq!(tokens.next_token(), None);
}

#[test]
fn name_at_the_end_of_the_text_comes_out() {
    assert_eq!(kinds("foo"), vec![word("foo")]);
    assert_eq!(kinds("  foo"), vec![TokenKind::Indent(2), word("foo"), TokenKind::DeIndent(2)]);
}

#[test]
fn compound_name_keeps_its_parts_in_order() {
    assert_eq!(
        lex("a*bc&d/e\n")[0],
        Token {
            kind: TokenKind::Name(vec![
                NamePart::Ident("a"),
                NamePart::Star,
                NamePart::Ident("bc"),
                NamePart::Ampersand,
                NamePart::Ident("d"),
                NamePart::Slash,
                NamePart::Ident("e"),
            ]),
            location: at(0, 1),
            length: Length(8),
        }
    );
}

#[test]
fn name_that_begins_with_markers() {
    assert_eq!(
        kinds("/*x\n"),
        vec![
            TokenKind::Name(vec![NamePart::Slash, NamePart::Star, NamePart::Ident("x")]),
            TokenKind::Newline,
        ]
    );
}

#[test]
fn adjacent_text_is_one_part() {
    match &lex("abcdef ghi\n")[0].kind {
        TokenKind::Name(parts) => assert_eq!(parts, &vec![NamePart::Ident("abcdef")]),
        other => panic!("not a name: {:?}", other),
    }
}

#[test]
fn blanks_inside_a_line_separate_names() {
    assert_eq!(kinds("a  \t b\n"), vec![word("a"), word("b"), TokenKind::Newline]);
}

#[test]
fn mixed_run_of_spaces_and_tabs_is_summed() {
    assert_eq!(
        kinds("a\n \t \tb\n"),
        vec![
            word("a"),
            TokenKind::Newline,
            TokenKind::Indent(10),
            word("b"),
            TokenKind::Newline,
            TokenKind::DeIndent(10),
        ]
    );
}

#[test]
fn run_of_blanks_stops_at_the_first_other_character() {
    let tokens = lex("   x y\n");
    assert_eq!(tokens[0], Token { kind: TokenKind::Indent(3), location: at(0, 3), length: Length(3) });
    assert_eq!(tokens[1], Token { kind: word("x"), location: at(0, 4), length: Length(1) });
    assert_eq!(tokens[2], Token { kind: word("y"), location: at(0, 6), length: Length(1) });
}

#[test]
fn equal_indentation_gives_no_token() {
    assert_eq!(
        kinds("  a\n  b\n"),
        vec![
            TokenKind::Indent(2),
            word("a"),
            TokenKind::Newline,
            word("b"),
            TokenKind::Newline,
            TokenKind::DeIndent(2),
        ]
    );
}

#[test]
fn smaller_indentation_gives_the_difference() {
    assert_eq!(
        kinds("    a\n  b\n"),
        vec![
            TokenKind::Indent(4),
            word("a"),
            TokenKind::Newline,
            TokenKind::DeIndent(2),
            word("b"),
            TokenKind::Newline,
            TokenKind::DeIndent(2),
        ]
    );
}

#[test]
fn name_at_line_start_closes_indentation() {
    assert_eq!(
        lex("  a\nb\n"),
        vec![
            Token { kind: TokenKind::Indent(2), location: at(0, 2), length: Length(2) },
            Token { kind: word("a"), location: at(0, 3), length: Length(1) },
            Token { kind: TokenKind::Newline, location: at(1, 0), length: Length(1) },
            Token { kind: TokenKind::DeIndent(2), location: at(1, 1), length: Length(2) },
            Token { kind: word("b"), location: at(1, 1), length: Length(1) },
            Token { kind: TokenKind::Newline, location: at(2, 0), length: Length(1) },
        ]
    );
}

#[test]
fn marker_at_line_start_closes_indentation() {
    assert_eq!(
        kinds("\ta\n*\n"),
        vec![
            TokenKind::Indent(4),
            word("a"),
            TokenKind::Newline,
            TokenKind::DeIndent(4),
            TokenKind::Name(vec![NamePart::Star]),
            TokenKind::Newline,
        ]
    );
}

#[test]
fn dash_without_angle_begins_a_name() {
    assert_eq!(
        lex("-a\n"),
        vec![
            Token { kind: word("-"), location: at(0, 2), length: Length(1) },
            Token { kind: TokenKind::Newline, location: at(1, 0), length: Length(1) },
        ]
    );
}

#[test]
fn dash_name_stretches_over_the_character_read_ahead() {
    assert_eq!(kinds("-abc\n"), vec![word("-abc"), TokenKind::Newline]);
}

#[test]
fn angle_without_blank_begins_a_name() {
    assert_eq!(kinds(">x\n"), vec![word(">"), TokenKind::Newline]);
    assert_eq!(kinds(">xy z\n"), vec![word(">xy"), word("z"), TokenKind::Newline]);
}

#[test]
fn marker_after_a_failed_operator_loses_the_character_between() {
    assert_eq!(
        kinds("-a*\n"),
        vec![TokenKind::Name(vec![NamePart::Ident("-"), NamePart::Star]), TokenKind::Newline]
    );
}

#[test]
fn operator_at_the_end_of_the_text_is_a_name() {
    assert_eq!(kinds("-"), vec![word("-")]);
    assert_eq!(kinds(">"), vec![word(">")]);
}

#[test]
fn operator_character_gives_up_the_name_before_it() {
    assert_eq!(kinds("ab-cd\n"), vec![word("-cd"), TokenKind::Newline]);
    assert_eq!(kinds("ab-> c\n"), vec![TokenKind::Move(MoveKind::Link), word("c"), TokenKind::Newline]);
}

#[test]
fn failed_operator_reads_over_a_line_feed() {
    assert_eq!(kinds("-\nx\n"), vec![word("-\nx"), TokenKind::Newline]);
    assert_eq!(lex("-\nx\n")[0].location, Location { line: 1, column: 0 });
}

#[test]
fn operator_at_line_start_leaves_indentation_open() {
    assert_eq!(
        kinds("  a\n-> b\n"),
        vec![
            TokenKind::Indent(2),
            word("a"),
            TokenKind::Newline,
            TokenKind::Move(MoveKind::Link),
            word("b"),
            TokenKind::Newline,
            TokenKind::DeIndent(2),
        ]
    );
}

#[test]
fn names_are_counted_in_characters() {
    assert_eq!(
        lex("h\u{e9}llo w\u{f6}rld\u{1F600}\n"),
        vec![
            Token { kind: word("h\u{e9}llo"), location: at(0, 1), length: Length(5) },
            Token { kind: word("w\u{f6}rld\u{1F600}"), location: at(0, 7), length: Length(6) },
            Token { kind: TokenKind::Newline, location: at(1, 0), length: Length(1) },
        ]
    );
}

#[test]
fn carriage_return_is_ordinary_text() {
    assert_eq!(kinds("a\r\n"), vec![word("a\r"), TokenKind::Newline]);
}

#[test]
fn indentation_is_balanced_over_the_whole_run() {
    let inputs = ["", "a\n  b\n", "  x\n\tx\n", "    a\n  b\n c\nd\n", "\t\ta", " - \n  > x\n# c\n   y"];
    for input in inputs {
        let mut balance: i64 = 0;
        for token in lex(input) {
            match token.kind {
                TokenKind::Indent(depth) => balance += depth as i64,
                TokenKind::DeIndent(depth) => balance -= depth as i64,
                _ => {}
            }
        }
        assert_eq!(balance, 0, "input {:?}", input);
    }
}

#[test]
fn locations_never_go_back() {
    let inputs = ["a\n  b\n", "a -> b\n  c*d > e\n# x\nf", "-a*\n-\n\n>>> -> -\n", "  a\nb\n"];
    for input in inputs {
        let tokens = lex(input);
        for pair in tokens.windows(2) {
            let (a, b) = (pair[0].location, pair[1].location);
            assert!((a.line, a.column) <= (b.line, b.column), "input {:?}", input);
        }
    }
}

#[test]
fn name_parts_spell_the_source() {
    let input = "  dir/sub*name&x -> /target/*\n";
    let names: Vec<String> = lex(input)
        .iter()
        .filter_map(|token| match &token.kind {
            TokenKind::Name(parts) => {
                Some(parts.iter().map(|part| part.render()).collect::<String>())
            }
            _ => None,
        })
        .collect();
    assert_eq!(names, vec!["dir/sub*name&x".to_string(), "/target/*".to_string()]);
}

#[test]
fn no_two_text_parts_are_adjacent() {
    for token in lex("a*b//c&&d ef/gh\n") {
        if let TokenKind::Name(parts) = token.kind {
            for pair in parts.windows(2) {
                assert!(!(matches!(pair[0], NamePart::Ident(_)) && matches!(pair[1], NamePart::Ident(_))));
            }
        }
    }
}

#[test]
fn lex_starts_a_tokenizer_on_a_str_and_on_a_string() {
    let mut tokens = "foo\n".lex();
    assert_eq!(tokens.collect().len(), 2);
    let owned = String::from("a -> b\n");
    let mut tokens = owned.lex();
    assert_eq!(tokens.collect().len(), 4);
}

#[test]
fn collect_after_a_pull_gives_the_rest() {
    let mut tokens = TokenIterator::new("a b\n");
    assert_eq!(tokens.next_token().map(|token| token.kind), Some(word("a")));
    let rest: Vec<TokenKind> = tokens.collect().into_iter().map(|token| token.kind).collect();
    assert_eq!(rest, vec![word("b"), TokenKind::Newline]);
    assert_eq!(tokens.collect(), vec![]);
}

#[test]
fn every_text_is_tokenized_to_its_end() {
    let inputs = [
        "",
        "\n",
        "\n\n\n",
        " ",
        "\t",
        "#",
        "##\n#",
        "-",
        ">",
        "->",
        "- >",
        ">>>>",
        "----",
        "->->->",
        "*&/",
        "a\u{0}b\u{7f}\u{80}\u{ffff}\u{10ffff}",
        "\u{feff}title\r\n\tfile -> /dest\r\n",
        "  \t \n\t\t\n \n",
        "a -> b\n  c > d\n    e/*&f\n# done",
        "\u{4e2d}\u{6587} -> \u{65e5}\u{672c}\u{8a9e}\n",
    ];
    for input in inputs {
        let mut tokens = TokenIterator::new(input);
        let mut pulls = 0;
        while tokens.next_token().is_some() {
            pulls += 1;
            assert!(pulls <= 2 * input.chars().count() + 1, "input {:?}", input);
        }
        assert_eq!(tokens.next_token(), None);
    }
}

#[test]
fn tokens_are_as_wide_as_their_kind_asks() {
    for token in lex("a\n  b*c -> d\n\te > f\n  g\nh") {
        match &token.kind {
            TokenKind::Indent(depth) | TokenKind::DeIndent(depth) => {
                assert!(*depth > 0);
                assert_eq!(token.length, Length(*depth));
            }
            TokenKind::Newline => assert_eq!(token.length, Length(1)),
            TokenKind::Move(MoveKind::Link) => assert_eq!(token.length, Length(2)),
            TokenKind::Move(MoveKind::Copy) => assert_eq!(token.length, Length(1)),
            TokenKind::Name(parts) => {
                assert!(!parts.is_empty());
                let width: usize = parts.iter().map(|part| part.render().chars().count()).sum();
                assert_eq!(token.length, Length(width));
            }
        }
    }
}

#[test]
fn names_stand_where_their_first_character_was_read() {
    let input = "ab c/d\n  e*f g\n";
    let lines: Vec<Vec<char>> = input.lines().map(|line| line.chars().collect()).collect();
    for token in lex(input) {
        if let TokenKind::Name(parts) = &token.kind {
            let spelled: String = parts.iter().map(|part| part.render()).collect();
            let line = &lines[token.location.line];
            let from = token.location.column - 1;
            let source: String = line[from..from + token.length.0].iter().collect();
            assert_eq!(spelled, source);
        }
    }
}

#[test]
fn rendering_a_whole_run() {
    let rendered: Vec<String> =
        lex("title a b\n  x -> /y\n  *.rc > &z\n").iter().map(|token| token.render()).collect();
    assert_eq!(
        rendered,
        vec![
            "<title>", "<a>", "<b>", "NEWLINE", "INDENT 2", "<x>", "LINK", "</@y>", "NEWLINE",
            "<*@.rc>", "COPY", "<&@z>", "NEWLINE", "DEINDENT 2",
        ]
    );
}
