use pratt::grammar::{group, parse_bytes, Halt, SyntaxError, TokenTreeParser};
use pratt::lexer::{scan_number, sign, skip_spaces, space_at, tokenize, Lexeme, LexemeKind};
use pratt::token_tree::TokenTree;
use pratt::token_tree::TokenTree::{Group, Infix, Postfix, Prefix, Primary};

fn read(text: &str) -> Result<Vec<TokenTree>, SyntaxError> {
    TokenTreeParser::new().parse(text)
}

#[test]
fn a_number_alone() {
    assert_eq!(read("42"), Ok(vec![Primary(42)]));
    assert_eq!(read("0"), Ok(vec![Primary(0)]));
    assert_eq!(read("007"), Ok(vec![Primary(7)]));
    assert_eq!(read("2147483647"), Ok(vec![Primary(i32::MAX)]));
    assert_eq!(read("0000000000002147483647"), Ok(vec![Primary(i32::MAX)]));
}

#[test]
fn signs_are_sorted_by_their_place() {
    assert_eq!(
        read("-1-2"),
        Ok(vec![Prefix('-'), Primary(1), Infix('-'), Primary(2)])
    );
    assert_eq!(
        read("1--2"),
        Ok(vec![Primary(1), Infix('-'), Prefix('-'), Primary(2)])
    );
    assert_eq!(
        read("!-!1??"),
        Ok(vec![
            Prefix('!'),
            Prefix('-'),
            Prefix('!'),
            Primary(1),
            Postfix('?'),
            Postfix('?'),
        ])
    );
    assert_eq!(
        read("1=2+3-4*5/6^7"),
        Ok(vec![
            Primary(1),
            Infix('='),
            Primary(2),
            Infix('+'),
            Primary(3),
            Infix('-'),
            Primary(4),
            Infix('*'),
            Primary(5),
            Infix('/'),
            Primary(6),
            Infix('^'),
            Primary(7),
        ])
    );
}

#[test]
fn the_fourth_example_as_tokens() {
    assert_eq!(
        read("-1?*!2^3+3/2?-1"),
        Ok(vec![
            Prefix('-'),
            Primary(1),
            Postfix('?'),
            Infix('*'),
            Prefix('!'),
            Primary(2),
            Infix('^'),
            Primary(3),
            Infix('+'),
            Primary(3),
            Infix('/'),
            Primary(2),
            Postfix('?'),
            Infix('-'),
            Primary(1),
        ])
    );
}

#[test]
fn brackets_make_groups() {
    assert_eq!(read("(1)"), Ok(vec![Group(vec![Primary(1)])]));
    assert_eq!(
        read("(1+2)*3"),
        Ok(vec![
            Group(vec![Primary(1), Infix('+'), Primary(2)]),
            Infix('*'),
            Primary(3),
        ])
    );
    assert_eq!(
        read("-((1)?)?"),
        Ok(vec![
            Prefix('-'),
            Group(vec![Group(vec![Primary(1)]), Postfix('?')]),
            Postfix('?'),
        ])
    );
    assert_eq!(
        read("1-(2-(3-4))"),
        Ok(vec![
            Primary(1),
            Infix('-'),
            Group(vec![
                Primary(2),
                Infix('-'),
                Group(vec![Primary(3), Infix('-'), Primary(4)]),
            ]),
        ])
    );
}

#[test]
fn white_space_is_skipped() {
    let expected = Ok(vec![Primary(1), Infix('+'), Primary(2)]);
    assert_eq!(read(" 1 + 2 "), expected);
    assert_eq!(read("\t1\n+\r\n2\x0B\x0C"), expected);
    assert_eq!(read("\u{85}1\u{A0}+\u{1680}2"), expected);
    assert_eq!(read("\u{2000}1\u{2005}+\u{200A}2\u{2028}\u{2029}"), expected);
    assert_eq!(read("\u{202F}1\u{205F}+\u{3000}2"), expected);
    assert_eq!(read("1 2"), Err(SyntaxError::UnrecognizedToken { start: 2, end: 3 }));
}

#[test]
fn what_is_no_white_space() {
    // U+200B and U+FEFF have no width and are no white space.
    assert_eq!(
        read("1\u{200B}+2"),
        Err(SyntaxError::InvalidToken { location: 1 })
    );
    assert_eq!(
        read("\u{FEFF}1"),
        Err(SyntaxError::InvalidToken { location: 0 })
    );
    assert_eq!(
        read("1 \u{180E}"),
        Err(SyntaxError::InvalidToken { location: 2 })
    );
}

#[test]
fn places_are_byte_offsets() {
    assert_eq!(
        read("\u{3000}1 +\u{2003}x"),
        Err(SyntaxError::InvalidToken { location: 9 })
    );
    assert_eq!(
        read("\u{3000}12\u{A0})"),
        Err(SyntaxError::UnrecognizedToken { start: 7, end: 8 })
    );
    assert_eq!(
        read("\u{3000}12 +\u{A0}"),
        Err(SyntaxError::UnrecognizedEof { location: 7 })
    );
}

#[test]
fn invalid_tokens() {
    assert_eq!(read("a"), Err(SyntaxError::InvalidToken { location: 0 }));
    assert_eq!(read("1 + a"), Err(SyntaxError::InvalidToken { location: 4 }));
    assert_eq!(read("1 % 2"), Err(SyntaxError::InvalidToken { location: 2 }));
    assert_eq!(read("1.5"), Err(SyntaxError::InvalidToken { location: 1 }));
    assert_eq!(read("1 +\u{e9}"), Err(SyntaxError::InvalidToken { location: 3 }));
}

#[test]
fn the_text_ends_too_early() {
    assert_eq!(read(""), Err(SyntaxError::UnrecognizedEof { location: 0 }));
    assert_eq!(read("   "), Err(SyntaxError::UnrecognizedEof { location: 0 }));
    assert_eq!(read("1 +"), Err(SyntaxError::UnrecognizedEof { location: 3 }));
    assert_eq!(read("1 +   "), Err(SyntaxError::UnrecognizedEof { location: 3 }));
    assert_eq!(read("-"), Err(SyntaxError::UnrecognizedEof { location: 1 }));
    assert_eq!(read("(1"), Err(SyntaxError::UnrecognizedEof { location: 2 }));
    assert_eq!(read("(1 + (2"), Err(SyntaxError::UnrecognizedEof { location: 7 }));
    assert_eq!(read("("), Err(SyntaxError::UnrecognizedEof { location: 1 }));
}

#[test]
fn tokens_out_of_place() {
    assert_eq!(
        read("1 2"),
        Err(SyntaxError::UnrecognizedToken { start: 2, end: 3 })
    );
    assert_eq!(
        read("1 23 4"),
        Err(SyntaxError::UnrecognizedToken { start: 2, end: 4 })
    );
    assert_eq!(
        read("+1"),
        Err(SyntaxError::UnrecognizedToken { start: 0, end: 1 })
    );
    assert_eq!(
        read("?"),
        Err(SyntaxError::UnrecognizedToken { start: 0, end: 1 })
    );
    assert_eq!(
        read("1 + * 2"),
        Err(SyntaxError::UnrecognizedToken { start: 4, end: 5 })
    );
    assert_eq!(
        read("1 !"),
        Err(SyntaxError::UnrecognizedToken { start: 2, end: 3 })
    );
    assert_eq!(
        read("1 (2)"),
        Err(SyntaxError::UnrecognizedToken { start: 2, end: 3 })
    );
    assert_eq!(
        read("()"),
        Err(SyntaxError::UnrecognizedToken { start: 1, end: 2 })
    );
    assert_eq!(
        read("1)"),
        Err(SyntaxError::UnrecognizedToken { start: 1, end: 2 })
    );
    assert_eq!(
        read("(1))"),
        Err(SyntaxError::UnrecognizedToken { start: 3, end: 4 })
    );
    assert_eq!(
        read("(1 2)"),
        Err(SyntaxError::UnrecognizedToken { start: 3, end: 4 })
    );
    assert_eq!(
        read("1 = ? 2"),
        Err(SyntaxError::UnrecognizedToken { start: 4, end: 5 })
    );
}

#[test]
fn the_first_fault_is_reported() {
    assert_eq!(
        read("1 ) $"),
        Err(SyntaxError::UnrecognizedToken { start: 2, end: 3 })
    );
    assert_eq!(read("1 $ )"), Err(SyntaxError::InvalidToken { location: 2 }));
    assert_eq!(read("( $"), Err(SyntaxError::InvalidToken { location: 2 }));
    assert_eq!(read("1 + $"), Err(SyntaxError::InvalidToken { location: 4 }));
    assert_eq!(read("1 $"), Err(SyntaxError::InvalidToken { location: 2 }));
}

#[test]
fn numbers_that_do_not_fit() {
    assert_eq!(
        read("2147483648"),
        Err(SyntaxError::NumberTooLarge { start: 0, end: 10 })
    );
    assert_eq!(
        read("1 + 99999999999999999999999999 * 2"),
        Err(SyntaxError::NumberTooLarge { start: 4, end: 30 })
    );
    assert_eq!(
        read("(4294967296)"),
        Err(SyntaxError::NumberTooLarge { start: 1, end: 11 })
    );
    assert_eq!(
        read("4294967296 )"),
        Err(SyntaxError::NumberTooLarge { start: 0, end: 10 })
    );
    assert_eq!(
        read("18446744073709551616?"),
        Err(SyntaxError::NumberTooLarge { start: 0, end: 20 })
    );
}

#[test]
fn a_large_number_before_another_fault() {
    // The token behind the number is looked at before the number is read.
    assert_eq!(
        read("99999999999 $"),
        Err(SyntaxError::InvalidToken { location: 12 })
    );
    assert_eq!(
        read("99999999999 3"),
        Err(SyntaxError::UnrecognizedToken { start: 12, end: 13 })
    );
    assert_eq!(
        read("99999999999 ("),
        Err(SyntaxError::UnrecognizedToken { start: 12, end: 13 })
    );
    assert_eq!(
        read("99999999999 !"),
        Err(SyntaxError::UnrecognizedToken { start: 12, end: 13 })
    );
    assert_eq!(
        read("99999999999 + $"),
        Err(SyntaxError::NumberTooLarge { start: 0, end: 11 })
    );
    assert_eq!(
        read("1 2 99999999999"),
        Err(SyntaxError::UnrecognizedToken { start: 2, end: 3 })
    );
}

#[test]
fn bytes_are_read_as_text_is() {
    assert_eq!(
        parse_bytes(b"1 + (2)"),
        Ok(vec![Primary(1), Infix('+'), Group(vec![Primary(2)])])
    );
    assert_eq!(
        parse_bytes(b"1 + \xFF"),
        Err(SyntaxError::InvalidToken { location: 4 })
    );
    assert_eq!(
        parse_bytes(b"1 \xE2\x80"),
        Err(SyntaxError::InvalidToken { location: 2 })
    );
    assert_eq!(
        parse_bytes(b"1 \xC2"),
        Err(SyntaxError::InvalidToken { location: 2 })
    );
}

#[test]
fn lexemes() {
    let number = |value, start, end| Lexeme { kind: LexemeKind::Number(Some(value)), start, end };
    let sign = |c, start| Lexeme { kind: LexemeKind::Sign(c), start, end: start + 1 };
    assert_eq!(
        tokenize(b" 12+(3) "),
        (
            vec![number(12, 1, 3), sign('+', 3), sign('(', 4), number(3, 5, 6), sign(')', 6)],
            None
        )
    );
    assert_eq!(
        tokenize(b"!)*-/?=^"),
        (
            vec![
                sign('!', 0),
                sign(')', 1),
                sign('*', 2),
                sign('-', 3),
                sign('/', 4),
                sign('?', 5),
                sign('=', 6),
                sign('^', 7),
            ],
            None
        )
    );
    assert_eq!(tokenize(b"1 x 2"), (vec![number(1, 0, 1)], Some(2)));
    assert_eq!(tokenize(b""), (vec![], None));
    assert_eq!(tokenize(b"  "), (vec![], None));
    assert_eq!(
        tokenize(b"2147483648 1"),
        (
            vec![
                Lexeme { kind: LexemeKind::Number(None), start: 0, end: 10 },
                number(1, 11, 12),
            ],
            None
        )
    );
}

#[test]
fn the_parts_of_the_lexer() {
    assert_eq!(space_at(b" x", 0), 1);
    assert_eq!(space_at(b" x", 1), 0);
    assert_eq!(space_at(b" x", 2), 0);
    assert_eq!(space_at(b" x", 9), 0);
    assert_eq!(space_at("\u{A0}".as_bytes(), 0), 2);
    assert_eq!(space_at("\u{A0}".as_bytes(), 1), 0);
    assert_eq!(space_at("\u{2009}".as_bytes(), 0), 3);
    assert_eq!(space_at("\u{200B}".as_bytes(), 0), 0);
    assert_eq!(space_at(b"\xE2\x80", 0), 0);
    assert_eq!(skip_spaces(b"  \t 1 ", 0), 4);
    assert_eq!(skip_spaces(b"  \t 1 ", 4), 4);
    assert_eq!(skip_spaces(b"  \t 1 ", 5), 6);
    assert_eq!(skip_spaces(b"  \t 1 ", 6), 6);
    assert_eq!(skip_spaces(" \u{3000}\u{85} 1".as_bytes(), 0), 7);
    assert_eq!(scan_number(b"x123y", 1), (4, Some(123)));
    assert_eq!(scan_number(b"0", 0), (1, Some(0)));
    assert_eq!(scan_number(b"2147483647", 0), (10, Some(2147483647)));
    assert_eq!(scan_number(b"2147483648", 0), (10, None));
    assert_eq!(scan_number(b"21474836470", 0), (11, None));
    assert_eq!(sign(b'-'), Some('-'));
    assert_eq!(sign(b'('), Some('('));
    assert_eq!(sign(b'^'), Some('^'));
    assert_eq!(sign(b'='), Some('='));
    assert_eq!(sign(b'0'), None);
    assert_eq!(sign(b'%'), None);
    assert_eq!(sign(b' '), None);
}

#[test]
fn a_group_of_lexemes() {
    let (lexemes, _) = tokenize(b"1 + (2 * 3) ) 4");
    assert_eq!(
        group(&lexemes, 0),
        Ok((
            vec![
                Primary(1),
                Infix('+'),
                Group(vec![Primary(2), Infix('*'), Primary(3)]),
            ],
            7
        ))
    );
    assert_eq!(
        group(&lexemes, 3),
        Ok((vec![Primary(2), Infix('*'), Primary(3)], 6))
    );
    assert_eq!(group(&lexemes, 1), Err(Halt::At(1)));
    assert_eq!(group(&lexemes, 9), Err(Halt::At(9)));
    let (lexemes, _) = tokenize(b"1 + 99999999999");
    assert_eq!(group(&lexemes, 0), Err(Halt::TooLarge(2)));
    let (lexemes, _) = tokenize(b"99999999999 7");
    assert_eq!(group(&lexemes, 0), Err(Halt::At(1)));
}
