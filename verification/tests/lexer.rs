use alpaca::chars::{blank, digit, ident_continue, ident_start, letter, width};
use unicode_xid::UnicodeXID;
use alpaca::lexer::{characters, Lexer};
use alpaca::span::Span;
use alpaca::tokens::{get_keyword, TokenKind};

fn tokens(source: &str) -> Vec<(TokenKind, Span)> {
    let mut lexer = Lexer::new(source);
    let mut out = Vec::new();
    loop {
        let token = lexer.next_token();
        let done = token.0 == TokenKind::EoF;
        out.push(token);
        if done {
            return out;
        }
    }
}

fn kinds(source: &str) -> Vec<TokenKind> {
    tokens(source).into_iter().map(|t| t.0).collect()
}

fn span(start: usize, end: usize) -> Span {
    Span { start, end }
}

fn ident(name: &str) -> TokenKind {
    TokenKind::Ident(name.to_string())
}

#[test]
fn punctuation_and_operators() {
    assert_eq!(
        kinds("( ) [ ] , : -> = == ! != > >= < <= + - * /"),
        vec![
            TokenKind::OpenParen,
            TokenKind::CloseParen,
            TokenKind::OpenBracket,
            TokenKind::CloseBracket,
            TokenKind::Comma,
            TokenKind::Colon,
            TokenKind::Arrow,
            TokenKind::Equal,
            TokenKind::EqualEqual,
            TokenKind::Bang,
            TokenKind::BangEqual,
            TokenKind::Greater,
            TokenKind::GreaterEqual,
            TokenKind::Less,
            TokenKind::LessEqual,
            TokenKind::Plus,
            TokenKind::Minus,
            TokenKind::Star,
            TokenKind::Slash,
            TokenKind::EoF,
        ]
    );
}

#[test]
fn two_character_operators_need_their_second_character() {
    assert_eq!(
        kinds("=>"),
        vec![TokenKind::Equal, TokenKind::Greater, TokenKind::EoF]
    );
    assert_eq!(
        kinds("-<"),
        vec![TokenKind::Minus, TokenKind::Less, TokenKind::EoF]
    );
    assert_eq!(
        kinds("==="),
        vec![TokenKind::EqualEqual, TokenKind::Equal, TokenKind::EoF]
    );
    assert_eq!(kinds("!"), vec![TokenKind::Bang, TokenKind::EoF]);
    assert_eq!(
        tokens("a->b"),
        vec![
            (ident("a"), span(0, 1)),
            (TokenKind::Arrow, span(1, 3)),
            (ident("b"), span(3, 4)),
            (TokenKind::EoF, span(4, 4)),
        ]
    );
}

#[test]
fn every_keyword_is_recognised() {
    assert_eq!(
        kinds("and do else end false for fun if let or return true type while"),
        vec![
            TokenKind::And,
            TokenKind::Do,
            TokenKind::Else,
            TokenKind::End,
            TokenKind::False,
            TokenKind::For,
            TokenKind::Fun,
            TokenKind::If,
            TokenKind::Let,
            TokenKind::Or,
            TokenKind::Return,
            TokenKind::True,
            TokenKind::Type,
            TokenKind::While,
            TokenKind::EoF,
        ]
    );
}

#[test]
fn keyword_lookup() {
    assert_eq!(get_keyword("let"), TokenKind::Let);
    assert_eq!(get_keyword("while"), TokenKind::While);
    assert_eq!(get_keyword("lets"), ident("lets"));
    assert_eq!(get_keyword("Let"), ident("Let"));
    assert_eq!(get_keyword("in"), ident("in"));
    assert_eq!(get_keyword(""), ident(""));
}

#[test]
fn identifiers_run_as_far_as_they_can() {
    assert_eq!(
        tokens("foo _bar b4z lettuce"),
        vec![
            (ident("foo"), span(0, 3)),
            (ident("_bar"), span(4, 8)),
            (ident("b4z"), span(9, 12)),
            (ident("lettuce"), span(13, 20)),
            (TokenKind::EoF, span(20, 20)),
        ]
    );
}

#[test]
fn identifiers_may_hold_letters_of_any_script() {
    assert_eq!(
        tokens("été = 1"),
        vec![
            (ident("été"), span(0, 5)),
            (TokenKind::Equal, span(6, 7)),
            (TokenKind::Integer("1".to_string()), span(8, 9)),
            (TokenKind::EoF, span(9, 9)),
        ]
    );
}

#[test]
fn integers_are_runs_of_decimal_digits() {
    assert_eq!(
        tokens("42 007 12ab"),
        vec![
            (TokenKind::Integer("42".to_string()), span(0, 2)),
            (TokenKind::Integer("007".to_string()), span(3, 6)),
            (TokenKind::Integer("12".to_string()), span(7, 9)),
            (ident("ab"), span(9, 11)),
            (TokenKind::EoF, span(11, 11)),
        ]
    );
}

#[test]
fn the_lexer_accepts_an_integer_of_any_size() {
    assert_eq!(
        kinds("99999999999999999999999999"),
        vec![
            TokenKind::Integer("99999999999999999999999999".to_string()),
            TokenKind::EoF
        ]
    );
}

#[test]
fn strings_span_their_content() {
    assert_eq!(
        tokens("\"hello\" \"\""),
        vec![
            (TokenKind::String("hello".to_string()), span(1, 6)),
            (TokenKind::String(String::new()), span(9, 9)),
            (TokenKind::EoF, span(10, 10)),
        ]
    );
}

#[test]
fn strings_are_taken_verbatim() {
    assert_eq!(
        tokens("\"a\\n # b\nc\""),
        vec![
            (TokenKind::String("a\\n # b\nc".to_string()), span(1, 10)),
            (TokenKind::EoF, span(11, 11)),
        ]
    );
}

#[test]
fn unterminated_string() {
    let source = "\"abc";
    assert_eq!(
        tokens(source),
        vec![
            (
                TokenKind::Error(
                    "Unterminated string literal. Expected closing quote, instead found EoF (End of File)"
                        .to_string()
                ),
                span(1, 4)
            ),
            (TokenKind::EoF, span(4, 4)),
        ]
    );
    assert_eq!(&source[1..4], "abc");
}

#[test]
fn unterminated_empty_string() {
    assert_eq!(
        tokens("x \""),
        vec![
            (ident("x"), span(0, 1)),
            (
                TokenKind::Error(
                    "Unterminated string literal. Expected closing quote, instead found EoF (End of File)"
                        .to_string()
                ),
                span(3, 3)
            ),
            (TokenKind::EoF, span(3, 3)),
        ]
    );
}

#[test]
fn unknown_characters_are_errors_and_are_passed() {
    assert_eq!(
        tokens("a $ . €b"),
        vec![
            (ident("a"), span(0, 1)),
            (TokenKind::Error("Unknown character $".to_string()), span(2, 3)),
            (TokenKind::Error("Unknown character .".to_string()), span(4, 5)),
            (TokenKind::Error("Unknown character €".to_string()), span(6, 9)),
            (ident("b"), span(9, 10)),
            (TokenKind::EoF, span(10, 10)),
        ]
    );
}

#[test]
fn blanks_and_comments_give_no_token() {
    assert_eq!(
        tokens("  1\t# one ) \"\n\r\n# two\n2 #"),
        vec![
            (TokenKind::Integer("1".to_string()), span(2, 3)),
            (TokenKind::Integer("2".to_string()), span(22, 23)),
            (TokenKind::EoF, span(25, 25)),
        ]
    );
    assert_eq!(tokens("\u{a0}\u{2003}"), vec![(TokenKind::EoF, span(5, 5))]);
}

#[test]
fn spans_reconstruct_lexemes() {
    let source = "fun pub añadir(x: int, ys: [int]) -> bool do\n  return x >= 10 and \"straße\" != ys # end\nend";
    let expected = [
        "fun", "pub", "añadir", "(", "x", ":", "int", ",", "ys", ":", "[", "int", "]", ")", "->",
        "bool", "do", "return", "x", ">=", "10", "and", "straße", "!=", "ys", "end", "",
    ];
    let found = tokens(source);
    assert_eq!(found.len(), expected.len());
    for (token, lexeme) in found.iter().zip(expected.iter()) {
        assert!(token.1.start <= token.1.end);
        assert_eq!(&source[token.1.start..token.1.end], *lexeme);
        match &token.0 {
            TokenKind::Ident(text) | TokenKind::Integer(text) | TokenKind::String(text) => {
                assert_eq!(text, lexeme)
            }
            _ => {}
        }
    }
}

#[test]
fn end_of_input_is_returned_forever() {
    let mut lexer = Lexer::new("x  ");
    assert_eq!(lexer.next_token(), (ident("x"), span(0, 1)));
    assert!(!lexer.at_end());
    for _ in 0..5 {
        assert_eq!(lexer.next_token(), (TokenKind::EoF, span(3, 3)));
        assert!(lexer.at_end());
        assert_eq!(lexer.position(), 3);
    }
}

#[test]
fn empty_source() {
    let mut lexer = Lexer::new("");
    assert!(lexer.at_end());
    assert_eq!(lexer.next_token(), (TokenKind::EoF, span(0, 0)));
    assert_eq!(lexer.next_token(), (TokenKind::EoF, span(0, 0)));
}

#[test]
fn at_end_looks_at_characters_not_tokens() {
    let mut lexer = Lexer::new("a ");
    assert!(!lexer.at_end());
    lexer.next_token();
    assert!(!lexer.at_end());
    lexer.next_token();
    assert!(lexer.at_end());
}

#[test]
fn position_line_and_column() {
    let mut lexer = Lexer::new("ab\n  é1 \"x\ny\"");
    assert_eq!((lexer.position(), lexer.line(), lexer.column()), (0, 1, 0));
    lexer.next_token();
    assert_eq!((lexer.position(), lexer.line(), lexer.column()), (2, 1, 2));
    lexer.next_token();
    assert_eq!((lexer.position(), lexer.line(), lexer.column()), (8, 2, 4));
    lexer.next_token();
    assert_eq!((lexer.position(), lexer.line(), lexer.column()), (14, 3, 2));
}

#[test]
fn character_classes() {
    assert!(digit('0') && digit('9') && !digit('a') && !digit('٣') && !digit('/') && !digit(':'));
    assert!(letter('a') && letter('z') && letter('A') && letter('Z'));
    assert!(!letter('`') && !letter('{') && !letter('@') && !letter('[') && !letter('é'));
    assert!(ident_start('a') && ident_start('Z') && ident_start('_') && ident_start('é'));
    assert!(!ident_start('1') && !ident_start('-') && !ident_start(' ') && !ident_start('٣'));
    assert!(ident_continue('1') && ident_continue('_') && ident_continue('é'));
    assert!(ident_continue('٣') && !ident_continue('-') && !ident_continue(' '));
    assert!(blank(' ') && blank('\t') && blank('\r') && blank('\n') && blank('\u{b}'));
    assert!(blank('\u{c}') && blank('\u{a0}') && blank('\u{85}') && blank('\u{2028}'));
    assert!(!blank('a') && !blank('#') && !blank('\u{8}') && !blank('\u{e}') && !blank('é'));
}

#[test]
fn character_classes_are_those_of_unicode() {
    let samples = ('\0'..='\u{2ff}')
        .chain('\u{2000}'..='\u{2100}')
        .chain(['中', 'あ', '\u{3000}', '\u{feff}', '😀', '\u{10ffff}']);
    for c in samples {
        assert_eq!(ident_start(c), UnicodeXID::is_xid_start(c) || c == '_', "{:?}", c);
        assert_eq!(ident_continue(c), UnicodeXID::is_xid_continue(c), "{:?}", c);
        assert_eq!(blank(c), c.is_whitespace(), "{:?}", c);
        assert_eq!(digit(c), c.is_ascii_digit(), "{:?}", c);
        assert_eq!(letter(c), c.is_ascii_alphabetic(), "{:?}", c);
    }
}

#[test]
fn widths_are_those_of_utf8() {
    for c in ['a', '\u{7f}', '\u{80}', 'é', '\u{7ff}', '\u{800}', '€', '\u{ffff}', '\u{10000}', '😀'] {
        assert_eq!(width(c), c.len_utf8());
    }
}

#[test]
fn characters_of_a_text() {
    assert_eq!(characters("aé€"), vec!['a', 'é', '€']);
    assert_eq!(characters(""), Vec::<char>::new());
}

#[test]
fn tokens_compare_by_kind_and_text() {
    assert_eq!(ident("a"), ident("a"));
    assert_ne!(ident("a"), ident("b"));
    assert_ne!(ident("a"), TokenKind::String("a".to_string()));
    assert_ne!(TokenKind::Plus, TokenKind::Minus);
    assert_eq!(TokenKind::Error("e".to_string()).clone(), TokenKind::Error("e".to_string()));
    assert_eq!(TokenKind::Dot.clone(), TokenKind::Dot);
}

#[test]
fn span_from_range() {
    assert_eq!(Span::from(3..7), span(3, 7));
    assert!(Span::from(4..4).is_empty());
    assert!(!Span::from(4..5).is_empty());
}
