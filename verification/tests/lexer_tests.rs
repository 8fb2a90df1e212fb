use tiny_lang::lex::lex_new;
use tiny_lang::lex::Scanner;
use tiny_lang::lex::Token;

fn scanner_for(lines: &[&str]) -> Scanner {
    let mut scanner = lex_new("test.tl".to_string());
    let owned: Vec<String> = lines.iter().map(|line| line.to_string()).collect();
    scanner.init(&owned);
    scanner
}

fn tokens_of(lines: &[&str]) -> Vec<Token> {
    let mut scanner = scanner_for(lines);
    let mut tokens = Vec::new();
    loop {
        let token = scanner.get_next();
        if token == Token::Eof {
            break;
        }
        tokens.push(token);
        assert!(tokens.len() < 10_000);
    }
    tokens
}

fn id(name: &str) -> Token {
    Token::Id(name.to_string())
}

#[test]
fn empty_source_gives_eof_for_ever() {
    let mut scanner = scanner_for(&[]);
    assert_eq!(scanner.get_next(), Token::Eof);
    assert_eq!(scanner.get_next(), Token::Eof);
    assert_eq!(scanner.get_next(), Token::Eof);
}

#[test]
fn blank_lines_are_left_out() {
    assert_eq!(tokens_of(&["", "   ", "\t", "x", ""]), vec![id("x")]);
}

#[test]
fn lines_are_trimmed_and_joined_with_a_space() {
    assert_eq!(
        tokens_of(&["  func f is  ", "\tend\t"]),
        vec![Token::Func, id("f"), Token::Is, Token::End]
    );
}

#[test]
fn every_keyword_is_recognized() {
    assert_eq!(
        tokens_of(&[
            "func is end return var const while do if elif else then break continue struct"
        ]),
        vec![
            Token::Func,
            Token::Is,
            Token::End,
            Token::Return,
            Token::Var,
            Token::Const,
            Token::While,
            Token::Do,
            Token::If,
            Token::Elif,
            Token::Else,
            Token::Then,
            Token::Break,
            Token::Continue,
            Token::Struct,
        ]
    );
}

#[test]
fn every_type_keyword_is_recognized() {
    assert_eq!(
        tokens_of(&["i8 u8 i16 u16 i32 u32 i64 u64 string char bool true false"]),
        vec![
            Token::I8,
            Token::U8,
            Token::I16,
            Token::U16,
            Token::I32,
            Token::U32,
            Token::I64,
            Token::U64,
            Token::String,
            Token::Char,
            Token::Bool,
            Token::True,
            Token::False,
        ]
    );
}

#[test]
fn single_character_symbols() {
    assert_eq!(
        tokens_of(&["( ) [ ] ; : , . + - * / % & | ^ = > <"]),
        vec![
            Token::LParen,
            Token::RParen,
            Token::LBracket,
            Token::RBracket,
            Token::SemiColon,
            Token::Colon,
            Token::Comma,
            Token::Dot,
            Token::Add,
            Token::Sub,
            Token::Mul,
            Token::Div,
            Token::Mod,
            Token::And,
            Token::Or,
            Token::Xor,
            Token::Eq,
            Token::Gt,
            Token::Lt,
        ]
    );
}

#[test]
fn two_character_symbols() {
    assert_eq!(
        tokens_of(&["-> := != >= <= && ||"]),
        vec![
            Token::Arrow,
            Token::Assign,
            Token::Ne,
            Token::Ge,
            Token::Le,
            Token::LGAnd,
            Token::LGOr,
        ]
    );
}

#[test]
fn a_lone_exclamation_mark_is_unknown() {
    assert_eq!(tokens_of(&["! x"]), vec![Token::Unknown, id("x")]);
}

#[test]
fn a_symbol_ends_a_word_and_follows_it() {
    assert_eq!(
        tokens_of(&["x:=y+1;"]),
        vec![
            id("x"),
            Token::Assign,
            id("y"),
            Token::Add,
            Token::IntL(1),
            Token::SemiColon,
        ]
    );
}

#[test]
fn a_symbol_that_could_start_a_longer_one_stands_alone_before_a_space() {
    assert_eq!(
        tokens_of(&["- > : = ! = > = < = & & | |"]),
        vec![
            Token::Sub,
            Token::Gt,
            Token::Colon,
            Token::Eq,
            Token::Unknown,
            Token::Eq,
            Token::Gt,
            Token::Eq,
            Token::Lt,
            Token::Eq,
            Token::And,
            Token::And,
            Token::Or,
            Token::Or,
        ]
    );
    assert_eq!(tokens_of(&["x", "-"]), vec![id("x"), Token::Sub]);
}

#[test]
fn integers_are_numbers() {
    assert_eq!(
        tokens_of(&["0 7 42 007 18446744073709551615"]),
        vec![
            Token::IntL(0),
            Token::IntL(7),
            Token::IntL(42),
            Token::IntL(7),
            Token::IntL(18446744073709551615),
        ]
    );
}

#[test]
fn a_number_too_large_is_an_identifier() {
    assert_eq!(
        tokens_of(&["18446744073709551616"]),
        vec![id("18446744073709551616")]
    );
}

#[test]
fn a_word_with_digits_and_letters_is_an_identifier() {
    assert_eq!(tokens_of(&["x1 1x _y"]), vec![id("x1"), id("1x"), id("_y")]);
}

#[test]
fn a_tab_inside_a_line_is_part_of_the_word() {
    // Only space and newline separate words; a number is trimmed before it
    // is read, an identifier is not.
    assert_eq!(tokens_of(&["a\t5 \t6 \tb"]), vec![id("a\t5"), Token::IntL(6), id("\tb")]);
}

#[test]
fn string_literals_keep_their_text() {
    assert_eq!(
        tokens_of(&["\"hello world\" \"\" \"a;b\""]),
        vec![
            Token::StringL("hello world".to_string()),
            Token::StringL("".to_string()),
            Token::StringL("a;b".to_string()),
        ]
    );
}

#[test]
fn a_string_literal_without_its_end_runs_to_the_end_of_the_text() {
    assert_eq!(
        tokens_of(&["x \"abc"]),
        vec![id("x"), Token::StringL("abc ".to_string())]
    );
}

#[test]
fn character_literals() {
    assert_eq!(
        tokens_of(&["'a' ' ' ';'"]),
        vec![Token::CharL('a'), Token::CharL(' '), Token::CharL(';')]
    );
}

#[test]
fn a_quote_at_the_end_of_the_last_line_takes_the_joining_space() {
    // A line is followed by a space in the text: the space is the character.
    assert_eq!(tokens_of(&["'"]), vec![Token::CharL(' ')]);
    assert_eq!(tokens_of(&["'a"]), vec![Token::CharL('a')]);
}

#[test]
fn a_word_before_a_string_literal_comes_after_it() {
    assert_eq!(
        tokens_of(&["abc\"s\" x"]),
        vec![Token::StringL("s".to_string()), id("abc"), id("x")]
    );
}

#[test]
fn non_ascii_text_is_read_by_characters() {
    assert_eq!(
        tokens_of(&["é := \"ü\";"]),
        vec![
            id("é"),
            Token::Assign,
            Token::StringL("ü".to_string()),
            Token::SemiColon,
        ]
    );
}

#[test]
fn unget_gives_the_token_back_first() {
    let mut scanner = scanner_for(&["a b"]);
    let first = scanner.get_next();
    assert_eq!(first, id("a"));
    scanner.unget(first);
    assert_eq!(scanner.get_next(), id("a"));
    assert_eq!(scanner.get_next(), id("b"));
    assert_eq!(scanner.get_next(), Token::Eof);
}

#[test]
fn unget_is_last_in_first_out() {
    let mut scanner = scanner_for(&["z"]);
    scanner.unget(Token::Add);
    scanner.unget(Token::Sub);
    assert_eq!(scanner.get_next(), Token::Sub);
    assert_eq!(scanner.get_next(), Token::Add);
    assert_eq!(scanner.get_next(), id("z"));
}

#[test]
fn unget_before_a_pending_symbol() {
    // After `x` was given, the `;` that ended it waits; a token that is put
    // back comes before it.
    let mut scanner = scanner_for(&["x;"]);
    let x = scanner.get_next();
    scanner.unget(x);
    assert_eq!(scanner.get_next(), id("x"));
    assert_eq!(scanner.get_next(), Token::SemiColon);
    assert_eq!(scanner.get_next(), Token::Eof);
}

#[test]
fn init_appends_to_the_text() {
    let mut scanner = scanner_for(&["a"]);
    scanner.init(&vec!["b".to_string()]);
    assert_eq!(scanner.get_next(), id("a"));
    assert_eq!(scanner.get_next(), id("b"));
    assert_eq!(scanner.get_next(), Token::Eof);
}

#[test]
fn same_compares_variant_and_payload() {
    assert!(id("a").same(&id("a")));
    assert!(!id("a").same(&id("b")));
    assert!(!id("a").same(&Token::StringL("a".to_string())));
    assert!(Token::IntL(3).same(&Token::IntL(3)));
    assert!(!Token::IntL(3).same(&Token::IntL(4)));
    assert!(Token::CharL('x').same(&Token::CharL('x')));
    assert!(!Token::CharL('x').same(&Token::CharL('y')));
    assert!(Token::SemiColon.same(&Token::SemiColon));
    assert!(!Token::SemiColon.same(&Token::Colon));
    assert!(Token::Eof.is_eof());
    assert!(!Token::End.is_eof());
}

#[test]
fn clone_keeps_the_token() {
    assert_eq!(id("name").clone(), id("name"));
    assert_eq!(Token::IntL(9).clone(), Token::IntL(9));
    assert_eq!(Token::Then.clone(), Token::Then);
}

#[test]
fn a_whole_function() {
    assert_eq!(
        tokens_of(&["func add(a : i32, b : i32) -> i32 is", "  return a + b;", "end"]),
        vec![
            Token::Func,
            id("add"),
            Token::LParen,
            id("a"),
            Token::Colon,
            Token::I32,
            Token::Comma,
            id("b"),
            Token::Colon,
            Token::I32,
            Token::RParen,
            Token::Arrow,
            Token::I32,
            Token::Is,
            Token::Return,
            id("a"),
            Token::Add,
            id("b"),
            Token::SemiColon,
            Token::End,
        ]
    );
}

#[test]
fn white_space_around_a_number_is_trimmed() {
    let white = [
        '\u{9}', '\u{b}', '\u{c}', '\u{d}', '\u{85}', '\u{a0}', '\u{1680}', '\u{2000}',
        '\u{2001}', '\u{2002}', '\u{2003}', '\u{2004}', '\u{2005}', '\u{2006}', '\u{2007}',
        '\u{2008}', '\u{2009}', '\u{200a}', '\u{2028}', '\u{2029}', '\u{202f}', '\u{205f}',
        '\u{3000}',
    ];
    for c in white {
        // Inside a line the character is part of the word; the number is
        // read from the trimmed word.
        assert_eq!(
            tokens_of(&[&format!("x {}7{} y", c, c)]),
            vec![id("x"), Token::IntL(7), id("y")],
            "{:?}",
            c
        );
        // At the ends of a line it is trimmed away with the line.
        assert_eq!(tokens_of(&[&format!("{}end{}", c, c)]), vec![Token::End], "{:?}", c);
    }
}

#[test]
fn other_characters_are_not_trimmed() {
    for c in ['\u{8}', '\u{e}', '\u{1f}', '\u{180e}', '\u{200b}', '\u{200c}', '\u{2060}', '\u{feff}', '_', '0'] {
        let word = format!("{}7{}", c, c);
        let tokens = tokens_of(&[&format!("x {} y", word)]);
        assert_eq!(tokens.len(), 3, "{:?}", c);
        if c == '0' {
            assert_eq!(tokens[1], Token::IntL(70));
        } else {
            assert_eq!(tokens[1], id(&word), "{:?}", c);
        }
    }
}

#[test]
fn a_text_of_white_space_only_is_trimmed_to_nothing() {
    assert_eq!(tokens_of(&["\t\u{a0}\u{3000} \r"]), vec![]);
}

#[test]
fn the_file_name_of_a_scanner() {
    assert_eq!(lex_new("name.tl".to_string()).get_file_name(), "name.tl");
}
