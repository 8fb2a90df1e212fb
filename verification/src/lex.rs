//! Tokens and the scanner that cuts source text into them.

use vstd::prelude::*;
use vstd::string::StringExecFns;

verus! {

/// A token of the language.
#[derive(Debug, PartialEq)]
pub enum Token {
    /// What the scanner gives for a mark that starts no token.
    Unknown,
    Eof,
    // Keywords
    Func,
    Is,
    End,
    Return,
    Var,
    Const,
    While,
    Do,
    If,
    Elif,
    Else,
    Then,
    Break,
    Continue,
    Struct,
    // Type keywords
    I8,
    U8,
    I16,
    U16,
    I32,
    U32,
    I64,
    U64,
    String,
    Char,
    Bool,
    // Symbols
    LParen,
    RParen,
    LBracket,
    RBracket,
    SemiColon,
    Colon,
    Comma,
    Dot,
    Arrow,
    Assign,
    Add,
    Sub,
    Mul,
    Div,
    Mod,
    And,
    Or,
    Xor,
    Eq,
    Ne,
    Gt,
    Lt,
    Ge,
    Le,
    LGAnd,
    LGOr,
    // Literals
    Id(String),
    StringL(String),
    IntL(u64),
    CharL(char),
    True,
    False,
}

/// What a token is: the same variants, with text as a sequence of characters.
pub enum TokenView {
    /// What the scanner gives for a mark that starts no token.
    Unknown,
    Eof,
    // Keywords
    Func,
    Is,
    End,
    Return,
    Var,
    Const,
    While,
    Do,
    If,
    Elif,
    Else,
    Then,
    Break,
    Continue,
    Struct,
    // Type keywords
    I8,
    U8,
    I16,
    U16,
    I32,
    U32,
    I64,
    U64,
    String,
    Char,
    Bool,
    // Symbols
    LParen,
    RParen,
    LBracket,
    RBracket,
    SemiColon,
    Colon,
    Comma,
    Dot,
    Arrow,
    Assign,
    Add,
    Sub,
    Mul,
    Div,
    Mod,
    And,
    Or,
    Xor,
    Eq,
    Ne,
    Gt,
    Lt,
    Ge,
    Le,
    LGAnd,
    LGOr,
    // Literals
    Id(Seq<char>),
    StringL(Seq<char>),
    IntL(u64),
    CharL(char),
    True,
    False,
}

impl View for Token {
    type V = TokenView;

    open spec fn view(&self) -> TokenView {
        match self {
            Token::Id(text) => TokenView::Id(text@),
            Token::StringL(text) => TokenView::StringL(text@),
            Token::IntL(value) => TokenView::IntL(*value),
            Token::CharL(value) => TokenView::CharL(*value),
            Token::Unknown => TokenView::Unknown,
            Token::Eof => TokenView::Eof,
            Token::Func => TokenView::Func,
            Token::Is => TokenView::Is,
            Token::End => TokenView::End,
            Token::Return => TokenView::Return,
            Token::Var => TokenView::Var,
            Token::Const => TokenView::Const,
            Token::While => TokenView::While,
            Token::Do => TokenView::Do,
            Token::If => TokenView::If,
            Token::Elif => TokenView::Elif,
            Token::Else => TokenView::Else,
            Token::Then => TokenView::Then,
            Token::Break => TokenView::Break,
            Token::Continue => TokenView::Continue,
            Token::Struct => TokenView::Struct,
            Token::I8 => TokenView::I8,
            Token::U8 => TokenView::U8,
            Token::I16 => TokenView::I16,
            Token::U16 => TokenView::U16,
            Token::I32 => TokenView::I32,
            Token::U32 => TokenView::U32,
            Token::I64 => TokenView::I64,
            Token::U64 => TokenView::U64,
            Token::String => TokenView::String,
            Token::Char => TokenView::Char,
            Token::Bool => TokenView::Bool,
            Token::LParen => TokenView::LParen,
            Token::RParen => TokenView::RParen,
            Token::LBracket => TokenView::LBracket,
            Token::RBracket => TokenView::RBracket,
            Token::SemiColon => TokenView::SemiColon,
            Token::Colon => TokenView::Colon,
            Token::Comma => TokenView::Comma,
            Token::Dot => TokenView::Dot,
            Token::Arrow => TokenView::Arrow,
            Token::Assign => TokenView::Assign,
            Token::Add => TokenView::Add,
            Token::Sub => TokenView::Sub,
            Token::Mul => TokenView::Mul,
            Token::Div => TokenView::Div,
            Token::Mod => TokenView::Mod,
            Token::And => TokenView::And,
            Token::Or => TokenView::Or,
            Token::Xor => TokenView::Xor,
            Token::Eq => TokenView::Eq,
            Token::Ne => TokenView::Ne,
            Token::Gt => TokenView::Gt,
            Token::Lt => TokenView::Lt,
            Token::Ge => TokenView::Ge,
            Token::Le => TokenView::Le,
            Token::LGAnd => TokenView::LGAnd,
            Token::LGOr => TokenView::LGOr,
            Token::True => TokenView::True,
            Token::False => TokenView::False,
        }
    }
}

impl Clone for Token {
    fn clone(&self) -> (res: Self)
        ensures
            res@ == self@,
    {
        match self {
            Token::Id(text) => Token::Id(text.clone()),
            Token::StringL(text) => Token::StringL(text.clone()),
            Token::IntL(value) => Token::IntL(*value),
            Token::CharL(value) => Token::CharL(*value),
            Token::Unknown => Token::Unknown,
            Token::Eof => Token::Eof,
            Token::Func => Token::Func,
            Token::Is => Token::Is,
            Token::End => Token::End,
            Token::Return => Token::Return,
            Token::Var => Token::Var,
            Token::Const => Token::Const,
            Token::While => Token::While,
            Token::Do => Token::Do,
            Token::If => Token::If,
            Token::Elif => Token::Elif,
            Token::Else => Token::Else,
            Token::Then => Token::Then,
            Token::Break => Token::Break,
            Token::Continue => Token::Continue,
            Token::Struct => Token::Struct,
            Token::I8 => Token::I8,
            Token::U8 => Token::U8,
            Token::I16 => Token::I16,
            Token::U16 => Token::U16,
            Token::I32 => Token::I32,
            Token::U32 => Token::U32,
            Token::I64 => Token::I64,
            Token::U64 => Token::U64,
            Token::String => Token::String,
            Token::Char => Token::Char,
            Token::Bool => Token::Bool,
            Token::LParen => Token::LParen,
            Token::RParen => Token::RParen,
            Token::LBracket => Token::LBracket,
            Token::RBracket => Token::RBracket,
            Token::SemiColon => Token::SemiColon,
            Token::Colon => Token::Colon,
            Token::Comma => Token::Comma,
            Token::Dot => Token::Dot,
            Token::Arrow => Token::Arrow,
            Token::Assign => Token::Assign,
            Token::Add => Token::Add,
            Token::Sub => Token::Sub,
            Token::Mul => Token::Mul,
            Token::Div => Token::Div,
            Token::Mod => Token::Mod,
            Token::And => Token::And,
            Token::Or => Token::Or,
            Token::Xor => Token::Xor,
            Token::Eq => Token::Eq,
            Token::Ne => Token::Ne,
            Token::Gt => Token::Gt,
            Token::Lt => Token::Lt,
            Token::Ge => Token::Ge,
            Token::Le => Token::Le,
            Token::LGAnd => Token::LGAnd,
            Token::LGOr => Token::LGOr,
            Token::True => Token::True,
            Token::False => Token::False,
        }
    }
}

impl Token {
    /// Whether two tokens are the same variant with the same payload.
    pub fn same(&self, other: &Token) -> (res: bool)
        ensures
            res == (self@ == other@),
    {
        match self {
            Token::Id(text) => match other {
                Token::Id(other_text) => *text == *other_text,
                _ => false,
            },
            Token::StringL(text) => match other {
                Token::StringL(other_text) => *text == *other_text,
                _ => false,
            },
            Token::IntL(value) => match other {
                Token::IntL(other_value) => *value == *other_value,
                _ => false,
            },
            Token::CharL(value) => match other {
                Token::CharL(other_value) => *value == *other_value,
                _ => false,
            },
            Token::Unknown => matches!(other, Token::Unknown),
            Token::Eof => matches!(other, Token::Eof),
            Token::Func => matches!(other, Token::Func),
            Token::Is => matches!(other, Token::Is),
            Token::End => matches!(other, Token::End),
            Token::Return => matches!(other, Token::Return),
            Token::Var => matches!(other, Token::Var),
            Token::Const => matches!(other, Token::Const),
            Token::While => matches!(other, Token::While),
            Token::Do => matches!(other, Token::Do),
            Token::If => matches!(other, Token::If),
            Token::Elif => matches!(other, Token::Elif),
            Token::Else => matches!(other, Token::Else),
            Token::Then => matches!(other, Token::Then),
            Token::Break => matches!(other, Token::Break),
            Token::Continue => matches!(other, Token::Continue),
            Token::Struct => matches!(other, Token::Struct),
            Token::I8 => matches!(other, Token::I8),
            Token::U8 => matches!(other, Token::U8),
            Token::I16 => matches!(other, Token::I16),
            Token::U16 => matches!(other, Token::U16),
            Token::I32 => matches!(other, Token::I32),
            Token::U32 => matches!(other, Token::U32),
            Token::I64 => matches!(other, Token::I64),
            Token::U64 => matches!(other, Token::U64),
            Token::String => matches!(other, Token::String),
            Token::Char => matches!(other, Token::Char),
            Token::Bool => matches!(other, Token::Bool),
            Token::LParen => matches!(other, Token::LParen),
            Token::RParen => matches!(other, Token::RParen),
            Token::LBracket => matches!(other, Token::LBracket),
            Token::RBracket => matches!(other, Token::RBracket),
            Token::SemiColon => matches!(other, Token::SemiColon),
            Token::Colon => matches!(other, Token::Colon),
            Token::Comma => matches!(other, Token::Comma),
            Token::Dot => matches!(other, Token::Dot),
            Token::Arrow => matches!(other, Token::Arrow),
            Token::Assign => matches!(other, Token::Assign),
            Token::Add => matches!(other, Token::Add),
            Token::Sub => matches!(other, Token::Sub),
            Token::Mul => matches!(other, Token::Mul),
            Token::Div => matches!(other, Token::Div),
            Token::Mod => matches!(other, Token::Mod),
            Token::And => matches!(other, Token::And),
            Token::Or => matches!(other, Token::Or),
            Token::Xor => matches!(other, Token::Xor),
            Token::Eq => matches!(other, Token::Eq),
            Token::Ne => matches!(other, Token::Ne),
            Token::Gt => matches!(other, Token::Gt),
            Token::Lt => matches!(other, Token::Lt),
            Token::Ge => matches!(other, Token::Ge),
            Token::Le => matches!(other, Token::Le),
            Token::LGAnd => matches!(other, Token::LGAnd),
            Token::LGOr => matches!(other, Token::LGOr),
            Token::True => matches!(other, Token::True),
            Token::False => matches!(other, Token::False),
        }
    }

    pub fn is_eof(&self) -> (res: bool)
        ensures
            res == (self@ is Eof),
    {
        matches!(self, Token::Eof)
    }
}

/// The token at the head of a stream: past its end the stream gives `Eof`.
pub open spec fn first_token(tokens: Seq<TokenView>) -> TokenView {
    if tokens.len() > 0 {
        tokens[0]
    } else {
        TokenView::Eof
    }
}

/// The stream after its head was taken.
pub open spec fn rest_tokens(tokens: Seq<TokenView>) -> Seq<TokenView> {
    if tokens.len() > 0 {
        tokens.drop_first()
    } else {
        tokens
    }
}

/// The characters that end a word without being a token.
pub open spec fn is_separator_char(c: char) -> bool {
    c == ' ' || c == '\n'
}

/// The characters that start a symbol token.
pub open spec fn is_symbol_char(c: char) -> bool {
    c == '(' || c == ')' || c == '[' || c == ']' || c == ';' || c == ':' || c == ',' || c == '.'
        || c == '+' || c == '-' || c == '*' || c == '/' || c == '%' || c == '&' || c == '|' || c
        == '^' || c == '=' || c == '!' || c == '>' || c == '<'
}

/// The symbol token that starts with `c` when `next` follows it, and whether
/// `next` belongs to the token.
pub open spec fn symbol_token(c: char, next: Option<char>) -> (TokenView, bool) {
    if c == '(' {
        (TokenView::LParen, false)
    } else if c == ')' {
        (TokenView::RParen, false)
    } else if c == '[' {
        (TokenView::LBracket, false)
    } else if c == ']' {
        (TokenView::RBracket, false)
    } else if c == ';' {
        (TokenView::SemiColon, false)
    } else if c == ',' {
        (TokenView::Comma, false)
    } else if c == '.' {
        (TokenView::Dot, false)
    } else if c == '+' {
        (TokenView::Add, false)
    } else if c == '*' {
        (TokenView::Mul, false)
    } else if c == '/' {
        (TokenView::Div, false)
    } else if c == '%' {
        (TokenView::Mod, false)
    } else if c == '^' {
        (TokenView::Xor, false)
    } else if c == '=' {
        (TokenView::Eq, false)
    } else if c == '-' {
        if next == Some('>') {
            (TokenView::Arrow, true)
        } else {
            (TokenView::Sub, false)
        }
    } else if c == ':' {
        if next == Some('=') {
            (TokenView::Assign, true)
        } else {
            (TokenView::Colon, false)
        }
    } else if c == '!' {
        if next == Some('=') {
            (TokenView::Ne, true)
        } else {
            (TokenView::Unknown, false)
        }
    } else if c == '>' {
        if next == Some('=') {
            (TokenView::Ge, true)
        } else {
            (TokenView::Gt, false)
        }
    } else if c == '<' {
        if next == Some('=') {
            (TokenView::Le, true)
        } else {
            (TokenView::Lt, false)
        }
    } else if c == '&' {
        if next == Some('&') {
            (TokenView::LGAnd, true)
        } else {
            (TokenView::And, false)
        }
    } else if c == '|' {
        if next == Some('|') {
            (TokenView::LGOr, true)
        } else {
            (TokenView::Or, false)
        }
    } else {
        (TokenView::Unknown, false)
    }
}

/// The keyword that a word spells, or `Unknown` where it spells none.
pub open spec fn keyword_token(word: Seq<char>) -> TokenView {
    if word == "func"@ {
        TokenView::Func
    } else if word == "is"@ {
        TokenView::Is
    } else if word == "end"@ {
        TokenView::End
    } else if word == "return"@ {
        TokenView::Return
    } else if word == "var"@ {
        TokenView::Var
    } else if word == "const"@ {
        TokenView::Const
    } else if word == "while"@ {
        TokenView::While
    } else if word == "do"@ {
        TokenView::Do
    } else if word == "if"@ {
        TokenView::If
    } else if word == "elif"@ {
        TokenView::Elif
    } else if word == "else"@ {
        TokenView::Else
    } else if word == "then"@ {
        TokenView::Then
    } else if word == "break"@ {
        TokenView::Break
    } else if word == "continue"@ {
        TokenView::Continue
    } else if word == "struct"@ {
        TokenView::Struct
    } else if word == "i8"@ {
        TokenView::I8
    } else if word == "u8"@ {
        TokenView::U8
    } else if word == "i16"@ {
        TokenView::I16
    } else if word == "u16"@ {
        TokenView::U16
    } else if word == "i32"@ {
        TokenView::I32
    } else if word == "u32"@ {
        TokenView::U32
    } else if word == "i64"@ {
        TokenView::I64
    } else if word == "u64"@ {
        TokenView::U64
    } else if word == "string"@ {
        TokenView::String
    } else if word == "char"@ {
        TokenView::Char
    } else if word == "bool"@ {
        TokenView::Bool
    } else if word == "true"@ {
        TokenView::True
    } else if word == "false"@ {
        TokenView::False
    } else {
        TokenView::Unknown
    }
}

/// The characters with the Unicode property White_Space.
pub open spec fn is_white_space(c: char) -> bool {
    ('\u{9}' <= c && c <= '\u{d}') || c == ' ' || c == '\u{85}' || c == '\u{a0}' || c
        == '\u{1680}' || ('\u{2000}' <= c && c <= '\u{200a}') || c == '\u{2028}' || c
        == '\u{2029}' || c == '\u{202f}' || c == '\u{205f}' || c == '\u{3000}'
}

/// A text without the white space at its start.
pub open spec fn trimmed_start(text: Seq<char>) -> Seq<char>
    decreases text.len(),
{
    if text.len() > 0 && is_white_space(text[0]) {
        trimmed_start(text.drop_first())
    } else {
        text
    }
}

/// A text without the white space at its end.
pub open spec fn trimmed_end(text: Seq<char>) -> Seq<char>
    decreases text.len(),
{
    if text.len() > 0 && is_white_space(text.last()) {
        trimmed_end(text.drop_last())
    } else {
        text
    }
}

/// A text without the white space at its start and at its end.
pub open spec fn trimmed(text: Seq<char>) -> Seq<char> {
    trimmed_end(trimmed_start(text))
}

/// A text that neither starts nor ends with white space is its own trimmed
/// text.
pub proof fn lemma_trimmed_keeps(text: Seq<char>)
    requires
        text.len() > 0 ==> !is_white_space(text[0]) && !is_white_space(text.last()),
    ensures
        trimmed(text) == text,
{
}

pub open spec fn is_digit_char(c: char) -> bool {
    '0' <= c && c <= '9'
}

/// The number that a sequence of decimal digits writes.
pub open spec fn digits_value(digits: Seq<char>) -> nat
    decreases digits.len(),
{
    if digits.len() == 0 {
        0
    } else {
        digits_value(digits.drop_last()) * 10 + (digits.last() as nat - '0' as nat) as nat
    }
}

/// A text without the `+` that it may start with.
pub open spec fn unsigned_digits(text: Seq<char>) -> Seq<char> {
    if text.len() > 0 && text[0] == '+' {
        text.drop_first()
    } else {
        text
    }
}

/// Whether a text holds decimal digits only.
pub open spec fn all_digits(text: Seq<char>) -> bool {
    forall|i: int| 0 <= i < text.len() ==> is_digit_char(#[trigger] text[i])
}

/// The number that a text writes in decimal, if it is one that fits 64 bits:
/// an optional `+`, then one digit or more and nothing else.
pub open spec fn decimal_u64(text: Seq<char>) -> Option<u64> {
    let digits = unsigned_digits(text);
    if digits.len() > 0 && all_digits(digits) && digits_value(digits) <= u64::MAX {
        Some(digits_value(digits) as u64)
    } else {
        None
    }
}

/// The number that a word writes once it is trimmed.
pub open spec fn word_number(word: Seq<char>) -> Option<u64> {
    decimal_u64(trimmed(word))
}

/// The token that a word is: a keyword, else a number, else an identifier.
pub open spec fn word_token(word: Seq<char>) -> TokenView {
    if keyword_token(word) != TokenView::Unknown {
        keyword_token(word)
    } else {
        match word_number(word) {
            Some(value) => TokenView::IntL(value),
            None => TokenView::Id(word),
        }
    }
}

/// A word that spells no keyword, has no white space at its ends and starts
/// with neither a digit nor `+` is an identifier.
pub proof fn lemma_word_is_identifier(word: Seq<char>)
    requires
        keyword_token(word) == TokenView::Unknown,
        word.len() > 0,
        !is_white_space(word[0]),
        !is_white_space(word.last()),
        !is_digit_char(word[0]),
        word[0] != '+',
    ensures
        word_token(word) == TokenView::Id(word),
{
    lemma_trimmed_keeps(word);
    assert(unsigned_digits(word) == word);
    assert(!all_digits(word)) by {
        assert(!is_digit_char(word[0]));
    }
    assert(trimmed(word) == word);
}

/// A word of decimal digits that write a number below 2^64 is that number.
pub proof fn lemma_word_is_number(word: Seq<char>)
    requires
        word.len() > 0,
        all_digits(word),
        digits_value(word) <= u64::MAX,
    ensures
        word_token(word) == TokenView::IntL(digits_value(word) as u64),
{
    assert(is_digit_char(word[0]));
    assert(is_digit_char(word[word.len() - 1]));
    lemma_trimmed_keeps(word);
    assert(keyword_token(word) == TokenView::Unknown) by {
        reveal_strlit("func");
        reveal_strlit("is");
        reveal_strlit("end");
        reveal_strlit("return");
        reveal_strlit("var");
        reveal_strlit("const");
        reveal_strlit("while");
        reveal_strlit("do");
        reveal_strlit("if");
        reveal_strlit("elif");
        reveal_strlit("else");
        reveal_strlit("then");
        reveal_strlit("break");
        reveal_strlit("continue");
        reveal_strlit("struct");
        reveal_strlit("i8");
        reveal_strlit("u8");
        reveal_strlit("i16");
        reveal_strlit("u16");
        reveal_strlit("i32");
        reveal_strlit("u32");
        reveal_strlit("i64");
        reveal_strlit("u64");
        reveal_strlit("string");
        reveal_strlit("char");
        reveal_strlit("bool");
        reveal_strlit("true");
        reveal_strlit("false");
    }
}

/// Where the string literal that starts at `from` ends: at the next double
/// quote, or at the end of the text.
pub open spec fn literal_end(text: Seq<char>, from: int) -> int
    decreases text.len() - from,
{
    if from < 0 || from >= text.len() {
        text.len() as int
    } else if text[from] == '"' {
        from
    } else {
        literal_end(text, from + 1)
    }
}

/// One step of the scanner on text that it has not read yet.
pub struct Scan {
    /// The token that the step gives.
    pub token: TokenView,
    /// The tokens that the step keeps for the next steps: the symbol that
    /// ended a word.
    pub pushed: Seq<TokenView>,
    /// Where the scanner stands after the step.
    pub pos: int,
    /// The characters of a word that has not ended yet.
    pub word: Seq<char>,
}

/// The step that the scanner makes at `pos` with `word` collected so far.
///
/// A string literal that the text does not close ends with the text; a quote
/// with nothing behind it gives `Eof`; a word that the text does not end is
/// given up when the text ends.
pub open spec fn scan(text: Seq<char>, pos: int, word: Seq<char>) -> Scan
    decreases text.len() - pos,
{
    if pos < 0 || pos >= text.len() {
        Scan { token: TokenView::Eof, pushed: Seq::empty(), pos, word }
    } else {
        let c = text[pos];
        if c == '"' {
            let end = literal_end(text, pos + 1);
            Scan {
                token: TokenView::StringL(text.subrange(pos + 1, end)),
                pushed: Seq::empty(),
                pos: if end < text.len() {
                    end + 1
                } else {
                    end
                },
                word,
            }
        } else if c == '\'' {
            if pos + 1 >= text.len() {
                Scan { token: TokenView::Eof, pushed: Seq::empty(), pos: pos + 1, word }
            } else {
                Scan {
                    token: TokenView::CharL(text[pos + 1]),
                    pushed: Seq::empty(),
                    pos: if pos + 3 <= text.len() {
                        pos + 3
                    } else {
                        pos + 2
                    },
                    word,
                }
            }
        } else if is_symbol_char(c) {
            let next = if pos + 1 < text.len() {
                Some(text[pos + 1])
            } else {
                None
            };
            let symbol = symbol_token(c, next);
            let after = if symbol.1 {
                pos + 2
            } else {
                pos + 1
            };
            if word.len() == 0 {
                Scan { token: symbol.0, pushed: Seq::empty(), pos: after, word }
            } else {
                Scan {
                    token: word_token(word),
                    pushed: seq![symbol.0],
                    pos: after,
                    word: Seq::empty(),
                }
            }
        } else if is_separator_char(c) {
            if word.len() == 0 {
                scan(text, pos + 1, word)
            } else {
                Scan {
                    token: word_token(word),
                    pushed: Seq::empty(),
                    pos: pos + 1,
                    word: Seq::empty(),
                }
            }
        } else {
            scan(text, pos + 1, word.push(c))
        }
    }
}

/// A step that gives a token has read at least one character, and a step
/// that gives `Eof` has read the text to its end.
pub proof fn lemma_scan_advances(text: Seq<char>, pos: int, word: Seq<char>)
    requires
        0 <= pos,
    ensures
        pos <= scan(text, pos, word).pos,
        scan(text, pos, word).token is Eof ==> scan(text, pos, word).pos >= text.len() && scan(
            text,
            pos,
            word,
        ).pushed.len() == 0,
        !(scan(text, pos, word).token is Eof) ==> pos < scan(text, pos, word).pos <= text.len(),
    decreases text.len() - pos,
{
    if pos < text.len() {
        let c = text[pos];
        if c == '"' {
            lemma_literal_end_bounds(text, pos + 1);
        } else if c == '\'' {
        } else if is_symbol_char(c) {
        } else if is_separator_char(c) {
            if word.len() == 0 {
                lemma_scan_advances(text, pos + 1, word);
            }
        } else {
            lemma_scan_advances(text, pos + 1, word.push(c));
        }
    }
}

pub proof fn lemma_literal_end_bounds(text: Seq<char>, from: int)
    requires
        0 <= from <= text.len(),
    ensures
        from <= literal_end(text, from) <= text.len(),
        literal_end(text, from) < text.len() ==> text[literal_end(text, from)] == '"',
        forall|i: int| from <= i < literal_end(text, from) ==> text[i] != '"',
    decreases text.len() - from,
{
    if from < text.len() && text[from] != '"' {
        lemma_literal_end_bounds(text, from + 1);
    }
}

/// The tokens that the scanner gives from `pos` on, up to the end of the
/// text.
pub open spec fn tokens_from(text: Seq<char>, pos: int, word: Seq<char>) -> Seq<TokenView>
    decreases text.len() - pos,
{
    let step = scan(text, pos, word);
    if pos < 0 || step.token is Eof {
        Seq::empty()
    } else {
        proof {
            lemma_scan_advances(text, pos, word);
        }
        seq![step.token] + step.pushed + tokens_from(text, step.pos, step.word)
    }
}

/// A step of the scanner gives `Eof` as its token only; what it keeps for
/// the next steps is a symbol.
pub proof fn lemma_scan_keeps_no_eof(text: Seq<char>, pos: int, word: Seq<char>)
    ensures
        forall|i: int|
            0 <= i < scan(text, pos, word).pushed.len() ==> !(#[trigger] scan(
                text,
                pos,
                word,
            ).pushed[i] is Eof),
    decreases text.len() - pos,
{
    if 0 <= pos < text.len() {
        let c = text[pos];
        if c == '"' {
        } else if c == '\'' {
        } else if is_symbol_char(c) {
        } else if is_separator_char(c) {
            if word.len() == 0 {
                lemma_scan_keeps_no_eof(text, pos + 1, word);
            }
        } else {
            lemma_scan_keeps_no_eof(text, pos + 1, word.push(c));
        }
    }
}

/// The tokens that the scanner gives for a text hold no `Eof`: the scanner
/// gives `Eof` when the text has ended and not before.
pub proof fn lemma_tokens_hold_no_eof(text: Seq<char>, pos: int, word: Seq<char>)
    ensures
        forall|i: int|
            0 <= i < tokens_from(text, pos, word).len() ==> !(#[trigger] tokens_from(
                text,
                pos,
                word,
            )[i] is Eof),
    decreases text.len() - pos,
{
    let step = scan(text, pos, word);
    if pos >= 0 && !(step.token is Eof) {
        lemma_scan_advances(text, pos, word);
        lemma_scan_keeps_no_eof(text, pos, word);
        lemma_tokens_hold_no_eof(text, step.pos, step.word);
        let all = tokens_from(text, pos, word);
        let later = tokens_from(text, step.pos, step.word);
        assert forall|i: int| 0 <= i < all.len() implies !(#[trigger] all[i] is Eof) by {
            if i == 0 {
            } else if i < 1 + step.pushed.len() {
                assert(all[i] == step.pushed[i - 1]);
            } else {
                assert(all[i] == later[i - 1 - step.pushed.len()]);
            }
        }
    }
}

/// The tokens of a whole text.
pub open spec fn tokenize(text: Seq<char>) -> Seq<TokenView> {
    tokens_from(text, 0, Seq::empty())
}

/// The text that the scanner reads for the lines of a file: each line
/// trimmed, the empty ones left out, a space behind each.
pub open spec fn joined_lines(lines: Seq<Seq<char>>) -> Seq<char>
    decreases lines.len(),
{
    if lines.len() == 0 {
        Seq::empty()
    } else {
        let line = trimmed(lines.last());
        if line.len() > 0 {
            joined_lines(lines.drop_last()) + line + seq![' ']
        } else {
            joined_lines(lines.drop_last())
        }
    }
}

/// The texts of a sequence of strings.
pub open spec fn line_views(lines: Seq<String>) -> Seq<Seq<char>> {
    Seq::new(lines.len(), |i: int| lines[i]@)
}

/// The values of a sequence of tokens.
pub open spec fn token_views(tokens: Seq<Token>) -> Seq<TokenView> {
    Seq::new(tokens.len(), |i: int| tokens[i]@)
}

/// `str::trim`: the text without the white space at its start and at its
/// end, where white space is what has the Unicode property White_Space.
#[verifier::external_body]
fn trim_text(text: &str) -> (res: &str)
    ensures
        res@ == trimmed(text@),
{
    text.trim()
}

/// `str::parse::<u64>`: the text is a number if it is an optional `+` and
/// then decimal digits only, at least one, that write a number below 2^64.
#[verifier::external_body]
fn parse_decimal(text: &str) -> (res: Option<u64>)
    ensures
        res == decimal_u64(text@),
{
    text.parse::<u64>().ok()
}

/// `String::push`: the character is appended.
#[verifier::external_body]
pub(crate) fn push_char(text: &mut String, c: char)
    ensures
        final(text)@ == old(text)@.push(c),
{
    text.push(c);
}

/// Whether a string spells a given text.
pub(crate) fn spells(text: &String, word: &str) -> (res: bool)
    ensures
        res == (text@ == word@),
{
    let other = String::from_str(word);
    *text == other
}

/// The scanner: a text, a place in it, and the tokens that were pushed back.
pub struct Scanner {
    pub file_name: String,
    contents: String,
    pos: usize,
    buffer: String,
    stack: Vec<Token>,
}

impl Scanner {
    /// The name of the file that the text is from.
    pub closed spec fn name(&self) -> Seq<char> {
        self.file_name@
    }

    /// The text that the scanner reads.
    pub closed spec fn source(&self) -> Seq<char> {
        self.contents@
    }

    /// How many characters of the text were read.
    pub closed spec fn position(&self) -> int {
        self.pos as int
    }

    /// The characters of a word that has not ended yet.
    pub closed spec fn word(&self) -> Seq<char> {
        self.buffer@
    }

    /// The tokens that were pushed back, the one pushed last coming first.
    pub closed spec fn pushed_back(&self) -> Seq<TokenView> {
        Seq::new(self.stack@.len(), |i: int| self.stack@[self.stack@.len() - 1 - i]@)
    }

    /// The tokens that the scanner will give, in order. Behind them it gives
    /// `Eof` for ever.
    pub open spec fn tokens(&self) -> Seq<TokenView> {
        self.pushed_back() + tokens_from(self.source(), self.position(), self.word())
    }

    /// The name of the file that the text is from.
    pub fn get_file_name(&self) -> (name: String)
        ensures
            name@ == self.name(),
    {
        self.file_name.clone()
    }

    /// What `debug` writes: the name of the file and the text.
    pub open spec fn debug_text(&self) -> Seq<char> {
        "FILE: "@ + self.name() + "\n"@ + "Contents: \n"@ + self.source() + "\n"@ + "\n"@
    }

    /// The name of the file and the text that the scanner reads, for a
    /// reader who wants to see them.
    pub fn debug(&self) -> (text: String)
        ensures
            text@ == self.debug_text(),
    {
        let mut out = String::new();
        out.append("FILE: ");
        out.append(self.file_name.as_str());
        out.append("\n");
        out.append("Contents: \n");
        let ghost head = "FILE: "@ + self.name() + "\n"@ + "Contents: \n"@;
        assert(out@ =~= head);
        out.append(self.contents.as_str());
        out.append("\n");
        out.append("\n");
        assert(out@ =~= self.debug_text());
        out
    }

    /// Takes in the lines of a file: each is trimmed and, unless that leaves
    /// nothing, appended to the text with a space behind it.
    pub fn init(&mut self, lines: &Vec<String>)
        ensures
            final(self).source() == old(self).source() + joined_lines(line_views(lines@)),
            final(self).position() == old(self).position(),
            final(self).word() == old(self).word(),
            final(self).pushed_back() == old(self).pushed_back(),
            final(self).name() == old(self).name(),
    {
        let mut i: usize = 0;
        assert(line_views(lines@).take(0) =~= Seq::empty());
        while i < lines.len()
            invariant
                i <= lines.len(),
                self.contents@ == old(self).contents@ + joined_lines(
                    line_views(lines@).take(i as int),
                ),
                self.pos == old(self).pos,
                self.buffer == old(self).buffer,
                self.stack == old(self).stack,
                self.file_name == old(self).file_name,
            decreases lines.len() - i,
        {
            let line = trim_text(lines[i].as_str());
            let n = line.unicode_len();
            let ghost before = self.contents@;
            proof {
                let upto = line_views(lines@).take(i + 1);
                assert(upto.drop_last() =~= line_views(lines@).take(i as int));
                assert(upto.last() == lines@[i as int]@);
            }
            if n > 0 {
                self.contents.append(line);
                self.contents.append(" ");
                proof {
                    reveal_strlit(" ");
                    assert(" "@ =~= seq![' ']);
                }
                assert(self.contents@ =~= before + line@ + seq![' ']);
            }
            i += 1;
        }
        assert(line_views(lines@).take(lines@.len() as int) =~= line_views(lines@));
    }

    /// Puts a token back: it is the next one that `get_next` gives.
    pub fn unget(&mut self, token: Token)
        ensures
            final(self).tokens() == seq![token@] + old(self).tokens(),
            final(self).pushed_back() == seq![token@] + old(self).pushed_back(),
            final(self).source() == old(self).source(),
            final(self).position() == old(self).position(),
            final(self).word() == old(self).word(),
            final(self).name() == old(self).name(),
    {
        self.stack.push(token);
        assert(self.pushed_back() =~= seq![token@] + old(self).pushed_back());
        assert(self.tokens() =~= seq![token@] + old(self).tokens());
    }

    /// Gives the next token: one that was pushed back, if there is any, else
    /// the next one of the text, and `Eof` once the text has ended.
    #[verifier::loop_isolation(false)]
    pub fn get_next(&mut self) -> (token: Token)
        ensures
            token@ == first_token(old(self).tokens()),
            final(self).tokens() == rest_tokens(old(self).tokens()),
            final(self).source() == old(self).source(),
            final(self).name() == old(self).name(),
            old(self).pushed_back().len() > 0 ==> {
                &&& final(self).pushed_back() == old(self).pushed_back().drop_first()
                &&& final(self).position() == old(self).position()
                &&& final(self).word() == old(self).word()
            },
            old(self).pushed_back().len() == 0 ==> {
                let step = scan(old(self).source(), old(self).position(), old(self).word());
                &&& final(self).pushed_back() == step.pushed
                &&& final(self).position() == step.pos
                &&& final(self).word() == step.word
            },
    {
        if self.stack.len() > 0 {
            let ghost before = self.pushed_back();
            let token = self.stack.pop().unwrap();
            proof {
                assert(before[0] == token@);
                assert(self.pushed_back() =~= before.drop_first());
                assert(self.tokens() =~= old(self).tokens().drop_first());
            }
            return token;
        }
        assert(self.pushed_back() =~= Seq::empty());
        assert(old(self).tokens() =~= tokens_from(self.source(), self.position(), self.word()));
        let ghost first = scan(self.contents@, self.pos as int, self.buffer@);
        loop
            invariant
                self.stack@.len() == 0,
                self.contents == old(self).contents,
                self.file_name == old(self).file_name,
                scan(self.contents@, self.pos as int, self.buffer@) == first,
                first == scan(old(self).contents@, old(self).pos as int, old(self).buffer@),
            decreases self.contents@.len() - self.pos,
        {
            if self.pos >= self.text_len() {
                proof {
                    assert(first.token is Eof);
                    assert(self.pushed_back() =~= Seq::empty());
                    assert(self.tokens() =~= Seq::empty());
                }
                return Token::Eof;
            }
            let c = self.get_char();
            if c == '"' {
                let token = self.get_string();
                proof {
                    self.lemma_tokens_after(old(self), first);
                }
                return token;
            }
            if c == '\'' {
                if self.pos >= self.text_len() {
                    proof {
                        assert(self.pushed_back() =~= Seq::empty());
                        lemma_scan_advances(self.contents@, self.pos as int, self.buffer@);
                        assert(self.tokens() =~= Seq::empty());
                    }
                    return Token::Eof;
                }
                let c2 = self.get_char();
                if self.pos < self.text_len() {
                    self.pos += 1;
                }
                proof {
                    self.lemma_tokens_after(old(self), first);
                }
                return Token::CharL(c2);
            }
            let separator = self.is_separator(c);
            let symbol = self.is_symbol(c);
            if separator || symbol {
                let has_word = self.buffer.as_str().unicode_len() > 0;
                if symbol {
                    let token1 = self.get_symbol(c);
                    if !has_word {
                        proof {
                            self.lemma_tokens_after(old(self), first);
                        }
                        return token1;
                    }
                    self.stack.push(token1);
                }
                if !has_word {
                    continue ;
                }
                let mut token = self.get_keyword();
                if !matches!(token, Token::Unknown) {
                    self.buffer = String::new();
                    proof {
                        self.lemma_tokens_after(old(self), first);
                    }
                    return token;
                }
                if self.is_integer() {
                    token = Token::IntL(self.get_integer());
                    self.buffer = String::new();
                    proof {
                        self.lemma_tokens_after(old(self), first);
                    }
                    return token;
                }
                token = Token::Id(self.buffer.clone());
                self.buffer = String::new();
                proof {
                    self.lemma_tokens_after(old(self), first);
                }
                return token;
            } else {
                push_char(&mut self.buffer, c);
            }
        }
    }

    /// After a step that gave a token, the scanner's tokens are those of the
    /// scanner before, without the first.
    proof fn lemma_tokens_after(&self, before: &Scanner, step: Scan)
        requires
            before.stack@.len() == 0,
            step == scan(before.contents@, before.pos as int, before.buffer@),
            !(step.token is Eof),
            self.contents@ == before.contents@,
            self.pos as int == step.pos,
            self.buffer@ == step.word,
            token_views(self.stack@) =~= step.pushed,
            step.pushed.len() <= 1,
        ensures
            step.token == first_token(before.tokens()),
            self.tokens() == rest_tokens(before.tokens()),
    {
        assert(before.pushed_back() =~= Seq::empty());
        assert(self.pushed_back() =~= step.pushed);
        lemma_scan_advances(before.contents@, before.pos as int, before.buffer@);
        let all = before.tokens();
        let tail = tokens_from(self.contents@, step.pos, step.word);
        assert(all =~= seq![step.token] + step.pushed + tail);
        assert(all.drop_first() =~= step.pushed + tail);
    }

    /// The number of characters of the text.
    fn text_len(&self) -> (count: usize)
        ensures
            count == self.contents@.len(),
    {
        self.contents.as_str().unicode_len()
    }

    /// The character of the text at a place.
    fn char_at(&self, at: usize) -> (c: char)
        requires
            at < self.contents@.len(),
        ensures
            c == self.contents@[at as int],
    {
        self.contents.as_str().get_char(at)
    }

    /// Reads the character at the scanner's place and moves past it.
    fn get_char(&mut self) -> (c: char)
        requires
            old(self).pos < old(self).contents@.len() <= usize::MAX,
        ensures
            c == old(self).contents@[old(self).pos as int],
            final(self).pos == old(self).pos + 1,
            final(self).contents == old(self).contents,
            final(self).buffer == old(self).buffer,
            final(self).stack == old(self).stack,
            final(self).file_name == old(self).file_name,
    {
        let c = self.char_at(self.pos);
        self.pos += 1;
        c
    }

    /// Reads a string literal whose opening quote was just read.
    fn get_string(&mut self) -> (token: Token)
        requires
            old(self).pos <= old(self).contents@.len(),
        ensures
            token@ == TokenView::StringL(
                old(self).contents@.subrange(
                    old(self).pos as int,
                    literal_end(old(self).contents@, old(self).pos as int),
                ),
            ),
            final(self).pos == (if literal_end(old(self).contents@, old(self).pos as int) < old(
                self,
            ).contents@.len() {
                literal_end(old(self).contents@, old(self).pos as int) + 1
            } else {
                literal_end(old(self).contents@, old(self).pos as int)
            }),
            final(self).contents == old(self).contents,
            final(self).buffer == old(self).buffer,
            final(self).stack == old(self).stack,
            final(self).file_name == old(self).file_name,
    {
        let mut val = String::new();
        let ghost start = self.pos as int;
        let ghost text = self.contents@;
        proof {
            lemma_literal_end_bounds(text, start);
        }
        while self.pos < self.text_len() && self.char_at(self.pos) != '"'
            invariant
                0 <= start <= self.pos <= self.contents@.len(),
                self.contents == old(self).contents,
                self.buffer == old(self).buffer,
                self.stack == old(self).stack,
                self.file_name == old(self).file_name,
                text == self.contents@,
                val@ == text.subrange(start, self.pos as int),
                literal_end(text, self.pos as int) == literal_end(text, start),
            decreases self.contents@.len() - self.pos,
        {
            push_char(&mut val, self.char_at(self.pos));
            assert(val@ =~= text.subrange(start, self.pos + 1));
            self.pos += 1;
        }
        if self.pos < self.text_len() {
            self.pos += 1;
        }
        Token::StringL(val)
    }

    fn is_separator(&self, c: char) -> (res: bool)
        ensures
            res == is_separator_char(c),
    {
        c == ' ' || c == '\n'
    }

    fn is_symbol(&self, c: char) -> (res: bool)
        ensures
            res == is_symbol_char(c),
    {
        c == '(' || c == ')' || c == '[' || c == ']' || c == ';' || c == ':' || c == ',' || c
            == '.' || c == '+' || c == '-' || c == '*' || c == '/' || c == '%' || c == '&' || c
            == '|' || c == '^' || c == '=' || c == '!' || c == '>' || c == '<'
    }

    /// Whether the word collected so far writes a number.
    fn is_integer(&self) -> (res: bool)
        ensures
            res == (word_number(self.buffer@) is Some),
    {
        parse_decimal(trim_text(self.buffer.as_str())).is_some()
    }

    /// Whether the character at the scanner's place is `second`; if so, the
    /// scanner moves past it.
    fn take_if(&mut self, second: char) -> (res: bool)
        ensures
            res == (old(self).pos < old(self).contents@.len() && old(self).contents@[old(
                self,
            ).pos as int] == second),
            final(self).pos == (if res {
                old(self).pos + 1
            } else {
                old(self).pos as int
            }),
            final(self).contents == old(self).contents,
            final(self).buffer == old(self).buffer,
            final(self).stack == old(self).stack,
            final(self).file_name == old(self).file_name,
    {
        if self.pos < self.text_len() && self.char_at(self.pos) == second {
            self.pos += 1;
            true
        } else {
            false
        }
    }

    /// The symbol token that starts with `c`, which was just read.
    fn get_symbol(&mut self, c: char) -> (token: Token)
        ensures
            token@ == symbol_token(c, old(self).peeked()).0,
            final(self).pos == (if symbol_token(c, old(self).peeked()).1 {
                old(self).pos + 1
            } else {
                old(self).pos as int
            }),
            final(self).contents == old(self).contents,
            final(self).buffer == old(self).buffer,
            final(self).stack == old(self).stack,
            final(self).file_name == old(self).file_name,
    {
        if c == '(' {
            Token::LParen
        } else if c == ')' {
            Token::RParen
        } else if c == '[' {
            Token::LBracket
        } else if c == ']' {
            Token::RBracket
        } else if c == ';' {
            Token::SemiColon
        } else if c == ',' {
            Token::Comma
        } else if c == '.' {
            Token::Dot
        } else if c == '+' {
            Token::Add
        } else if c == '*' {
            Token::Mul
        } else if c == '/' {
            Token::Div
        } else if c == '%' {
            Token::Mod
        } else if c == '^' {
            Token::Xor
        } else if c == '=' {
            Token::Eq
        } else if c == '-' {
            if self.take_if('>') {
                Token::Arrow
            } else {
                Token::Sub
            }
        } else if c == ':' {
            if self.take_if('=') {
                Token::Assign
            } else {
                Token::Colon
            }
        } else if c == '!' {
            if self.take_if('=') {
                Token::Ne
            } else {
                Token::Unknown
            }
        } else if c == '>' {
            if self.take_if('=') {
                Token::Ge
            } else {
                Token::Gt
            }
        } else if c == '<' {
            if self.take_if('=') {
                Token::Le
            } else {
                Token::Lt
            }
        } else if c == '&' {
            if self.take_if('&') {
                Token::LGAnd
            } else {
                Token::And
            }
        } else if c == '|' {
            if self.take_if('|') {
                Token::LGOr
            } else {
                Token::Or
            }
        } else {
            Token::Unknown
        }
    }

    /// The character at the scanner's place, if the text has not ended.
    pub closed spec fn peeked(&self) -> Option<char> {
        if self.pos < self.contents@.len() {
            Some(self.contents@[self.pos as int])
        } else {
            None
        }
    }

    /// The keyword that the word collected so far spells.
    fn get_keyword(&self) -> (token: Token)
        ensures
            token@ == keyword_token(self.buffer@),
    {
        if spells(&self.buffer, "func") {
            Token::Func
        } else if spells(&self.buffer, "is") {
            Token::Is
        } else if spells(&self.buffer, "end") {
            Token::End
        } else if spells(&self.buffer, "return") {
            Token::Return
        } else if spells(&self.buffer, "var") {
            Token::Var
        } else if spells(&self.buffer, "const") {
            Token::Const
        } else if spells(&self.buffer, "while") {
            Token::While
        } else if spells(&self.buffer, "do") {
            Token::Do
        } else if spells(&self.buffer, "if") {
            Token::If
        } else if spells(&self.buffer, "elif") {
            Token::Elif
        } else if spells(&self.buffer, "else") {
            Token::Else
        } else if spells(&self.buffer, "then") {
            Token::Then
        } else if spells(&self.buffer, "break") {
            Token::Break
        } else if spells(&self.buffer, "continue") {
            Token::Continue
        } else if spells(&self.buffer, "struct") {
            Token::Struct
        } else if spells(&self.buffer, "i8") {
            Token::I8
        } else if spells(&self.buffer, "u8") {
            Token::U8
        } else if spells(&self.buffer, "i16") {
            Token::I16
        } else if spells(&self.buffer, "u16") {
            Token::U16
        } else if spells(&self.buffer, "i32") {
            Token::I32
        } else if spells(&self.buffer, "u32") {
            Token::U32
        } else if spells(&self.buffer, "i64") {
            Token::I64
        } else if spells(&self.buffer, "u64") {
            Token::U64
        } else if spells(&self.buffer, "string") {
            Token::String
        } else if spells(&self.buffer, "char") {
            Token::Char
        } else if spells(&self.buffer, "bool") {
            Token::Bool
        } else if spells(&self.buffer, "true") {
            Token::True
        } else if spells(&self.buffer, "false") {
            Token::False
        } else {
            Token::Unknown
        }
    }

    /// The number that the word collected so far writes, or 0 where it
    /// writes none.
    fn get_integer(&self) -> (value: u64)
        ensures
            value == (match word_number(self.buffer@) {
                Some(number) => number,
                None => 0,
            }),
    {
        match parse_decimal(trim_text(self.buffer.as_str())) {
            Some(number) => number,
            None => 0,
        }
    }
}

/// A scanner with no text yet.
pub fn lex_new(file_name: String) -> (scanner: Scanner)
    ensures
        scanner.name() == file_name@,
        scanner.source() == Seq::<char>::empty(),
        scanner.position() == 0,
        scanner.word() == Seq::<char>::empty(),
        scanner.pushed_back() == Seq::<TokenView>::empty(),
{
    let scanner = Scanner {
        file_name,
        contents: String::new(),
        pos: 0,
        buffer: String::new(),
        stack: Vec::new(),
    };
    assert(scanner.pushed_back() =~= Seq::empty());
    scanner
}

} // verus!
