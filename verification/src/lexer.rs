//! The tokenizer: a single pass over the characters of a source that hands
//! out one token at a time, each with the span it was read from.
//!
//! `lex` defines, for a text and a character position, the next token and
//! where it lies; `Lexer::next_token` computes exactly that.

use crate::chars::{
    is_blank, is_digit, is_ident_continue, is_ident_start, lemma_bytes_between, lemma_utf8_len_is_encoding,
    lemma_utf8_len_prefix, utf8_len, utf8_width,
};
use vstd::utf8::encode_utf8;
use crate::span::{Span, Spanned};
use crate::tokens::{get_keyword, keyword_or_ident, Token, TokenKind};
use vstd::prelude::*;
use vstd::std_specs::iter::IteratorSpec;

verus! {

/// The kinds of character run that the tokenizer scans to its end.
#[derive(Debug, Clone, Copy)]
pub enum Run {
    /// Decimal digits: the rest of an integer literal.
    Digits,
    /// Identifier characters: the rest of an identifier or keyword.
    Word,
    /// Anything but a double quote: the content of a string literal.
    Quoted,
    /// Anything but a line feed: the rest of a comment.
    Comment,
}

/// Whether `c` belongs to a run of the given kind.
pub open spec fn in_run(run: Run, c: char) -> bool {
    match run {
        Run::Digits => is_digit(c),
        Run::Word => is_ident_continue(c),
        Run::Quoted => c != '"',
        Run::Comment => c != '\n',
    }
}

/// The position at which the longest run of the given kind that starts at
/// `i` ends.
pub open spec fn run_end(src: Seq<char>, run: Run, i: int) -> int
    decreases src.len() - i,
{
    if 0 <= i < src.len() && in_run(run, src[i]) {
        run_end(src, run, i + 1)
    } else {
        i
    }
}

/// A run ends at or after its start, holds only characters of its kind, and
/// stops at the end of the text or before a character of another kind.
pub proof fn lemma_run_end(src: Seq<char>, run: Run, i: int)
    requires
        0 <= i <= src.len(),
    ensures
        i <= run_end(src, run, i) <= src.len(),
        forall|k: int| i <= k < run_end(src, run, i) ==> in_run(run, #[trigger] src[k]),
        run_end(src, run, i) < src.len() ==> !in_run(run, src[run_end(src, run, i)]),
    decreases src.len() - i,
{
    if i < src.len() && in_run(run, src[i]) {
        lemma_run_end(src, run, i + 1);
    }
}

/// The byte offset of the character position `i` in `src`.
pub open spec fn offset(src: Seq<char>, i: int) -> nat {
    utf8_len(src.take(i))
}

/// Whether `src` holds `c` at position `i`.
pub open spec fn has_char(src: Seq<char>, i: int, c: char) -> bool {
    0 <= i < src.len() && src[i] == c
}

/// The punctuation or operator token that starts at `i`, with the number
/// of characters it takes, if there is one.
pub open spec fn punct_at(src: Seq<char>, i: int) -> Option<(Token, int)>
    recommends
        0 <= i < src.len(),
{
    let c = src[i];
    if c == '(' {
        Some((Token::OpenParen, 1))
    } else if c == ')' {
        Some((Token::CloseParen, 1))
    } else if c == '[' {
        Some((Token::OpenBracket, 1))
    } else if c == ']' {
        Some((Token::CloseBracket, 1))
    } else if c == ',' {
        Some((Token::Comma, 1))
    } else if c == ':' {
        Some((Token::Colon, 1))
    } else if c == '=' {
        if has_char(src, i + 1, '=') {
            Some((Token::EqualEqual, 2))
        } else {
            Some((Token::Equal, 1))
        }
    } else if c == '!' {
        if has_char(src, i + 1, '=') {
            Some((Token::BangEqual, 2))
        } else {
            Some((Token::Bang, 1))
        }
    } else if c == '>' {
        if has_char(src, i + 1, '=') {
            Some((Token::GreaterEqual, 2))
        } else {
            Some((Token::Greater, 1))
        }
    } else if c == '<' {
        if has_char(src, i + 1, '=') {
            Some((Token::LessEqual, 2))
        } else {
            Some((Token::Less, 1))
        }
    } else if c == '+' {
        Some((Token::Plus, 1))
    } else if c == '*' {
        Some((Token::Star, 1))
    } else if c == '/' {
        Some((Token::Slash, 1))
    } else if c == '-' {
        if has_char(src, i + 1, '>') {
            Some((Token::Arrow, 2))
        } else {
            Some((Token::Minus, 1))
        }
    } else {
        None
    }
}

/// The message of the error token for a string literal that the input ends
/// in.
pub open spec fn unterminated_message() -> Seq<char> {
    "Unterminated string literal. Expected closing quote, instead found EoF (End of File)"@
}

/// The message of the error token for a character that starts no token.
pub open spec fn unknown_message(c: char) -> Seq<char> {
    "Unknown character "@.push(c)
}

/// What the tokenizer finds from a position on: the token, the character
/// positions `start` and `end` that its span runs between, and the position
/// `next` at which the tokenizer goes on.
pub struct Lexed {
    pub token: Token,
    pub start: int,
    pub end: int,
    pub next: int,
}

impl Lexed {
    /// The span of the token, in byte offsets into `src`.
    pub open spec fn span(self, src: Seq<char>) -> Span {
        Span { start: offset(src, self.start) as usize, end: offset(src, self.end) as usize }
    }
}

/// The token that starts at `i`, where `src[i]` is neither blank nor the
/// start of a comment. The content of a string literal is taken as it is
/// written, up to the next double quote: no escape is interpreted.
pub open spec fn token_at(src: Seq<char>, i: int) -> Lexed
    recommends
        0 <= i < src.len(),
{
    let c = src[i];
    match punct_at(src, i) {
        Some((token, n)) => Lexed { token, start: i, end: i + n, next: i + n },
        None => if c == '"' {
            let e = run_end(src, Run::Quoted, i + 1);
            if e >= src.len() {
                Lexed { token: Token::Error(unterminated_message()), start: i + 1, end: e, next: e }
            } else {
                Lexed {
                    token: Token::String(src.subrange(i + 1, e)),
                    start: i + 1,
                    end: e,
                    next: e + 1,
                }
            }
        } else if is_digit(c) {
            let e = run_end(src, Run::Digits, i + 1);
            Lexed { token: Token::Integer(src.subrange(i, e)), start: i, end: e, next: e }
        } else if is_ident_start(c) {
            let e = run_end(src, Run::Word, i + 1);
            Lexed { token: keyword_or_ident(src.subrange(i, e)), start: i, end: e, next: e }
        } else {
            Lexed { token: Token::Error(unknown_message(c)), start: i, end: i + 1, next: i + 1 }
        },
    }
}

/// Whether a token starts at `i`: the character there is not skipped.
pub open spec fn starts_token(src: Seq<char>, i: int) -> bool
    recommends
        0 <= i < src.len(),
{
    let c = src[i];
    punct_at(src, i) is Some || c == '"' || is_digit(c) || is_ident_start(c) || !(c == '#'
        || is_blank(c))
}

/// The next token of `src` from the character position `i` on. Blank
/// characters are skipped, and so is a comment, which runs from `#` to the
/// end of its line. Past the last token the result is the end of input,
/// with an empty span at the end of the text.
pub open spec fn lex(src: Seq<char>, i: int) -> Lexed
    decreases src.len() - i,
{
    if !(0 <= i < src.len()) {
        Lexed { token: Token::EoF, start: src.len() as int, end: src.len() as int, next: src.len() as int }
    } else if starts_token(src, i) {
        token_at(src, i)
    } else if src[i] == '#' {
        proof {
            lemma_run_end(src, Run::Comment, i + 1);
        }
        lex(src, run_end(src, Run::Comment, i + 1))
    } else {
        lex(src, i + 1)
    }
}

/// The number of the line that follows the text `s`, counted from 1.
pub open spec fn line_of(s: Seq<char>) -> nat
    decreases s.len(),
{
    if s.len() == 0 {
        1
    } else if s.last() == '\n' {
        line_of(s.drop_last()) + 1
    } else {
        line_of(s.drop_last())
    }
}

/// The number of characters of `s` that follow its last line feed.
pub open spec fn column_of(s: Seq<char>) -> nat
    decreases s.len(),
{
    if s.len() == 0 || s.last() == '\n' {
        0
    } else {
        column_of(s.drop_last()) + 1
    }
}

/// A count as a counter of 32 bits holds it: it stays at the largest value.
pub open spec fn clip(n: nat) -> u32 {
    if n >= u32::MAX {
        u32::MAX
    } else {
        n as u32
    }
}

/// What `lex` finds lies in order at or after the position it was asked
/// from, within the text. A token other than the end of input takes at
/// least one character; the end of input lies at the end of the text.
pub proof fn lemma_lex_bounds(src: Seq<char>, i: int)
    requires
        0 <= i <= src.len(),
    ensures
        i <= lex(src, i).start <= lex(src, i).end <= lex(src, i).next <= src.len(),
        lex(src, i).token is EoF ==> lex(src, i).start == src.len(),
        !(lex(src, i).token is EoF) ==> i < lex(src, i).next,
    decreases src.len() - i,
{
    if i < src.len() {
        if starts_token(src, i) {
            lemma_run_end(src, Run::Quoted, i + 1);
            lemma_run_end(src, Run::Digits, i + 1);
            lemma_run_end(src, Run::Word, i + 1);
        } else if src[i] == '#' {
            lemma_run_end(src, Run::Comment, i + 1);
            lemma_lex_bounds(src, run_end(src, Run::Comment, i + 1));
        } else {
            lemma_lex_bounds(src, i + 1);
        }
    }
}

/// The text that a span reconstructs. For every token but an error, the
/// characters between `start` and `end` are the token's lexeme: the fixed
/// text of punctuation, operators and keywords, the name of an identifier,
/// the digits of an integer, the content of a string without its quotes,
/// and nothing for the end of input. The error for an unknown character
/// spans that character; the error for an unterminated string spans what
/// follows the opening quote, to the end of the text.
pub proof fn lemma_span_exact(src: Seq<char>, i: int)
    requires
        0 <= i <= src.len(),
    ensures
        ({
            let l = lex(src, i);
            let text = src.subrange(l.start, l.end);
            match l.token {
                Token::Error(m) => {
                    ||| (l.end == l.start + 1 && m == unknown_message(src[l.start]))
                    ||| (l.end == src.len() && l.start >= 1 && src[l.start - 1] == '"' && m
                        == unterminated_message() && forall|k: int|
                        l.start <= k < l.end ==> #[trigger] src[k] != '"')
                },
                Token::String(s) => text == s && l.next == l.end + 1 && src[l.end] == '"' && l.start
                    >= 1 && src[l.start - 1] == '"',
                t => text == t.lexeme() && l.next == l.end,
            }
        }),
    decreases src.len() - i,
{
    lemma_lex_bounds(src, i);
    if i < src.len() {
        if starts_token(src, i) {
            lemma_run_end(src, Run::Quoted, i + 1);
            lemma_run_end(src, Run::Digits, i + 1);
            lemma_run_end(src, Run::Word, i + 1);
            let l = token_at(src, i);
            let text = src.subrange(l.start, l.end);
            reveal_strlit("(");
            reveal_strlit(")");
            reveal_strlit("[");
            reveal_strlit("]");
            reveal_strlit(",");
            reveal_strlit(":");
            reveal_strlit("->");
            reveal_strlit("=");
            reveal_strlit("==");
            reveal_strlit("!");
            reveal_strlit("!=");
            reveal_strlit(">");
            reveal_strlit(">=");
            reveal_strlit("<");
            reveal_strlit("<=");
            reveal_strlit("+");
            reveal_strlit("-");
            reveal_strlit("*");
            reveal_strlit("/");
            if punct_at(src, i) is Some {
                assert(text =~= l.token.lexeme());
            }
        } else if src[i] == '#' {
            lemma_run_end(src, Run::Comment, i + 1);
            lemma_span_exact(src, run_end(src, Run::Comment, i + 1));
        } else {
            lemma_span_exact(src, i + 1);
        }
    } else {
        assert(src.subrange(src.len() as int, src.len() as int) =~= Seq::<char>::empty());
    }
}

/// The same in bytes, as a slice of the source gives them: the bytes of
/// the source between the start and the end of a token's span are the
/// UTF-8 encoding of the token's lexeme, for every token but an error. For
/// a string literal these are the bytes between its quotes.
pub proof fn lemma_span_reconstructs(src: Seq<char>, i: int)
    requires
        0 <= i <= src.len(),
        utf8_len(src) <= usize::MAX,
        !(lex(src, i).token is Error),
    ensures
        lex(src, i).span(src).wf(),
        lex(src, i).span(src).end <= encode_utf8(src).len(),
        encode_utf8(src).subrange(
            lex(src, i).span(src).start as int,
            lex(src, i).span(src).end as int,
        ) == encode_utf8(lex(src, i).token.lexeme()),
{
    let l = lex(src, i);
    lemma_lex_bounds(src, i);
    lemma_span_exact(src, i);
    lemma_bytes_between(src, l.start, l.end);
    lemma_utf8_len_is_encoding(src);
}

/// At the end of input the tokenizer stays: from the position that follows
/// an end-of-input token, `lex` finds the same end of input again, with an
/// empty span at the end of the text.
pub proof fn lemma_end_is_stable(src: Seq<char>, i: int)
    requires
        0 <= i <= src.len(),
        lex(src, i).token is EoF,
    ensures
        lex(src, lex(src, i).next) == lex(src, i),
        lex(src, i).start == src.len(),
        lex(src, i).end == src.len(),
        lex(src, i).next == src.len(),
{
    lemma_lex_bounds(src, i);
}

/// Generates a stream of tokens from a source text, on demand, leaving out
/// blanks and comments.
pub struct Lexer {
    source: Vec<char>,
    index: usize,
    position: usize,
    line: u32,
    column: u32,
}

/// `String::push` of std: appends one character to the string.
#[verifier::external_body]
fn push_char(s: &mut String, c: char)
    ensures
        final(s)@ == old(s)@.push(c),
{
    s.push(c)
}

/// The characters of `text`, in order.
pub fn characters(text: &str) -> (chars: Vec<char>)
    ensures
        chars@ == text@,
{
    let mut chars: Vec<char> = Vec::new();
    let mut it = text.chars();
    loop
        invariant
            it.obeys_prophetic_iter_laws(),
            chars@ + it.remaining() == text@,
        ensures
            chars@ == text@,
        decreases text@.len() - chars@.len(),
    {
        match it.next() {
            Some(c) => {
                chars.push(c);
                proof {
                    assert(chars@ + it.remaining() =~= text@);
                }
            },
            None => {
                proof {
                    assert(chars@ =~= text@);
                }
                break ;
            },
        }
    }
    chars
}

/// Whether `c` belongs to a run of the given kind.
fn accepts(run: Run, c: char) -> (b: bool)
    ensures
        b == in_run(run, c),
{
    match run {
        Run::Digits => crate::chars::digit(c),
        Run::Word => crate::chars::ident_continue(c),
        Run::Quoted => c != '"',
        Run::Comment => c != '\n',
    }
}

impl Lexer {
    /// The text that the lexer reads.
    pub closed spec fn text(&self) -> Seq<char> {
        self.source@
    }

    /// The character position up to which the text has been read.
    pub closed spec fn cursor(&self) -> int {
        self.index as int
    }

    /// The invariant of a lexer: its position lies within the text, and its
    /// byte offset, line and column are those of that position.
    pub closed spec fn wf(&self) -> bool {
        &&& self.index <= self.source.len()
        &&& utf8_len(self.source@) <= usize::MAX
        &&& self.position == offset(self.source@, self.index as int)
        &&& self.line == clip(line_of(self.source@.take(self.index as int)))
        &&& self.column == clip(column_of(self.source@.take(self.index as int)))
    }

    /// A well-formed lexer stands within its text, whose byte offsets fit
    /// the machine's words.
    pub proof fn lemma_cursor_in_text(&self)
        requires
            self.wf(),
        ensures
            0 <= self.cursor() <= self.text().len(),
            utf8_len(self.text()) <= usize::MAX,
    {
    }

    /// A lexer at the start of `source`.
    pub fn new(source: &str) -> (lexer: Self)
        ensures
            lexer.wf(),
            lexer.text() == source@,
            lexer.cursor() == 0,
    {
        // The text's length in bytes is a `usize`: every byte offset fits one.
        let bytes = source.as_bytes().len();
        let chars = characters(source);
        proof {
            assert(encode_utf8(source@).len() == bytes);
            lemma_utf8_len_is_encoding(source@);
            assert(chars@.take(0) =~= Seq::<char>::empty());
        }
        Self { source: chars, index: 0, position: 0, line: 1, column: 0 }
    }

    /// The byte offset up to which the text has been read.
    pub fn position(&self) -> (p: usize)
        requires
            self.wf(),
        ensures
            p == offset(self.text(), self.cursor()),
    {
        self.position
    }

    /// The line of the position up to which the text has been read,
    /// counted from 1.
    pub fn line(&self) -> (n: u32)
        requires
            self.wf(),
        ensures
            n == clip(line_of(self.text().take(self.cursor()))),
    {
        self.line
    }

    /// The number of characters read since the last line feed.
    pub fn column(&self) -> (n: u32)
        requires
            self.wf(),
        ensures
            n == clip(column_of(self.text().take(self.cursor()))),
    {
        self.column
    }

    /// The next character, without reading it.
    fn peek(&self) -> (r: Option<char>)
        requires
            self.wf(),
        ensures
            r == if self.cursor() < self.text().len() {
                Some(self.text()[self.cursor()])
            } else {
                None
            },
    {
        if self.index < self.source.len() {
            Some(self.source[self.index])
        } else {
            None
        }
    }

    /// Reads the next character, if there is one.
    fn advance(&mut self) -> (r: Option<char>)
        requires
            old(self).wf(),
        ensures
            final(self).wf(),
            final(self).text() == old(self).text(),
            r == if old(self).cursor() < old(self).text().len() {
                Some(old(self).text()[old(self).cursor()])
            } else {
                None
            },
            final(self).cursor() == if r is Some {
                old(self).cursor() + 1
            } else {
                old(self).cursor()
            },
    {
        if self.index < self.source.len() {
            let c = self.source[self.index];
            let w = crate::chars::width(c);
            proof {
                let src = self.source@;
                let i = self.index as int;
                assert(src.take(i + 1).drop_last() =~= src.take(i));
                assert(src.take(i + 1).last() == c);
                lemma_utf8_len_prefix(src, i + 1, src.len() as int);
                assert(src.take(src.len() as int) =~= src);
            }
            self.index = self.index + 1;
            self.position = self.position + w;
            if c == '\n' {
                if self.line < u32::MAX {
                    self.line = self.line + 1;
                }
                self.column = 0;
            } else if self.column < u32::MAX {
                self.column = self.column + 1;
            }
            Some(c)
        } else {
            None
        }
    }

    /// Reads the next character if it is `expected`.
    fn consume(&mut self, expected: char) -> (r: bool)
        requires
            old(self).wf(),
        ensures
            final(self).wf(),
            final(self).text() == old(self).text(),
            r == has_char(old(self).text(), old(self).cursor(), expected),
            final(self).cursor() == if r {
                old(self).cursor() + 1
            } else {
                old(self).cursor()
            },
    {
        if let Some(c) = self.peek() {
            if c == expected {
                self.advance();
                return true;
            }
        }
        false
    }


    /// The token `kind` with the span of the `len` bytes read last.
    fn create_token(&self, kind: TokenKind, len: usize) -> (r: Spanned<TokenKind>)
        requires
            self.wf(),
            len <= offset(self.text(), self.cursor()),
        ensures
            r.0 == kind,
            r.1.end == offset(self.text(), self.cursor()),
            r.1.start == r.1.end - len,
    {
        (kind, Span { start: self.position - len, end: self.position })
    }

    /// Reads the longest run of the given kind and appends it to `value`.
    fn take_run(&mut self, run: Run, value: &mut String)
        requires
            old(self).wf(),
        ensures
            final(self).wf(),
            final(self).text() == old(self).text(),
            final(self).cursor() == run_end(old(self).text(), run, old(self).cursor()),
            old(self).cursor() <= final(self).cursor() <= old(self).text().len(),
            final(value)@ == old(value)@ + old(self).text().subrange(
                old(self).cursor(),
                final(self).cursor(),
            ),
    {
        let ghost src = self.source@;
        let ghost from = self.index as int;
        let ghost before = value@;
        proof {
            assert(src.subrange(from, from) =~= Seq::<char>::empty());
            assert(before + Seq::<char>::empty() =~= before);
        }
        loop
            invariant
                self.wf(),
                self.source@ == src,
                0 <= from <= self.index <= src.len(),
                run_end(src, run, self.index as int) == run_end(src, run, from),
                value@ == before + src.subrange(from, self.index as int),
            ensures
                self.index as int == run_end(src, run, from),
            decreases src.len() - self.index,
        {
            match self.peek() {
                Some(c) => {
                    if accepts(run, c) {
                        proof {
                            let i = self.index as int;
                            assert(i < src.len());
                            assert(c == src[i]);
                            assert(src.subrange(from, i + 1) =~= src.subrange(from, i).push(c));
                            assert(before + src.subrange(from, i).push(c) =~= (before
                                + src.subrange(from, i)).push(c));
                        }
                        push_char(value, c);
                        self.advance();
                    } else {
                        break ;
                    }
                },
                None => {
                    break ;
                },
            }
        }
    }

    /// Skips the rest of a comment, up to the end of its line.
    fn skip_comment(&mut self)
        requires
            old(self).wf(),
        ensures
            final(self).wf(),
            final(self).text() == old(self).text(),
            final(self).cursor() == run_end(old(self).text(), Run::Comment, old(self).cursor()),
            old(self).cursor() <= final(self).cursor() <= old(self).text().len(),
    {
        let mut scratch = String::new();
        self.take_run(Run::Comment, &mut scratch);
    }

    /// Reads a string literal whose opening quote has been read.
    fn lex_string(&mut self) -> (r: Spanned<TokenKind>)
        requires
            old(self).wf(),
            1 <= old(self).cursor(),
            old(self).text()[old(self).cursor() - 1] == '"',
            punct_at(old(self).text(), old(self).cursor() - 1) is None,
        ensures
            final(self).wf(),
            final(self).text() == old(self).text(),
            Self::yields(old(self).text(), token_at(old(self).text(), old(self).cursor() - 1), r),
            final(self).cursor() == token_at(old(self).text(), old(self).cursor() - 1).next,
    {
        let start = self.position;
        let ghost from = self.index as int;
        let mut value = String::new();
        self.take_run(Run::Quoted, &mut value);
        proof {
            lemma_utf8_len_prefix(self.source@, from, self.index as int);
            assert(Seq::<char>::empty() + self.source@.subrange(from, self.index as int)
                =~= self.source@.subrange(from, self.index as int));
        }
        let len = self.position - start;
        if self.index >= self.source.len() {
            return self.create_token(
                TokenKind::Error(
                    "Unterminated string literal. Expected closing quote, instead found EoF (End of File)".to_owned(),
                ),
                len,
            );
        }
        let token = self.create_token(TokenKind::String(value), len);
        proof {
            lemma_run_end(self.source@, Run::Quoted, from);
        }
        self.advance();
        token
    }

    /// Reads an integer literal whose first digit has been read.
    fn lex_number(&mut self, first_char: char) -> (r: Spanned<TokenKind>)
        requires
            old(self).wf(),
            1 <= old(self).cursor(),
            old(self).text()[old(self).cursor() - 1] == first_char,
            punct_at(old(self).text(), old(self).cursor() - 1) is None,
            first_char != '"',
            is_digit(first_char),
        ensures
            final(self).wf(),
            final(self).text() == old(self).text(),
            Self::yields(old(self).text(), token_at(old(self).text(), old(self).cursor() - 1), r),
            final(self).cursor() == token_at(old(self).text(), old(self).cursor() - 1).next,
    {
        let ghost from = self.index as int;
        let width = crate::chars::width(first_char);
        let start = self.position - width;
        let mut value = String::new();
        push_char(&mut value, first_char);
        self.take_run(Run::Digits, &mut value);
        proof {
            self.lemma_word(from, value@, start as int);
        }
        let len = self.position - start;
        self.create_token(TokenKind::Integer(value), len)
    }

    /// Reads an identifier or keyword whose first character has been read.
    fn lex_identifier(&mut self, first_char: char) -> (r: Spanned<TokenKind>)
        requires
            old(self).wf(),
            1 <= old(self).cursor(),
            old(self).text()[old(self).cursor() - 1] == first_char,
            punct_at(old(self).text(), old(self).cursor() - 1) is None,
            first_char != '"',
            !is_digit(first_char),
            is_ident_start(first_char),
        ensures
            final(self).wf(),
            final(self).text() == old(self).text(),
            Self::yields(old(self).text(), token_at(old(self).text(), old(self).cursor() - 1), r),
            final(self).cursor() == token_at(old(self).text(), old(self).cursor() - 1).next,
    {
        let ghost from = self.index as int;
        let width = crate::chars::width(first_char);
        let start = self.position - width;
        let mut value = String::new();
        push_char(&mut value, first_char);
        self.take_run(Run::Word, &mut value);
        proof {
            self.lemma_word(from, value@, start as int);
        }
        let len = self.position - start;
        let kind = get_keyword(value.as_str());
        self.create_token(kind, len)
    }

    /// Whether the token and span `r` are those that `l` describes.
    pub open spec fn yields(src: Seq<char>, l: Lexed, r: Spanned<TokenKind>) -> bool {
        r.0@ == l.token && r.1 == l.span(src) && r.1.start == offset(src, l.start) && r.1.end
            == offset(src, l.end)
    }

    /// A word read from the character before `from` up to the cursor: its
    /// text and the byte offset at which it starts.
    proof fn lemma_word(&self, from: int, value: Seq<char>, start: int)
        requires
            self.wf(),
            1 <= from <= self.index,
            value == seq![self.source@[from - 1]] + self.source@.subrange(from, self.index as int),
            start == offset(self.source@, from) - utf8_width(self.source@[from - 1]),
        ensures
            value == self.source@.subrange(from - 1, self.index as int),
            start == offset(self.source@, from - 1),
            start <= self.position,
    {
        let src = self.source@;
        assert(value =~= src.subrange(from - 1, self.index as int));
        assert(src.take(from).drop_last() =~= src.take(from - 1));
        lemma_utf8_len_prefix(src, from - 1, self.index as int);
    }

    /// Reads the punctuation or operator token that begins with `c`, which
    /// has been read, if there is one.
    fn punctuation(&mut self, c: char) -> (r: Option<TokenKind>)
        requires
            old(self).wf(),
            1 <= old(self).cursor(),
            old(self).text()[old(self).cursor() - 1] == c,
        ensures
            final(self).wf(),
            final(self).text() == old(self).text(),
            match punct_at(old(self).text(), old(self).cursor() - 1) {
                Some((token, n)) => r is Some && r->0@ == token && final(self).cursor() == old(
                    self,
                ).cursor() - 1 + n,
                None => r is None && final(self).cursor() == old(self).cursor(),
            },
    {
        if c == '(' {
            Some(TokenKind::OpenParen)
        } else if c == ')' {
            Some(TokenKind::CloseParen)
        } else if c == '[' {
            Some(TokenKind::OpenBracket)
        } else if c == ']' {
            Some(TokenKind::CloseBracket)
        } else if c == ',' {
            Some(TokenKind::Comma)
        } else if c == ':' {
            Some(TokenKind::Colon)
        } else if c == '=' {
            if self.consume('=') {
                Some(TokenKind::EqualEqual)
            } else {
                Some(TokenKind::Equal)
            }
        } else if c == '!' {
            if self.consume('=') {
                Some(TokenKind::BangEqual)
            } else {
                Some(TokenKind::Bang)
            }
        } else if c == '>' {
            if self.consume('=') {
                Some(TokenKind::GreaterEqual)
            } else {
                Some(TokenKind::Greater)
            }
        } else if c == '<' {
            if self.consume('=') {
                Some(TokenKind::LessEqual)
            } else {
                Some(TokenKind::Less)
            }
        } else if c == '+' {
            Some(TokenKind::Plus)
        } else if c == '*' {
            Some(TokenKind::Star)
        } else if c == '/' {
            Some(TokenKind::Slash)
        } else if c == '-' {
            if self.consume('>') {
                Some(TokenKind::Arrow)
            } else {
                Some(TokenKind::Minus)
            }
        } else {
            None
        }
    }

    /// Reads the next token. Blanks and comments before it are skipped.
    ///
    /// The token and its span are those that `lex` finds at the lexer's
    /// position. The bytes of the text that the span covers are the token's
    /// lexeme, for every token but an error. Once the text is exhausted,
    /// every call returns the end of input, with an empty span at the end
    /// of the text, and leaves the lexer where it is.
    pub fn next_token(&mut self) -> (r: Spanned<TokenKind>)
        requires
            old(self).wf(),
        ensures
            final(self).wf(),
            final(self).text() == old(self).text(),
            Self::yields(old(self).text(), lex(old(self).text(), old(self).cursor()), r),
            final(self).cursor() == lex(old(self).text(), old(self).cursor()).next,
            r.1.wf(),
            r.1.end <= encode_utf8(old(self).text()).len(),
            !(r.0@ is Error) ==> encode_utf8(old(self).text()).subrange(
                r.1.start as int,
                r.1.end as int,
            ) == encode_utf8(r.0@.lexeme()),
            old(self).cursor() == old(self).text().len() ==> r.0@ is EoF,
            r.0@ is EoF ==> final(self).cursor() == old(self).text().len() && r.1.start
                == r.1.end && r.1.end == encode_utf8(old(self).text()).len(),
    {
        let ghost src = self.source@;
        let ghost origin = self.index as int;
        proof {
            lemma_lex_bounds(src, origin);
            let l = lex(src, origin);
            lemma_utf8_len_prefix(src, l.start, l.end);
            lemma_utf8_len_prefix(src, l.end, src.len() as int);
            assert(src.take(src.len() as int) =~= src);
            lemma_utf8_len_is_encoding(src);
            if !(l.token is Error) {
                lemma_span_reconstructs(src, origin);
            }
        }
        loop
            invariant
                self.wf(),
                self.source@ == src,
                src == old(self).text(),
                origin == old(self).cursor(),
                lex(src, self.index as int) == lex(src, origin),
                offset(src, lex(src, origin).start) <= offset(src, lex(src, origin).end),
                offset(src, lex(src, origin).end) <= encode_utf8(src).len(),
                encode_utf8(src).len() == utf8_len(src),
                !(lex(src, origin).token is Error) ==> encode_utf8(src).subrange(
                    lex(src, origin).span(src).start as int,
                    lex(src, origin).span(src).end as int,
                ) == encode_utf8(lex(src, origin).token.lexeme()),
                origin == src.len() ==> lex(src, origin).token is EoF,
                lex(src, origin).token is EoF ==> lex(src, origin).next == src.len() && lex(
                    src,
                    origin,
                ).start == src.len() && lex(src, origin).end == src.len(),
            decreases src.len() - self.index,
        {
            let start = self.position;
            let ghost at = self.index as int;
            match self.advance() {
                None => {
                    proof {
                        assert(src.take(src.len() as int) =~= src);
                    }
                    return self.create_token(TokenKind::EoF, 0);
                },
                Some(c) => {
                    proof {
                        lemma_utf8_len_prefix(src, at, at + 1);
                        assert(src.take(at + 1).drop_last() =~= src.take(at));
                    }
                    match self.punctuation(c) {
                        Some(kind) => {
                            proof {
                                lemma_utf8_len_prefix(src, at, self.index as int);
                            }
                            let len = self.position - start;
                            return self.create_token(kind, len);
                        },
                        None => {
                            if c == '"' {
                                return self.lex_string();
                            } else if crate::chars::digit(c) {
                                return self.lex_number(c);
                            } else if crate::chars::ident_start(c) {
                                return self.lex_identifier(c);
                            } else if c == '#' {
                                proof {
                                    lemma_run_end(src, Run::Comment, at + 1);
                                }
                                self.skip_comment();
                            } else if crate::chars::blank(c) {
                            } else {
                                let mut message = "Unknown character ".to_owned();
                                push_char(&mut message, c);
                                let len = self.position - start;
                                return self.create_token(TokenKind::Error(message), len);
                            }
                        },
                    }
                },
            }
        }
    }

    /// Whether the whole text has been read.
    pub fn at_end(&mut self) -> (r: bool)
        requires
            old(self).wf(),
        ensures
            *final(self) == *old(self),
            r == (old(self).cursor() >= old(self).text().len()),
    {
        self.peek().is_none()
    }
}

} // verus!
