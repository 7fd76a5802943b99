//! The lexer: source text to positioned tokens.
//!
//! Its behaviour is stated by the spec functions of this module, which read
//! the input as a sequence of characters: `scan_trivia` skips whitespace and
//! comments, `token_at` reads one token, and `lex_from` the rest of the input.
use vstd::prelude::*;

use crate::text::{
    chars_of, digit_value, is_digit, is_digit_char, is_ident_char, is_ident_char_char,
    is_ident_start, is_ident_start_char, is_space, is_whitespace_char, push_char,
};
use crate::token::{Token, TokenPosition, TokenView, TokenWithPosition};

verus! {

/// Line and column (both from 1) after reading the first `n` characters.
pub open spec fn pos_of(input: Seq<char>, n: nat) -> (nat, nat)
    decreases n,
{
    if n == 0 {
        (1, 1)
    } else {
        let p = pos_of(input, (n - 1) as nat);
        if input[n - 1] == '\n' {
            (p.0 + 1, 1)
        } else {
            (p.0, p.1 + 1)
        }
    }
}

proof fn lemma_pos_bounds(input: Seq<char>, n: nat)
    ensures
        1 <= pos_of(input, n).0 <= n + 1,
        1 <= pos_of(input, n).1 <= n + 1,
    decreases n,
{
    if n > 0 {
        lemma_pos_bounds(input, (n - 1) as nat);
    }
}

/// What went wrong while reading a token.
#[derive(Debug, Clone, Copy, PartialEq, Eq)]
pub enum LexErrorKind {
    UnterminatedComment,
    UnterminatedString,
    InvalidEscape(char),
    InvalidNumber,
    UnexpectedChar(char),
    LoneAmpersand,
    LonePipe,
}

/// A lexical error with the line and column it names.
#[derive(Debug, Clone, Copy, PartialEq, Eq)]
pub struct LexError {
    pub kind: LexErrorKind,
    pub line: usize,
    pub column: usize,
}

/// The error of the given kind at character index `i` of the input.
pub open spec fn error_at(input: Seq<char>, kind: LexErrorKind, i: int) -> LexError {
    LexError {
        kind,
        line: pos_of(input, i as nat).0 as usize,
        column: pos_of(input, i as nat).1 as usize,
    }
}

/// The position at character index `i` of the input.
pub open spec fn position_at(input: Seq<char>, i: int) -> TokenPosition {
    TokenPosition { line: pos_of(input, i as nat).0 as usize, column: pos_of(input, i as nat).1 as usize }
}

/// Where the trivia scanner stands: in code, in a `//` comment, or in a
/// `/* */` comment that began at the given index.
pub enum TriviaMode {
    Code,
    LineComment,
    BlockComment(int),
}

/// Skips whitespace and comments from index `i`: the index of the next token,
/// or the error of a block comment left open.
pub open spec fn scan_trivia(input: Seq<char>, i: int, mode: TriviaMode) -> Result<int, LexError>
    decreases input.len() - i,
{
    if i >= input.len() {
        match mode {
            TriviaMode::BlockComment(s) => Err(error_at(input, LexErrorKind::UnterminatedComment, s)),
            _ => Ok(i),
        }
    } else {
        match mode {
            TriviaMode::Code => {
                if is_space(input[i]) {
                    scan_trivia(input, i + 1, TriviaMode::Code)
                } else if input[i] == '/' && i + 1 < input.len() && input[i + 1] == '/' {
                    scan_trivia(input, i + 2, TriviaMode::LineComment)
                } else if input[i] == '/' && i + 1 < input.len() && input[i + 1] == '*' {
                    scan_trivia(input, i + 2, TriviaMode::BlockComment(i))
                } else {
                    Ok(i)
                }
            },
            TriviaMode::LineComment => {
                if input[i] == '\n' {
                    scan_trivia(input, i + 1, TriviaMode::Code)
                } else {
                    scan_trivia(input, i + 1, TriviaMode::LineComment)
                }
            },
            TriviaMode::BlockComment(s) => {
                if input[i] == '*' && i + 1 < input.len() && input[i + 1] == '/' {
                    scan_trivia(input, i + 2, TriviaMode::Code)
                } else {
                    scan_trivia(input, i + 1, TriviaMode::BlockComment(s))
                }
            },
        }
    }
}

/// The character that an escape `\e` stands for.
pub open spec fn escape_char(e: char) -> Option<char> {
    if e == 'n' {
        Some('\n')
    } else if e == 't' {
        Some('\t')
    } else if e == 'r' {
        Some('\r')
    } else if e == '\\' {
        Some('\\')
    } else if e == '"' {
        Some('"')
    } else if e == '0' {
        Some('\0')
    } else {
        None
    }
}

/// Reads the body of a string literal opened at index `start`, from index `i`
/// with `acc` read so far: the text and the index after the closing quote.
pub open spec fn scan_string(input: Seq<char>, i: int, start: int, acc: Seq<char>) -> Result<
    (Seq<char>, int),
    LexError,
>
    decreases input.len() - i,
{
    if i >= input.len() {
        Err(error_at(input, LexErrorKind::UnterminatedString, start))
    } else if input[i] == '"' {
        Ok((acc, i + 1))
    } else if input[i] == '\\' {
        if i + 1 >= input.len() {
            Err(error_at(input, LexErrorKind::UnterminatedString, start))
        } else {
            match escape_char(input[i + 1]) {
                Some(x) => scan_string(input, i + 2, start, acc.push(x)),
                None => Err(error_at(input, LexErrorKind::InvalidEscape(input[i + 1]), i + 1)),
            }
        }
    } else {
        scan_string(input, i + 1, start, acc.push(input[i]))
    }
}

/// Reads digits with at most one decimal point from index `i`: the end index,
/// the value of the digits before the point, and whether every digit after
/// the point is zero.
pub open spec fn scan_number(input: Seq<char>, i: int, has_dot: bool, value: int, zero_fraction: bool) -> (
    int,
    int,
    bool,
)
    decreases input.len() - i,
{
    if i < input.len() && 0 <= i && is_digit(input[i]) {
        if has_dot {
            scan_number(input, i + 1, true, value, zero_fraction && input[i] == '0')
        } else {
            scan_number(input, i + 1, false, value * 10 + digit_value(input[i]), zero_fraction)
        }
    } else if i < input.len() && 0 <= i && input[i] == '.' && !has_dot {
        scan_number(input, i + 1, true, value, zero_fraction)
    } else {
        (i, value, zero_fraction)
    }
}

/// The end of the identifier characters from index `i`.
pub open spec fn ident_end(input: Seq<char>, i: int) -> int
    decreases input.len() - i,
{
    if 0 <= i < input.len() && is_ident_char(input[i]) {
        ident_end(input, i + 1)
    } else {
        i
    }
}

/// A word read as a keyword where it is one, else as an identifier.
pub open spec fn keyword_token(w: Seq<char>) -> TokenView {
    if w == seq!['l', 'e', 't'] {
        TokenView::Let
    } else if w == seq!['t', 'r', 'u', 'e'] {
        TokenView::Boolean(true)
    } else if w == seq!['f', 'a', 'l', 's', 'e'] {
        TokenView::Boolean(false)
    } else if w == seq!['i', 'f'] {
        TokenView::If
    } else if w == seq!['e', 'l', 's', 'e'] {
        TokenView::Else
    } else if w == seq!['w', 'h', 'i', 'l', 'e'] {
        TokenView::While
    } else if w == seq!['f', 'o', 'r'] {
        TokenView::For
    } else if w == seq!['f', 'n'] {
        TokenView::Fn
    } else if w == seq!['r', 'e', 't', 'u', 'r', 'n'] {
        TokenView::Return
    } else if w == seq!['b', 'r', 'e', 'a', 'k'] {
        TokenView::Break
    } else if w == seq!['c', 'o', 'n', 't', 'i', 'n', 'u', 'e'] {
        TokenView::Continue
    } else {
        TokenView::Identifier(w)
    }
}

/// The token of a character that stands alone.
pub open spec fn single_token(c: char) -> Option<TokenView> {
    if c == '+' {
        Some(TokenView::Plus)
    } else if c == '-' {
        Some(TokenView::Minus)
    } else if c == '*' {
        Some(TokenView::Multiply)
    } else if c == '/' {
        Some(TokenView::Divide)
    } else if c == '%' {
        Some(TokenView::Modulo)
    } else if c == '(' {
        Some(TokenView::LeftParen)
    } else if c == ')' {
        Some(TokenView::RightParen)
    } else if c == '{' {
        Some(TokenView::LeftBrace)
    } else if c == '}' {
        Some(TokenView::RightBrace)
    } else if c == '[' {
        Some(TokenView::LeftBracket)
    } else if c == ']' {
        Some(TokenView::RightBracket)
    } else if c == ',' {
        Some(TokenView::Comma)
    } else if c == ';' {
        Some(TokenView::Semicolon)
    } else {
        None
    }
}

pub open spec fn next_is(input: Seq<char>, i: int, c: char) -> bool {
    0 <= i < input.len() && input[i] == c
}

/// A token of one or two characters: the second given by `second` when it follows.
pub open spec fn pair_token(input: Seq<char>, j: int, second: char, two: TokenView, one: TokenView) -> Result<
    (TokenView, int),
    LexError,
> {
    if next_is(input, j + 1, second) {
        Ok((two, j + 2))
    } else {
        Ok((one, j + 1))
    }
}

/// The token that starts at index `j`, and the index after it.
pub open spec fn token_at(input: Seq<char>, j: int) -> Result<(TokenView, int), LexError> {
    if j < 0 || j >= input.len() {
        Ok((TokenView::Eof, j))
    } else {
        let c = input[j];
        if c == '"' {
            match scan_string(input, j + 1, j, seq![]) {
                Ok((s, e)) => Ok((TokenView::Str(s), e)),
                Err(err) => Err(err),
            }
        } else if is_digit(c) {
            let (e, v, zero_fraction) = scan_number(input, j, false, 0, true);
            if zero_fraction && v <= i64::MAX {
                Ok((TokenView::Number(v), e))
            } else {
                Err(error_at(input, LexErrorKind::InvalidNumber, j))
            }
        } else if is_ident_start(c) {
            let e = ident_end(input, j);
            Ok((keyword_token(input.subrange(j, e)), e))
        } else if c == '=' {
            pair_token(input, j, '=', TokenView::Equal, TokenView::Assign)
        } else if c == '!' {
            pair_token(input, j, '=', TokenView::NotEqual, TokenView::Not)
        } else if c == '<' {
            pair_token(input, j, '=', TokenView::LessThanOrEqual, TokenView::LessThan)
        } else if c == '>' {
            pair_token(input, j, '=', TokenView::GreaterThanOrEqual, TokenView::GreaterThan)
        } else if c == '&' {
            if next_is(input, j + 1, '&') {
                Ok((TokenView::And, j + 2))
            } else {
                Err(error_at(input, LexErrorKind::LoneAmpersand, j))
            }
        } else if c == '|' {
            if next_is(input, j + 1, '|') {
                Ok((TokenView::Or, j + 2))
            } else {
                Err(error_at(input, LexErrorKind::LonePipe, j))
            }
        } else {
            match single_token(c) {
                Some(t) => Ok((t, j + 1)),
                None => Err(error_at(input, LexErrorKind::UnexpectedChar(c), j)),
            }
        }
    }
}

/// The next token from index `i`: the token, the index where it starts and
/// the index after it.
pub open spec fn next_token_spec(input: Seq<char>, i: int) -> Result<(TokenView, int, int), LexError> {
    match scan_trivia(input, i, TriviaMode::Code) {
        Err(e) => Err(e),
        Ok(j) => match token_at(input, j) {
            Err(e) => Err(e),
            Ok((t, e)) => Ok((t, j, e)),
        },
    }
}

/// All tokens from index `i` up to and including `Eof`, each with the index
/// where it starts.
pub open spec fn lex_from(input: Seq<char>, i: int) -> Result<Seq<(TokenView, int)>, LexError>
    decreases input.len() - i,
    via lex_from_decreases
{
    match next_token_spec(input, i) {
        Err(e) => Err(e),
        Ok((t, j, e)) => {
            if t is Eof {
                Ok(seq![(t, j)])
            } else {
                match lex_from(input, e) {
                    Ok(rest) => Ok(seq![(t, j)] + rest),
                    Err(err) => Err(err),
                }
            }
        },
    }
}

#[via_fn]
proof fn lex_from_decreases(input: Seq<char>, i: int) {
    lemma_next_token_advances(input, i);
}


proof fn lemma_trivia_advances(input: Seq<char>, i: int, mode: TriviaMode)
    ensures
        scan_trivia(input, i, mode) matches Ok(j) ==> j >= i && (i <= input.len() ==> j <= input.len()),
    decreases input.len() - i,
{
    if i < input.len() {
        match mode {
            TriviaMode::Code => {
                if is_space(input[i]) {
                    lemma_trivia_advances(input, i + 1, TriviaMode::Code);
                } else if input[i] == '/' && i + 1 < input.len() && input[i + 1] == '/' {
                    lemma_trivia_advances(input, i + 2, TriviaMode::LineComment);
                } else if input[i] == '/' && i + 1 < input.len() && input[i + 1] == '*' {
                    lemma_trivia_advances(input, i + 2, TriviaMode::BlockComment(i));
                }
            },
            TriviaMode::LineComment => {
                if input[i] == '\n' {
                    lemma_trivia_advances(input, i + 1, TriviaMode::Code);
                } else {
                    lemma_trivia_advances(input, i + 1, TriviaMode::LineComment);
                }
            },
            TriviaMode::BlockComment(s) => {
                if input[i] == '*' && i + 1 < input.len() && input[i + 1] == '/' {
                    lemma_trivia_advances(input, i + 2, TriviaMode::Code);
                } else {
                    lemma_trivia_advances(input, i + 1, TriviaMode::BlockComment(s));
                }
            },
        }
    }
}

proof fn lemma_string_advances(input: Seq<char>, i: int, start: int, acc: Seq<char>)
    ensures
        scan_string(input, i, start, acc) matches Ok((s, e)) ==> i < e <= input.len(),
    decreases input.len() - i,
{
    if i < input.len() && input[i] != '"' {
        if input[i] == '\\' {
            if i + 1 < input.len() {
                if let Some(x) = escape_char(input[i + 1]) {
                    lemma_string_advances(input, i + 2, start, acc.push(x));
                }
            }
        } else {
            lemma_string_advances(input, i + 1, start, acc.push(input[i]));
        }
    }
}

pub proof fn lemma_number_advances(input: Seq<char>, i: int, has_dot: bool, value: int, zero_fraction: bool)
    ensures
        0 <= i <= input.len() ==> i <= scan_number(input, i, has_dot, value, zero_fraction).0 <= input.len(),
        0 <= i < input.len() && is_digit(input[i]) ==> i < scan_number(input, i, has_dot, value, zero_fraction).0,
        value >= 0 ==> scan_number(input, i, has_dot, value, zero_fraction).1 >= value,
    decreases input.len() - i,
{
    if i < input.len() && 0 <= i && is_digit(input[i]) {
        if has_dot {
            lemma_number_advances(input, i + 1, true, value, zero_fraction && input[i] == '0');
        } else {
            lemma_number_advances(input, i + 1, false, value * 10 + digit_value(input[i]), zero_fraction);
        }
    } else if i < input.len() && 0 <= i && input[i] == '.' && !has_dot {
        lemma_number_advances(input, i + 1, true, value, zero_fraction);
    }
}

proof fn lemma_ident_advances(input: Seq<char>, i: int)
    ensures
        0 <= i <= input.len() ==> i <= ident_end(input, i) <= input.len(),
        0 <= i < input.len() && is_ident_char(input[i]) ==> i < ident_end(input, i),
    decreases input.len() - i,
{
    if 0 <= i < input.len() && is_ident_char(input[i]) {
        lemma_ident_advances(input, i + 1);
    }
}

proof fn lemma_token_advances(input: Seq<char>, j: int)
    ensures
        token_at(input, j) matches Ok((t, e)) ==> (t is Eof || (0 <= j < e <= input.len())),
{
    if 0 <= j < input.len() {
        let c = input[j];
        if c == '"' {
            lemma_string_advances(input, j + 1, j, seq![]);
        } else if is_digit(c) {
            lemma_number_advances(input, j, false, 0, true);
        } else if is_ident_start(c) {
            lemma_ident_advances(input, j);
        }
    }
}

proof fn lemma_next_token_advances(input: Seq<char>, i: int)
    ensures
        next_token_spec(input, i) matches Ok((t, j, e)) ==> (t is Eof || (i <= j < e <= input.len())),
{
    lemma_trivia_advances(input, i, TriviaMode::Code);
    if let Ok(j) = scan_trivia(input, i, TriviaMode::Code) {
        lemma_token_advances(input, j);
    }
}


/// Reads source text character by character, tracking line and column.
pub struct Lexer {
    input: Vec<char>,
    position: usize,
    line: usize,
    column: usize,
}

impl Lexer {
    /// The characters being read.
    pub closed spec fn text(&self) -> Seq<char> {
        self.input@
    }

    /// The index of the next character to read.
    pub closed spec fn pos(&self) -> int {
        self.position as int
    }

    pub closed spec fn wf(&self) -> bool {
        &&& self.position <= self.input@.len()
        &&& self.input@.len() < usize::MAX
        &&& self.line as nat == pos_of(self.input@, self.position as nat).0
        &&& self.column as nat == pos_of(self.input@, self.position as nat).1
    }

    pub fn new(input: &str) -> (r: Self)
        requires
            input@.len() < usize::MAX,
        ensures
            r.wf(),
            r.text() == input@,
            r.pos() == 0,
    {
        Lexer { input: chars_of(input), position: 0, line: 1, column: 1 }
    }

    fn current_position(&self) -> (r: TokenPosition)
        requires
            self.wf(),
        ensures
            r == position_at(self.input@, self.position as int),
    {
        TokenPosition { line: self.line, column: self.column }
    }

    fn current_char(&self) -> (r: Option<char>)
        requires
            self.wf(),
        ensures
            r == (if self.position < self.input@.len() {
                Some(self.input@[self.position as int])
            } else {
                None::<char>
            }),
    {
        if self.position < self.input.len() {
            Some(self.input[self.position])
        } else {
            None
        }
    }

    fn peek_char(&self) -> (r: Option<char>)
        requires
            self.wf(),
        ensures
            r == (if self.position + 1 < self.input@.len() {
                Some(self.input@[self.position + 1])
            } else {
                None::<char>
            }),
    {
        if self.position + 1 < self.input.len() {
            Some(self.input[self.position + 1])
        } else {
            None
        }
    }

    fn advance(&mut self)
        requires
            old(self).wf(),
            old(self).position < old(self).input@.len(),
        ensures
            final(self).wf(),
            final(self).input@ == old(self).input@,
            final(self).position == old(self).position + 1,
    {
        proof {
            lemma_pos_bounds(self.input@, self.position as nat);
        }
        if self.input[self.position] == '\n' {
            self.line = self.line + 1;
            self.column = 1;
        } else {
            self.column = self.column + 1;
        }
        self.position = self.position + 1;
    }

    fn skip_whitespace(&mut self)
        requires
            old(self).wf(),
        ensures
            final(self).wf(),
            final(self).input@ == old(self).input@,
            old(self).position <= final(self).position,
            scan_trivia(old(self).input@, old(self).position as int, TriviaMode::Code) == scan_trivia(
                final(self).input@,
                final(self).position as int,
                TriviaMode::Code,
            ),
            final(self).position < final(self).input@.len() ==> !is_space(
                final(self).input@[final(self).position as int],
            ),
    {
        while self.position < self.input.len() && is_whitespace_char(self.input[self.position])
            invariant
                self.wf(),
                self.input@ == old(self).input@,
                old(self).position <= self.position,
                scan_trivia(old(self).input@, old(self).position as int, TriviaMode::Code)
                    == scan_trivia(self.input@, self.position as int, TriviaMode::Code),
            decreases self.input@.len() - self.position,
        {
            self.advance();
        }
    }

    /// Skips one comment that starts at the current position.
    fn skip_comment(&mut self) -> (r: Result<(), LexError>)
        requires
            old(self).wf(),
            old(self).position + 1 < old(self).input@.len(),
            old(self).input@[old(self).position as int] == '/',
            old(self).input@[old(self).position + 1] == '/' || old(self).input@[old(self).position
                + 1] == '*',
        ensures
            final(self).wf(),
            final(self).input@ == old(self).input@,
            match r {
                Ok(_) => {
                    &&& old(self).position + 2 <= final(self).position
                    &&& scan_trivia(old(self).input@, old(self).position as int, TriviaMode::Code)
                        == scan_trivia(final(self).input@, final(self).position as int, TriviaMode::Code)
                },
                Err(e) => scan_trivia(old(self).input@, old(self).position as int, TriviaMode::Code)
                    == Err::<int, LexError>(e),
            },
    {
        let ghost input = self.input@;
        let ghost start = self.position as int;
        if matches!(self.peek_char(), Some('/')) {
            self.advance();
            self.advance();
            while self.position < self.input.len()
                invariant
                    self.wf(),
                    self.input@ == input,
                    input == old(self).input@,
                    start == old(self).position,
                    start + 2 <= self.position,
                    scan_trivia(input, start, TriviaMode::Code) == scan_trivia(
                        input,
                        self.position as int,
                        TriviaMode::LineComment,
                    ),
                decreases self.input@.len() - self.position,
            {
                let ch = self.input[self.position];
                self.advance();
                if ch == '\n' {
                    return Ok(());
                }
            }
            Ok(())
        } else {
            let start_position = self.current_position();
            self.advance();
            self.advance();
            while self.position < self.input.len()
                invariant
                    self.wf(),
                    self.input@ == input,
                    input == old(self).input@,
                    start == old(self).position,
                    start + 2 <= self.position,
                    start_position == position_at(input, start),
                    scan_trivia(input, start, TriviaMode::Code) == scan_trivia(
                        input,
                        self.position as int,
                        TriviaMode::BlockComment(start),
                    ),
                decreases self.input@.len() - self.position,
            {
                if self.input[self.position] == '*' && self.position + 1 < self.input.len()
                    && self.input[self.position + 1] == '/' {
                    self.advance();
                    self.advance();
                    return Ok(());
                }
                self.advance();
            }
            Err(
                LexError {
                    kind: LexErrorKind::UnterminatedComment,
                    line: start_position.line,
                    column: start_position.column,
                },
            )
        }
    }

    fn read_string(&mut self) -> (r: Result<String, LexError>)
        requires
            old(self).wf(),
            old(self).position < old(self).input@.len(),
            old(self).input@[old(self).position as int] == '"',
        ensures
            final(self).wf(),
            final(self).input@ == old(self).input@,
            match scan_string(old(self).input@, old(self).position + 1, old(self).position as int, seq![]) {
                Ok((s, e)) => r matches Ok(v) && v@ == s && final(self).position == e,
                Err(err) => r == Err::<String, LexError>(err),
            },
    {
        let ghost input = self.input@;
        let ghost start = self.position as int;
        let start_position = self.current_position();
        let mut value = String::new();
        self.advance();
        while self.position < self.input.len()
            invariant
                self.wf(),
                self.input@ == input,
                input == old(self).input@,
                start == old(self).position,
                start < self.position,
                start_position == position_at(input, start),
                scan_string(input, start + 1, start, seq![]) == scan_string(
                    input,
                    self.position as int,
                    start,
                    value@,
                ),
            decreases self.input@.len() - self.position,
        {
            let ch = self.input[self.position];
            if ch == '"' {
                self.advance();
                return Ok(value);
            } else if ch == '\\' {
                self.advance();
                if self.position >= self.input.len() {
                    return Err(
                        LexError {
                            kind: LexErrorKind::UnterminatedString,
                            line: start_position.line,
                            column: start_position.column,
                        },
                    );
                }
                let e = self.input[self.position];
                match escape_of(e) {
                    Some(x) => {
                        push_char(&mut value, x);
                        self.advance();
                    },
                    None => {
                        return Err(
                            LexError {
                                kind: LexErrorKind::InvalidEscape(e),
                                line: self.line,
                                column: self.column,
                            },
                        );
                    },
                }
            } else {
                push_char(&mut value, ch);
                self.advance();
            }
        }
        Err(
            LexError {
                kind: LexErrorKind::UnterminatedString,
                line: start_position.line,
                column: start_position.column,
            },
        )
    }

    fn read_number(&mut self) -> (r: Result<i64, LexError>)
        requires
            old(self).wf(),
            old(self).position < old(self).input@.len(),
            is_digit(old(self).input@[old(self).position as int]),
        ensures
            final(self).wf(),
            final(self).input@ == old(self).input@,
            ({
                let (e, v, zero_fraction) = scan_number(
                    old(self).input@,
                    old(self).position as int,
                    false,
                    0,
                    true,
                );
                if zero_fraction && v <= i64::MAX {
                    r == Ok::<i64, LexError>(v as i64) && final(self).position == e
                } else {
                    r == Err::<i64, LexError>(
                        error_at(old(self).input@, LexErrorKind::InvalidNumber, old(self).position as int),
                    )
                }
            }),
    {
        let start_position = self.current_position();
        let (end, value) = scan_number_at(&self.input, self.position, 9223372036854775807u64);
        match value {
            Some(v) => {
                while self.position < end
                    invariant
                        self.wf(),
                        self.input@ == old(self).input@,
                        old(self).position <= self.position <= end <= self.input@.len(),
                    decreases end - self.position,
                {
                    self.advance();
                }
                Ok(v as i64)
            },
            None => Err(
                LexError {
                    kind: LexErrorKind::InvalidNumber,
                    line: start_position.line,
                    column: start_position.column,
                },
            ),
        }
    }

    fn read_identifier(&mut self) -> (r: String)
        requires
            old(self).wf(),
        ensures
            final(self).wf(),
            final(self).input@ == old(self).input@,
            final(self).position == ident_end(old(self).input@, old(self).position as int),
            r@ == old(self).input@.subrange(old(self).position as int, final(self).position as int),
    {
        let ghost input = self.input@;
        let ghost start = self.position as int;
        let mut value = String::new();
        while self.position < self.input.len() && is_ident_char_char(self.input[self.position])
            invariant
                self.wf(),
                self.input@ == input,
                input == old(self).input@,
                start == old(self).position,
                start <= self.position,
                ident_end(input, start) == ident_end(input, self.position as int),
                value@ == input.subrange(start, self.position as int),
            decreases self.input@.len() - self.position,
        {
            push_char(&mut value, self.input[self.position]);
            self.advance();
            assert(value@ =~= input.subrange(start, self.position as int));
        }
        value
    }

    fn identifier_to_token(&self, ident: String) -> (r: Token)
        ensures
            r@ == keyword_token(ident@),
    {
        let w = chars_of(ident.as_str());
        if is_word(&w, &['l', 'e', 't']) {
            Token::Let
        } else if is_word(&w, &['t', 'r', 'u', 'e']) {
            Token::Boolean(true)
        } else if is_word(&w, &['f', 'a', 'l', 's', 'e']) {
            Token::Boolean(false)
        } else if is_word(&w, &['i', 'f']) {
            Token::If
        } else if is_word(&w, &['e', 'l', 's', 'e']) {
            Token::Else
        } else if is_word(&w, &['w', 'h', 'i', 'l', 'e']) {
            Token::While
        } else if is_word(&w, &['f', 'o', 'r']) {
            Token::For
        } else if is_word(&w, &['f', 'n']) {
            Token::Fn
        } else if is_word(&w, &['r', 'e', 't', 'u', 'r', 'n']) {
            Token::Return
        } else if is_word(&w, &['b', 'r', 'e', 'a', 'k']) {
            Token::Break
        } else if is_word(&w, &['c', 'o', 'n', 't', 'i', 'n', 'u', 'e']) {
            Token::Continue
        } else {
            Token::Identifier(ident)
        }
    }
}

/// The tokens `r` hold exactly what `lex_from` gives from the start of `input`.
pub open spec fn lexed(input: Seq<char>, r: Result<Vec<TokenWithPosition>, LexError>) -> bool {
    match lex_from(input, 0) {
        Ok(ts) => r matches Ok(v) && v@.len() == ts.len() && forall|k: int|
            0 <= k < ts.len() ==> #[trigger] v@[k].token@ == ts[k].0 && v@[k].position == position_at(
                input,
                ts[k].1,
            ),
        Err(e) => r == Err::<Vec<TokenWithPosition>, LexError>(e),
    }
}

pub open spec fn prepend(a: Seq<(TokenView, int)>, r: Result<Seq<(TokenView, int)>, LexError>) -> Result<
    Seq<(TokenView, int)>,
    LexError,
> {
    match r {
        Ok(s) => Ok(a + s),
        Err(e) => Err(e),
    }
}

impl Lexer {
    /// Reads the next token, after any whitespace and comments.
    pub fn next_token(&mut self) -> (r: Result<TokenWithPosition, LexError>)
        requires
            old(self).wf(),
        ensures
            final(self).wf(),
            final(self).text() == old(self).text(),
            match next_token_spec(old(self).text(), old(self).pos()) {
                Ok((t, j, e)) => r matches Ok(tp) && tp.token@ == t && tp.position == position_at(
                    old(self).text(),
                    j,
                ) && final(self).pos() == e,
                Err(err) => r == Err::<TokenWithPosition, LexError>(err),
            },
    {
        let ghost input = self.input@;
        let ghost start = self.position as int;
        self.skip_whitespace();
        while matches!(self.current_char(), Some('/')) && (matches!(self.peek_char(), Some('/'))
            || matches!(self.peek_char(), Some('*')))
            invariant
                self.wf(),
                self.input@ == input,
                input == old(self).input@,
                start == old(self).position,
                scan_trivia(input, start, TriviaMode::Code) == scan_trivia(
                    input,
                    self.position as int,
                    TriviaMode::Code,
                ),
                self.position < self.input@.len() ==> !is_space(self.input@[self.position as int]),
            decreases self.input@.len() - self.position,
        {
            match self.skip_comment() {
                Ok(()) => {},
                Err(e) => {
                    return Err(e);
                },
            }
            self.skip_whitespace();
        }
        let position = self.current_position();
        let ghost j = self.position as int;
        assert(scan_trivia(input, j, TriviaMode::Code) == Ok::<int, LexError>(j));
        let ch = match self.current_char() {
            Some(c) => c,
            None => {
                return Ok(TokenWithPosition { token: Token::Eof, position });
            },
        };
        let token = if ch == '"' {
            match self.read_string() {
                Ok(s) => {
                    assert(token_at(input, j) == Ok::<(TokenView, int), LexError>(
                        (Token::String(s)@, self.position as int),
                    ));
                    Token::String(s)
                },
                Err(e) => {
                    return Err(e);
                },
            }
        } else if is_digit_char(ch) {
            match self.read_number() {
                Ok(n) => {
                    proof {
                        lemma_number_advances(input, j, false, 0, true);
                    }
                    assert(token_at(input, j) == Ok::<(TokenView, int), LexError>(
                        (Token::Number(n)@, self.position as int),
                    ));
                    Token::Number(n)
                },
                Err(e) => {
                    return Err(e);
                },
            }
        } else if is_ident_start_char(ch) {
            let ident = self.read_identifier();
            let t = self.identifier_to_token(ident);
            assert(token_at(input, j) == Ok::<(TokenView, int), LexError>((t@, self.position as int)));
            t
        } else if ch == '=' {
            self.advance();
            if self.position < self.input.len() && self.input[self.position] == '=' {
                self.advance();
                Token::Equal
            } else {
                Token::Assign
            }
        } else if ch == '!' {
            self.advance();
            if self.position < self.input.len() && self.input[self.position] == '=' {
                self.advance();
                Token::NotEqual
            } else {
                Token::Not
            }
        } else if ch == '<' {
            self.advance();
            if self.position < self.input.len() && self.input[self.position] == '=' {
                self.advance();
                Token::LessThanOrEqual
            } else {
                Token::LessThan
            }
        } else if ch == '>' {
            self.advance();
            if self.position < self.input.len() && self.input[self.position] == '=' {
                self.advance();
                Token::GreaterThanOrEqual
            } else {
                Token::GreaterThan
            }
        } else if ch == '&' {
            self.advance();
            if self.position < self.input.len() && self.input[self.position] == '&' {
                self.advance();
                Token::And
            } else {
                return Err(
                    LexError { kind: LexErrorKind::LoneAmpersand, line: position.line, column: position.column },
                );
            }
        } else if ch == '|' {
            self.advance();
            if self.position < self.input.len() && self.input[self.position] == '|' {
                self.advance();
                Token::Or
            } else {
                return Err(
                    LexError { kind: LexErrorKind::LonePipe, line: position.line, column: position.column },
                );
            }
        } else {
            match single_token_of(ch) {
                Some(t) => {
                    self.advance();
                    t
                },
                None => {
                    return Err(
                        LexError {
                            kind: LexErrorKind::UnexpectedChar(ch),
                            line: position.line,
                            column: position.column,
                        },
                    );
                },
            }
        };
        assert(token_at(input, j) == Ok::<(TokenView, int), LexError>((token@, self.position as int)));
        Ok(TokenWithPosition { token, position })
    }

    /// Reads every token up to and including `Eof`.
    pub fn tokenize(self) -> (r: Result<Vec<TokenWithPosition>, LexError>)
        requires
            self.wf(),
            self.pos() == 0,
        ensures
            lexed(self.text(), r),
    {
        let mut lexer = self;
        let ghost input = lexer.input@;
        let mut tokens: Vec<TokenWithPosition> = Vec::new();
        let ghost mut done: Seq<(TokenView, int)> = seq![];
        loop
            invariant
                lexer.wf(),
                lexer.input@ == input,
                input == self.input@,
                self.position == 0,
                tokens@.len() == done.len(),
                forall|k: int|
                    0 <= k < done.len() ==> #[trigger] tokens@[k].token@ == done[k].0
                        && tokens@[k].position == position_at(input, done[k].1),
                lex_from(input, 0) == prepend(done, lex_from(input, lexer.position as int)),
            decreases input.len() - lexer.position,
        {
            let ghost p = lexer.position as int;
            let ghost ns = next_token_spec(input, p);
            proof {
                lemma_next_token_advances(input, p);
            }
            let twp = match lexer.next_token() {
                Ok(t) => t,
                Err(e) => {
                    return Err(e);
                },
            };
            let is_eof = matches!(twp.token, Token::Eof);
            let ghost entry = (twp.token@, ns->Ok_0.1);
            tokens.push(twp);
            proof {
                let rest = lex_from(input, lexer.position as int);
                if !is_eof {
                    assert(lex_from(input, p) == prepend(seq![entry], rest));
                    if let Ok(s) = rest {
                        assert(done + (seq![entry] + s) =~= done.push(entry) + s);
                    }
                } else {
                    assert(lex_from(input, p) == Ok::<Seq<(TokenView, int)>, LexError>(seq![entry]));
                    assert(done + seq![entry] =~= done.push(entry));
                }
                done = done.push(entry);
            }
            if is_eof {
                return Ok(tokens);
            }
        }
    }
}

/// Tokenizes source text, dropping positions.
pub fn tokenize(input: &str) -> (r: Result<Vec<Token>, LexError>)
    requires
        input@.len() < usize::MAX,
    ensures
        match lex_from(input@, 0) {
            Ok(ts) => r matches Ok(v) && v@.len() == ts.len() && forall|k: int|
                0 <= k < ts.len() ==> #[trigger] v@[k]@ == ts[k].0,
            Err(e) => r == Err::<Vec<Token>, LexError>(e),
        },
{
    let lexer = Lexer::new(input);
    let with_positions = match lexer.tokenize() {
        Ok(v) => v,
        Err(e) => {
            return Err(e);
        },
    };
    let mut tokens: Vec<Token> = Vec::new();
    let mut i: usize = 0;
    while i < with_positions.len()
        invariant
            i <= with_positions@.len(),
            tokens@.len() == i,
            forall|k: int| 0 <= k < i ==> #[trigger] tokens@[k]@ == with_positions@[k].token@,
        decreases with_positions@.len() - i,
    {
        tokens.push(with_positions[i].token.clone());
        i = i + 1;
    }
    Ok(tokens)
}

fn single_token_of(c: char) -> (r: Option<Token>)
    ensures
        (match r {
            Some(t) => Some(t@),
            None => None,
        }) == single_token(c),
{
    if c == '+' {
        Some(Token::Plus)
    } else if c == '-' {
        Some(Token::Minus)
    } else if c == '*' {
        Some(Token::Multiply)
    } else if c == '/' {
        Some(Token::Divide)
    } else if c == '%' {
        Some(Token::Modulo)
    } else if c == '(' {
        Some(Token::LeftParen)
    } else if c == ')' {
        Some(Token::RightParen)
    } else if c == '{' {
        Some(Token::LeftBrace)
    } else if c == '}' {
        Some(Token::RightBrace)
    } else if c == '[' {
        Some(Token::LeftBracket)
    } else if c == ']' {
        Some(Token::RightBracket)
    } else if c == ',' {
        Some(Token::Comma)
    } else if c == ';' {
        Some(Token::Semicolon)
    } else {
        None
    }
}

/// Reads digits with at most one decimal point from `start`: the end index,
/// and the value where every digit after the point is zero and the value is
/// at most `limit`.
pub fn scan_number_at(input: &Vec<char>, start: usize, limit: u64) -> (r: (usize, Option<u64>))
    requires
        start <= input@.len(),
    ensures
        ({
            let (e, v, zero_fraction) = scan_number(input@, start as int, false, 0, true);
            &&& r.0 == e
            &&& start <= r.0 <= input@.len()
            &&& match r.1 {
                Some(x) => zero_fraction && v <= limit && x == v,
                None => !(zero_fraction && v <= limit),
            }
        }),
{
    proof {
        lemma_number_advances(input@, start as int, false, 0, true);
    }
    let ghost mut value: int = 0;
    let mut pos: usize = start;
    let mut acc: u64 = 0;
    let mut too_big = false;
    let mut has_dot = false;
    let mut zero_fraction = true;
    while pos < input.len() && (is_digit_char(input[pos]) || (input[pos] == '.' && !has_dot))
        invariant
            start <= pos <= input@.len(),
            value >= 0,
            too_big == (value > limit),
            !too_big ==> acc == value,
            scan_number(input@, start as int, false, 0, true) == scan_number(
                input@,
                pos as int,
                has_dot,
                value,
                zero_fraction,
            ),
        decreases input@.len() - pos,
    {
        let ch = input[pos];
        if is_digit_char(ch) {
            if has_dot {
                zero_fraction = zero_fraction && ch == '0';
            } else {
                let d: u64 = (ch as u32 - '0' as u32) as u64;
                assert(d == digit_value(ch));
                let ghost old_value = value;
                proof {
                    value = value * 10 + d;
                    assert(value >= old_value) by (nonlinear_arith)
                        requires
                            old_value >= 0,
                            d >= 0,
                            value == old_value * 10 + d,
                    ;
                }
                if !too_big {
                    if d > limit || acc > (limit - d) / 10 {
                        assert(value > limit) by (nonlinear_arith)
                            requires
                                d > limit || acc > (limit - d) / 10,
                                0 <= d <= 9,
                                acc >= 0,
                                value == acc * 10 + d,
                        ;
                        too_big = true;
                    } else {
                        assert(acc * 10 + d <= limit) by (nonlinear_arith)
                            requires
                                0 <= acc <= (limit - d) / 10,
                                0 <= d <= limit,
                                0 <= d <= 9,
                        ;
                        acc = acc * 10 + d;
                    }
                }
            }
        } else {
            has_dot = true;
        }
        pos = pos + 1;
    }
    assert(scan_number(input@, pos as int, has_dot, value, zero_fraction) == (
        pos as int,
        value,
        zero_fraction,
    ));
    if zero_fraction && !too_big {
        (pos, Some(acc))
    } else {
        (pos, None)
    }
}

fn escape_of(e: char) -> (r: Option<char>)
    ensures
        r == escape_char(e),
{
    if e == 'n' {
        Some('\n')
    } else if e == 't' {
        Some('\t')
    } else if e == 'r' {
        Some('\r')
    } else if e == '\\' {
        Some('\\')
    } else if e == '"' {
        Some('"')
    } else if e == '0' {
        Some('\0')
    } else {
        None
    }
}

fn is_word(w: &Vec<char>, k: &[char]) -> (r: bool)
    ensures
        r == (w@ == k@),
{
    if w.len() != k.len() {
        return false;
    }
    let mut i: usize = 0;
    while i < w.len()
        invariant
            w@.len() == k@.len(),
            i <= w@.len(),
            w@.subrange(0, i as int) == k@.subrange(0, i as int),
        decreases w@.len() - i,
    {
        if w[i] != k[i] {
            assert(w@[i as int] != k@[i as int]);
            return false;
        }
        i = i + 1;
        assert(w@.subrange(0, i as int) =~= k@.subrange(0, i as int));
    }
    assert(w@ =~= w@.subrange(0, i as int));
    assert(k@ =~= k@.subrange(0, i as int));
    true
}

} // verus!
