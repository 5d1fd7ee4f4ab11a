//! Lexical analysis: source text to a forward-only token stream.
//!
//! Each token carries the line/column position of its first character.
//! Invalid characters and unterminated strings become [`TokenKind::Invalid`]
//! tokens and append a diagnostic to the shared [`ErrorBag`]; lexing never
//! stops early, so a whole file's lexical errors are collected in one pass.

use crate::decimal::{dec_norm, Dec, DecM, MAX_SCALE};
use crate::error::{ErrorBag, LoxError};
use crate::text::{append_u64, chars_to_string, dec_digits, push_char};
use vstd::prelude::*;
use vstd::string::StringExecFns;

verus! {

/// A line/column pair, both starting at 1.
#[derive(Debug, Clone, Copy, PartialEq, Eq, Structural)]
pub struct Position {
    pub line: usize,
    pub column: usize,
}

/// The classification of one lexical unit.
#[derive(Debug, Clone)]
pub enum TokenKind {
    OpenParen,
    CloseParen,
    OpenBrace,
    CloseBrace,
    Comma,
    Dot,
    Minus,
    Plus,
    Semicolon,
    ForwardSlash,
    Asterisk,
    Percentage,
    Bang,
    NotEqual,
    Assign,
    Equal,
    GreaterThan,
    GreaterEqual,
    LessThan,
    LessEqual,
    Identifier(String),
    QuotedString(String),
    Integer(i64),
    Decimal(Dec),
    And,
    Struct,
    Else,
    False,
    Function,
    For,
    If,
    Nil,
    Or,
    Print,
    Return,
    True,
    Let,
    While,
    Comment,
    Eof,
    Invalid,
}

/// The mathematical content of a token kind: text as character sequences,
/// numbers as unbounded values.
pub enum TokenKindM {
    OpenParen,
    CloseParen,
    OpenBrace,
    CloseBrace,
    Comma,
    Dot,
    Minus,
    Plus,
    Semicolon,
    ForwardSlash,
    Asterisk,
    Percentage,
    Bang,
    NotEqual,
    Assign,
    Equal,
    GreaterThan,
    GreaterEqual,
    LessThan,
    LessEqual,
    Identifier(Seq<char>),
    QuotedString(Seq<char>),
    Integer(int),
    Decimal(DecM),
    And,
    Struct,
    Else,
    False,
    Function,
    For,
    If,
    Nil,
    Or,
    Print,
    Return,
    True,
    Let,
    While,
    Comment,
    Eof,
    Invalid,
}

impl View for TokenKind {
    type V = TokenKindM;

    open spec fn view(&self) -> TokenKindM {
        match self {
            TokenKind::OpenParen => TokenKindM::OpenParen,
            TokenKind::CloseParen => TokenKindM::CloseParen,
            TokenKind::OpenBrace => TokenKindM::OpenBrace,
            TokenKind::CloseBrace => TokenKindM::CloseBrace,
            TokenKind::Comma => TokenKindM::Comma,
            TokenKind::Dot => TokenKindM::Dot,
            TokenKind::Minus => TokenKindM::Minus,
            TokenKind::Plus => TokenKindM::Plus,
            TokenKind::Semicolon => TokenKindM::Semicolon,
            TokenKind::ForwardSlash => TokenKindM::ForwardSlash,
            TokenKind::Asterisk => TokenKindM::Asterisk,
            TokenKind::Percentage => TokenKindM::Percentage,
            TokenKind::Bang => TokenKindM::Bang,
            TokenKind::NotEqual => TokenKindM::NotEqual,
            TokenKind::Assign => TokenKindM::Assign,
            TokenKind::Equal => TokenKindM::Equal,
            TokenKind::GreaterThan => TokenKindM::GreaterThan,
            TokenKind::GreaterEqual => TokenKindM::GreaterEqual,
            TokenKind::LessThan => TokenKindM::LessThan,
            TokenKind::LessEqual => TokenKindM::LessEqual,
            TokenKind::Identifier(s) => TokenKindM::Identifier(s@),
            TokenKind::QuotedString(s) => TokenKindM::QuotedString(s@),
            TokenKind::Integer(i) => TokenKindM::Integer(*i as int),
            TokenKind::Decimal(d) => TokenKindM::Decimal(d@),
            TokenKind::And => TokenKindM::And,
            TokenKind::Struct => TokenKindM::Struct,
            TokenKind::Else => TokenKindM::Else,
            TokenKind::False => TokenKindM::False,
            TokenKind::Function => TokenKindM::Function,
            TokenKind::For => TokenKindM::For,
            TokenKind::If => TokenKindM::If,
            TokenKind::Nil => TokenKindM::Nil,
            TokenKind::Or => TokenKindM::Or,
            TokenKind::Print => TokenKindM::Print,
            TokenKind::Return => TokenKindM::Return,
            TokenKind::True => TokenKindM::True,
            TokenKind::Let => TokenKindM::Let,
            TokenKind::While => TokenKindM::While,
            TokenKind::Comment => TokenKindM::Comment,
            TokenKind::Eof => TokenKindM::Eof,
            TokenKind::Invalid => TokenKindM::Invalid,
        }
    }
}

/// One lexical unit with the position of its first character.
#[derive(Debug, Clone)]
pub struct Token {
    pub kind: TokenKind,
    pub span: Position,
}

/// The mathematical content of a token.
pub struct TokenM {
    pub kind: TokenKindM,
    pub line: int,
    pub col: int,
}

impl View for Token {
    type V = TokenM;

    open spec fn view(&self) -> TokenM {
        TokenM { kind: self.kind@, line: self.span.line as int, col: self.span.column as int }
    }
}

/// The whitespace the lexer skips between tokens.
pub open spec fn is_ws(c: char) -> bool {
    c == ' ' || c == '\t' || c == '\r' || c == '\n'
}

pub open spec fn is_digit(c: char) -> bool {
    ('0' as u32) <= (c as u32) && (c as u32) <= ('9' as u32)
}

/// A character that may start an identifier.
pub open spec fn is_ident_start(c: char) -> bool {
    (('a' as u32) <= (c as u32) && (c as u32) <= ('z' as u32)) || (('A' as u32) <= (c as u32) && (c
        as u32) <= ('Z' as u32)) || c == '_'
}

/// A character that may continue an identifier.
pub open spec fn is_ident_char(c: char) -> bool {
    is_ident_start(c) || is_digit(c)
}

pub open spec fn digit_val(c: char) -> int {
    c as u32 - '0' as u32
}

/// End of the maximal digit run starting at `i`.
pub open spec fn digits_end(s: Seq<char>, i: int) -> int
    decreases s.len() - i,
        when 0 <= i <= s.len()
{
    if i < s.len() && is_digit(s[i]) {
        digits_end(s, i + 1)
    } else {
        i
    }
}

/// End of the maximal identifier run starting at `i`.
pub open spec fn ident_end(s: Seq<char>, i: int) -> int
    decreases s.len() - i,
        when 0 <= i <= s.len()
{
    if i < s.len() && is_ident_char(s[i]) {
        ident_end(s, i + 1)
    } else {
        i
    }
}

/// Index of the first newline at or after `i`, or the input's end.
pub open spec fn line_end(s: Seq<char>, i: int) -> int
    decreases s.len() - i,
        when 0 <= i <= s.len()
{
    if i < s.len() && s[i] != '\n' {
        line_end(s, i + 1)
    } else {
        i
    }
}

/// Index of the first double quote at or after `i`, or the input's end.
pub open spec fn quote_end(s: Seq<char>, i: int) -> int
    decreases s.len() - i,
        when 0 <= i <= s.len()
{
    if i < s.len() && s[i] != '"' {
        quote_end(s, i + 1)
    } else {
        i
    }
}

/// Value of the digit run `s[from..to]`, most significant digit first.
pub open spec fn digits_val(s: Seq<char>, from: int, to: int) -> int
    decreases to - from,
        when from <= to
{
    if from >= to {
        0
    } else {
        digits_val(s, from, to - 1) * 10 + digit_val(s[to - 1])
    }
}

/// The character at `j`, with a NUL standing for out-of-range lookahead.
pub open spec fn char_at(s: Seq<char>, j: int) -> char {
    if 0 <= j < s.len() {
        s[j]
    } else {
        '\0'
    }
}

/// The fixed keyword table: an identifier's text decides its kind.
pub open spec fn keyword_kind(text: Seq<char>) -> TokenKindM {
    if text == "fn"@ {
        TokenKindM::Function
    } else if text == "struct"@ {
        TokenKindM::Struct
    } else if text == "let"@ {
        TokenKindM::Let
    } else if text == "if"@ {
        TokenKindM::If
    } else if text == "false"@ {
        TokenKindM::False
    } else if text == "true"@ {
        TokenKindM::True
    } else if text == "return"@ {
        TokenKindM::Return
    } else if text == "else"@ {
        TokenKindM::Else
    } else if text == "while"@ {
        TokenKindM::While
    } else if text == "for"@ {
        TokenKindM::For
    } else if text == "None"@ {
        TokenKindM::Nil
    } else if text == "or"@ {
        TokenKindM::Or
    } else if text == "and"@ {
        TokenKindM::And
    } else if text == "print"@ {
        TokenKindM::Print
    } else {
        TokenKindM::Identifier(text)
    }
}

pub open spec fn invalid_token_msg(c: char, line: int, col: int) -> Seq<char> {
    "Use of invalid token: "@ + seq![c] + " at line "@ + dec_digits(line as nat) + ", column "@
        + dec_digits(col as nat)
}

pub open spec fn unterminated_msg(line: int) -> Seq<char> {
    "Unterminated string at line "@ + dec_digits(line as nat)
}

pub open spec fn number_range_msg(line: int, col: int) -> Seq<char> {
    "Number literal out of range at line "@ + dec_digits(line as nat) + ", column "@ + dec_digits(
        col as nat,
    )
}

/// What scanning one token yields: its kind, how many characters it
/// spans, and the diagnostic it raises, if any.
pub struct ScanR {
    pub kind: TokenKindM,
    pub len: int,
    pub err: Option<Seq<char>>,
}

/// A number: the maximal digit run, continued past a point only when
/// another digit follows it. A literal whose mantissa cannot be stored is
/// an invalid token with a diagnostic.
pub open spec fn scan_number(s: Seq<char>, i: int, line: int, col: int) -> ScanR {
    let p = digits_end(s, i);
    if p < s.len() && s[p] == '.' && p + 1 < s.len() && is_digit(s[p + 1]) {
        let q = digits_end(s, p + 1);
        let sc = q - (p + 1);
        let mant = digits_val(s, i, p) * crate::decimal::pow10(sc as nat) + digits_val(s, p + 1, q);
        if sc <= MAX_SCALE && mant <= i64::MAX {
            ScanR { kind: TokenKindM::Decimal(dec_norm(mant, sc as nat)), len: q - i, err: None }
        } else {
            ScanR { kind: TokenKindM::Invalid, len: q - i, err: Some(number_range_msg(line, col)) }
        }
    } else {
        let v = digits_val(s, i, p);
        if v <= i64::MAX {
            ScanR { kind: TokenKindM::Integer(v), len: p - i, err: None }
        } else {
            ScanR { kind: TokenKindM::Invalid, len: p - i, err: Some(number_range_msg(line, col)) }
        }
    }
}

/// A quoted string: everything up to the next double quote; reaching the
/// input's end first is an unterminated string.
pub open spec fn scan_string(s: Seq<char>, i: int, line: int) -> ScanR {
    let j = quote_end(s, i + 1);
    if j == s.len() {
        ScanR { kind: TokenKindM::Invalid, len: s.len() - i, err: Some(unterminated_msg(line)) }
    } else {
        ScanR { kind: TokenKindM::QuotedString(s.subrange(i + 1, j)), len: j + 1 - i, err: None }
    }
}

/// Classification of the token starting at `i` (not whitespace, `i` in
/// range): its kind, length and possible diagnostic.
pub open spec fn scan_token(s: Seq<char>, i: int, line: int, col: int) -> ScanR {
    let c = s[i];
    if c == '{' {
        ScanR { kind: TokenKindM::OpenBrace, len: 1, err: None }
    } else if c == '}' {
        ScanR { kind: TokenKindM::CloseBrace, len: 1, err: None }
    } else if c == '(' {
        ScanR { kind: TokenKindM::OpenParen, len: 1, err: None }
    } else if c == ')' {
        ScanR { kind: TokenKindM::CloseParen, len: 1, err: None }
    } else if c == ',' {
        ScanR { kind: TokenKindM::Comma, len: 1, err: None }
    } else if c == ';' {
        ScanR { kind: TokenKindM::Semicolon, len: 1, err: None }
    } else if c == '+' {
        ScanR { kind: TokenKindM::Plus, len: 1, err: None }
    } else if c == '-' {
        ScanR { kind: TokenKindM::Minus, len: 1, err: None }
    } else if c == '*' {
        ScanR { kind: TokenKindM::Asterisk, len: 1, err: None }
    } else if c == '.' {
        ScanR { kind: TokenKindM::Dot, len: 1, err: None }
    } else if c == '%' {
        ScanR { kind: TokenKindM::Percentage, len: 1, err: None }
    } else if c == '=' {
        if char_at(s, i + 1) == '=' {
            ScanR { kind: TokenKindM::Equal, len: 2, err: None }
        } else {
            ScanR { kind: TokenKindM::Assign, len: 1, err: None }
        }
    } else if c == '!' {
        if char_at(s, i + 1) == '=' {
            ScanR { kind: TokenKindM::NotEqual, len: 2, err: None }
        } else {
            ScanR { kind: TokenKindM::Bang, len: 1, err: None }
        }
    } else if c == '>' {
        if char_at(s, i + 1) == '=' {
            ScanR { kind: TokenKindM::GreaterEqual, len: 2, err: None }
        } else {
            ScanR { kind: TokenKindM::GreaterThan, len: 1, err: None }
        }
    } else if c == '<' {
        if char_at(s, i + 1) == '=' {
            ScanR { kind: TokenKindM::LessEqual, len: 2, err: None }
        } else {
            ScanR { kind: TokenKindM::LessThan, len: 1, err: None }
        }
    } else if c == '/' {
        if char_at(s, i + 1) == '/' {
            ScanR { kind: TokenKindM::Comment, len: line_end(s, i) - i, err: None }
        } else {
            ScanR { kind: TokenKindM::ForwardSlash, len: 1, err: None }
        }
    } else if c == '"' {
        scan_string(s, i, line)
    } else if is_digit(c) {
        scan_number(s, i, line, col)
    } else if is_ident_start(c) {
        let j = ident_end(s, i);
        ScanR { kind: keyword_kind(s.subrange(i, j)), len: j - i, err: None }
    } else {
        ScanR { kind: TokenKindM::Invalid, len: 1, err: Some(invalid_token_msg(c, line, col)) }
    }
}

/// Position state after skipping whitespace: a newline starts the next
/// line at column 1, any other whitespace widens the column.
pub struct WsR {
    pub i: int,
    pub line: int,
    pub col: int,
}

pub open spec fn skip_ws(s: Seq<char>, i: int, line: int, col: int) -> WsR
    decreases s.len() - i,
        when 0 <= i <= s.len()
{
    if i < s.len() && is_ws(s[i]) {
        if s[i] == '\n' {
            skip_ws(s, i + 1, line + 1, 1)
        } else {
            skip_ws(s, i + 1, line, col + 1)
        }
    } else {
        WsR { i: i, line: line, col: col }
    }
}

/// One call of `next_token`: skip whitespace, then either the end of the
/// input or one scanned token with the position where it starts.
pub struct StepR {
    pub tok: Option<TokenM>,
    pub i2: int,
    pub line2: int,
    pub col2: int,
    pub err: Option<Seq<char>>,
}

pub open spec fn lex_step(s: Seq<char>, i: int, line: int, col: int) -> StepR {
    let w = skip_ws(s, i, line, col);
    if w.i == s.len() {
        StepR { tok: None, i2: w.i, line2: w.line, col2: w.col, err: None }
    } else {
        let sc = scan_token(s, w.i, w.line, w.col);
        StepR {
            tok: Some(TokenM { kind: sc.kind, line: w.line, col: w.col }),
            i2: w.i + sc.len,
            line2: w.line,
            col2: w.col + sc.len,
            err: sc.err,
        }
    }
}

fn is_ws_exec(c: char) -> (b: bool)
    ensures
        b == is_ws(c),
{
    c == ' ' || c == '\t' || c == '\r' || c == '\n'
}

/// Consumes source text from the front, one token per call.
pub struct Lexer {
    input: Vec<char>,
    base: usize,
    cursor: usize,
    span: Position,
}

impl Lexer {
    /// The whole source text.
    pub closed spec fn src(self) -> Seq<char> {
        self.input@
    }

    /// Index of the first unconsumed character.
    pub closed spec fn pos(self) -> int {
        self.base as int
    }

    /// Scratch lookahead offset, relative to [`Self::pos`].
    pub closed spec fn cur(self) -> int {
        self.cursor as int
    }

    pub closed spec fn line(self) -> int {
        self.span.line as int
    }

    pub closed spec fn col(self) -> int {
        self.span.column as int
    }

    /// The lexer never runs past the input, and the position counters
    /// stay small enough that no counter update can overflow.
    pub closed spec fn wf(self) -> bool {
        &&& self.pos() + self.cur() <= self.src().len()
        &&& self.pos() <= self.src().len()
        &&& self.src().len() < usize::MAX
        &&& 1 <= self.line() <= self.pos() + 1
        &&& 1 <= self.col() <= self.pos() + 1
    }

    pub fn new(file_contents: String) -> (lx: Lexer)
        requires
            file_contents@.len() < usize::MAX,
        ensures
            lx.wf(),
            lx.src() == file_contents@,
            lx.pos() == 0,
            lx.cur() == 0,
            lx.line() == 1,
            lx.col() == 1,
    {
        Lexer {
            input: crate::text::to_char_vec(file_contents.as_str()),
            base: 0,
            cursor: 0,
            span: Position { line: 1, column: 1 },
        }
    }

    /// The character one past the lookahead cursor, NUL at the end.
    fn peek(&self) -> (c: char)
        requires
            self.wf(),
        ensures
            c == char_at(self.src(), self.pos() + self.cur() + 1),
    {
        let j = self.base + self.cursor;
        if j + 1 < self.input.len() {
            self.input[j + 1]
        } else {
            '\0'
        }
    }

    /// Widens the current token by one character, never past the input.
    fn advance_cursor(&mut self)
        requires
            old(self).wf(),
        ensures
            final(self).wf(),
            final(self).src() == old(self).src(),
            final(self).pos() == old(self).pos(),
            final(self).line() == old(self).line(),
            final(self).col() == old(self).col(),
            final(self).cur() == if old(self).pos() + old(self).cur() < old(self).src().len() {
                old(self).cur() + 1
            } else {
                old(self).cur()
            },
    {
        if self.cursor < self.input.len() - self.base {
            self.cursor = self.cursor + 1;
        }
    }

    /// Consumes `length` characters and resets the lookahead cursor.
    fn chomp(&mut self, length: usize)
        requires
            old(self).wf(),
            old(self).pos() + length <= old(self).src().len(),
        ensures
            final(self).wf(),
            final(self).src() == old(self).src(),
            final(self).pos() == old(self).pos() + length,
            final(self).cur() == 0,
            final(self).line() == old(self).line(),
            final(self).col() == old(self).col(),
    {
        self.base = self.base + length;
        self.cursor = 0;
    }

    /// Skips whitespace, counting lines and columns as it goes.
    #[verifier::loop_isolation(false)]
    fn skip_whitespace(&mut self)
        requires
            old(self).wf(),
            old(self).cur() == 0,
        ensures
            final(self).wf(),
            final(self).src() == old(self).src(),
            final(self).cur() == old(self).cur(),
            (WsR { i: final(self).pos(), line: final(self).line(), col: final(self).col() })
                == skip_ws(old(self).src(), old(self).pos(), old(self).line(), old(self).col()),
            final(self).pos() == final(self).src().len() || !is_ws(
                final(self).src()[final(self).pos()],
            ),
    {
        while self.base < self.input.len() && is_ws_exec(self.input[self.base])
            invariant
                self.wf(),
                self.src() == old(self).src(),
                self.cur() == old(self).cur(),
                skip_ws(self.src(), self.pos(), self.line(), self.col()) == skip_ws(
                    old(self).src(),
                    old(self).pos(),
                    old(self).line(),
                    old(self).col(),
                ),
            decreases self.input.len() - self.base,
        {
            if self.input[self.base] == '\n' {
                self.span.line = self.span.line + 1;
                self.span.column = 1;
            } else {
                self.span.column = self.span.column + 1;
            }
            self.base = self.base + 1;
        }
    }
}


fn is_digit_exec(c: char) -> (b: bool)
    ensures
        b == is_digit(c),
{
    (c as u32) >= ('0' as u32) && (c as u32) <= ('9' as u32)
}

fn is_ident_start_exec(c: char) -> (b: bool)
    ensures
        b == is_ident_start(c),
{
    ((c as u32) >= ('a' as u32) && (c as u32) <= ('z' as u32)) || ((c as u32) >= ('A' as u32) && (c
        as u32) <= ('Z' as u32)) || c == '_'
}

fn is_ident_char_exec(c: char) -> (b: bool)
    ensures
        b == is_ident_char(c),
{
    is_ident_start_exec(c) || is_digit_exec(c)
}

/// The maximal digit run ends inside the input and holds only digits.
proof fn lemma_digits_end_props(s: Seq<char>, i: int)
    requires
        0 <= i <= s.len(),
    ensures
        i <= digits_end(s, i) <= s.len(),
        forall|k: int| i <= k < digits_end(s, i) ==> is_digit(s[k]),
    decreases s.len() - i,
{
    if i < s.len() && is_digit(s[i]) {
        lemma_digits_end_props(s, i + 1);
    }
}

/// The value of a digit run is non-negative and below ten to its length.
proof fn lemma_digits_val_bound(s: Seq<char>, from: int, to: int)
    requires
        from <= to,
        forall|k: int| from <= k < to ==> is_digit(s[k]),
    ensures
        0 <= digits_val(s, from, to) < crate::decimal::pow10((to - from) as nat),
    decreases to - from,
{
    if from >= to {
    } else {
        lemma_digits_val_bound(s, from, to - 1);
        assert(crate::decimal::pow10((to - from) as nat) == 10 * crate::decimal::pow10(
            ((to - from) - 1) as nat,
        ));
        assert(is_digit(s[to - 1]));
        assert(0 <= digit_val(s[to - 1]) <= 9);
    }
}

/// Reads the digit run `buf[from..to]` as a number; the flag says whether
/// its value stays within `i64`.
fn digits_to_val(buf: &Vec<char>, from: usize, to: usize) -> (r: (u64, bool))
    requires
        from <= to <= buf@.len(),
        forall|k: int| from <= k < to ==> is_digit(buf@[k]),
    ensures
        r.1 == (digits_val(buf@, from as int, to as int) <= i64::MAX),
        r.1 ==> r.0 == digits_val(buf@, from as int, to as int),
{
    let ghost s = buf@;
    let mut acc: u64 = 0;
    let mut ok: bool = true;
    let mut j: usize = from;
    while j < to
        invariant
            from <= j <= to <= buf@.len(),
            buf@ == s,
            forall|k: int| from <= k < to ==> is_digit(s[k]),
            0 <= digits_val(s, from as int, j as int),
            ok ==> acc == digits_val(s, from as int, j as int) && acc <= i64::MAX,
            !ok ==> digits_val(s, from as int, j as int) > i64::MAX,
        decreases to - j,
    {
        let d = (buf[j] as u32 - '0' as u32) as u64;
        if ok {
            if acc > (i64::MAX as u64 - d) / 10 {
                proof {
                    vstd::arithmetic::div_mod::lemma_fundamental_div_mod(i64::MAX - d, 10);
                }
                ok = false;
            } else {
                acc = acc * 10 + d;
            }
        }
        j = j + 1;
    }
    (acc, ok)
}


fn invalid_token_message(c: char, line: usize, column: usize) -> (m: String)
    ensures
        m@ == invalid_token_msg(c, line as int, column as int),
{
    proof {
        reveal_strlit("Use of invalid token: ");
        reveal_strlit(" at line ");
        reveal_strlit(", column ");
    }
    let mut m = String::from_str("Use of invalid token: ");
    push_char(&mut m, c);
    m.append(" at line ");
    append_u64(&mut m, line as u64);
    m.append(", column ");
    append_u64(&mut m, column as u64);
    proof {
        assert(m@ =~= invalid_token_msg(c, line as int, column as int));
    }
    m
}

fn unterminated_message(line: usize) -> (m: String)
    ensures
        m@ == unterminated_msg(line as int),
{
    proof {
        reveal_strlit("Unterminated string at line ");
    }
    let mut m = String::from_str("Unterminated string at line ");
    append_u64(&mut m, line as u64);
    proof {
        assert(m@ =~= unterminated_msg(line as int));
    }
    m
}

fn number_range_message(line: usize, column: usize) -> (m: String)
    ensures
        m@ == number_range_msg(line as int, column as int),
{
    proof {
        reveal_strlit("Number literal out of range at line ");
        reveal_strlit(", column ");
    }
    let mut m = String::from_str("Number literal out of range at line ");
    append_u64(&mut m, line as u64);
    m.append(", column ");
    append_u64(&mut m, column as u64);
    proof {
        assert(m@ =~= number_range_msg(line as int, column as int));
    }
    m
}

/// The keyword table, applied to a just-read identifier's text.
fn keyword_or_identifier(text: String) -> (k: TokenKind)
    ensures
        k@ == keyword_kind(text@),
{
    proof {
        reveal_strlit("fn");
        reveal_strlit("struct");
        reveal_strlit("let");
        reveal_strlit("if");
        reveal_strlit("false");
        reveal_strlit("true");
        reveal_strlit("return");
        reveal_strlit("else");
        reveal_strlit("while");
        reveal_strlit("for");
        reveal_strlit("None");
        reveal_strlit("or");
        reveal_strlit("and");
        reveal_strlit("print");
    }
    if text == String::from_str("fn") {
        TokenKind::Function
    } else if text == String::from_str("struct") {
        TokenKind::Struct
    } else if text == String::from_str("let") {
        TokenKind::Let
    } else if text == String::from_str("if") {
        TokenKind::If
    } else if text == String::from_str("false") {
        TokenKind::False
    } else if text == String::from_str("true") {
        TokenKind::True
    } else if text == String::from_str("return") {
        TokenKind::Return
    } else if text == String::from_str("else") {
        TokenKind::Else
    } else if text == String::from_str("while") {
        TokenKind::While
    } else if text == String::from_str("for") {
        TokenKind::For
    } else if text == String::from_str("None") {
        TokenKind::Nil
    } else if text == String::from_str("or") {
        TokenKind::Or
    } else if text == String::from_str("and") {
        TokenKind::And
    } else if text == String::from_str("print") {
        TokenKind::Print
    } else {
        TokenKind::Identifier(text)
    }
}


impl Lexer {
    /// A line comment: everything up to, but not including, the next
    /// newline.
    #[verifier::loop_isolation(false)]
    fn read_comment(&mut self) -> (r: (TokenKind, usize))
        requires
            old(self).wf(),
            old(self).cur() == 0,
            old(self).pos() < old(self).src().len(),
            old(self).src()[old(self).pos()] == '/',
        ensures
            final(self).wf(),
            final(self).src() == old(self).src(),
            final(self).pos() == old(self).pos(),
            final(self).line() == old(self).line(),
            final(self).col() == old(self).col(),
            r.0@ == TokenKindM::Comment,
            r.1 == line_end(old(self).src(), old(self).pos()) - old(self).pos(),
            1 <= r.1 && old(self).pos() + r.1 <= old(self).src().len(),
    {
        while self.base + self.cursor < self.input.len() && self.input[self.base + self.cursor]
            != '\n'
            invariant
                self.wf(),
                self.src() == old(self).src(),
                self.pos() == old(self).pos(),
                self.line() == old(self).line(),
                self.col() == old(self).col(),
                line_end(self.src(), self.pos()) == line_end(self.src(), self.pos() + self.cur()),
            decreases self.input.len() - self.base - self.cursor,
        {
            self.advance_cursor();
        }
        (TokenKind::Comment, self.cursor)
    }

    /// An identifier or keyword: the maximal run of letters, digits and
    /// underscores, looked up in the keyword table.
    #[verifier::loop_isolation(false)]
    fn read_identifier(&mut self) -> (r: (TokenKind, usize))
        requires
            old(self).wf(),
            old(self).cur() == 0,
            old(self).pos() < old(self).src().len(),
            is_ident_start(old(self).src()[old(self).pos()]),
        ensures
            final(self).wf(),
            final(self).src() == old(self).src(),
            final(self).pos() == old(self).pos(),
            final(self).line() == old(self).line(),
            final(self).col() == old(self).col(),
            ({
                let j = ident_end(old(self).src(), old(self).pos());
                r.0@ == keyword_kind(old(self).src().subrange(old(self).pos(), j)) && r.1 == j
                    - old(self).pos()
            }),
            1 <= r.1 && old(self).pos() + r.1 <= old(self).src().len(),
    {
        while self.base + self.cursor < self.input.len() && is_ident_char_exec(
            self.input[self.base + self.cursor],
        )
            invariant
                self.wf(),
                self.src() == old(self).src(),
                self.pos() == old(self).pos(),
                self.line() == old(self).line(),
                self.col() == old(self).col(),
                ident_end(self.src(), self.pos()) == ident_end(self.src(), self.pos() + self.cur()),
            decreases self.input.len() - self.base - self.cursor,
        {
            self.advance_cursor();
        }
        let text = chars_to_string(&self.input, self.base, self.base + self.cursor);
        (keyword_or_identifier(text), self.cursor)
    }

    /// A quoted string: the characters between the quotes, or an invalid
    /// token and a diagnostic when the input ends before the closing
    /// quote.
    #[verifier::loop_isolation(false)]
    fn read_quoted_string(&mut self, error_bag: &mut ErrorBag) -> (r: (TokenKind, usize))
        requires
            old(self).wf(),
            old(self).cur() == 0,
            old(self).pos() < old(self).src().len(),
        ensures
            final(self).wf(),
            final(self).src() == old(self).src(),
            final(self).pos() == old(self).pos(),
            final(self).line() == old(self).line(),
            final(self).col() == old(self).col(),
            ({
                let sc = scan_string(old(self).src(), old(self).pos(), old(self).line());
                &&& r.0@ == sc.kind
                &&& r.1 == sc.len
                &&& bag_pushed(old(error_bag).errors@, final(error_bag).errors@, sc.err)
            }),
            1 <= r.1 && old(self).pos() + r.1 <= old(self).src().len(),
    {
        while self.base + self.cursor + 1 < self.input.len() && self.input[self.base + self.cursor
            + 1] != '"'
            invariant
                self.wf(),
                self.src() == old(self).src(),
                self.pos() == old(self).pos(),
                self.line() == old(self).line(),
                self.col() == old(self).col(),
                self.pos() + self.cur() + 1 <= self.src().len(),
                quote_end(self.src(), self.pos() + 1) == quote_end(
                    self.src(),
                    self.pos() + self.cur() + 1,
                ),
            decreases self.input.len() - self.base - self.cursor,
        {
            self.advance_cursor();
        }
        if self.base + self.cursor + 1 == self.input.len() {
            let msg = unterminated_message(self.span.line);
            error_bag.errors.push(LoxError::LexerError(msg));
            proof {
                assert(final(error_bag).errors@.take(old(error_bag).errors@.len() as int)
                    =~= old(error_bag).errors@);
            }
            (TokenKind::Invalid, self.input.len() - self.base)
        } else {
            let j = self.base + self.cursor + 1;
            let content = chars_to_string(&self.input, self.base + 1, j);
            (TokenKind::QuotedString(content), self.cursor + 2)
        }
    }

    /// A number literal: a digit run, continued past a point when another
    /// digit follows. A value outside the representable range becomes an
    /// invalid token and a diagnostic.
    #[verifier::loop_isolation(false)]
    fn read_number(&mut self, error_bag: &mut ErrorBag) -> (r: (TokenKind, usize))
        requires
            old(self).wf(),
            old(self).cur() == 0,
            old(self).pos() < old(self).src().len(),
            is_digit(old(self).src()[old(self).pos()]),
        ensures
            final(self).wf(),
            final(self).src() == old(self).src(),
            final(self).pos() == old(self).pos(),
            final(self).line() == old(self).line(),
            final(self).col() == old(self).col(),
            ({
                let sc = scan_number(
                    old(self).src(),
                    old(self).pos(),
                    old(self).line(),
                    old(self).col(),
                );
                &&& r.0@ == sc.kind
                &&& r.1 == sc.len
                &&& bag_pushed(old(error_bag).errors@, final(error_bag).errors@, sc.err)
            }),
            1 <= r.1 && old(self).pos() + r.1 <= old(self).src().len(),
    {
        let ghost s = self.src();
        let ghost i0 = self.pos();
        while self.base + self.cursor < self.input.len() && is_digit_exec(self.peek())
            invariant
                self.wf(),
                self.src() == s,
                self.pos() == i0,
                self.line() == old(self).line(),
                self.col() == old(self).col(),
                self.pos() + self.cur() < self.src().len(),
                forall|k: int| i0 <= k <= i0 + self.cur() ==> is_digit(s[k]),
                digits_end(s, i0) == digits_end(s, i0 + self.cur() + 1),
            decreases self.input.len() - self.base - self.cursor,
        {
            self.advance_cursor();
        }
        let p_abs = self.base + self.cursor + 1;
        let ghost p = p_abs as int;
        proof {
            assert(digits_end(s, p) == p);
            assert(p == digits_end(s, i0));
        }
        if p_abs < self.input.len() && self.input[p_abs] == '.' && p_abs + 1 < self.input.len()
            && is_digit_exec(self.input[p_abs + 1]) {
            self.advance_cursor();
            while self.base + self.cursor < self.input.len() && is_digit_exec(self.peek())
                invariant
                    self.wf(),
                    self.src() == s,
                    self.pos() == i0,
                    self.line() == old(self).line(),
                    self.col() == old(self).col(),
                    self.pos() + self.cur() < self.src().len(),
                    p < self.pos() + self.cur() + 1,
                    forall|k: int| p + 1 <= k <= i0 + self.cur() ==> is_digit(s[k]),
                    digits_end(s, p + 1) == digits_end(s, i0 + self.cur() + 1),
                decreases self.input.len() - self.base - self.cursor,
            {
                self.advance_cursor();
            }
            let q_abs = self.base + self.cursor + 1;
            let ghost q = q_abs as int;
            proof {
                assert(digits_end(s, q) == q);
                assert(q == digits_end(s, p + 1));
                lemma_digits_val_bound(s, i0, p);
                lemma_digits_val_bound(s, p + 1, q);
            }
            let fl = q_abs - (p_abs + 1);
            let r_int = digits_to_val(&self.input, self.base, p_abs);
            if !r_int.1 || fl > 18 {
                proof {
                    if !r_int.1 {
                        crate::decimal::lemma_pow10_pos((q - p - 1) as nat);
                        assert(digits_val(s, i0, p) * crate::decimal::pow10((q - p - 1) as nat)
                            >= digits_val(s, i0, p)) by (nonlinear_arith)
                            requires
                                digits_val(s, i0, p) >= 0,
                                crate::decimal::pow10((q - p - 1) as nat) >= 1,
                        ;
                    }
                }
                let msg = number_range_message(self.span.line, self.span.column);
                error_bag.errors.push(LoxError::LexerError(msg));
                proof {
                    assert(final(error_bag).errors@.take(old(error_bag).errors@.len() as int)
                        =~= old(error_bag).errors@);
                }
                (TokenKind::Invalid, q_abs - self.base)
            } else {
                let r_frac = digits_to_val(&self.input, p_abs + 1, q_abs);
                proof {
                    crate::decimal::lemma_pow10_le((q - p - 1) as nat, 18);
                    crate::decimal::lemma_pow10_18();
                }
                let p10 = crate::decimal::pow10_u64(fl as u32);
                proof {
                    assert(r_int.0 as int * p10 as int <= i64::MAX * 1_000_000_000_000_000_000int)
                        by (nonlinear_arith)
                        requires
                            0 <= r_int.0 as int <= i64::MAX,
                            0 <= p10 as int <= 1_000_000_000_000_000_000int,
                    ;
                    assert(r_int.0 as int * p10 as int >= 0) by (nonlinear_arith)
                        requires
                            0 <= r_int.0 as int,
                            0 <= p10 as int,
                    ;
                }
                let mant_i = r_int.0 as i128 * p10 as i128 + r_frac.0 as i128;
                if mant_i <= i64::MAX as i128 {
                    (TokenKind::Decimal(Dec::new(mant_i as i64, fl as u32)), q_abs - self.base)
                } else {
                    let msg = number_range_message(self.span.line, self.span.column);
                    error_bag.errors.push(LoxError::LexerError(msg));
                    proof {
                        assert(final(error_bag).errors@.take(old(error_bag).errors@.len() as int)
                            =~= old(error_bag).errors@);
                    }
                    (TokenKind::Invalid, q_abs - self.base)
                }
            }
        } else {
            let r_int = digits_to_val(&self.input, self.base, p_abs);
            if r_int.1 {
                (TokenKind::Integer(r_int.0 as i64), self.cursor + 1)
            } else {
                let msg = number_range_message(self.span.line, self.span.column);
                error_bag.errors.push(LoxError::LexerError(msg));
                proof {
                    assert(final(error_bag).errors@.take(old(error_bag).errors@.len() as int)
                        =~= old(error_bag).errors@);
                }
                (TokenKind::Invalid, self.cursor + 1)
            }
        }
    }
}


impl Lexer {
    /// Produces the next token, `None` at the end of the input.
    ///
    /// Whitespace before the token is skipped while lines and columns are
    /// counted; the token records the position of its first character.
    /// A lexical fault appends one diagnostic to `error_bag` and yields an
    /// [`TokenKind::Invalid`] token instead of stopping the stream.
    pub fn next_token(&mut self, error_bag: &mut ErrorBag) -> (t: Option<Token>)
        requires
            old(self).wf(),
            old(self).cur() == 0,
        ensures
            final(self).wf(),
            final(self).cur() == 0,
            final(self).src() == old(self).src(),
            ({
                let st = lex_step(
                    old(self).src(),
                    old(self).pos(),
                    old(self).line(),
                    old(self).col(),
                );
                &&& final(self).pos() == st.i2
                &&& final(self).line() == st.line2
                &&& final(self).col() == st.col2
                &&& bag_pushed(old(error_bag).errors@, final(error_bag).errors@, st.err)
                &&& match (t, st.tok) {
                    (Option::None, Option::None) => true,
                    (Option::Some(tok), Option::Some(tm)) => tok@ == tm,
                    _ => false,
                }
            }),
    {
        self.skip_whitespace();
        if self.base == self.input.len() {
            return Option::None;
        }
        let c = self.input[self.base];
        let line0 = self.span.line;
        let col0 = self.span.column;
        let (kind, length): (TokenKind, usize) = if c == '{' {
            (TokenKind::OpenBrace, 1)
        } else if c == '}' {
            (TokenKind::CloseBrace, 1)
        } else if c == '(' {
            (TokenKind::OpenParen, 1)
        } else if c == ')' {
            (TokenKind::CloseParen, 1)
        } else if c == ',' {
            (TokenKind::Comma, 1)
        } else if c == ';' {
            (TokenKind::Semicolon, 1)
        } else if c == '+' {
            (TokenKind::Plus, 1)
        } else if c == '-' {
            (TokenKind::Minus, 1)
        } else if c == '*' {
            (TokenKind::Asterisk, 1)
        } else if c == '.' {
            (TokenKind::Dot, 1)
        } else if c == '%' {
            (TokenKind::Percentage, 1)
        } else if c == '=' {
            if self.peek() == '=' {
                (TokenKind::Equal, 2)
            } else {
                (TokenKind::Assign, 1)
            }
        } else if c == '!' {
            if self.peek() == '=' {
                (TokenKind::NotEqual, 2)
            } else {
                (TokenKind::Bang, 1)
            }
        } else if c == '>' {
            if self.peek() == '=' {
                (TokenKind::GreaterEqual, 2)
            } else {
                (TokenKind::GreaterThan, 1)
            }
        } else if c == '<' {
            if self.peek() == '=' {
                (TokenKind::LessEqual, 2)
            } else {
                (TokenKind::LessThan, 1)
            }
        } else if c == '/' {
            if self.peek() == '/' {
                self.read_comment()
            } else {
                (TokenKind::ForwardSlash, 1)
            }
        } else if c == '"' {
            self.read_quoted_string(error_bag)
        } else if is_digit_exec(c) {
            self.read_number(error_bag)
        } else if is_ident_start_exec(c) {
            self.read_identifier()
        } else {
            let msg = invalid_token_message(c, line0, col0);
            error_bag.errors.push(LoxError::LexerError(msg));
            proof {
                assert(final(error_bag).errors@.take(old(error_bag).errors@.len() as int)
                    =~= old(error_bag).errors@);
            }
            (TokenKind::Invalid, 1)
        };
        self.chomp(length);
        self.span.column = col0 + length;
        Option::Some(Token { kind: kind, span: Position { line: line0, column: col0 } })
    }
}


proof fn lemma_ident_end_props(s: Seq<char>, i: int)
    requires
        0 <= i <= s.len(),
    ensures
        i <= ident_end(s, i) <= s.len(),
    decreases s.len() - i,
{
    if i < s.len() && is_ident_char(s[i]) {
        lemma_ident_end_props(s, i + 1);
    }
}

proof fn lemma_line_end_props(s: Seq<char>, i: int)
    requires
        0 <= i <= s.len(),
    ensures
        i <= line_end(s, i) <= s.len(),
    decreases s.len() - i,
{
    if i < s.len() && s[i] != '\n' {
        lemma_line_end_props(s, i + 1);
    }
}

proof fn lemma_quote_end_props(s: Seq<char>, i: int)
    requires
        0 <= i <= s.len(),
    ensures
        i <= quote_end(s, i) <= s.len(),
    decreases s.len() - i,
{
    if i < s.len() && s[i] != '"' {
        lemma_quote_end_props(s, i + 1);
    }
}

proof fn lemma_skip_ws_range(s: Seq<char>, i: int, line: int, col: int)
    requires
        0 <= i <= s.len(),
    ensures
        i <= skip_ws(s, i, line, col).i <= s.len(),
    decreases s.len() - i,
{
    if i < s.len() && is_ws(s[i]) {
        if s[i] == '\n' {
            lemma_skip_ws_range(s, i + 1, line + 1, 1);
        } else {
            lemma_skip_ws_range(s, i + 1, line, col + 1);
        }
    }
}

/// Each produced token consumes at least one character, and never more
/// than the input holds: the token stream is finite.
pub proof fn lemma_lex_step_progress(s: Seq<char>, i: int, line: int, col: int)
    requires
        0 <= i <= s.len(),
    ensures
        ({
            let st = lex_step(s, i, line, col);
            &&& i <= st.i2 <= s.len()
            &&& (st.tok is Some ==> i < st.i2)
        }),
{
    lemma_skip_ws_range(s, i, line, col);
    let w = skip_ws(s, i, line, col);
    if w.i < s.len() {
        let c = s[w.i];
        if c == '/' && char_at(s, w.i + 1) == '/' {
            lemma_line_end_props(s, w.i + 1);
            assert(line_end(s, w.i) == line_end(s, w.i + 1));
        } else if c == '"' {
            lemma_quote_end_props(s, w.i + 1);
        } else if is_digit(c) {
            lemma_digits_end_props(s, w.i + 1);
            assert(digits_end(s, w.i) == digits_end(s, w.i + 1));
            let p = digits_end(s, w.i);
            if p < s.len() && s[p] == '.' && p + 1 < s.len() && is_digit(s[p + 1]) {
                lemma_digits_end_props(s, p + 2);
                assert(digits_end(s, p + 1) == digits_end(s, p + 2));
            }
        } else if is_ident_start(c) {
            lemma_ident_end_props(s, w.i + 1);
            assert(ident_end(s, w.i) == ident_end(s, w.i + 1));
        }
    }
}

/// The whole token stream from a given state, with the diagnostics the
/// lexer raises along the way, in order.
pub struct LexAll {
    pub toks: Seq<TokenM>,
    pub errs: Seq<Seq<char>>,
}

pub open spec fn lex_all(s: Seq<char>, i: int, line: int, col: int) -> LexAll
    decreases s.len() - i,
        when 0 <= i <= s.len()
{
    let st = lex_step(s, i, line, col);
    match st.tok {
        Option::None => LexAll { toks: Seq::empty(), errs: Seq::empty() },
        Option::Some(tm) => {
            if i < st.i2 <= s.len() {
                let rest = lex_all(s, st.i2, st.line2, st.col2);
                LexAll {
                    toks: seq![tm] + rest.toks,
                    errs: match st.err {
                        Option::None => rest.errs,
                        Option::Some(m) => seq![m] + rest.errs,
                    },
                }
            } else {
                LexAll { toks: Seq::empty(), errs: Seq::empty() }
            }
        },
    }
}

/// The tokens the parser sees: comments and invalid tokens are dropped.
pub open spec fn keep_token(k: TokenKindM) -> bool {
    !(k is Comment) && !(k is Invalid)
}

pub open spec fn filtered(toks: Seq<TokenM>) -> Seq<TokenM>
    decreases toks.len(),
{
    if toks.len() == 0 {
        Seq::empty()
    } else if keep_token(toks.first().kind) {
        seq![toks.first()] + filtered(toks.drop_first())
    } else {
        filtered(toks.drop_first())
    }
}

/// How a whole lexing run changes the error bag: one lexical diagnostic
/// per raised message, appended in order.
pub open spec fn bag_pushed_many(
    before: Seq<LoxError>,
    after: Seq<LoxError>,
    msgs: Seq<Seq<char>>,
) -> bool {
    &&& after.len() == before.len() + msgs.len()
    &&& after.take(before.len() as int) == before
    &&& forall|j: int|
        0 <= j < msgs.len() ==> ((#[trigger] after[before.len() + j]) matches LoxError::LexerError(
            m,
        ) && m@ == msgs[j])
}


/// The messages a step may add, as a sequence.
pub open spec fn errs_of(err: Option<Seq<char>>) -> Seq<Seq<char>> {
    match err {
        Option::None => Seq::empty(),
        Option::Some(m) => seq![m],
    }
}

/// Appending one step's diagnostic to an already-extended bag extends it
/// by the combined message list.
proof fn lemma_bag_push_compose(
    b0: Seq<LoxError>,
    b1: Seq<LoxError>,
    b2: Seq<LoxError>,
    msgs: Seq<Seq<char>>,
    err: Option<Seq<char>>,
)
    requires
        bag_pushed_many(b0, b1, msgs),
        bag_pushed(b1, b2, err),
    ensures
        bag_pushed_many(b0, b2, msgs + errs_of(err)),
{
    match err {
        Option::None => {
            assert(msgs + errs_of(err) =~= msgs);
        },
        Option::Some(m) => {
            let all = msgs + errs_of(err);
            assert(all.len() == msgs.len() + 1);
            assert(b2.take(b1.len() as int) == b1);
            assert(forall|k: int| 0 <= k < b1.len() ==> b2[k] == b1[k]) by {
                assert(forall|k: int|
                    0 <= k < b1.len() ==> b2[k] == b2.take(b1.len() as int)[k]);
            }
            assert(b2.take(b0.len() as int) =~= b0);
            assert(forall|j: int|
                0 <= j < all.len() ==> ((#[trigger] b2[b0.len() + j])
                    matches LoxError::LexerError(t) && t@ == all[j])) by {
                assert(forall|j: int|
                    0 <= j < msgs.len() ==> #[trigger] b2[b0.len() + j] == b1[b0.len() + j]);
                assert(b2[(b0.len() + msgs.len()) as int] == b2.last());
                assert(all[msgs.len() as int] == m);
            }
        },
    }
}

impl Lexer {
    /// Lexes the rest of the input, handing back the tokens the parser
    /// consumes: every token but comments and invalid ones, in order.
    /// Each diagnostic the lexer raises lands in `error_bag`.
    #[verifier::loop_isolation(false)]
    pub fn tokenize(&mut self, error_bag: &mut ErrorBag) -> (toks: Vec<Token>)
        requires
            old(self).wf(),
            old(self).cur() == 0,
        ensures
            final(self).wf(),
            final(self).src() == old(self).src(),
            ({
                let all = lex_all(
                    old(self).src(),
                    old(self).pos(),
                    old(self).line(),
                    old(self).col(),
                );
                &&& toks@.map_values(|t: Token| t@) == filtered(all.toks)
                &&& bag_pushed_many(old(error_bag).errors@, final(error_bag).errors@, all.errs)
            }),
    {
        let ghost s = self.src();
        let ghost all = lex_all(s, self.pos(), self.line(), self.col());
        let mut toks: Vec<Token> = Vec::new();
        let ghost errs_done: Seq<Seq<char>> = Seq::empty();
        proof {
            assert(error_bag.errors@.take(error_bag.errors@.len() as int) =~= error_bag.errors@);
        }
        let mut done = false;
        while !done
            invariant
                self.wf(),
                self.cur() == 0,
                self.src() == s,
                toks@.map_values(|t: Token| t@) + filtered(
                    lex_all(s, self.pos(), self.line(), self.col()).toks,
                ) == filtered(all.toks),
                errs_done + lex_all(s, self.pos(), self.line(), self.col()).errs == all.errs,
                bag_pushed_many(old(error_bag).errors@, error_bag.errors@, errs_done),
                done ==> lex_step(s, self.pos(), self.line(), self.col()).tok is None,
            decreases
                    (if done {
                        0int
                    } else {
                        1int
                    }),
                    s.len() - self.pos(),
        {
            let ghost pre_i = self.pos();
            let ghost pre_line = self.line();
            let ghost pre_col = self.col();
            let ghost pre_bag = error_bag.errors@;
            let ghost pre_toks = toks@;
            proof {
                lemma_lex_step_progress(s, pre_i, pre_line, pre_col);
            }
            let ghost st = lex_step(s, pre_i, pre_line, pre_col);
            let ghost here = lex_all(s, pre_i, pre_line, pre_col);
            match self.next_token(error_bag) {
                Option::None => {
                    done = true;
                },
                Option::Some(tok) => {
                    proof {
                        lemma_bag_push_compose(
                            old(error_bag).errors@,
                            pre_bag,
                            error_bag.errors@,
                            errs_done,
                            st.err,
                        );
                    }
                    let ghost rest = lex_all(s, st.i2, st.line2, st.col2);
                    proof {
                        assert(here.toks == seq![tok@] + rest.toks);
                        assert(here.errs =~= errs_of(st.err) + rest.errs);
                        assert((seq![tok@] + rest.toks).first() == tok@);
                        assert((seq![tok@] + rest.toks).drop_first() =~= rest.toks);
                        assert((errs_done + errs_of(st.err)) + rest.errs =~= errs_done
                            + here.errs);
                    }
                    let keep = match tok.kind {
                        TokenKind::Comment => false,
                        TokenKind::Invalid => false,
                        _ => true,
                    };
                    if keep {
                        toks.push(tok);
                        proof {
                            assert(toks@.map_values(|t: Token| t@) =~= pre_toks.map_values(
                                |t: Token| t@,
                            ).push(tok@));
                            assert(pre_toks.map_values(|t: Token| t@).push(tok@) + filtered(
                                rest.toks,
                            ) =~= pre_toks.map_values(|t: Token| t@) + (seq![tok@] + filtered(
                                rest.toks,
                            )));
                        }
                    }
                    proof {
                        errs_done = errs_done + errs_of(st.err);
                    }
                },
            }
        }
        proof {
            let here = lex_all(s, self.pos(), self.line(), self.col());
            assert(here.toks =~= Seq::<TokenM>::empty());
            assert(here.errs =~= Seq::<Seq<char>>::empty());
            assert(toks@.map_values(|t: Token| t@) =~= toks@.map_values(|t: Token| t@) + filtered(
                here.toks,
            ));
            assert(errs_done =~= errs_done + here.errs);
        }
        toks
    }
}


/// Draining a bag that a lexing run filled hands the raised messages
/// back most recent first.
pub proof fn lemma_drained_of_pushed(bag: Seq<LoxError>, errs: Seq<Seq<char>>)
    requires
        bag_pushed_many(Seq::empty(), bag, errs),
    ensures
        crate::error::drained_messages(bag) == errs.reverse(),
    decreases errs.len(),
{
    if errs.len() == 0 {
        assert(crate::error::drained_messages(bag) =~= errs.reverse());
    } else {
        let bag2 = bag.drop_last();
        let errs2 = errs.drop_last();
        let last_i = errs.len() - 1;
        assert(bag[0 + last_i] matches LoxError::LexerError(m) && m@ == errs[last_i]);
        assert(bag[last_i] matches LoxError::LexerError(m) && m@ == errs.last());
        assert(bag_pushed_many(Seq::empty(), bag2, errs2)) by {
            assert(bag2.take(0) =~= Seq::<LoxError>::empty());
            assert(forall|j: int| 0 <= j < errs2.len() ==> #[trigger] bag2[j] == bag[0 + j]);
        }
        lemma_drained_of_pushed(bag2, errs2);
        assert(crate::error::drained_messages(bag) == seq![errs.last()]
            + crate::error::drained_messages(bag2));
        assert(seq![errs.last()] + errs2.reverse() =~= errs.reverse());
    }
}

/// How a lexing step changes the error bag: nothing, or exactly one
/// lexical diagnostic with the given message appended.
pub open spec fn bag_pushed(
    before: Seq<LoxError>,
    after: Seq<LoxError>,
    err: Option<Seq<char>>,
) -> bool {
    match err {
        Option::None => after == before,
        Option::Some(m) => {
            &&& after.len() == before.len() + 1
            &&& after.take(before.len() as int) == before
            &&& after.last() matches LoxError::LexerError(t) && t@ == m
        },
    }
}

} // verus!
