//! The tokenizer: turns source text into located tokens.
use vstd::prelude::*;
use crate::token::{Lexeme, LocatedToken, Token};

verus! {

/// What went wrong in a malformed token.
#[derive(Debug, Clone, Copy, PartialEq, Eq, Structural)]
pub enum LexErrorKind {
    /// A numeric literal with more than one `.`.
    MultipleDots,
    /// An integer literal above `i64::MAX`.
    IntTooLarge,
    /// `''`: a character literal with no character.
    EmptyChar,
    /// A character literal with more than one character.
    LongChar,
    /// A character literal with no closing `'`.
    UnterminatedChar,
    /// A string literal with no closing `"`.
    UnterminatedString,
    /// A character that starts no token.
    UnexpectedChar(char),
}

/// A lexical error with the line and column where its token starts.
#[derive(Debug, Clone, Copy, PartialEq, Eq, Structural)]
pub struct LexError {
    pub kind: LexErrorKind,
    pub line: u64,
    pub col: u64,
}

/// Whether `c` has Unicode's Alphabetic property (as `char::is_alphabetic`).
pub uninterp spec fn is_alphabetic_char(c: char) -> bool;

/// Whether `c` is alphabetic or numeric in Unicode (as `char::is_alphanumeric`).
pub uninterp spec fn is_alphanumeric_char(c: char) -> bool;

/// Relies on `char::is_alphabetic`: ASCII letters are alphabetic, and no
/// other ASCII character is.
#[verifier::external_body]
fn alphabetic(c: char) -> (r: bool)
    ensures
        r == is_alphabetic_char(c),
        c <= '\x7f' ==> (r <==> is_ascii_letter(c)),
{
    c.is_alphabetic()
}

/// Relies on `char::is_alphanumeric`: among ASCII characters, exactly the
/// letters and the digits `0` to `9` are alphanumeric.
#[verifier::external_body]
fn alphanumeric(c: char) -> (r: bool)
    ensures
        r == is_alphanumeric_char(c),
        c <= '\x7f' ==> (r <==> (is_ascii_letter(c) || is_digit(c))),
{
    c.is_alphanumeric()
}

/// Relies on `String::push`: appends one character.
#[verifier::external_body]
fn push_char(s: &mut String, c: char)
    ensures
        final(s)@ == old(s)@.push(c),
{
    s.push(c)
}

/// Whether `c` can start an identifier: a character with Unicode's
/// Alphabetic property; among ASCII characters, exactly the letters.
pub fn starts_identifier(c: char) -> (r: bool)
    ensures
        r == is_alphabetic_char(c),
        c <= '\x7f' ==> (r <==> is_ascii_letter(c)),
{
    alphabetic(c)
}

/// Whether `c` can continue an identifier: an alphanumeric character or
/// `_`; among ASCII characters, exactly the letters, the digits and `_`.
pub fn continues_identifier(c: char) -> (r: bool)
    ensures
        r == is_word_char(c),
        c <= '\x7f' ==> (r <==> (is_ascii_letter(c) || is_digit(c) || c == '_')),
{
    alphanumeric(c) || c == '_'
}

pub open spec fn is_ascii_letter(c: char) -> bool {
    ('a' <= c && c <= 'z') || ('A' <= c && c <= 'Z')
}

pub open spec fn is_space(c: char) -> bool {
    c == ' ' || c == '\n'
}

pub open spec fn is_digit(c: char) -> bool {
    '0' <= c && c <= '9'
}

pub open spec fn is_word_char(c: char) -> bool {
    is_alphanumeric_char(c) || c == '_'
}

pub open spec fn is_number_char(c: char) -> bool {
    is_digit(c) || c == '_' || c == '.'
}

/// The first index at or after `i` that is not a space or a newline.
pub open spec fn skip_spaces(s: Seq<char>, i: int) -> int
    decreases s.len() - i,
{
    if 0 <= i < s.len() && is_space(s[i]) {
        skip_spaces(s, i + 1)
    } else {
        i
    }
}

/// The end of the run of digits, `_` and `.` that starts at `i`.
pub open spec fn number_end(s: Seq<char>, i: int) -> int
    decreases s.len() - i,
{
    if 0 <= i < s.len() && is_number_char(s[i]) {
        number_end(s, i + 1)
    } else {
        i
    }
}

/// The end of the run of alphanumerics and `_` that starts at `i`.
pub open spec fn word_end(s: Seq<char>, i: int) -> int
    decreases s.len() - i,
{
    if 0 <= i < s.len() && is_word_char(s[i]) {
        word_end(s, i + 1)
    } else {
        i
    }
}

/// The first index at or after `i` that holds `q`, or the length of `s`.
pub open spec fn find_char(s: Seq<char>, i: int, q: char) -> int
    decreases s.len() - i,
{
    if 0 <= i < s.len() && s[i] != q {
        find_char(s, i + 1, q)
    } else {
        i
    }
}

/// How many `.` characters `t` holds.
pub open spec fn dot_count(t: Seq<char>) -> nat
    decreases t.len(),
{
    if t.len() == 0 {
        0
    } else {
        dot_count(t.drop_last()) + if t.last() == '.' { 1nat } else { 0nat }
    }
}

/// `t` with every `_` taken out.
pub open spec fn without_underscores(t: Seq<char>) -> Seq<char>
    decreases t.len(),
{
    if t.len() == 0 {
        Seq::empty()
    } else if t.last() == '_' {
        without_underscores(t.drop_last())
    } else {
        without_underscores(t.drop_last()).push(t.last())
    }
}

pub open spec fn digit_value(c: char) -> nat {
    (c as u32 - '0' as u32) as nat
}

/// The decimal number spelled by the digits of `t`, other characters ignored.
pub open spec fn decimal_value(t: Seq<char>) -> nat
    decreases t.len(),
{
    if t.len() == 0 {
        0
    } else if is_digit(t.last()) {
        decimal_value(t.drop_last()) * 10 + digit_value(t.last())
    } else {
        decimal_value(t.drop_last())
    }
}

/// Line and column (both from 1) of index `i` of `s`.
pub open spec fn position_of(s: Seq<char>, i: int) -> (int, int)
    decreases i,
{
    if i <= 0 {
        (1, 1)
    } else {
        let (l, c) = position_of(s, i - 1);
        if s[i - 1] == '\n' {
            (l + 1, 1)
        } else {
            (l, c + 1)
        }
    }
}

/// The outcome of scanning one token at an index.
pub ghost enum Scan {
    End,
    /// A token and the index just past it.
    Tok(Lexeme, int),
    Error(LexErrorKind),
}

/// A word: a keyword, or else an identifier.
pub open spec fn word_lexeme(w: Seq<char>) -> Lexeme {
    if w == seq!['v', 'a', 'r'] {
        Lexeme::Other(Token::Var)
    } else if w == seq!['c', 'o', 'n', 's', 't'] {
        Lexeme::Other(Token::Const)
    } else if w == seq!['p', 'r', 'i', 'n', 't'] {
        Lexeme::Other(Token::Print)
    } else {
        Lexeme::Id(w)
    }
}

/// The two-character operator spelled `c` `d`, if any.
pub open spec fn paired_op(c: char, d: char) -> Option<Token> {
    if d == '=' && c == '=' {
        Some(Token::Eq)
    } else if d == '=' && c == '>' {
        Some(Token::GtEq)
    } else if d == '=' && c == '<' {
        Some(Token::LtEq)
    } else if d == '=' && c == '!' {
        Some(Token::NotEq)
    } else if d == '&' && c == '&' {
        Some(Token::LogicalAnd)
    } else if d == '|' && c == '|' {
        Some(Token::LogicalOr)
    } else {
        None
    }
}

/// The one-character operator or punctuation spelled `c`, if any.
pub open spec fn single_op(c: char) -> Option<Token> {
    if c == '=' {
        Some(Token::Assign)
    } else if c == '>' {
        Some(Token::Gt)
    } else if c == '<' {
        Some(Token::Lt)
    } else if c == '!' {
        Some(Token::Not)
    } else if c == '&' {
        Some(Token::And)
    } else if c == '|' {
        Some(Token::Or)
    } else if c == '+' {
        Some(Token::Plus)
    } else if c == '-' {
        Some(Token::Minus)
    } else if c == '*' {
        Some(Token::Star)
    } else if c == '/' {
        Some(Token::Slash)
    } else if c == '%' {
        Some(Token::Percent)
    } else if c == ';' {
        Some(Token::Semi)
    } else if c == ':' {
        Some(Token::Colon)
    } else if c == '.' {
        Some(Token::Dot)
    } else if c == ',' {
        Some(Token::Comma)
    } else {
        None
    }
}

/// A numeric literal at `j`: one `.` makes a float, two or more are an error.
pub open spec fn scan_number(s: Seq<char>, j: int) -> Scan {
    let e = number_end(s, j);
    let t = s.subrange(j, e);
    if dot_count(t) >= 2 {
        Scan::Error(LexErrorKind::MultipleDots)
    } else if dot_count(t) == 1 {
        Scan::Tok(Lexeme::Float(without_underscores(t)), e)
    } else if decimal_value(t) > i64::MAX {
        Scan::Error(LexErrorKind::IntTooLarge)
    } else {
        Scan::Tok(Lexeme::Other(Token::Int(decimal_value(t) as i64)), e)
    }
}

/// A string literal whose `"` is at `j`: raw text up to the next `"`.
pub open spec fn scan_string(s: Seq<char>, j: int) -> Scan {
    let close = find_char(s, j + 1, '"');
    if close >= s.len() {
        Scan::Error(LexErrorKind::UnterminatedString)
    } else {
        Scan::Tok(Lexeme::Str(s.subrange(j + 1, close)), close + 1)
    }
}

/// A character literal whose `'` is at `j`: exactly one character before
/// the next `'`.
pub open spec fn scan_char(s: Seq<char>, j: int) -> Scan {
    let close = find_char(s, j + 1, '\'');
    if close >= s.len() {
        Scan::Error(LexErrorKind::UnterminatedChar)
    } else if close == j + 1 {
        Scan::Error(LexErrorKind::EmptyChar)
    } else if close > j + 2 {
        Scan::Error(LexErrorKind::LongChar)
    } else {
        Scan::Tok(Lexeme::Other(Token::Char(s[j + 1])), close + 1)
    }
}

/// An operator at `j`, the longest that matches.
pub open spec fn scan_operator(s: Seq<char>, j: int) -> Scan {
    if j + 1 < s.len() && paired_op(s[j], s[j + 1]) is Some {
        Scan::Tok(Lexeme::Other(paired_op(s[j], s[j + 1])->0), j + 2)
    } else {
        match single_op(s[j]) {
            Some(t) => Scan::Tok(Lexeme::Other(t), j + 1),
            None => Scan::Error(LexErrorKind::UnexpectedChar(s[j])),
        }
    }
}

/// The token that starts at index `j` (no spaces skipped).
pub open spec fn scan_token(s: Seq<char>, j: int) -> Scan {
    if !(0 <= j < s.len()) {
        Scan::End
    } else if is_digit(s[j]) {
        scan_number(s, j)
    } else if s[j] == '"' {
        scan_string(s, j)
    } else if s[j] == '\'' {
        scan_char(s, j)
    } else if is_alphabetic_char(s[j]) {
        let e = word_end(s, j + 1);
        Scan::Tok(word_lexeme(s.subrange(j, e)), e)
    } else {
        scan_operator(s, j)
    }
}

/// Every token of `s` from index `i` on, each with its line and column, or
/// the first lexical error with its line and column.
pub open spec fn lex_from(s: Seq<char>, i: int) -> Result<Seq<(Lexeme, int, int)>, (LexErrorKind, int, int)>
    decreases s.len() - i,
{
    let j = skip_spaces(s, i);
    let (l, c) = position_of(s, j);
    match scan_token(s, j) {
        Scan::End => Ok(Seq::empty()),
        Scan::Error(k) => Err((k, l, c)),
        Scan::Tok(x, e) => if i < e <= s.len() {
            match lex_from(s, e) {
                Ok(rest) => Ok(seq![(x, l, c)] + rest),
                Err(err) => Err(err),
            }
        } else {
            Ok(Seq::empty())
        },
    }
}

/// A located token as the triple that `lex_from` speaks of.
pub open spec fn located_view(t: LocatedToken) -> (Lexeme, int, int) {
    (t.token@, t.line as int, t.col as int)
}

proof fn lemma_skip_spaces_bounds(s: Seq<char>, i: int)
    requires
        0 <= i <= s.len(),
    ensures
        i <= skip_spaces(s, i) <= s.len(),
        skip_spaces(s, i) < s.len() ==> !is_space(s[skip_spaces(s, i)]),
    decreases s.len() - i,
{
    if i < s.len() && is_space(s[i]) {
        lemma_skip_spaces_bounds(s, i + 1);
    }
}

proof fn lemma_number_end_bounds(s: Seq<char>, i: int)
    requires
        0 <= i <= s.len(),
    ensures
        i <= number_end(s, i) <= s.len(),
    decreases s.len() - i,
{
    if i < s.len() && is_number_char(s[i]) {
        lemma_number_end_bounds(s, i + 1);
    }
}

proof fn lemma_word_end_bounds(s: Seq<char>, i: int)
    requires
        0 <= i <= s.len(),
    ensures
        i <= word_end(s, i) <= s.len(),
    decreases s.len() - i,
{
    if i < s.len() && is_word_char(s[i]) {
        lemma_word_end_bounds(s, i + 1);
    }
}

proof fn lemma_find_char_bounds(s: Seq<char>, i: int, q: char)
    requires
        0 <= i <= s.len(),
    ensures
        i <= find_char(s, i, q) <= s.len(),
    decreases s.len() - i,
{
    if i < s.len() && s[i] != q {
        lemma_find_char_bounds(s, i + 1, q);
    }
}

proof fn lemma_position_bounds(s: Seq<char>, i: int)
    requires
        0 <= i,
    ensures
        1 <= position_of(s, i).0 <= i + 1,
        1 <= position_of(s, i).1 <= i + 1,
    decreases i,
{
    if i > 0 {
        lemma_position_bounds(s, i - 1);
    }
}

/// A token always covers at least one character of the input.
proof fn lemma_scan_advances(s: Seq<char>, j: int)
    requires
        0 <= j <= s.len(),
    ensures
        scan_token(s, j) matches Scan::Tok(_, e) ==> j < e <= s.len(),
{
    if j < s.len() {
        lemma_number_end_bounds(s, j + 1);
        lemma_word_end_bounds(s, j + 1);
        lemma_find_char_bounds(s, j + 1, '"');
        lemma_find_char_bounds(s, j + 1, '\'');
    }
}

/// The exec form of `paired_op`.
fn paired_token(c: char, d: char) -> (r: Option<Token>)
    ensures
        r == paired_op(c, d),
{
    if d == '=' && c == '=' {
        Some(Token::Eq)
    } else if d == '=' && c == '>' {
        Some(Token::GtEq)
    } else if d == '=' && c == '<' {
        Some(Token::LtEq)
    } else if d == '=' && c == '!' {
        Some(Token::NotEq)
    } else if d == '&' && c == '&' {
        Some(Token::LogicalAnd)
    } else if d == '|' && c == '|' {
        Some(Token::LogicalOr)
    } else {
        None
    }
}

/// The exec form of `single_op`.
fn single_token(c: char) -> (r: Option<Token>)
    ensures
        r == single_op(c),
{
    if c == '=' {
        Some(Token::Assign)
    } else if c == '>' {
        Some(Token::Gt)
    } else if c == '<' {
        Some(Token::Lt)
    } else if c == '!' {
        Some(Token::Not)
    } else if c == '&' {
        Some(Token::And)
    } else if c == '|' {
        Some(Token::Or)
    } else if c == '+' {
        Some(Token::Plus)
    } else if c == '-' {
        Some(Token::Minus)
    } else if c == '*' {
        Some(Token::Star)
    } else if c == '/' {
        Some(Token::Slash)
    } else if c == '%' {
        Some(Token::Percent)
    } else if c == ';' {
        Some(Token::Semi)
    } else if c == ':' {
        Some(Token::Colon)
    } else if c == '.' {
        Some(Token::Dot)
    } else if c == ',' {
        Some(Token::Comma)
    } else {
        None
    }
}

/// A cursor over source text that yields one token at a time.
pub struct Lexer {
    pub src: Vec<char>,
    pub pos: usize,
    pub line: u64,
    pub col: u64,
}

impl Lexer {
    /// The cursor lies within the text and knows the line and column of its
    /// position.
    pub open spec fn wf(&self) -> bool {
        &&& self.pos <= self.src@.len()
        &&& self.src@.len() < usize::MAX
        &&& position_of(self.src@, self.pos as int) == (self.line as int, self.col as int)
    }

    /// A lexer at the start of `src`.
    pub fn new(src: String) -> (r: Lexer)
        requires
            src@.len() < usize::MAX,
        ensures
            r.wf(),
            r.src@ == src@,
            r.pos == 0,
    {
        let text = src.as_str();
        let n = text.unicode_len();
        let mut chars: Vec<char> = Vec::new();
        let mut i: usize = 0;
        while i < n
            invariant
                n == text@.len(),
                i <= n,
                chars@ == text@.subrange(0, i as int),
            decreases n - i,
        {
            chars.push(text.get_char(i));
            i = i + 1;
            assert(chars@ =~= text@.subrange(0, i as int));
        }
        assert(chars@ =~= src@);
        Lexer { src: chars, pos: 0, line: 1, col: 1 }
    }

    /// The character `rpos` places ahead of the cursor.
    pub fn peek(&self, rpos: usize) -> (r: char)
        requires
            self.pos + rpos < self.src@.len(),
        ensures
            r == self.src@[self.pos + rpos],
    {
        let _len = self.src.len();
        self.src[self.pos + rpos]
    }

    /// Moves past one character and returns it.
    pub fn advance(&mut self) -> (r: char)
        requires
            old(self).wf(),
            old(self).pos < old(self).src@.len(),
        ensures
            final(self).wf(),
            final(self).src@ == old(self).src@,
            final(self).pos == old(self).pos + 1,
            r == old(self).src@[old(self).pos as int],
    {
        let c = self.src[self.pos];
        proof {
            lemma_position_bounds(self.src@, self.pos as int);
        }
        self.pos = self.pos + 1;
        if c == '\n' {
            self.line = self.line + 1;
            self.col = 1;
        } else {
            self.col = self.col + 1;
        }
        c
    }

    /// Scans a numeric literal; the cursor is on its first digit.
    fn tokenize_num_lit(&mut self) -> (r: Result<Token, LexErrorKind>)
        requires
            old(self).wf(),
            old(self).pos < old(self).src@.len(),
            is_digit(old(self).src@[old(self).pos as int]),
        ensures
            final(self).wf(),
            final(self).src@ == old(self).src@,
            scanned(scan_number(old(self).src@, old(self).pos as int), r, final(self).pos as int),
    {
        let ghost s = self.src@;
        let start = self.pos;
        let mut dots: usize = 0;
        let mut text = String::new();
        let mut value: i64 = 0;
        let mut big = false;
        while self.pos < self.src.len() && (('0' <= self.src[self.pos] && self.src[self.pos] <= '9')
            || self.src[self.pos] == '_' || self.src[self.pos] == '.')
            invariant
                self.wf(),
                self.src@ == s,
                start <= self.pos,
                number_end(s, start as int) == number_end(s, self.pos as int),
                dots == dot_count(s.subrange(start as int, self.pos as int)),
                dots <= self.pos - start,
                text@ == without_underscores(s.subrange(start as int, self.pos as int)),
                !big ==> value >= 0 && value as nat == decimal_value(s.subrange(start as int, self.pos as int)),
                big ==> decimal_value(s.subrange(start as int, self.pos as int)) > i64::MAX,
            decreases s.len() - self.pos,
        {
            let ghost prev = s.subrange(start as int, self.pos as int);
            let c = self.advance();
            let ghost t = s.subrange(start as int, self.pos as int);
            assert(t.drop_last() =~= prev);
            assert(t.last() == c);
            if c == '.' {
                dots = dots + 1;
            }
            if c != '_' {
                push_char(&mut text, c);
            }
            if '0' <= c && c <= '9' && !big {
                let d = (c as u32 - '0' as u32) as i64;
                match value.checked_mul(10) {
                    Some(v10) => match v10.checked_add(d) {
                        Some(v) => {
                            value = v;
                        },
                        None => {
                            big = true;
                        },
                    },
                    None => {
                        big = true;
                    },
                }
            }
        }
        assert(number_end(s, self.pos as int) == self.pos);
        if dots >= 2 {
            return Err(LexErrorKind::MultipleDots);
        }
        if dots == 1 {
            return Ok(Token::Float(text));
        }
        if big {
            return Err(LexErrorKind::IntTooLarge);
        }
        Ok(Token::Int(value))
    }

    /// Scans an identifier or keyword; the cursor is on its first letter.
    fn tokenize_id(&mut self) -> (r: Result<Token, LexErrorKind>)
        requires
            old(self).wf(),
            old(self).pos < old(self).src@.len(),
        ensures
            final(self).wf(),
            final(self).src@ == old(self).src@,
            ({
                let s = old(self).src@;
                let e = word_end(s, old(self).pos + 1);
                scanned(Scan::Tok(word_lexeme(s.subrange(old(self).pos as int, e)), e), r, final(self).pos as int)
            }),
    {
        let ghost s = self.src@;
        let start = self.pos;
        let mut text = String::new();
        let c = self.advance();
        push_char(&mut text, c);
        assert(text@ =~= s.subrange(start as int, self.pos as int));
        while self.pos < self.src.len() && continues_identifier(self.src[self.pos])
            invariant
                self.wf(),
                self.src@ == s,
                start < self.pos,
                word_end(s, start + 1) == word_end(s, self.pos as int),
                text@ == s.subrange(start as int, self.pos as int),
            decreases s.len() - self.pos,
        {
            let c = self.advance();
            push_char(&mut text, c);
            assert(text@ =~= s.subrange(start as int, self.pos as int));
        }
        assert(word_end(s, self.pos as int) == self.pos);
        Ok(word_token(&self.src, start, self.pos, text))
    }

    /// Scans a string literal; the cursor is on its opening `"`.
    fn tokenize_str_lit(&mut self) -> (r: Result<Token, LexErrorKind>)
        requires
            old(self).wf(),
            old(self).pos < old(self).src@.len(),
            old(self).src@[old(self).pos as int] == '"',
        ensures
            final(self).wf(),
            final(self).src@ == old(self).src@,
            scanned(scan_string(old(self).src@, old(self).pos as int), r, final(self).pos as int),
    {
        let ghost s = self.src@;
        let start = self.pos;
        self.advance();
        let mut text = String::new();
        assert(text@ =~= s.subrange(start + 1, self.pos as int));
        while self.pos < self.src.len() && self.src[self.pos] != '"'
            invariant
                self.wf(),
                self.src@ == s,
                start < self.pos,
                find_char(s, start + 1, '"') == find_char(s, self.pos as int, '"'),
                text@ == s.subrange(start + 1, self.pos as int),
            decreases s.len() - self.pos,
        {
            let c = self.advance();
            push_char(&mut text, c);
            assert(text@ =~= s.subrange(start + 1, self.pos as int));
        }
        assert(find_char(s, self.pos as int, '"') == self.pos);
        if self.pos >= self.src.len() {
            return Err(LexErrorKind::UnterminatedString);
        }
        self.advance();
        Ok(Token::Str(text))
    }

    /// Scans a character literal; the cursor is on its opening `'`.
    fn tokenize_char_lit(&mut self) -> (r: Result<Token, LexErrorKind>)
        requires
            old(self).wf(),
            old(self).pos < old(self).src@.len(),
            old(self).src@[old(self).pos as int] == '\'',
        ensures
            final(self).wf(),
            final(self).src@ == old(self).src@,
            scanned(scan_char(old(self).src@, old(self).pos as int), r, final(self).pos as int),
    {
        let ghost s = self.src@;
        let start = self.pos;
        self.advance();
        let mut count: usize = 0;
        let mut first: char = ' ';
        while self.pos < self.src.len() && self.src[self.pos] != '\''
            invariant
                self.wf(),
                self.src@ == s,
                start < self.pos,
                count == self.pos - start - 1,
                count >= 1 ==> first == s[start + 1],
                find_char(s, start + 1, '\'') == find_char(s, self.pos as int, '\''),
            decreases s.len() - self.pos,
        {
            let c = self.advance();
            if count == 0 {
                first = c;
            }
            count = count + 1;
        }
        assert(find_char(s, self.pos as int, '\'') == self.pos);
        if self.pos >= self.src.len() {
            return Err(LexErrorKind::UnterminatedChar);
        }
        self.advance();
        if count == 0 {
            return Err(LexErrorKind::EmptyChar);
        }
        if count >= 2 {
            return Err(LexErrorKind::LongChar);
        }
        Ok(Token::Char(first))
    }

    /// Scans an operator or punctuation mark, the longest that matches.
    fn tokenize_op(&mut self) -> (r: Result<Token, LexErrorKind>)
        requires
            old(self).wf(),
            old(self).pos < old(self).src@.len(),
        ensures
            final(self).wf(),
            final(self).src@ == old(self).src@,
            scanned(scan_operator(old(self).src@, old(self).pos as int), r, final(self).pos as int),
    {
        let c = self.advance();
        if self.pos < self.src.len() {
            let d = self.peek(0);
            if let Some(t) = paired_token(c, d) {
                self.advance();
                return Ok(t);
            }
        }
        match single_token(c) {
            Some(t) => Ok(t),
            None => Err(LexErrorKind::UnexpectedChar(c)),
        }
    }

    /// The next token after any spaces and newlines: `None` at the end of the
    /// text, or the lexical error of a malformed token.
    pub fn next_token(&mut self) -> (r: Result<Option<LocatedToken>, LexError>)
        requires
            old(self).wf(),
        ensures
            final(self).wf(),
            final(self).src@ == old(self).src@,
            next_token_post(old(self).src@, old(self).pos as int, r, final(self).pos as int),
    {
        self.skip_spaces();
        if self.pos >= self.src.len() {
            return Ok(None);
        }
        let line = self.line;
        let col = self.col;
        let c = self.src[self.pos];
        let r = if '0' <= c && c <= '9' {
            self.tokenize_num_lit()
        } else if c == '"' {
            self.tokenize_str_lit()
        } else if c == '\'' {
            self.tokenize_char_lit()
        } else if starts_identifier(c) {
            self.tokenize_id()
        } else {
            self.tokenize_op()
        };
        match r {
            Ok(t) => Ok(Some(LocatedToken { token: t, line, col })),
            Err(kind) => Err(LexError { kind, line, col }),
        }
    }

    /// Moves past spaces and newlines.
    fn skip_spaces(&mut self)
        requires
            old(self).wf(),
        ensures
            final(self).wf(),
            final(self).src@ == old(self).src@,
            final(self).pos == skip_spaces(old(self).src@, old(self).pos as int),
    {
        while self.pos < self.src.len() && (self.src[self.pos] == ' ' || self.src[self.pos] == '\n')
            invariant
                self.wf(),
                self.src@ == old(self).src@,
                skip_spaces(self.src@, old(self).pos as int) == skip_spaces(self.src@, self.pos as int),
            decreases self.src@.len() - self.pos,
        {
            self.advance();
        }
    }
}

/// `r` (with the cursor left at `end`) is what scanning gave.
pub open spec fn scanned(sc: Scan, r: Result<Token, LexErrorKind>, end: int) -> bool {
    match sc {
        Scan::Tok(x, e) => r matches Ok(t) && t@ == x && end == e,
        Scan::Error(k) => r == Err::<Token, LexErrorKind>(k),
        Scan::End => false,
    }
}

/// What `next_token` returns from position `p` of `s`, with the cursor left at `end`.
pub open spec fn next_token_post(s: Seq<char>, p: int, r: Result<Option<LocatedToken>, LexError>, end: int) -> bool {
    let j = skip_spaces(s, p);
    let (l, c) = position_of(s, j);
    match scan_token(s, j) {
        Scan::End => r == Ok::<Option<LocatedToken>, LexError>(None) && end == j,
        Scan::Tok(x, e) => r matches Ok(Some(t)) && located_view(t) == (x, l, c) && end == e,
        Scan::Error(k) => r matches Err(err) && err.kind == k && err.line == l && err.col == c,
    }
}

/// The token for the word `src[start..end]`, whose text is `text`.
fn word_token(src: &Vec<char>, start: usize, end: usize, text: String) -> (r: Token)
    requires
        start < end <= src@.len(),
        text@ == src@.subrange(start as int, end as int),
    ensures
        r@ == word_lexeme(src@.subrange(start as int, end as int)),
{
    let ghost w = src@.subrange(start as int, end as int);
    let n = end - start;
    if n == 3 && src[start] == 'v' && src[start + 1] == 'a' && src[start + 2] == 'r' {
        assert(w =~= seq!['v', 'a', 'r']);
        Token::Var
    } else if n == 5 && src[start] == 'c' && src[start + 1] == 'o' && src[start + 2] == 'n'
        && src[start + 3] == 's' && src[start + 4] == 't' {
        assert(w =~= seq!['c', 'o', 'n', 's', 't']);
        Token::Const
    } else if n == 5 && src[start] == 'p' && src[start + 1] == 'r' && src[start + 2] == 'i'
        && src[start + 3] == 'n' && src[start + 4] == 't' {
        assert(w =~= seq!['p', 'r', 'i', 'n', 't']);
        Token::Print
    } else {
        assert(w.len() == n);
        assert(w.len() >= 3 ==> w[0] == src@[start as int] && w[1] == src@[start + 1] && w[2] == src@[start + 2]);
        assert(w.len() >= 5 ==> w[3] == src@[start + 3] && w[4] == src@[start + 4]);
        assert(w != seq!['v', 'a', 'r']);
        assert(w != seq!['c', 'o', 'n', 's', 't']);
        assert(w != seq!['p', 'r', 'i', 'n', 't']);
        Token::Id(text)
    }
}

/// Each located token as a triple.
pub open spec fn located_views(v: Seq<LocatedToken>) -> Seq<(Lexeme, int, int)> {
    v.map_values(|t: LocatedToken| located_view(t))
}

/// The tokens found so far followed by the outcome of the rest.
pub open spec fn prefix_then(
    p: Seq<(Lexeme, int, int)>,
    r: Result<Seq<(Lexeme, int, int)>, (LexErrorKind, int, int)>,
) -> Result<Seq<(Lexeme, int, int)>, (LexErrorKind, int, int)> {
    match r {
        Ok(rest) => Ok(p + rest),
        Err(e) => Err(e),
    }
}

/// Every token of `src` with its line and column, or the first lexical error.
pub fn tokenize(src: String) -> (r: Result<Vec<LocatedToken>, LexError>)
    requires
        src@.len() < usize::MAX,
    ensures
        match lex_from(src@, 0) {
            Ok(ts) => r matches Ok(v) && located_views(v@) == ts,
            Err((k, l, c)) => r matches Err(e) && e.kind == k && e.line == l && e.col == c,
        },
{
    let ghost s = src@;
    let mut lexer = Lexer::new(src);
    let mut out: Vec<LocatedToken> = Vec::new();
    assert(prefix_then(Seq::empty(), lex_from(s, 0)) == lex_from(s, 0)) by {
        if let Ok(rest) = lex_from(s, 0) {
            assert(Seq::<(Lexeme, int, int)>::empty() + rest =~= rest);
        }
    }
    loop
        invariant
            s == src@,
            lexer.wf(),
            lexer.src@ == s,
            lex_from(s, 0) == prefix_then(
                located_views(out@),
                lex_from(s, lexer.pos as int),
            ),
        decreases s.len() - lexer.pos,
    {
        let ghost p = lexer.pos as int;
        let ghost done = located_views(out@);
        proof {
            lemma_skip_spaces_bounds(s, p);
            lemma_scan_advances(s, skip_spaces(s, p));
        }
        match lexer.next_token() {
            Ok(Some(t)) => {
                out.push(t);
                let ghost e = lexer.pos as int;
                let ghost x = located_view(t);
                assert(located_views(out@) =~= done.push(x));
                proof {
                    if let Ok(rest) = lex_from(s, e) {
                        assert(done + (seq![x] + rest) =~= done.push(x) + rest);
                    }
                }
            },
            Ok(None) => {
                assert(lex_from(s, p) == Ok::<Seq<(Lexeme, int, int)>, (LexErrorKind, int, int)>(Seq::empty()));
                assert(done + Seq::<(Lexeme, int, int)>::empty() =~= done);
                return Ok(out);
            },
            Err(e) => {
                return Err(e);
            },
        }
    }
}

/// A character literal must hold exactly one character: with none (`''`)
/// or with more than one (`'ab'`) it is a lexical error.
pub proof fn law_char_literal_length(s: Seq<char>, j: int)
    requires
        0 <= j < s.len(),
        s[j] == '\'',
        find_char(s, j + 1, '\'') < s.len(),
        find_char(s, j + 1, '\'') != j + 2,
    ensures
        scan_token(s, j) == Scan::Error(
            if find_char(s, j + 1, '\'') == j + 1 {
                LexErrorKind::EmptyChar
            } else {
                LexErrorKind::LongChar
            },
        ),
{
    lemma_find_char_bounds(s, j + 1, '\'');
}

/// A numeric literal with two or more `.` (such as `1.2.3`) is a lexical
/// error.
pub proof fn law_number_dots(s: Seq<char>, j: int)
    requires
        0 <= j < s.len(),
        is_digit(s[j]),
        dot_count(s.subrange(j, number_end(s, j))) >= 2,
    ensures
        scan_token(s, j) == Scan::Error(LexErrorKind::MultipleDots),
{
}

} // verus!
