use vstd::prelude::*;
use crate::chars::{
    alphabetic_class, alphanumeric_class, is_alphabetic, is_alphanumeric, is_whitespace,
    whitespace_class,
};

verus! {

/// One lexical unit of the language.
#[derive(Debug, PartialEq)]
pub enum TokenKind {
    Integer(i64),
    /// A decimal literal, kept as its text: digits with one `.`.
    Decimal(Vec<char>),
    Identifier(Vec<char>),
    QuotedString(Vec<char>),
    Boolean(bool),
    Plus,
    Minus,
    Asterisk,
    ForwardSlash,
    Assign,
    Lparen,
    Rparen,
    IsEquals,
    NotEquals,
    Less,
    Greater,
    Not,
    Dot,
    NewLine,
    If,
    While,
}

/// The mathematical model of a token: texts become sequences of characters.
pub enum Tok {
    Integer(i64),
    Decimal(Seq<char>),
    Identifier(Seq<char>),
    QuotedString(Seq<char>),
    Boolean(bool),
    Plus,
    Minus,
    Asterisk,
    ForwardSlash,
    Assign,
    Lparen,
    Rparen,
    IsEquals,
    NotEquals,
    Less,
    Greater,
    Not,
    Dot,
    NewLine,
    If,
    While,
}

impl View for TokenKind {
    type V = Tok;

    open spec fn view(&self) -> Tok {
        match self {
            TokenKind::Integer(n) => Tok::Integer(*n),
            TokenKind::Decimal(t) => Tok::Decimal(t@),
            TokenKind::Identifier(t) => Tok::Identifier(t@),
            TokenKind::QuotedString(t) => Tok::QuotedString(t@),
            TokenKind::Boolean(b) => Tok::Boolean(*b),
            TokenKind::Plus => Tok::Plus,
            TokenKind::Minus => Tok::Minus,
            TokenKind::Asterisk => Tok::Asterisk,
            TokenKind::ForwardSlash => Tok::ForwardSlash,
            TokenKind::Assign => Tok::Assign,
            TokenKind::Lparen => Tok::Lparen,
            TokenKind::Rparen => Tok::Rparen,
            TokenKind::IsEquals => Tok::IsEquals,
            TokenKind::NotEquals => Tok::NotEquals,
            TokenKind::Less => Tok::Less,
            TokenKind::Greater => Tok::Greater,
            TokenKind::Not => Tok::Not,
            TokenKind::Dot => Tok::Dot,
            TokenKind::NewLine => Tok::NewLine,
            TokenKind::If => Tok::If,
            TokenKind::While => Tok::While,
        }
    }
}

/// Why a text could not be split into tokens.
#[derive(PartialEq, Eq, Structural, Debug, Clone, Copy)]
pub enum LexError {
    /// A `"` with no closing `"` after it.
    UnterminatedString,
    /// A run of digits whose value does not fit in an `i64`.
    NumberFormat,
    /// An identifier was asked for where a digit stands.
    IdentifierStartsWithDigit,
    /// A character that starts no token.
    UnexpectedChar(char),
}

/// The character sets that a run of characters is taken from.
#[derive(PartialEq, Eq, Structural, Debug, Clone, Copy)]
pub enum CharClass {
    /// Whitespace other than the line feed, which is a token of its own.
    Blank,
    /// Letters, digits and `_`.
    Word,
    /// The ASCII digits.
    Digit,
}

pub open spec fn is_digit(c: char) -> bool {
    '0' <= c && c <= '9'
}

pub open spec fn in_class(c: char, class: CharClass) -> bool {
    match class {
        CharClass::Blank => c != '\n' && whitespace_class(c),
        CharClass::Word => c == '_' || alphanumeric_class(c),
        CharClass::Digit => is_digit(c),
    }
}

/// The end of the longest run of `class` characters that starts at `i`.
pub open spec fn run_end(s: Seq<char>, i: int, class: CharClass) -> int
    decreases s.len() - i,
{
    if 0 <= i < s.len() && in_class(s[i], class) {
        run_end(s, i + 1, class)
    } else {
        i
    }
}

/// Whether `pat` occurs in `s` at position `i`.
pub open spec fn matches_at(s: Seq<char>, i: int, pat: Seq<char>) -> bool {
    0 <= i && i + pat.len() <= s.len() && s.subrange(i, i + pat.len()) == pat
}

/// The position just past the first occurrence of `pat` at or after `i`, or
/// the end of `s` when there is none.
pub open spec fn past_pattern(s: Seq<char>, i: int, pat: Seq<char>) -> int
    decreases s.len() - i,
{
    if i >= s.len() {
        s.len() as int
    } else if matches_at(s, i, pat) {
        i + pat.len()
    } else {
        past_pattern(s, i + 1, pat)
    }
}

pub open spec fn line_comment_open() -> Seq<char> {
    seq!['/', '/']
}

pub open spec fn line_comment_close() -> Seq<char> {
    seq!['\n']
}

pub open spec fn block_comment_open() -> Seq<char> {
    seq!['/', '*']
}

pub open spec fn block_comment_close() -> Seq<char> {
    seq!['*', '/']
}

/// The end of the comment that starts at `i`, or `i` when none starts there.
/// An unclosed comment runs to the end of the text.
pub open spec fn comment_end(s: Seq<char>, i: int) -> int {
    if matches_at(s, i, line_comment_open()) {
        past_pattern(s, i + 2, line_comment_close())
    } else if matches_at(s, i, block_comment_open()) {
        past_pattern(s, i + 2, block_comment_close())
    } else {
        i
    }
}

/// The position of the next token at or after `i`: blanks and comments are
/// passed over until neither makes progress.
pub open spec fn skip_end(s: Seq<char>, i: int) -> int
    decreases s.len() - i,
{
    let c = comment_end(s, run_end(s, i, CharClass::Blank));
    if 0 <= i < c <= s.len() {
        skip_end(s, c)
    } else {
        i
    }
}

proof fn lemma_run_end_bounds(s: Seq<char>, i: int, class: CharClass)
    requires
        0 <= i <= s.len(),
    ensures
        i <= run_end(s, i, class) <= s.len(),
        run_end(s, i, class) < s.len() ==> !in_class(s[run_end(s, i, class)], class),
    decreases s.len() - i,
{
    if i < s.len() && in_class(s[i], class) {
        lemma_run_end_bounds(s, i + 1, class);
    }
}

proof fn lemma_past_pattern_bounds(s: Seq<char>, i: int, pat: Seq<char>)
    requires
        0 <= i <= s.len(),
    ensures
        i <= past_pattern(s, i, pat) <= s.len(),
    decreases s.len() - i,
{
    if i < s.len() && !matches_at(s, i, pat) {
        lemma_past_pattern_bounds(s, i + 1, pat);
    }
}

proof fn lemma_skip_end_bounds(s: Seq<char>, i: int)
    requires
        0 <= i <= s.len(),
    ensures
        i <= skip_end(s, i) <= s.len(),
    decreases s.len() - i,
{
    let c = comment_end(s, run_end(s, i, CharClass::Blank));
    if 0 <= i < c <= s.len() {
        lemma_skip_end_bounds(s, c);
    }
}

fn in_char_class(c: char, class: CharClass) -> (r: bool)
    ensures
        r == in_class(c, class),
{
    match class {
        CharClass::Blank => c != '\n' && is_whitespace(c),
        CharClass::Word => c == '_' || is_alphanumeric(c),
        CharClass::Digit => '0' <= c && c <= '9',
    }
}

/// The end of the longest run of `class` characters in `data` from `from` on.
pub fn take_while(data: &Vec<char>, from: usize, class: CharClass) -> (r: usize)
    requires
        from <= data@.len(),
    ensures
        r == run_end(data@, from as int, class),
        from <= r <= data@.len(),
{
    proof {
        lemma_run_end_bounds(data@, from as int, class);
    }
    let mut i = from;
    while i < data.len() && in_char_class(data[i], class)
        invariant
            from <= i <= data@.len(),
            run_end(data@, i as int, class) == run_end(data@, from as int, class),
        decreases data@.len() - i,
    {
        i = i + 1;
    }
    i
}

/// The end of the blanks that start at `from`.
pub fn skip_whitespace(data: &Vec<char>, from: usize) -> (r: usize)
    requires
        from <= data@.len(),
    ensures
        r == run_end(data@, from as int, CharClass::Blank),
        from <= r <= data@.len(),
{
    take_while(data, from, CharClass::Blank)
}

fn matches_here(data: &Vec<char>, i: usize, pattern: &Vec<char>) -> (r: bool)
    ensures
        r == matches_at(data@, i as int, pattern@),
{
    if pattern.len() > data.len() || i > data.len() - pattern.len() {
        return false;
    }
    let n = data.len();
    let mut k: usize = 0;
    while k < pattern.len()
        invariant
            n == data@.len(),
            k <= pattern@.len(),
            i + pattern@.len() <= data@.len(),
            forall|j: int| 0 <= j < k ==> data@[i + j] == pattern@[j],
        decreases pattern@.len() - k,
    {
        if data[i + k] != pattern[k] {
            assert(data@.subrange(i as int, i + pattern@.len())[k as int] != pattern@[k as int]);
            return false;
        }
        k = k + 1;
    }
    assert(data@.subrange(i as int, i + pattern@.len()) =~= pattern@);
    true
}

/// The position just past the first `pattern` at or after `from`, or the
/// end of `data` when there is none.
pub fn skip_until(data: &Vec<char>, from: usize, pattern: &Vec<char>) -> (r: usize)
    requires
        from <= data@.len(),
    ensures
        r == past_pattern(data@, from as int, pattern@),
        from <= r <= data@.len(),
{
    proof {
        lemma_past_pattern_bounds(data@, from as int, pattern@);
    }
    let mut i = from;
    while i < data.len() && !matches_here(data, i, pattern)
        invariant
            from <= i <= data@.len(),
            past_pattern(data@, i as int, pattern@) == past_pattern(data@, from as int, pattern@),
        decreases data@.len() - i,
    {
        i = i + 1;
    }
    if i >= data.len() {
        data.len()
    } else {
        i + pattern.len()
    }
}

/// The end of the comment that starts at `from`, or `from` itself.
pub fn skip_comments(data: &Vec<char>, from: usize) -> (r: usize)
    requires
        from <= data@.len(),
    ensures
        r == comment_end(data@, from as int),
        from <= r <= data@.len(),
{
    let n = data.len();
    let line_open = vec!['/', '/'];
    let line_close = vec!['\n'];
    let block_open = vec!['/', '*'];
    let block_close = vec!['*', '/'];
    assert(line_open@ =~= line_comment_open());
    assert(line_close@ =~= line_comment_close());
    assert(block_open@ =~= block_comment_open());
    assert(block_close@ =~= block_comment_close());
    if matches_here(data, from, &line_open) {
        skip_until(data, from + 2, &line_close)
    } else if matches_here(data, from, &block_open) {
        skip_until(data, from + 2, &block_close)
    } else {
        from
    }
}

/// The position of the next token at or after `from`, past every blank and
/// comment.
pub fn skip(data: &Vec<char>, from: usize) -> (r: usize)
    requires
        from <= data@.len(),
    ensures
        r == skip_end(data@, from as int),
        from <= r <= data@.len(),
{
    proof {
        lemma_skip_end_bounds(data@, from as int);
    }
    let mut remaining = from;
    loop
        invariant
            from <= remaining <= data@.len(),
            skip_end(data@, remaining as int) == skip_end(data@, from as int),
        decreases data@.len() - remaining,
    {
        let ws = skip_whitespace(data, remaining);
        let next = skip_comments(data, ws);
        if next == remaining {
            return remaining;
        }
        remaining = next;
    }
}

pub open spec fn digit_value(c: char) -> int {
    c as int - '0' as int
}

/// The number that a run of decimal digits denotes.
pub open spec fn digits_value(d: Seq<char>) -> int
    decreases d.len(),
{
    if d.len() == 0 {
        0
    } else {
        digits_value(d.drop_last()) * 10 + digit_value(d.last())
    }
}

/// The position of the first `"` at or after `i`, or the end of `s`.
pub open spec fn quote_at_or_after(s: Seq<char>, i: int) -> int
    decreases s.len() - i,
{
    if i >= s.len() {
        s.len() as int
    } else if s[i] == '"' {
        i
    } else {
        quote_at_or_after(s, i + 1)
    }
}

/// The token that a word stands for: a keyword, or else an identifier.
pub open spec fn word_token(w: Seq<char>) -> Tok {
    if w == seq!['i', 'f'] {
        Tok::If
    } else if w == seq!['w', 'h', 'i', 'l', 'e'] {
        Tok::While
    } else if w == seq!['t', 'r', 'u', 'e'] {
        Tok::Boolean(true)
    } else if w == seq!['f', 'a', 'l', 's', 'e'] {
        Tok::Boolean(false)
    } else {
        Tok::Identifier(w)
    }
}

/// The number token that starts at `i`, where a digit stands: the longest run
/// of digits with at most one `.` in it.
pub open spec fn number_token(s: Seq<char>, i: int) -> Result<(Tok, int), LexError> {
    let d = run_end(s, i, CharClass::Digit);
    if d < s.len() && s[d] == '.' {
        let e = run_end(s, d + 1, CharClass::Digit);
        Ok((Tok::Decimal(s.subrange(i, e)), e))
    } else if digits_value(s.subrange(i, d)) <= i64::MAX {
        Ok((Tok::Integer(digits_value(s.subrange(i, d)) as i64), d))
    } else {
        Err(LexError::NumberFormat)
    }
}

/// The string token whose opening `"` stands at `i`.
pub open spec fn string_token(s: Seq<char>, i: int) -> Result<(Tok, int), LexError> {
    let q = quote_at_or_after(s, i + 1);
    if q < s.len() {
        Ok((Tok::QuotedString(s.subrange(i + 1, q)), q + 1))
    } else {
        Err(LexError::UnterminatedString)
    }
}

/// The token that starts at position `i` of `s`, and the position after it.
pub open spec fn token_at(s: Seq<char>, i: int) -> Result<(Tok, int), LexError> {
    let c = s[i];
    let next_is_eq = i + 1 < s.len() && s[i + 1] == '=';
    if c == '.' {
        Ok((Tok::Dot, i + 1))
    } else if c == '+' {
        Ok((Tok::Plus, i + 1))
    } else if c == '-' {
        Ok((Tok::Minus, i + 1))
    } else if c == '*' {
        Ok((Tok::Asterisk, i + 1))
    } else if c == '/' {
        Ok((Tok::ForwardSlash, i + 1))
    } else if c == '(' {
        Ok((Tok::Lparen, i + 1))
    } else if c == ')' {
        Ok((Tok::Rparen, i + 1))
    } else if c == '<' {
        Ok((Tok::Less, i + 1))
    } else if c == '>' {
        Ok((Tok::Greater, i + 1))
    } else if c == '\n' {
        Ok((Tok::NewLine, i + 1))
    } else if c == '=' {
        if next_is_eq {
            Ok((Tok::IsEquals, i + 2))
        } else {
            Ok((Tok::Assign, i + 1))
        }
    } else if c == '!' {
        if next_is_eq {
            Ok((Tok::NotEquals, i + 2))
        } else {
            Ok((Tok::Not, i + 1))
        }
    } else if c == '"' {
        string_token(s, i)
    } else if is_digit(c) {
        number_token(s, i)
    } else if c == '_' || alphabetic_class(c) {
        let e = run_end(s, i, CharClass::Word);
        Ok((word_token(s.subrange(i, e)), e))
    } else {
        Err(LexError::UnexpectedChar(c))
    }
}

/// The tokens of `s` from position `i` on, or the first error met.
pub open spec fn tokens_from(s: Seq<char>, i: int) -> Result<Seq<Tok>, LexError>
    decreases s.len() - i,
{
    let j = skip_end(s, i);
    if 0 <= i <= j < s.len() {
        match token_at(s, j) {
            Err(e) => Err(e),
            Ok((t, k)) => if j < k <= s.len() {
                match tokens_from(s, k) {
                    Ok(ts) => Ok(seq![t] + ts),
                    Err(e) => Err(e),
                }
            } else {
                Ok(Seq::empty())
            },
        }
    } else {
        Ok(Seq::empty())
    }
}

/// The tokens of a whole text.
pub open spec fn tokens_of(s: Seq<char>) -> Result<Seq<Tok>, LexError> {
    tokens_from(s, 0)
}

pub open spec fn views(v: Seq<TokenKind>) -> Seq<Tok> {
    v.map_values(|t: TokenKind| t@)
}

proof fn lemma_digits_prefix(d: Seq<char>, k: int)
    requires
        0 <= k <= d.len(),
        forall|j: int| 0 <= j < d.len() ==> is_digit(#[trigger] d[j]),
    ensures
        0 <= digits_value(d.subrange(0, k)) <= digits_value(d),
    decreases d.len() - k,
{
    if k < d.len() {
        lemma_digits_prefix(d, k + 1);
        assert(d.subrange(0, k + 1).drop_last() =~= d.subrange(0, k));
    } else {
        assert(d.subrange(0, k) =~= d);
        lemma_digits_nonneg(d);
    }
}

proof fn lemma_digits_nonneg(d: Seq<char>)
    requires
        forall|j: int| 0 <= j < d.len() ==> is_digit(#[trigger] d[j]),
    ensures
        0 <= digits_value(d),
    decreases d.len(),
{
    if d.len() > 0 {
        lemma_digits_nonneg(d.drop_last());
    }
}

proof fn lemma_run_all_in_class(s: Seq<char>, i: int, class: CharClass)
    requires
        0 <= i <= s.len(),
    ensures
        forall|j: int| i <= j < run_end(s, i, class) ==> in_class(#[trigger] s[j], class),
    decreases s.len() - i,
{
    if i < s.len() && in_class(s[i], class) {
        lemma_run_all_in_class(s, i + 1, class);
    }
}

/// The characters of `data` from `from` up to `to`.
pub(crate) fn copy_range(data: &Vec<char>, from: usize, to: usize) -> (r: Vec<char>)
    requires
        from <= to <= data@.len(),
    ensures
        r@ == data@.subrange(from as int, to as int),
{
    let mut r: Vec<char> = Vec::new();
    let mut k = from;
    assert(r@ =~= data@.subrange(from as int, from as int));
    while k < to
        invariant
            from <= k <= to <= data@.len(),
            r@ == data@.subrange(from as int, k as int),
        decreases to - k,
    {
        r.push(data[k]);
        k = k + 1;
        assert(r@ =~= data@.subrange(from as int, k as int));
    }
    r
}

pub(crate) fn same_chars(w: &Vec<char>, lit: &Vec<char>) -> (r: bool)
    ensures
        r == (w@ == lit@),
{
    if w.len() != lit.len() {
        return false;
    }
    let mut k: usize = 0;
    while k < w.len()
        invariant
            w@.len() == lit@.len(),
            k <= w@.len(),
            forall|j: int| 0 <= j < k ==> w@[j] == lit@[j],
        decreases w@.len() - k,
    {
        if w[k] != lit[k] {
            return false;
        }
        k = k + 1;
    }
    assert(w@ =~= lit@);
    true
}

/// The value of the digits `data[from..to]`, or `None` when it exceeds `i64::MAX`.
fn digits_to_i64(data: &Vec<char>, from: usize, to: usize) -> (r: Option<i64>)
    requires
        from <= to <= data@.len(),
        forall|j: int| from <= j < to ==> is_digit(#[trigger] data@[j]),
    ensures
        r.is_some() == (digits_value(data@.subrange(from as int, to as int)) <= i64::MAX),
        r.is_some() ==> r.unwrap() as int == digits_value(data@.subrange(from as int, to as int)),
{
    let ghost full = data@.subrange(from as int, to as int);
    let mut acc: i64 = 0;
    let mut k = from;
    assert(data@.subrange(from as int, from as int) =~= Seq::<char>::empty());
    while k < to
        invariant
            from <= k <= to <= data@.len(),
            full == data@.subrange(from as int, to as int),
            forall|j: int| from <= j < to ==> is_digit(#[trigger] data@[j]),
            acc as int == digits_value(data@.subrange(from as int, k as int)),
        decreases to - k,
    {
        let c = data[k];
        let dv = (c as u32 - '0' as u32) as i64;
        assert(data@.subrange(from as int, k + 1).drop_last() =~= data@.subrange(
            from as int,
            k as int,
        ));
        assert(full.subrange(0, k + 1 - from) =~= data@.subrange(from as int, k + 1));
        proof {
            lemma_digits_prefix(full, k + 1 - from);
        }
        match acc.checked_mul(10) {
            None => {
                return None;
            },
            Some(m) => match m.checked_add(dv) {
                None => {
                    return None;
                },
                Some(v) => {
                    acc = v;
                },
            },
        }
        k = k + 1;
    }
    assert(data@.subrange(from as int, k as int) =~= full);
    Some(acc)
}

/// Reads the number that starts at `from`, where a digit stands.
fn lex_number(data: &Vec<char>, from: usize) -> (r: Result<(TokenKind, usize), LexError>)
    requires
        from < data@.len(),
        is_digit(data@[from as int]),
    ensures
        match r {
            Ok((t, e)) => number_token(data@, from as int) == Ok::<(Tok, int), LexError>((t@, e as int)),
            Err(e) => number_token(data@, from as int) == Err::<(Tok, int), LexError>(e),
        },
{
    let d = take_while(data, from, CharClass::Digit);
    proof {
        lemma_run_all_in_class(data@, from as int, CharClass::Digit);
    }
    if d < data.len() && data[d] == '.' {
        let e = take_while(data, d + 1, CharClass::Digit);
        Ok((TokenKind::Decimal(copy_range(data, from, e)), e))
    } else {
        match digits_to_i64(data, from, d) {
            Some(n) => Ok((TokenKind::Integer(n), d)),
            None => Err(LexError::NumberFormat),
        }
    }
}

proof fn lemma_quote_bounds(s: Seq<char>, i: int)
    requires
        0 <= i <= s.len(),
    ensures
        i <= quote_at_or_after(s, i) <= s.len(),
        quote_at_or_after(s, i) < s.len() ==> s[quote_at_or_after(s, i)] == '"',
    decreases s.len() - i,
{
    if i < s.len() && s[i] != '"' {
        lemma_quote_bounds(s, i + 1);
    }
}

/// Reads the string literal whose opening `"` stands at `from`.
fn lex_string(data: &Vec<char>, from: usize) -> (r: Result<(TokenKind, usize), LexError>)
    requires
        from < data@.len(),
    ensures
        match r {
            Ok((t, e)) => string_token(data@, from as int) == Ok::<(Tok, int), LexError>((t@, e as int)),
            Err(e) => string_token(data@, from as int) == Err::<(Tok, int), LexError>(e),
        },
{
    let len = data.len();
    proof {
        lemma_quote_bounds(data@, from + 1);
    }
    let mut q = from + 1;
    while q < len && data[q] != '"'
        invariant
            len == data@.len(),
            from < q <= data@.len(),
            quote_at_or_after(data@, q as int) == quote_at_or_after(data@, from + 1),
        decreases data@.len() - q,
    {
        q = q + 1;
    }
    if q < len {
        Ok((TokenKind::QuotedString(copy_range(data, from + 1, q)), q + 1))
    } else {
        Err(LexError::UnterminatedString)
    }
}

/// Reads the word that starts at `from`: a keyword or an identifier.
fn lex_ident(data: &Vec<char>, from: usize) -> (r: Result<(TokenKind, usize), LexError>)
    requires
        from < data@.len(),
        data@[from as int] == '_' || alphabetic_class(data@[from as int]) || is_digit(
            data@[from as int],
        ),
    ensures
        is_digit(data@[from as int]) ==> r == Err::<(TokenKind, usize), LexError>(
            LexError::IdentifierStartsWithDigit,
        ),
        !is_digit(data@[from as int]) ==> match r {
            Ok((t, e)) => t@ == word_token(data@.subrange(from as int, e as int)) && e as int
                == run_end(data@, from as int, CharClass::Word) && from < e <= data@.len(),
            Err(_) => false,
        },
{
    let c = data[from];
    if '0' <= c && c <= '9' {
        return Err(LexError::IdentifierStartsWithDigit);
    }
    if !(c == '_' || is_alphanumeric(c)) {
        return Err(LexError::UnexpectedChar(c));
    }
    proof {
        lemma_run_end_bounds(data@, from + 1, CharClass::Word);
    }
    let e = take_while(data, from, CharClass::Word);
    let w = copy_range(data, from, e);
    let kw_if = vec!['i', 'f'];
    let kw_while = vec!['w', 'h', 'i', 'l', 'e'];
    let kw_true = vec!['t', 'r', 'u', 'e'];
    let kw_false = vec!['f', 'a', 'l', 's', 'e'];
    assert(kw_if@ =~= seq!['i', 'f']);
    assert(kw_while@ =~= seq!['w', 'h', 'i', 'l', 'e']);
    assert(kw_true@ =~= seq!['t', 'r', 'u', 'e']);
    assert(kw_false@ =~= seq!['f', 'a', 'l', 's', 'e']);
    let t = if same_chars(&w, &kw_if) {
        TokenKind::If
    } else if same_chars(&w, &kw_while) {
        TokenKind::While
    } else if same_chars(&w, &kw_true) {
        TokenKind::Boolean(true)
    } else if same_chars(&w, &kw_false) {
        TokenKind::Boolean(false)
    } else {
        TokenKind::Identifier(w)
    };
    Ok((t, e))
}

/// Reads the token that starts at `from`, and gives the position after it.
pub fn lex_one(data: &Vec<char>, from: usize) -> (r: Result<(TokenKind, usize), LexError>)
    requires
        from < data@.len(),
    ensures
        match r {
            Ok((t, e)) => token_at(data@, from as int) == Ok::<(Tok, int), LexError>((t@, e as int))
                && from < e <= data@.len(),
            Err(e) => token_at(data@, from as int) == Err::<(Tok, int), LexError>(e),
        },
{
    let len = data.len();
    let c = data[from];
    let next_is_eq = from + 1 < len && data[from + 1] == '=';
    if c == '.' {
        Ok((TokenKind::Dot, from + 1))
    } else if c == '+' {
        Ok((TokenKind::Plus, from + 1))
    } else if c == '-' {
        Ok((TokenKind::Minus, from + 1))
    } else if c == '*' {
        Ok((TokenKind::Asterisk, from + 1))
    } else if c == '/' {
        Ok((TokenKind::ForwardSlash, from + 1))
    } else if c == '(' {
        Ok((TokenKind::Lparen, from + 1))
    } else if c == ')' {
        Ok((TokenKind::Rparen, from + 1))
    } else if c == '<' {
        Ok((TokenKind::Less, from + 1))
    } else if c == '>' {
        Ok((TokenKind::Greater, from + 1))
    } else if c == '\n' {
        Ok((TokenKind::NewLine, from + 1))
    } else if c == '=' {
        if next_is_eq {
            Ok((TokenKind::IsEquals, from + 2))
        } else {
            Ok((TokenKind::Assign, from + 1))
        }
    } else if c == '!' {
        if next_is_eq {
            Ok((TokenKind::NotEquals, from + 2))
        } else {
            Ok((TokenKind::Not, from + 1))
        }
    } else if c == '"' {
        proof {
            lemma_quote_bounds(data@, from + 1);
        }
        lex_string(data, from)
    } else if '0' <= c && c <= '9' {
        proof {
            lemma_run_end_bounds(data@, from as int, CharClass::Digit);
            lemma_run_end_bounds(data@, from as int, CharClass::Word);
            let d = run_end(data@, from as int, CharClass::Digit);
            if d < data@.len() && data@[d] == '.' {
                lemma_run_end_bounds(data@, d + 1, CharClass::Digit);
            }
        }
        lex_number(data, from)
    } else if c == '_' || is_alphabetic(c) {
        proof {
            lemma_run_end_bounds(data@, from + 1, CharClass::Word);
        }
        lex_ident(data, from)
    } else {
        Err(LexError::UnexpectedChar(c))
    }
}

/// `ts` put in front of the tokens of `r`, or the error of `r`.
pub open spec fn after(ts: Seq<Tok>, r: Result<Seq<Tok>, LexError>) -> Result<Seq<Tok>, LexError> {
    match r {
        Ok(rest) => Ok(ts + rest),
        Err(e) => Err(e),
    }
}

/// Walks a text token by token.
pub struct Lexer {
    current: usize,
    src: Vec<char>,
}

impl Lexer {
    /// The text being read.
    pub closed spec fn text(&self) -> Seq<char> {
        self.src@
    }

    /// The position of the next character to read.
    pub closed spec fn position(&self) -> int {
        self.current as int
    }

    pub closed spec fn wf(&self) -> bool {
        self.current <= self.src@.len()
    }

    pub fn new(src: Vec<char>) -> (r: Lexer)
        ensures
            r.wf(),
            r.text() == src@,
            r.position() == 0,
    {
        Lexer { current: 0, src }
    }

    /// Moves past `num_chars` characters.
    pub fn chomp(&mut self, num_chars: usize)
        requires
            old(self).wf(),
            old(self).position() + num_chars <= old(self).text().len(),
        ensures
            final(self).wf(),
            final(self).text() == old(self).text(),
            final(self).position() == old(self).position() + num_chars,
    {
        let n = self.src.len();
        self.current = self.current + num_chars;
    }

    /// Moves past the blanks and comments in front of the next token.
    pub fn skip_whitespace(&mut self)
        requires
            old(self).wf(),
        ensures
            final(self).wf(),
            final(self).text() == old(self).text(),
            final(self).position() == skip_end(old(self).text(), old(self).position()),
    {
        let next = skip(&self.src, self.current);
        self.chomp(next - self.current);
    }

    /// Reads the next token; `None` once only blanks and comments are left.
    pub fn next_token(&mut self) -> (r: Result<Option<TokenKind>, LexError>)
        requires
            old(self).wf(),
        ensures
            final(self).wf(),
            final(self).text() == old(self).text(),
            ({
                let s = old(self).text();
                let j = skip_end(s, old(self).position());
                match r {
                    Ok(None) => j == s.len() && final(self).position() == j,
                    Ok(Some(t)) => j < s.len() && token_at(s, j) == Ok::<(Tok, int), LexError>(
                        (t@, final(self).position()),
                    ) && j < final(self).position(),
                    Err(e) => j < s.len() && token_at(s, j) == Err::<(Tok, int), LexError>(e),
                }
            }),
    {
        self.skip_whitespace();
        if self.current >= self.src.len() {
            return Ok(None);
        }
        let (tok, end) = lex_one(&self.src, self.current)?;
        let n = end - self.current;
        self.chomp(n);
        Ok(Some(tok))
    }
}

/// The characters of `src`, in order.
pub fn chars_of(src: &str) -> (r: Vec<char>)
    ensures
        r@ == src@,
{
    let n = src.unicode_len();
    let mut r: Vec<char> = Vec::new();
    let mut k: usize = 0;
    while k < n
        invariant
            n == src@.len(),
            k <= n,
            r@ == src@.subrange(0, k as int),
        decreases n - k,
    {
        r.push(src.get_char(k));
        k = k + 1;
        assert(r@ =~= src@.subrange(0, k as int));
    }
    assert(r@ =~= src@);
    r
}

/// Splits `src` into tokens.
pub fn lex(src: &str) -> (r: Result<Vec<TokenKind>, LexError>)
    ensures
        match r {
            Ok(v) => tokens_of(src@) == Ok::<Seq<Tok>, LexError>(views(v@)),
            Err(e) => tokens_of(src@) == Err::<Seq<Tok>, LexError>(e),
        },
{
    let mut lexer = Lexer::new(chars_of(src));
    let mut tokens: Vec<TokenKind> = Vec::new();
    loop
        invariant
            lexer.wf(),
            lexer.text() == src@,
            tokens_of(src@) == after(views(tokens@), tokens_from(src@, lexer.position())),
        decreases src@.len() - lexer.position(),
    {
        let ghost s = src@;
        let ghost before = lexer.position();
        proof {
            lemma_skip_end_bounds(s, before);
        }
        match lexer.next_token() {
            Ok(None) => {
                assert(views(tokens@) + Seq::<Tok>::empty() =~= views(tokens@));
                return Ok(tokens);
            },
            Ok(Some(t)) => {
                let ghost tv = t@;
                let ghost prev = tokens@;
                tokens.push(t);
                assert(views(tokens@) =~= views(prev) + seq![tv]);
                proof {
                    match tokens_from(s, lexer.position()) {
                        Ok(rest) => {
                            assert(views(prev) + (seq![tv] + rest) =~= views(tokens@) + rest);
                        },
                        Err(_) => {},
                    }
                }
            },
            Err(e) => {
                return Err(e);
            },
        }
    }
}

/// A copy of `v`.
pub(crate) fn copy_chars(v: &Vec<char>) -> (r: Vec<char>)
    ensures
        r@ == v@,
{
    let r = copy_range(v, 0, v.len());
    assert(r@ =~= v@);
    r
}

impl TokenKind {
    /// A token equal to this one.
    pub fn copy(&self) -> (r: TokenKind)
        ensures
            r@ == self@,
    {
        match self {
            TokenKind::Integer(n) => TokenKind::Integer(*n),
            TokenKind::Decimal(t) => TokenKind::Decimal(copy_chars(t)),
            TokenKind::Identifier(t) => TokenKind::Identifier(copy_chars(t)),
            TokenKind::QuotedString(t) => TokenKind::QuotedString(copy_chars(t)),
            TokenKind::Boolean(b) => TokenKind::Boolean(*b),
            TokenKind::Plus => TokenKind::Plus,
            TokenKind::Minus => TokenKind::Minus,
            TokenKind::Asterisk => TokenKind::Asterisk,
            TokenKind::ForwardSlash => TokenKind::ForwardSlash,
            TokenKind::Assign => TokenKind::Assign,
            TokenKind::Lparen => TokenKind::Lparen,
            TokenKind::Rparen => TokenKind::Rparen,
            TokenKind::IsEquals => TokenKind::IsEquals,
            TokenKind::NotEquals => TokenKind::NotEquals,
            TokenKind::Less => TokenKind::Less,
            TokenKind::Greater => TokenKind::Greater,
            TokenKind::Not => TokenKind::Not,
            TokenKind::Dot => TokenKind::Dot,
            TokenKind::NewLine => TokenKind::NewLine,
            TokenKind::If => TokenKind::If,
            TokenKind::While => TokenKind::While,
        }
    }
}

} // verus!
