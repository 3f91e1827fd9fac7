//! The lexer: from characters to tokens with their positions.
//!
//! What the lexer does is defined by the spec function [`scan`], which says
//! for a source text and an offset in it which token comes next. The
//! executable [`Lexer::next`] is proved to compute it.

use vstd::prelude::*;
use crate::error::PipelineError;
use crate::text::{chars_of, spells, string_from_chars};
use crate::v1::position::Position;
use crate::v1::token::{bare, numbered, worded, Token, TokenView};

verus! {

pub open spec fn is_digit(c: char) -> bool {
    '0' <= c <= '9'
}

pub open spec fn is_letter(c: char) -> bool {
    ('a' <= c <= 'z') || ('A' <= c <= 'Z')
}

pub open spec fn is_word_char(c: char) -> bool {
    is_letter(c) || is_digit(c)
}

/// Characters between tokens that mean nothing: blanks, line ends and `;`.
pub open spec fn is_blank(c: char) -> bool {
    c == ' ' || c == '\n' || c == '\r' || c == '\t' || c == ';'
}

/// The classes of characters that a run of the source is made of.
pub enum Class {
    Digit,
    Word,
    /// Anything but the given character.
    Until(char),
}

pub open spec fn in_class(k: Class, c: char) -> bool {
    match k {
        Class::Digit => is_digit(c),
        Class::Word => is_word_char(c),
        Class::Until(q) => c != q,
    }
}

/// The end of the longest run of characters of class `k` that starts at `i`.
pub open spec fn run_end(src: Seq<char>, i: int, k: Class) -> int
    decreases src.len() - i,
{
    if 0 <= i < src.len() && in_class(k, src[i]) {
        run_end(src, i + 1, k)
    } else {
        i
    }
}

/// The offset behind the `*/` that closes a block comment whose body starts
/// at `i`; the end of the source where nothing closes it.
pub open spec fn comment_end(src: Seq<char>, i: int) -> int
    decreases src.len() - i,
{
    if i < 0 || i >= src.len() {
        src.len() as int
    } else if src[i] == '*' && i + 1 < src.len() && src[i + 1] == '/' {
        i + 2
    } else {
        comment_end(src, i + 1)
    }
}

pub proof fn lemma_run_end(src: Seq<char>, i: int, k: Class)
    requires
        0 <= i <= src.len(),
    ensures
        i <= run_end(src, i, k) <= src.len(),
        forall|j: int| i <= j < run_end(src, i, k) ==> in_class(k, #[trigger] src[j]),
        run_end(src, i, k) < src.len() ==> !in_class(k, src[run_end(src, i, k)]),
    decreases src.len() - i,
{
    if i < src.len() && in_class(k, src[i]) {
        lemma_run_end(src, i + 1, k);
    }
}

pub proof fn lemma_comment_end(src: Seq<char>, i: int)
    requires
        0 <= i <= src.len(),
    ensures
        i <= comment_end(src, i) <= src.len(),
    decreases src.len() - i,
{
    if i < src.len() && !(src[i] == '*' && i + 1 < src.len() && src[i + 1] == '/') {
        lemma_comment_end(src, i + 1);
    }
}

/// Whether a comment starts at `i`: `//` or `/*`.
pub open spec fn comment_starts(src: Seq<char>, i: int) -> bool {
    0 <= i && i + 1 < src.len() && src[i] == '/' && (src[i + 1] == '/' || src[i + 1] == '*')
}

/// The offset of the first character at or behind `i` that belongs to a
/// token: blanks, `;`, line comments and block comments are passed over.
pub open spec fn skip_trivia(src: Seq<char>, i: int) -> int
    decreases src.len() - i,
{
    if i < 0 || i >= src.len() {
        i
    } else if is_blank(src[i]) {
        skip_trivia(src, i + 1)
    } else if comment_starts(src, i) {
        if src[i + 1] == '/' {
            let e = run_end(src, i + 2, Class::Until('\n'));
            proof {
                lemma_run_end(src, i + 2, Class::Until('\n'));
            }
            skip_trivia(src, e)
        } else {
            let e = comment_end(src, i + 2);
            proof {
                lemma_comment_end(src, i + 2);
            }
            skip_trivia(src, e)
        }
    } else {
        i
    }
}

pub proof fn lemma_skip_trivia(src: Seq<char>, i: int)
    requires
        0 <= i <= src.len(),
    ensures
        i <= skip_trivia(src, i) <= src.len(),
        skip_trivia(src, i) < src.len() ==> !is_blank(src[skip_trivia(src, i)]) && !comment_starts(
            src,
            skip_trivia(src, i),
        ),
    decreases src.len() - i,
{
    if i < src.len() {
        if is_blank(src[i]) {
            lemma_skip_trivia(src, i + 1);
        } else if comment_starts(src, i) {
            if src[i + 1] == '/' {
                lemma_run_end(src, i + 2, Class::Until('\n'));
                lemma_skip_trivia(src, run_end(src, i + 2, Class::Until('\n')));
            } else {
                lemma_comment_end(src, i + 2);
                lemma_skip_trivia(src, comment_end(src, i + 2));
            }
        }
    }
}

/// The number that a run of decimal digits writes.
pub open spec fn decimal_value(digits: Seq<char>) -> int
    decreases digits.len(),
{
    if digits.len() == 0 {
        0
    } else {
        decimal_value(digits.drop_last()) * 10 + (digits.last() as int - '0' as int)
    }
}

/// The reserved words.
pub open spec fn is_keyword(word: Seq<char>) -> bool {
    word == "fn"@ || word == "fun"@ || word == "let"@ || word == "var"@ || word == "val"@ || word
        == "return"@ || word == "if"@ || word == "else"@ || word == "while"@ || word == "for"@
        || word == "in"@ || word == "break"@ || word == "continue"@ || word == "import"@ || word
        == "class"@
}

/// What stands at an offset of the source: a token with the region it was
/// read from, or a character that starts no token.
pub enum Scan {
    Token { token: TokenView, start: int, end: int },
    Invalid { found: char, at: int },
}

/// The token made of the one character `c`, with its kind.
pub open spec fn single(c: char) -> Option<int> {
    if c == '(' {
        Some(5)
    } else if c == ')' {
        Some(6)
    } else if c == '[' {
        Some(7)
    } else if c == ']' {
        Some(8)
    } else if c == '{' {
        Some(9)
    } else if c == '}' {
        Some(10)
    } else if c == '.' {
        Some(11)
    } else if c == ',' {
        Some(12)
    } else if c == ':' {
        Some(14)
    } else if c == '=' {
        Some(15)
    } else if c == '+' {
        Some(16)
    } else if c == '*' {
        Some(17)
    } else if c == '>' {
        Some(18)
    } else if c == '<' {
        Some(19)
    } else if c == '-' {
        Some(21)
    } else if c == '/' {
        Some(22)
    } else if c == '%' {
        Some(23)
    } else {
        None
    }
}

/// The token made of the two characters `c` and `d`, with its kind.
pub open spec fn double(c: char, d: char) -> Option<int> {
    if c == '=' && d == '=' {
        Some(20)
    } else if c == '!' && d == '=' {
        Some(25)
    } else if c == ':' && d == ':' {
        Some(24)
    } else {
        None
    }
}

/// Whether a number starts at `p`: a digit, or a `.` with a digit behind it.
pub open spec fn number_starts(src: Seq<char>, p: int) -> bool {
    0 <= p < src.len() && (is_digit(src[p]) || (src[p] == '.' && p + 1 < src.len() && is_digit(
        src[p + 1],
    )))
}

/// The number that starts at `p`. A `.` belongs to it only where a digit
/// follows; an integer that does not fit in 64 bits is no token.
pub open spec fn scan_number(src: Seq<char>, p: int) -> Scan {
    let whole = run_end(src, p, Class::Digit);
    if whole + 1 < src.len() && src[whole] == '.' && is_digit(src[whole + 1]) {
        let end = run_end(src, whole + 1, Class::Digit);
        Scan::Token { token: worded(2, src.subrange(p, end)), start: p, end }
    } else {
        let value = decimal_value(src.subrange(p, whole));
        if value <= i64::MAX {
            Scan::Token { token: numbered(value), start: p, end: whole }
        } else {
            Scan::Invalid { found: src[p], at: p }
        }
    }
}

/// The token that starts exactly at `p`, where `p` holds no blank and starts
/// no comment.
pub open spec fn scan_at(src: Seq<char>, p: int) -> Scan {
    let c = src[p];
    if number_starts(src, p) {
        scan_number(src, p)
    } else if is_letter(c) {
        let end = run_end(src, p, Class::Word);
        let word = src.subrange(p, end);
        Scan::Token { token: worded(if is_keyword(word) { 4 } else { 3 }, word), start: p, end }
    } else if c == '"' || c == '\'' {
        let close = run_end(src, p + 1, Class::Until(c));
        if close < src.len() {
            Scan::Token { token: worded(0, src.subrange(p + 1, close)), start: p, end: close + 1 }
        } else {
            Scan::Invalid { found: c, at: p }
        }
    } else if p + 1 < src.len() && double(c, src[p + 1]) is Some {
        Scan::Token { token: bare(double(c, src[p + 1])->0), start: p, end: p + 2 }
    } else if single(c) is Some {
        Scan::Token { token: bare(single(c)->0), start: p, end: p + 1 }
    } else {
        Scan::Invalid { found: c, at: p }
    }
}

/// The next token at or behind offset `i`. Behind the last token stands
/// `EOF`, with the position that has no place.
pub open spec fn scan(src: Seq<char>, i: int) -> Scan {
    let p = skip_trivia(src, i);
    if p >= src.len() {
        Scan::Token { token: bare(13), start: 0, end: 0 }
    } else {
        scan_at(src, p)
    }
}

/// The offset at which to go on after the token that `scan(src, i)` gives.
pub open spec fn scan_next(src: Seq<char>, i: int) -> int {
    match scan(src, i) {
        Scan::Token { token, start, end } => if token.id == 13 {
            skip_trivia(src, i)
        } else {
            end
        },
        Scan::Invalid { found, at } => i,
    }
}


pub proof fn lemma_decimal_value(digits: Seq<char>, k: int)
    requires
        0 <= k <= digits.len(),
        forall|j: int| 0 <= j < digits.len() ==> is_digit(#[trigger] digits[j]),
    ensures
        0 <= decimal_value(digits.take(k)) <= decimal_value(digits),
    decreases digits.len(),
{
    if digits.len() == 0 {
        assert(digits.take(k) =~= digits);
    } else if k == digits.len() {
        assert(digits.take(k) =~= digits);
        lemma_decimal_value(digits.drop_last(), k - 1);
    } else {
        assert(digits.drop_last().take(k) =~= digits.take(k));
        lemma_decimal_value(digits.drop_last(), k);
    }
}

pub fn is_digit_char(c: char) -> (b: bool)
    ensures
        b == is_digit(c),
{
    '0' <= c && c <= '9'
}

pub fn is_letter_char(c: char) -> (b: bool)
    ensures
        b == is_letter(c),
{
    ('a' <= c && c <= 'z') || ('A' <= c && c <= 'Z')
}

pub fn is_blank_char(c: char) -> (b: bool)
    ensures
        b == is_blank(c),
{
    c == ' ' || c == '\n' || c == '\r' || c == '\t' || c == ';'
}

fn class_holds(k: &Class, c: char) -> (b: bool)
    ensures
        b == in_class(*k, c),
{
    match k {
        Class::Digit => is_digit_char(c),
        Class::Word => is_letter_char(c) || is_digit_char(c),
        Class::Until(q) => c != *q,
    }
}

fn find_run_end(chars: &Vec<char>, from: usize, k: Class) -> (end: usize)
    requires
        from <= chars.len(),
    ensures
        end == run_end(chars@, from as int, k),
        from <= end <= chars.len(),
{
    let mut j: usize = from;
    while j < chars.len() && class_holds(&k, chars[j])
        invariant
            from <= j <= chars.len(),
            run_end(chars@, from as int, k) == run_end(chars@, j as int, k),
        decreases chars.len() - j,
    {
        j += 1;
    }
    j
}

fn find_comment_end(chars: &Vec<char>, from: usize) -> (end: usize)
    requires
        from <= chars.len(),
    ensures
        end == comment_end(chars@, from as int),
        from <= end <= chars.len(),
{
    let mut j: usize = from;
    while j < chars.len()
        invariant
            from <= j <= chars.len(),
            comment_end(chars@, from as int) == comment_end(chars@, j as int),
        decreases chars.len() - j,
    {
        if chars[j] == '*' && j + 1 < chars.len() && chars[j + 1] == '/' {
            return j + 2;
        }
        j += 1;
    }
    j
}

fn find_token_start(chars: &Vec<char>, from: usize) -> (p: usize)
    requires
        from <= chars.len(),
    ensures
        p == skip_trivia(chars@, from as int),
        from <= p <= chars.len(),
{
    let mut j: usize = from;
    loop
        invariant
            from <= j <= chars.len(),
            skip_trivia(chars@, from as int) == skip_trivia(chars@, j as int),
        decreases chars.len() - j,
    {
        if j >= chars.len() {
            return j;
        }
        let c = chars[j];
        if is_blank_char(c) {
            j += 1;
        } else if c == '/' && j + 1 < chars.len() && chars[j + 1] == '/' {
            j = find_run_end(chars, j + 2, Class::Until('\n'));
        } else if c == '/' && j + 1 < chars.len() && chars[j + 1] == '*' {
            j = find_comment_end(chars, j + 2);
        } else {
            return j;
        }
    }
}

/// The value of the digits `chars[from..to]`, or `None` where it does not
/// fit in 64 bits.
fn read_decimal(chars: &Vec<char>, from: usize, to: usize) -> (r: Option<i64>)
    requires
        from <= to <= chars.len(),
        forall|j: int| from <= j < to ==> is_digit(#[trigger] chars@[j]),
    ensures
        match r {
            Some(v) => v == decimal_value(chars@.subrange(from as int, to as int)),
            None => decimal_value(chars@.subrange(from as int, to as int)) > i64::MAX,
        },
{
    let ghost digits = chars@.subrange(from as int, to as int);
    let mut acc: i64 = 0;
    let mut j: usize = from;
    while j < to
        invariant
            from <= j <= to <= chars.len(),
            digits == chars@.subrange(from as int, to as int),
            forall|k: int| from <= k < to ==> is_digit(#[trigger] chars@[k]),
            acc == decimal_value(digits.take(j - from)),
            acc >= 0,
        decreases to - j,
    {
        let c = chars[j];
        let d: i64 = (c as u32 - '0' as u32) as i64;
        proof {
            assert(digits.take(j + 1 - from).drop_last() =~= digits.take(j - from));
            assert(digits.take(j + 1 - from).last() == c);
            assert(decimal_value(digits.take(j + 1 - from)) == acc * 10 + d);
        }
        if acc > (i64::MAX - d) / 10 {
            proof {
                lemma_decimal_value(digits, j + 1 - from);
            }
            return None;
        }
        acc = acc * 10 + d;
        j += 1;
    }
    assert(digits.take(to - from) =~= digits);
    Some(acc)
}

fn is_keyword_at(chars: &Vec<char>, from: usize, to: usize) -> (b: bool)
    requires
        from <= to <= chars.len(),
    ensures
        b == is_keyword(chars@.subrange(from as int, to as int)),
{
    spells(chars, from, to, "fn") || spells(chars, from, to, "fun") || spells(chars, from, to, "let")
        || spells(chars, from, to, "var") || spells(chars, from, to, "val") || spells(
        chars,
        from,
        to,
        "return",
    ) || spells(chars, from, to, "if") || spells(chars, from, to, "else") || spells(
        chars,
        from,
        to,
        "while",
    ) || spells(chars, from, to, "for") || spells(chars, from, to, "in") || spells(
        chars,
        from,
        to,
        "break",
    ) || spells(chars, from, to, "continue") || spells(chars, from, to, "import") || spells(
        chars,
        from,
        to,
        "class",
    )
}

fn single_token(c: char) -> (r: Option<Token>)
    ensures
        match r {
            Some(t) => single(c) == Some(t@.id) && t@ == bare(t@.id),
            None => single(c) is None,
        },
{
    if c == '(' {
        Some(Token::BraceLeft)
    } else if c == ')' {
        Some(Token::BraceRight)
    } else if c == '[' {
        Some(Token::SquareBracketLeft)
    } else if c == ']' {
        Some(Token::SquareBracketRight)
    } else if c == '{' {
        Some(Token::ParenthesisLeft)
    } else if c == '}' {
        Some(Token::ParenthesisRight)
    } else if c == '.' {
        Some(Token::Dot)
    } else if c == ',' {
        Some(Token::Comma)
    } else if c == ':' {
        Some(Token::Colon)
    } else if c == '=' {
        Some(Token::Assign)
    } else if c == '+' {
        Some(Token::Plus)
    } else if c == '*' {
        Some(Token::Mul)
    } else if c == '>' {
        Some(Token::Greater)
    } else if c == '<' {
        Some(Token::Less)
    } else if c == '-' {
        Some(Token::Minus)
    } else if c == '/' {
        Some(Token::Div)
    } else if c == '%' {
        Some(Token::Mod)
    } else {
        None
    }
}

fn double_token(c: char, d: char) -> (r: Option<Token>)
    ensures
        match r {
            Some(t) => double(c, d) == Some(t@.id) && t@ == bare(t@.id),
            None => double(c, d) is None,
        },
{
    if c == '=' && d == '=' {
        Some(Token::Equal)
    } else if c == '!' && d == '=' {
        Some(Token::NotEqual)
    } else if c == ':' && d == ':' {
        Some(Token::ScopeSymbol)
    } else {
        None
    }
}

pub proof fn lemma_run_end_slice(src: Seq<char>, a: int, b: int, i: int, k: Class)
    requires
        0 <= a <= i <= b <= src.len(),
        run_end(src, i, k) <= b,
    ensures
        run_end(src.subrange(a, b), i - a, k) == run_end(src, i, k) - a,
    decreases b - i,
{
    lemma_run_end(src, i, k);
    if i < b && in_class(k, src[i]) {
        lemma_run_end_slice(src, a, b, i + 1, k);
    }
}

/// Reading a token again from the very text it was read from gives the same
/// token: for the token that `scan` finds at or behind offset `i`, with the
/// region `[start, end)` it was read from, a scan of that region alone finds
/// a token of the same kind, text and value, which fills the region.
pub proof fn lemma_round_trip(src: Seq<char>, i: int)
    requires
        0 <= i <= src.len(),
    ensures
        match scan(src, i) {
            Scan::Token { token, start, end } => 0 <= start <= end <= src.len() && scan(
                src.subrange(start, end),
                0,
            ) == (Scan::Token { token, start: 0, end: end - start }),
            Scan::Invalid { found, at } => i <= at < src.len() && src[at] == found,
        },
{
    lemma_skip_trivia(src, i);
    let p = skip_trivia(src, i);
    if p >= src.len() {
        let empty = src.subrange(0, 0);
        assert(skip_trivia(empty, 0) == 0);
    } else {
        let c = src[p];
        lemma_run_end(src, p, Class::Digit);
        lemma_run_end(src, p, Class::Word);
        lemma_run_end(src, p + 1, Class::Until(c));
        match scan_at(src, p) {
            Scan::Token { token, start, end } => {
                let part = src.subrange(p, end);
                if number_starts(src, p) {
                    let whole = run_end(src, p, Class::Digit);
                    if whole + 1 < src.len() && src[whole] == '.' && is_digit(src[whole + 1]) {
                        lemma_run_end(src, whole + 1, Class::Digit);
                        lemma_run_end_slice(src, p, end, p, Class::Digit);
                        lemma_run_end_slice(src, p, end, whole + 1, Class::Digit);
                        assert(part.subrange(0, end - p) =~= part);
                    } else {
                        lemma_run_end_slice(src, p, end, p, Class::Digit);
                        assert(part.subrange(0, end - p) =~= part);
                    }
                    assert(number_starts(part, 0));
                } else if is_letter(c) {
                    lemma_run_end_slice(src, p, end, p, Class::Word);
                    assert(part.subrange(0, end - p) =~= part);
                } else if c == '"' || c == '\'' {
                    lemma_run_end_slice(src, p, end, p + 1, Class::Until(c));
                    assert(part.subrange(1, end - 1 - p) =~= src.subrange(p + 1, end - 1));
                } else {
                }
                assert(skip_trivia(part, 0) == 0);
                assert(scan_at(part, 0) == (Scan::Token { token, start: 0, end: end - start }));
            },
            Scan::Invalid { found, at } => {},
        }
    }
}

/// A token other than `EOF` lies behind the offset that the scan started
/// from, is not empty, and the next scan starts at its end.
pub proof fn lemma_scan_progress(src: Seq<char>, i: int)
    requires
        0 <= i <= src.len(),
    ensures
        match scan(src, i) {
            Scan::Token { token, start, end } => token.id != 13 ==> i <= start < end <= src.len()
                && scan_next(src, i) == end,
            Scan::Invalid { found, at } => true,
        },
{
    lemma_skip_trivia(src, i);
    let p = skip_trivia(src, i);
    if p < src.len() {
        let c = src[p];
        lemma_run_end(src, p, Class::Digit);
        lemma_run_end(src, p, Class::Word);
        lemma_run_end(src, p + 1, Class::Until(c));
        let whole = run_end(src, p, Class::Digit);
        if 0 <= whole && whole + 1 <= src.len() {
            lemma_run_end(src, whole + 1, Class::Digit);
        }
    }
}

/// A token as it stands in the source.
pub struct Lexeme {
    pub token: TokenView,
    pub start: int,
    pub end: int,
}

/// The tokens of the source from offset `i` on, without the closing `EOF`;
/// or the first character that starts no token, with its offset.
pub open spec fn lexemes(src: Seq<char>, i: int) -> Result<Seq<Lexeme>, (char, int)>
    decreases src.len() - i,
{
    if i < 0 || i > src.len() {
        Ok(Seq::empty())
    } else {
        match scan(src, i) {
            Scan::Token { token, start, end } => {
                if token.id == 13 {
                    Ok(Seq::empty())
                } else {
                    proof {
                        lemma_scan_progress(src, i);
                    }
                    match lexemes(src, end) {
                        Ok(rest) => Ok(seq![Lexeme { token, start, end }] + rest),
                        Err(e) => Err(e),
                    }
                }
            },
            Scan::Invalid { found, at } => Err((found, at)),
        }
    }
}

/// Whether the token with its position is the lexeme.
pub open spec fn is_lexeme(item: (Token, Position), l: Lexeme) -> bool {
    item.0@ == l.token && item.1.pos == l.start && item.1.span == l.end - l.start
}

/// Whether the tokens are the lexemes, one for one.
pub open spec fn are_lexemes(items: Seq<(Token, Position)>, ls: Seq<Lexeme>) -> bool {
    items.len() == ls.len() && forall|k: int| 0 <= k < items.len() ==> is_lexeme(#[trigger] items[k], ls[k])
}

/// `found` in front of what is still to be read.
pub open spec fn behind(found: Seq<Lexeme>, rest: Result<Seq<Lexeme>, (char, int)>) -> Result<
    Seq<Lexeme>,
    (char, int),
> {
    match rest {
        Ok(more) => Ok(found + more),
        Err(e) => Err(e),
    }
}

/// What the lexer hands out for a scan of the source: the token with its
/// position, or the error for a character that starts no token.
pub open spec fn delivers(r: Result<(Token, Position), PipelineError>, s: Scan) -> bool {
    match s {
        Scan::Token { token, start, end } => r matches Ok((t, p)) && t@ == token && p.pos == start
            && p.span == end - start,
        Scan::Invalid { found, at } => r matches Err(PipelineError::UnexpectedChar(c, p)) && c
            == found && p.pos == at && p.span == 1,
    }
}

/// A lexer over a source text, with the offset of the next character to read.
pub struct Lexer {
    chars: Vec<char>,
    index: usize,
}

impl Lexer {
    #[verifier::type_invariant]
    spec fn in_bounds(&self) -> bool {
        self.index <= self.chars.len()
    }

    /// The source text.
    pub closed spec fn source(&self) -> Seq<char> {
        self.chars@
    }

    /// The offset of the next character to read.
    pub closed spec fn offset(&self) -> int {
        self.index as int
    }

    /// A lexer over the empty source.
    pub fn new() -> (l: Self)
        ensures
            l.source() == Seq::<char>::empty(),
            l.offset() == 0,
    {
        Self { chars: Vec::new(), index: 0 }
    }

    /// A lexer at the start of `script`.
    pub fn from_script(script: &str) -> (l: Self)
        ensures
            l.source() == script@,
            l.offset() == 0,
    {
        Self { chars: chars_of(script), index: 0 }
    }

    /// Replaces the source and goes back to its start.
    pub fn set_chars(&mut self, chars: Vec<char>)
        ensures
            final(self).source() == chars@,
            final(self).offset() == 0,
    {
        self.index = 0;
        self.chars = chars;
    }

    /// The source text.
    pub fn get_source(&self) -> (v: &Vec<char>)
        ensures
            v@ == self.source(),
    {
        &self.chars
    }

    /// Reads the number that starts at `p`.
    fn read_number(chars: &Vec<char>, p: usize) -> (r: (Result<(Token, Position), PipelineError>, usize))
        requires
            number_starts(chars@, p as int),
        ensures
            delivers(r.0, scan_number(chars@, p as int)),
            r.0 is Ok ==> r.1 == scan_number(chars@, p as int)->end,
            p <= r.1 <= chars.len(),
    {
        let whole = find_run_end(chars, p, Class::Digit);
        proof {
            lemma_run_end(chars@, p as int, Class::Digit);
        }
        if chars.len() - whole >= 2 && chars[whole] == '.' && is_digit_char(chars[whole + 1]) {
            let end = find_run_end(chars, whole + 1, Class::Digit);
            let text = string_from_chars(chars, p, end);
            (Ok((Token::Float(text), Position::new(p, end - p))), end)
        } else {
            match read_decimal(chars, p, whole) {
                Some(v) => (Ok((Token::Int(v), Position::new(p, whole - p))), whole),
                None => (Err(PipelineError::UnexpectedChar(chars[p], Position::new(p, 1))), p),
            }
        }
    }

    /// Reads the token that starts at `p`.
    fn read_at(chars: &Vec<char>, p: usize) -> (r: (Result<(Token, Position), PipelineError>, usize))
        requires
            p < chars.len(),
        ensures
            delivers(r.0, scan_at(chars@, p as int)),
            r.0 is Ok ==> r.1 == scan_at(chars@, p as int)->end,
            p <= r.1 <= chars.len(),
    {
        let c = chars[p];
        if is_digit_char(c) || (c == '.' && p + 1 < chars.len() && is_digit_char(chars[p + 1])) {
            return Self::read_number(chars, p);
        }
        if is_letter_char(c) {
            let end = find_run_end(chars, p, Class::Word);
            let word = string_from_chars(chars, p, end);
            let token = if is_keyword_at(chars, p, end) {
                Token::Keyword(word)
            } else {
                Token::Identifier(word)
            };
            return (Ok((token, Position::new(p, end - p))), end);
        }
        if c == '"' || c == '\'' {
            let close = find_run_end(chars, p + 1, Class::Until(c));
            if close < chars.len() {
                let text = string_from_chars(chars, p + 1, close);
                return (Ok((Token::String(text), Position::new(p, close + 1 - p))), close + 1);
            }
            return (Err(PipelineError::UnexpectedChar(c, Position::new(p, 1))), p);
        }
        if p + 1 < chars.len() {
            if let Some(t) = double_token(c, chars[p + 1]) {
                return (Ok((t, Position::new(p, 2))), p + 2);
            }
        }
        if let Some(t) = single_token(c) {
            return (Ok((t, Position::new(p, 1))), p + 1);
        }
        (Err(PipelineError::UnexpectedChar(c, Position::new(p, 1))), p)
    }

    /// The next token with its position. Behind the last token of the source
    /// every call gives `EOF`. A character that starts no token gives
    /// `UnexpectedChar` with its position, and the lexer stays where it was.
    pub fn next(&mut self) -> (r: Result<(Token, Position), PipelineError>)
        ensures
            final(self).source() == old(self).source(),
            delivers(r, scan(old(self).source(), old(self).offset())),
            final(self).offset() == scan_next(old(self).source(), old(self).offset()),
    {
        proof {
            use_type_invariant(&*self);
        }
        let p = find_token_start(&self.chars, self.index);
        if p >= self.chars.len() {
            self.index = p;
            return Ok((Token::EOF, Position::new(0, 0)));
        }
        let (r, next) = Self::read_at(&self.chars, p);
        if r.is_ok() {
            self.index = next;
        }
        r
    }

    /// All tokens from the lexer's offset to the end of the source, without
    /// the closing `EOF`; or the error of the first character that starts no
    /// token.
    pub fn tokenize(&mut self) -> (r: Result<Vec<(Token, Position)>, PipelineError>)
        ensures
            final(self).source() == old(self).source(),
            match lexemes(old(self).source(), old(self).offset()) {
                Ok(ls) => r matches Ok(items) && are_lexemes(items@, ls),
                Err((found, at)) => r matches Err(PipelineError::UnexpectedChar(c, p)) && c
                    == found && p.pos == at && p.span == 1,
            },
    {
        let mut items: Vec<(Token, Position)> = Vec::new();
        let ghost src = self.chars@;
        let ghost from = self.index as int;
        let ghost mut found: Seq<Lexeme> = Seq::empty();
        proof {
            use_type_invariant(&*self);
            assert(Seq::<Lexeme>::empty() + lexemes(src, from)->Ok_0 =~= lexemes(src, from)->Ok_0);
        }
        loop
            invariant
                self.source() == src,
                src == old(self).source(),
                from == old(self).offset(),
                0 <= self.offset() <= src.len(),
                lexemes(src, from) == behind(found, lexemes(src, self.offset())),
                are_lexemes(items@, found),
            decreases src.len() - self.offset(),
        {
            let ghost at = self.offset();
            proof {
                lemma_scan_progress(src, at);
            }
            match self.next() {
                Ok((token, position)) => {
                    if token.token_id() == 13 {
                        proof {
                            assert(found + Seq::<Lexeme>::empty() =~= found);
                        }
                        return Ok(items);
                    }
                    proof {
                        let l = Lexeme {
                            token: token@,
                            start: position.pos as int,
                            end: position.pos + position.span,
                        };
                        let rest = lexemes(src, l.end);
                        if rest is Ok {
                            assert(found + (seq![l] + rest->Ok_0) =~= found.push(l) + rest->Ok_0);
                        }
                        found = found.push(l);
                    }
                    items.push((token, position));
                },
                Err(e) => {
                    return Err(e);
                },
            }
        }
    }
}

/// A stream of tokens with one token of lookahead. Behind its last token it
/// gives `EOF` for ever.
pub struct TokenStream {
    tokens: Vec<(Token, Position)>,
    cursor: usize,
    last_end: usize,
}

/// The offset behind a region; the largest offset where the sum does not
/// fit.
pub open spec fn end_offset(p: Position) -> usize {
    if p.pos + p.span <= usize::MAX {
        (p.pos + p.span) as usize
    } else {
        usize::MAX
    }
}

/// The token that stands for the end of the input.
pub open spec fn end_of_input() -> (Token, Position) {
    (Token::EOF, Position::none())
}

impl TokenStream {
    #[verifier::type_invariant]
    spec fn in_bounds(&self) -> bool {
        self.cursor <= self.tokens.len()
    }

    /// The tokens that have not been taken yet.
    pub closed spec fn rest(&self) -> Seq<(Token, Position)> {
        self.tokens@.subrange(self.cursor as int, self.tokens.len() as int)
    }

    /// The token that `peek` and `next` give.
    pub open spec fn head(&self) -> (Token, Position) {
        if self.rest().len() > 0 {
            self.rest()[0]
        } else {
            end_of_input()
        }
    }

    /// The offset behind the token that was taken last; 0 before the first.
    pub closed spec fn taken_end(&self) -> usize {
        self.last_end
    }

    /// The stream without tokens.
    pub fn new() -> (s: Self)
        ensures
            s.rest() == Seq::<(Token, Position)>::empty(),
            s.taken_end() == 0,
    {
        Self { tokens: Vec::new(), cursor: 0, last_end: 0 }
    }

    /// A stream of the given tokens.
    pub fn from_tokens(tokens: Vec<(Token, Position)>) -> (s: Self)
        ensures
            s.rest() == tokens@,
            s.taken_end() == 0,
    {
        assert(tokens@.subrange(0, tokens.len() as int) == tokens@);
        Self { tokens, cursor: 0, last_end: 0 }
    }

    /// Reads all tokens that `lexer` still has and makes them the stream. On
    /// a character that starts no token the stream is left as it was.
    pub fn set_lexer(&mut self, lexer: Lexer) -> (r: Result<(), PipelineError>)
        ensures
            match lexemes(lexer.source(), lexer.offset()) {
                Ok(ls) => r is Ok && are_lexemes(final(self).rest(), ls) && final(self).taken_end() == 0,
                Err((found, at)) => r matches Err(PipelineError::UnexpectedChar(c, p)) && c
                    == found && p.pos == at && p.span == 1 && final(self).rest() == old(self).rest()
                    && final(self).taken_end() == old(self).taken_end(),
            },
    {
        let mut lexer = lexer;
        match lexer.tokenize() {
            Ok(tokens) => {
                assert(tokens@.subrange(0, tokens.len() as int) == tokens@);
                self.cursor = 0;
                self.last_end = 0;
                self.tokens = tokens;
                Ok(())
            },
            Err(e) => Err(e),
        }
    }

    /// Takes the next token.
    pub fn next(&mut self) -> (r: (Token, Position))
        ensures
            r == old(self).head(),
            final(self).rest() == (if old(self).rest().len() > 0 {
                old(self).rest().drop_first()
            } else {
                old(self).rest()
            }),
            final(self).taken_end() == (if old(self).rest().len() > 0 {
                end_offset(r.1)
            } else {
                old(self).taken_end()
            }),
    {
        proof {
            use_type_invariant(&*self);
        }
        if self.cursor < self.tokens.len() {
            let r = (self.tokens[self.cursor].0.duplicate(), self.tokens[self.cursor].1);
            self.cursor += 1;
            self.last_end = match r.1.pos.checked_add(r.1.span) {
                Some(end) => end,
                None => usize::MAX,
            };
            assert(self.rest() =~= old(self).rest().drop_first());
            r
        } else {
            (Token::EOF, Position::new(0, 0))
        }
    }

    /// The region from the offset `start` to the end of the token that was
    /// taken last; empty where that end lies before `start`.
    pub fn region_from(&self, start: usize) -> (p: Position)
        ensures
            p.pos == start,
            p.span == (if self.taken_end() >= start {
                self.taken_end() - start
            } else {
                0
            }),
    {
        if self.last_end >= start {
            Position::new(start, self.last_end - start)
        } else {
            Position::new(start, 0)
        }
    }

    /// The kind of the token `ahead` places behind the next one; the kind of
    /// `EOF` behind the last token.
    pub fn peek_id_at(&self, ahead: usize) -> (id: i8)
        ensures
            id == (if ahead < self.rest().len() {
                self.rest()[ahead as int].0@.id
            } else {
                13
            }),
    {
        proof {
            use_type_invariant(self);
        }
        if ahead < self.tokens.len() - self.cursor {
            self.tokens[self.cursor + ahead].0.token_id()
        } else {
            13
        }
    }

    /// The next token, which stays in the stream.
    pub fn peek(&self) -> (r: (Token, Position))
        ensures
            r == self.head(),
    {
        proof {
            use_type_invariant(self);
        }
        if self.cursor < self.tokens.len() {
            (self.tokens[self.cursor].0.duplicate(), self.tokens[self.cursor].1)
        } else {
            (Token::EOF, Position::new(0, 0))
        }
    }

    /// The position of the next token, which stays in the stream.
    pub fn peek_position(&self) -> (p: Position)
        ensures
            p == self.head().1,
    {
        proof {
            use_type_invariant(self);
        }
        if self.cursor < self.tokens.len() {
            self.tokens[self.cursor].1
        } else {
            Position::new(0, 0)
        }
    }

    /// The kind of the next token, which stays in the stream.
    pub fn peek_id(&self) -> (id: i8)
        ensures
            id == self.head().0@.id,
    {
        proof {
            use_type_invariant(self);
        }
        if self.cursor < self.tokens.len() {
            self.tokens[self.cursor].0.token_id()
        } else {
            13
        }
    }

    /// The number of tokens that have not been taken yet.
    pub fn remaining(&self) -> (n: usize)
        ensures
            n == self.rest().len(),
    {
        proof {
            use_type_invariant(self);
        }
        self.tokens.len() - self.cursor
    }
}

} // verus!
