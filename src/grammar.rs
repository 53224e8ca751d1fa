//! The lexical grammar, stated over the UTF-8 bytes of the source text.
//!
//! Every character the grammar tests for is ASCII, and in UTF-8 no byte of a
//! multi-byte character is ASCII, so deciding on bytes gives the same spans as
//! deciding on characters.
use vstd::prelude::*;
use vstd::string::StringSliceAdditionalSpecFns;
use crate::token::TokenKind;

verus! {

pub open spec fn is_space(b: u8) -> bool {
    b == (' ' as u8) || b == ('\r' as u8) || b == ('\t' as u8)
}

pub open spec fn is_digit(b: u8) -> bool {
    ('0' as u8) <= b <= ('9' as u8)
}

pub open spec fn is_letter(b: u8) -> bool {
    (('A' as u8) <= b <= ('Z' as u8)) || (('a' as u8) <= b <= ('z' as u8)) || b == ('_' as u8)
}

/// A byte that may continue a numeric literal: a digit or an underscore.
pub open spec fn is_digit_part(b: u8) -> bool {
    is_digit(b) || b == ('_' as u8)
}

/// The number of bytes of the UTF-8 character whose first byte is `b`.
pub open spec fn utf8_width(b: u8) -> int {
    if b < 0x80 {
        1
    } else if b < 0xe0 {
        2
    } else if b < 0xf0 {
        3
    } else {
        4
    }
}

/// The end of the run of spaces, tabs and carriage returns that starts at `i`.
pub open spec fn space_end(s: Seq<u8>, i: int) -> int
    decreases s.len() - i,
{
    if 0 <= i < s.len() && is_space(s[i]) {
        space_end(s, i + 1)
    } else {
        i
    }
}

/// The end of the run of letters and underscores that starts at `i`.
pub open spec fn word_end(s: Seq<u8>, i: int) -> int
    decreases s.len() - i,
{
    if 0 <= i < s.len() && is_letter(s[i]) {
        word_end(s, i + 1)
    } else {
        i
    }
}

/// The end of the run of digits and underscores that starts at `i`.
pub open spec fn digits_end(s: Seq<u8>, i: int) -> int
    decreases s.len() - i,
{
    if 0 <= i < s.len() && is_digit_part(s[i]) {
        digits_end(s, i + 1)
    } else {
        i
    }
}

/// The position of the first line feed at or after `i`, or the end of the text.
pub open spec fn line_end(s: Seq<u8>, i: int) -> int
    decreases s.len() - i,
{
    if 0 <= i < s.len() && s[i] != ('\n' as u8) {
        line_end(s, i + 1)
    } else {
        i
    }
}

/// The position of the first double quote at or after `i`, or the end of the text.
pub open spec fn quote_pos(s: Seq<u8>, i: int) -> int
    decreases s.len() - i,
{
    if 0 <= i < s.len() && s[i] != ('"' as u8) {
        quote_pos(s, i + 1)
    } else {
        i
    }
}

/// The position of the first `*/` that starts at or after `i`, or the end of the text.
pub open spec fn close_pos(s: Seq<u8>, i: int) -> int
    decreases s.len() - i,
{
    if i < 0 || i + 1 >= s.len() {
        s.len() as int
    } else if s[i] == ('*' as u8) && s[i + 1] == ('/' as u8) {
        i
    } else {
        close_pos(s, i + 1)
    }
}

/// The kind of a word: one of the five reserved words, or an identifier.
pub open spec fn keyword_kind(w: Seq<u8>) -> TokenKind {
    if w == "struct".spec_bytes() {
        TokenKind::Struct
    } else if w == "union".spec_bytes() {
        TokenKind::Union
    } else if w == "trait".spec_bytes() {
        TokenKind::Trait
    } else if w == "or".spec_bytes() {
        TokenKind::Or
    } else if w == "and".spec_bytes() {
        TokenKind::And
    } else {
        TokenKind::Identifier
    }
}

/// A numeric literal that starts with the digit at `i`.
pub open spec fn scan_number(s: Seq<u8>, i: int) -> (TokenKind, int) {
    let j = digits_end(s, i + 1);
    if j < s.len() && s[j] == ('.' as u8) {
        let k = digits_end(s, j + 1);
        if k == j + 1 || (k < s.len() && s[k] == ('.' as u8)) {
            (TokenKind::Invalid, s.len() as int)
        } else {
            (TokenKind::Float, k)
        }
    } else {
        (TokenKind::Int, j)
    }
}

/// A character literal that starts with the quote at `i`.
pub open spec fn scan_char(s: Seq<u8>, i: int) -> (TokenKind, int) {
    if i + 1 >= s.len() || s[i + 1] == ('\'' as u8) {
        (TokenKind::Invalid, s.len() as int)
    } else {
        let j = i + 1 + utf8_width(s[i + 1]);
        if j < s.len() && s[j] == ('\'' as u8) {
            (TokenKind::Char, j + 1)
        } else {
            (TokenKind::Invalid, s.len() as int)
        }
    }
}

/// A token that starts with the slash at `i`: a comment or a division sign.
pub open spec fn scan_slash(s: Seq<u8>, i: int) -> (TokenKind, int) {
    if i + 1 < s.len() && s[i + 1] == ('/' as u8) {
        (TokenKind::Comment, line_end(s, i + 2))
    } else if i + 1 < s.len() && s[i + 1] == ('*' as u8) {
        let j = close_pos(s, i + 2);
        if j < s.len() {
            (TokenKind::Comment, j + 2)
        } else {
            (TokenKind::Invalid, s.len() as int)
        }
    } else {
        (TokenKind::Div, i + 1)
    }
}

/// A one-byte token, or a two-byte one where the byte after `i` is `second`.
pub open spec fn one_or_two(
    s: Seq<u8>,
    i: int,
    second: u8,
    long: TokenKind,
    short: TokenKind,
) -> (TokenKind, int) {
    if i + 1 < s.len() && s[i + 1] == second {
        (long, i + 2)
    } else {
        (short, i + 1)
    }
}

/// The kind of a token made of the single byte `b`, if there is one.
pub open spec fn single_kind(b: u8) -> Option<TokenKind> {
    if b == ('\n' as u8) {
        Some(TokenKind::LineBreak)
    } else if b == ('@' as u8) {
        Some(TokenKind::At)
    } else if b == (',' as u8) {
        Some(TokenKind::Comma)
    } else if b == ('*' as u8) {
        Some(TokenKind::Times)
    } else if b == ('(' as u8) {
        Some(TokenKind::ParenL)
    } else if b == (')' as u8) {
        Some(TokenKind::ParenR)
    } else if b == ('[' as u8) {
        Some(TokenKind::SquareL)
    } else if b == (']' as u8) {
        Some(TokenKind::SquareR)
    } else if b == ('{' as u8) {
        Some(TokenKind::CurlyL)
    } else if b == ('}' as u8) {
        Some(TokenKind::CurlyR)
    } else if b == ('.' as u8) {
        Some(TokenKind::Dot)
    } else {
        None
    }
}

/// The token that starts at byte offset `i` of the text `s`: its kind and its end.
pub open spec fn scan(s: Seq<u8>, i: int) -> (TokenKind, int) {
    if i >= s.len() {
        (TokenKind::End, i)
    } else {
        let c = s[i];
        if single_kind(c).is_some() {
            (single_kind(c).unwrap(), i + 1)
        } else if is_space(c) {
            (TokenKind::WhiteSpace, space_end(s, i))
        } else if c == ('-' as u8) {
            one_or_two(s, i, ('>' as u8), TokenKind::ThinArrow, TokenKind::Minus)
        } else if c == ('=' as u8) {
            if i + 1 < s.len() && s[i + 1] == ('>' as u8) {
                (TokenKind::ThickArrow, i + 2)
            } else {
                one_or_two(s, i, ('=' as u8), TokenKind::DoubleEquals, TokenKind::Equals)
            }
        } else if c == ('+' as u8) {
            one_or_two(s, i, ('+' as u8), TokenKind::DoublePlus, TokenKind::Plus)
        } else if c == ('/' as u8) {
            scan_slash(s, i)
        } else if c == ('\'' as u8) {
            scan_char(s, i)
        } else if c == ('"' as u8) {
            let j = quote_pos(s, i + 1);
            if j < s.len() {
                (TokenKind::String, j + 1)
            } else {
                (TokenKind::Invalid, s.len() as int)
            }
        } else if c == (':' as u8) {
            one_or_two(s, i, (':' as u8), TokenKind::DoubleColon, TokenKind::Colon)
        } else if is_digit(c) {
            scan_number(s, i)
        } else if is_letter(c) {
            let j = word_end(s, i);
            (keyword_kind(s.subrange(i, j)), j)
        } else {
            (TokenKind::Invalid, s.len() as int)
        }
    }
}

/// Each run ends inside the text and no earlier than it starts.
pub proof fn lemma_runs_bounded(s: Seq<u8>, i: int)
    requires
        0 <= i <= s.len(),
    ensures
        i <= space_end(s, i) <= s.len(),
        i <= word_end(s, i) <= s.len(),
        i <= digits_end(s, i) <= s.len(),
        i <= line_end(s, i) <= s.len(),
        i <= quote_pos(s, i) <= s.len(),
        i <= close_pos(s, i) <= s.len(),
        close_pos(s, i) < s.len() ==> close_pos(s, i) + 2 <= s.len(),
    decreases s.len() - i,
{
    if i < s.len() {
        lemma_runs_bounded(s, i + 1);
    }
}

/// Where a run stops inside the text, and the last byte a non-empty run covers.
pub proof fn lemma_runs_stop(s: Seq<u8>, i: int)
    requires
        0 <= i <= s.len(),
    ensures
        line_end(s, i) < s.len() ==> s[line_end(s, i)] == '\n' as u8,
        close_pos(s, i) < s.len() ==> s[close_pos(s, i) + 1] == '/' as u8,
        quote_pos(s, i) < s.len() ==> s[quote_pos(s, i)] == '"' as u8,
        space_end(s, i) > i ==> is_space(s[space_end(s, i) - 1]),
        word_end(s, i) > i ==> is_letter(s[word_end(s, i) - 1]),
        digits_end(s, i) > i ==> is_digit_part(s[digits_end(s, i) - 1]),
    decreases s.len() - i,
{
    if i < s.len() {
        lemma_runs_stop(s, i + 1);
    }
}

/// A token that starts inside the text is not empty and ends inside the text; at
/// the end of the text the token is an empty `End`.
pub proof fn lemma_scan_advances(s: Seq<u8>, i: int)
    requires
        0 <= i <= s.len(),
    ensures
        i < s.len() ==> i < scan(s, i).1 <= s.len(),
        i < s.len() ==> scan(s, i).0 != TokenKind::End,
        i == s.len() ==> scan(s, i) == (TokenKind::End, i),
{
    if i < s.len() {
        lemma_runs_bounded(s, i);
        lemma_runs_bounded(s, i + 1);
        if i + 2 <= s.len() {
            lemma_runs_bounded(s, i + 2);
        }
        let j = digits_end(s, i + 1);
        if j < s.len() {
            lemma_runs_bounded(s, j + 1);
        }
    }
}

/// The stream of tokens, as (kind, start, end), that the scanner yields from
/// offset `i` on, through the first `End`.
pub open spec fn tokens_from(s: Seq<u8>, i: int) -> Seq<(TokenKind, int, int)>
    decreases s.len() - i,
{
    if i < 0 || i >= s.len() {
        seq![(TokenKind::End, i, i)]
    } else {
        let (k, e) = scan(s, i);
        if e <= i || e > s.len() {
            Seq::empty()
        } else {
            seq![(k, i, e)] + tokens_from(s, e)
        }
    }
}

/// Every byte of `s[from..to]` is a letter or an underscore.
pub open spec fn all_letters(s: Seq<u8>, from: int, to: int) -> bool {
    forall|j: int| from <= j < to ==> #[trigger] is_letter(s[j])
}

/// Every byte of `s[from..to]` is a digit or an underscore.
pub open spec fn all_digit_parts(s: Seq<u8>, from: int, to: int) -> bool {
    forall|j: int| from <= j < to ==> #[trigger] is_digit_part(s[j])
}

/// No byte of `s[from..to]` is a double quote.
pub open spec fn no_quote(s: Seq<u8>, from: int, to: int) -> bool {
    forall|j: int| from <= j < to ==> #[trigger] s[j] != '"' as u8
}

/// What the lexeme `w` of a token of kind `k` looks like.
pub open spec fn lexeme_fits(k: TokenKind, w: Seq<u8>) -> bool {
    let n = w.len() as int;
    match k {
        TokenKind::Identifier | TokenKind::Struct | TokenKind::Union | TokenKind::Trait
        | TokenKind::Or | TokenKind::And => {
            &&& n > 0
            &&& all_letters(w, 0, n)
            &&& keyword_kind(w) == k
        },
        TokenKind::Int => {
            &&& n > 0
            &&& is_digit(w[0])
            &&& all_digit_parts(w, 1, n)
        },
        TokenKind::Float => exists|p: int|
            {
                &&& 0 < p < n - 1
                &&& is_digit(w[0])
                &&& #[trigger] w[p] == '.' as u8
                &&& all_digit_parts(w, 1, p)
                &&& all_digit_parts(w, p + 1, n)
            },
        TokenKind::String => {
            &&& n >= 2
            &&& w[0] == '"' as u8
            &&& w[n - 1] == '"' as u8
            &&& no_quote(w, 1, n - 1)
        },
        TokenKind::Char => {
            &&& n >= 3
            &&& w[0] == '\'' as u8
            &&& w[n - 1] == '\'' as u8
            &&& w[1] != '\'' as u8
            &&& n == 2 + utf8_width(w[1])
        },
        TokenKind::ThinArrow => w == seq!['-' as u8, '>' as u8],
        TokenKind::ThickArrow => w == seq!['=' as u8, '>' as u8],
        TokenKind::DoubleEquals => w == seq!['=' as u8, '=' as u8],
        TokenKind::DoublePlus => w == seq!['+' as u8, '+' as u8],
        TokenKind::DoubleColon => w == seq![':' as u8, ':' as u8],
        TokenKind::Minus => w == seq!['-' as u8],
        TokenKind::Equals => w == seq!['=' as u8],
        TokenKind::Plus => w == seq!['+' as u8],
        TokenKind::Colon => w == seq![':' as u8],
        TokenKind::Div => w == seq!['/' as u8],
        TokenKind::At | TokenKind::Comma | TokenKind::Times | TokenKind::ParenL
        | TokenKind::ParenR | TokenKind::SquareL | TokenKind::SquareR | TokenKind::CurlyL
        | TokenKind::CurlyR | TokenKind::Dot => n == 1 && single_kind(w[0]) == Some(k),
        _ => true,
    }
}

} // verus!