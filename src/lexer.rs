//! The scanner: a cursor over borrowed source text that yields one token per call.
use vstd::prelude::*;
use crate::grammar::{
    close_pos, digits_end, is_digit, is_digit_part, is_letter, is_space, keyword_kind,
    lemma_scan_advances, line_end, one_or_two, quote_pos, scan, scan_char, scan_number,
    scan_slash, single_kind, space_end, utf8_width, word_end,
};
use crate::token::{Token, TokenKind};
use crate::laws::lemma_scan_ends_on_boundary;
use vstd::string::StringSliceAdditionalSpecFns;
use vstd::utf8::{
    encode_utf8_valid_utf8, is_char_boundary, is_char_boundary_start_end_of_seq, valid_utf8,
};

verus! {

fn is_space_byte(b: u8) -> (r: bool)
    ensures
        r == is_space(b),
{
    b == ' ' as u8 || b == '\r' as u8 || b == '\t' as u8
}

fn is_digit_byte(b: u8) -> (r: bool)
    ensures
        r == is_digit(b),
{
    '0' as u8 <= b && b <= '9' as u8
}

fn is_digit_part_byte(b: u8) -> (r: bool)
    ensures
        r == is_digit_part(b),
{
    is_digit_byte(b) || b == '_' as u8
}

fn is_letter_byte(b: u8) -> (r: bool)
    ensures
        r == is_letter(b),
{
    ('A' as u8 <= b && b <= 'Z' as u8) || ('a' as u8 <= b && b <= 'z' as u8) || b == '_' as u8
}

fn utf8_width_of(b: u8) -> (r: usize)
    ensures
        r == utf8_width(b),
{
    if b < 0x80 {
        1
    } else if b < 0xe0 {
        2
    } else if b < 0xf0 {
        3
    } else {
        4
    }
}

fn single_kind_of(b: u8) -> (r: Option<TokenKind>)
    ensures
        r == single_kind(b),
{
    if b == '\n' as u8 {
        Some(TokenKind::LineBreak)
    } else if b == '@' as u8 {
        Some(TokenKind::At)
    } else if b == ',' as u8 {
        Some(TokenKind::Comma)
    } else if b == '*' as u8 {
        Some(TokenKind::Times)
    } else if b == '(' as u8 {
        Some(TokenKind::ParenL)
    } else if b == ')' as u8 {
        Some(TokenKind::ParenR)
    } else if b == '[' as u8 {
        Some(TokenKind::SquareL)
    } else if b == ']' as u8 {
        Some(TokenKind::SquareR)
    } else if b == '{' as u8 {
        Some(TokenKind::CurlyL)
    } else if b == '}' as u8 {
        Some(TokenKind::CurlyR)
    } else if b == '.' as u8 {
        Some(TokenKind::Dot)
    } else {
        None
    }
}

/// Whether `bytes[start..end]` is exactly `word`.
fn word_is(bytes: &[u8], start: usize, end: usize, word: &[u8]) -> (r: bool)
    requires
        start <= end <= bytes@.len(),
    ensures
        r == (bytes@.subrange(start as int, end as int) == word@),
{
    let ghost w = bytes@.subrange(start as int, end as int);
    if end - start != word.len() {
        return false;
    }
    let mut k: usize = 0;
    while k < word.len()
        invariant
            start <= end <= bytes@.len(),
            end - start == word@.len(),
            w == bytes@.subrange(start as int, end as int),
            k <= word@.len(),
            forall|j: int| 0 <= j < k ==> w[j] == word@[j],
        decreases word@.len() - k,
    {
        if bytes[start + k] != word[k] {
            assert(w[k as int] == bytes@[start + k]);
            return false;
        }
        k = k + 1;
    }
    assert(w =~= word@);
    true
}

/// The kind of the word `bytes[start..end]`: a reserved word or an identifier.
fn keyword_of(bytes: &[u8], start: usize, end: usize) -> (k: TokenKind)
    requires
        start <= end <= bytes@.len(),
    ensures
        k == keyword_kind(bytes@.subrange(start as int, end as int)),
{
    if word_is(bytes, start, end, "struct".as_bytes()) {
        TokenKind::Struct
    } else if word_is(bytes, start, end, "union".as_bytes()) {
        TokenKind::Union
    } else if word_is(bytes, start, end, "trait".as_bytes()) {
        TokenKind::Trait
    } else if word_is(bytes, start, end, "or".as_bytes()) {
        TokenKind::Or
    } else if word_is(bytes, start, end, "and".as_bytes()) {
        TokenKind::And
    } else {
        TokenKind::Identifier
    }
}

/// A scanner over borrowed text. Its only state is the byte offset of the next
/// unread character.
#[derive(Clone)]
pub struct Lexer<'a> {
    string: &'a str,
    index: usize,
}

impl<'a> Lexer<'a> {
    /// The UTF-8 bytes of the text being scanned.
    pub closed spec fn source(&self) -> Seq<u8> {
        self.string.spec_bytes()
    }

    /// The byte offset of the next unread character.
    pub closed spec fn cursor(&self) -> int {
        self.index as int
    }

    /// The cursor lies within the text, on a character boundary.
    pub open spec fn wf(&self) -> bool {
        &&& 0 <= self.cursor() <= self.source().len()
        &&& self.source().len() <= usize::MAX
        &&& valid_utf8(self.source())
        &&& is_char_boundary(self.source(), self.cursor())
    }

    pub fn new(string: &'a str) -> (l: Lexer<'a>)
        ensures
            l.wf(),
            l.source() == string.spec_bytes(),
            l.cursor() == 0,
    {
        // The byte length is a usize, which bounds every offset the scanner computes.
        let _length: usize = string.as_bytes().len();
        proof {
            encode_utf8_valid_utf8(string@);
            is_char_boundary_start_end_of_seq(string.spec_bytes());
        }
        Lexer { string, index: 0 }
    }

    /// The token that runs from `start` to the end of the text.
    fn invalid(&self, start: usize) -> (t: Token)
        requires
            self.wf(),
        ensures
            t.kind == TokenKind::Invalid,
            t.start == start,
            t.end == self.source().len(),
    {
        Token::new(TokenKind::Invalid, start, self.string.as_bytes().len())
    }

    fn from_whitespace(&self) -> (t: Token)
        requires
            self.wf(),
            self.cursor() < self.source().len(),
            is_space(self.source()[self.cursor()]),
        ensures
            t.kind == TokenKind::WhiteSpace,
            t.start == self.cursor(),
            t.end == space_end(self.source(), self.cursor()),
    {
        let bytes = self.string.as_bytes();
        let start = self.index;
        let mut i = start;
        while i < bytes.len() && is_space_byte(bytes[i])
            invariant
                bytes@ == self.source(),
                start <= i <= bytes@.len(),
                space_end(bytes@, start as int) == space_end(bytes@, i as int),
            decreases bytes@.len() - i,
        {
            i = i + 1;
        }
        Token::new(TokenKind::WhiteSpace, start, i)
    }

    /// A one-byte token `short`, or the two-byte token `long` where the next byte
    /// is `second`.
    fn one_or_two_bytes(&self, second: u8, long: TokenKind, short: TokenKind) -> (t: Token)
        requires
            self.wf(),
            self.cursor() < self.source().len(),
        ensures
            t.start == self.cursor(),
            (t.kind, t.end as int) == one_or_two(self.source(), self.cursor(), second, long, short),
    {
        let bytes = self.string.as_bytes();
        let start = self.index;
        if start + 1 < bytes.len() && bytes[start + 1] == second {
            Token::new(long, start, start + 2)
        } else {
            Token::new(short, start, start + 1)
        }
    }

    fn from_dash(&self) -> (t: Token)
        requires
            self.wf(),
            self.cursor() < self.source().len(),
        ensures
            t.start == self.cursor(),
            (t.kind, t.end as int) == one_or_two(
                self.source(),
                self.cursor(),
                '>' as u8,
                TokenKind::ThinArrow,
                TokenKind::Minus,
            ),
    {
        self.one_or_two_bytes('>' as u8, TokenKind::ThinArrow, TokenKind::Minus)
    }

    fn from_plus(&self) -> (t: Token)
        requires
            self.wf(),
            self.cursor() < self.source().len(),
        ensures
            t.start == self.cursor(),
            (t.kind, t.end as int) == one_or_two(
                self.source(),
                self.cursor(),
                '+' as u8,
                TokenKind::DoublePlus,
                TokenKind::Plus,
            ),
    {
        self.one_or_two_bytes('+' as u8, TokenKind::DoublePlus, TokenKind::Plus)
    }

    fn from_colon(&self) -> (t: Token)
        requires
            self.wf(),
            self.cursor() < self.source().len(),
        ensures
            t.start == self.cursor(),
            (t.kind, t.end as int) == one_or_two(
                self.source(),
                self.cursor(),
                ':' as u8,
                TokenKind::DoubleColon,
                TokenKind::Colon,
            ),
    {
        self.one_or_two_bytes(':' as u8, TokenKind::DoubleColon, TokenKind::Colon)
    }

    fn from_equals(&self) -> (t: Token)
        requires
            self.wf(),
            self.cursor() < self.source().len(),
            self.source()[self.cursor()] == '=' as u8,
        ensures
            t.start == self.cursor(),
            (t.kind, t.end as int) == scan(self.source(), self.cursor()),
    {
        let bytes = self.string.as_bytes();
        let start = self.index;
        if start + 1 < bytes.len() && bytes[start + 1] == '>' as u8 {
            Token::new(TokenKind::ThickArrow, start, start + 2)
        } else {
            self.one_or_two_bytes('=' as u8, TokenKind::DoubleEquals, TokenKind::Equals)
        }
    }

    fn from_slash(&self) -> (t: Token)
        requires
            self.wf(),
            self.cursor() < self.source().len(),
        ensures
            t.start == self.cursor(),
            (t.kind, t.end as int) == scan_slash(self.source(), self.cursor()),
    {
        let bytes = self.string.as_bytes();
        let start = self.index;
        if start + 1 < bytes.len() && bytes[start + 1] == '/' as u8 {
            let mut i = start + 2;
            while i < bytes.len() && bytes[i] != '\n' as u8
                invariant
                    bytes@ == self.source(),
                    start + 2 <= i <= bytes@.len(),
                    line_end(bytes@, start + 2) == line_end(bytes@, i as int),
                decreases bytes@.len() - i,
            {
                i = i + 1;
            }
            Token::new(TokenKind::Comment, start, i)
        } else if start + 1 < bytes.len() && bytes[start + 1] == '*' as u8 {
            let mut i = start + 2;
            while bytes.len() - i > 1 && !(bytes[i] == '*' as u8 && bytes[i + 1] == '/' as u8)
                invariant
                    bytes@ == self.source(),
                    start + 2 <= i <= bytes@.len(),
                    close_pos(bytes@, start + 2) == close_pos(bytes@, i as int),
                decreases bytes@.len() - i,
            {
                i = i + 1;
            }
            if bytes.len() - i > 1 {
                Token::new(TokenKind::Comment, start, i + 2)
            } else {
                self.invalid(start)
            }
        } else {
            Token::new(TokenKind::Div, start, start + 1)
        }
    }

    fn from_single_quote(&self) -> (t: Token)
        requires
            self.wf(),
            self.cursor() < self.source().len(),
        ensures
            t.start == self.cursor(),
            (t.kind, t.end as int) == scan_char(self.source(), self.cursor()),
    {
        let bytes = self.string.as_bytes();
        let start = self.index;
        if start + 1 >= bytes.len() || bytes[start + 1] == '\'' as u8 {
            return self.invalid(start);
        }
        let width = utf8_width_of(bytes[start + 1]);
        if width < bytes.len() - (start + 1) && bytes[start + 1 + width] == '\'' as u8 {
            Token::new(TokenKind::Char, start, start + 2 + width)
        } else {
            self.invalid(start)
        }
    }

    fn from_quote(&self) -> (t: Token)
        requires
            self.wf(),
            self.cursor() < self.source().len(),
            self.source()[self.cursor()] == '"' as u8,
        ensures
            t.start == self.cursor(),
            (t.kind, t.end as int) == scan(self.source(), self.cursor()),
    {
        let bytes = self.string.as_bytes();
        let start = self.index;
        let mut i = start + 1;
        while i < bytes.len() && bytes[i] != '"' as u8
            invariant
                bytes@ == self.source(),
                start + 1 <= i <= bytes@.len(),
                quote_pos(bytes@, start + 1) == quote_pos(bytes@, i as int),
            decreases bytes@.len() - i,
        {
            i = i + 1;
        }
        if i < bytes.len() {
            Token::new(TokenKind::String, start, i + 1)
        } else {
            self.invalid(start)
        }
    }

    /// The end of the run of digits and underscores that starts at `from`.
    fn digits_from(&self, from: usize) -> (e: usize)
        requires
            self.wf(),
            from <= self.source().len(),
        ensures
            e == digits_end(self.source(), from as int),
            from <= e <= self.source().len(),
    {
        let bytes = self.string.as_bytes();
        let mut i = from;
        while i < bytes.len() && is_digit_part_byte(bytes[i])
            invariant
                bytes@ == self.source(),
                from <= i <= bytes@.len(),
                digits_end(bytes@, from as int) == digits_end(bytes@, i as int),
            decreases bytes@.len() - i,
        {
            i = i + 1;
        }
        i
    }

    fn from_digit(&self) -> (t: Token)
        requires
            self.wf(),
            self.cursor() < self.source().len(),
        ensures
            t.start == self.cursor(),
            (t.kind, t.end as int) == scan_number(self.source(), self.cursor()),
    {
        let bytes = self.string.as_bytes();
        let start = self.index;
        let point = self.digits_from(start + 1);
        if point < bytes.len() && bytes[point] == '.' as u8 {
            let end = self.digits_from(point + 1);
            if end == point + 1 || (end < bytes.len() && bytes[end] == '.' as u8) {
                self.invalid(start)
            } else {
                Token::new(TokenKind::Float, start, end)
            }
        } else {
            Token::new(TokenKind::Int, start, point)
        }
    }

    fn from_letter(&self) -> (t: Token)
        requires
            self.wf(),
            self.cursor() < self.source().len(),
            is_letter(self.source()[self.cursor()]),
        ensures
            t.start == self.cursor(),
            (t.kind, t.end as int) == scan(self.source(), self.cursor()),
    {
        let bytes = self.string.as_bytes();
        let start = self.index;
        let mut i = start;
        while i < bytes.len() && is_letter_byte(bytes[i])
            invariant
                bytes@ == self.source(),
                start <= i <= bytes@.len(),
                word_end(bytes@, start as int) == word_end(bytes@, i as int),
            decreases bytes@.len() - i,
        {
            i = i + 1;
        }
        Token::new(keyword_of(bytes, start, i), start, i)
    }

    /// Scans the token at the cursor and moves the cursor to its end. At the end
    /// of the text this yields `End` at the cursor and leaves the cursor where it is.
    pub fn next(&mut self) -> (t: Token)
        requires
            old(self).wf(),
        ensures
            final(self).wf(),
            final(self).source() == old(self).source(),
            t.start == old(self).cursor(),
            (t.kind, t.end as int) == scan(old(self).source(), old(self).cursor()),
            final(self).cursor() == t.end,
    {
        let bytes = self.string.as_bytes();
        let start = self.index;
        if start >= bytes.len() {
            return Token::new(TokenKind::End, start, start);
        }
        let c = bytes[start];
        let token = match single_kind_of(c) {
            Some(kind) => Token::new(kind, start, start + 1),
            None => if is_space_byte(c) {
                self.from_whitespace()
            } else if c == '-' as u8 {
                self.from_dash()
            } else if c == '=' as u8 {
                self.from_equals()
            } else if c == '+' as u8 {
                self.from_plus()
            } else if c == '/' as u8 {
                self.from_slash()
            } else if c == '\'' as u8 {
                self.from_single_quote()
            } else if c == '"' as u8 {
                self.from_quote()
            } else if c == ':' as u8 {
                self.from_colon()
            } else if is_digit_byte(c) {
                self.from_digit()
            } else if is_letter_byte(c) {
                self.from_letter()
            } else {
                self.invalid(start)
            },
        };
        proof {
            lemma_scan_advances(bytes@, start as int);
            lemma_scan_ends_on_boundary(bytes@, start as int);
        }
        self.index = token.end;
        token
    }
}

} // verus!