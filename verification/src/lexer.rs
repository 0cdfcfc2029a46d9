//! The lexer: from source text to tokens with byte spans.
use vstd::prelude::*;
use vstd::math::min;

use crate::text::{
    char_width, chars_of, is_alphabetic, is_ascii_digit, is_whitespace, len_utf8,
    decimal, lemma_utf8_len_mono, lemma_utf8_len_take, push_number, spec_is_ascii_digit,
    spec_is_alphabetic, str_debug, str_debug_text, unicode_whitespace, utf8_len,
};

verus! {

/// A range of bytes of the source text.
#[derive(Debug, Clone, Copy, PartialEq, Eq, Structural)]
pub struct Span {
    pub start: usize,
    pub end: usize,
}

/// Line, column and previous character after reading `cs`: a line ends at
/// `\r`, at `\n`, or at the pair `\r\n`; every other character moves one
/// column on.
pub open spec fn location_after(cs: Seq<char>) -> (int, int, char)
    decreases cs.len(),
{
    if cs.len() == 0 {
        (1, 1, '\0')
    } else {
        let (line, column, prev) = location_after(cs.drop_last());
        let c = cs.last();
        if c == '\n' && prev == '\r' {
            (line, column, c)
        } else if c == '\r' || c == '\n' {
            (line + 1, 1, c)
        } else {
            (line, column + 1, c)
        }
    }
}

proof fn lemma_location_bounds(cs: Seq<char>)
    ensures
        1 <= location_after(cs).0 <= cs.len() + 1,
        1 <= location_after(cs).1 <= cs.len() + 1,
    decreases cs.len(),
{
    if cs.len() > 0 {
        lemma_location_bounds(cs.drop_last());
    }
}

impl Span {
    /// Line and column (both from 1) of the character whose index in `src`
    /// equals `self.start`; the end of the text when there is none.
    pub fn to_location(&self, src: &str) -> (r: (usize, usize))
        requires
            src@.len() < usize::MAX,
        ensures
            r.0 == location_after(src@.take(min(self.start as int, src@.len() as int))).0,
            r.1 == location_after(src@.take(min(self.start as int, src@.len() as int))).1,
    {
        let cs = chars_of(src);
        let mut line: usize = 1;
        let mut column: usize = 1;
        let mut prev = '\0';
        let mut i: usize = 0;
        while i < cs.len()
            invariant
                cs@ == src@,
                i <= cs@.len(),
                i <= self.start,
                cs@.len() < usize::MAX,
                (line as int, column as int, prev) == location_after(cs@.take(i as int)),
            ensures
                i == cs@.len() || i == self.start,
                i <= cs@.len(),
                (line as int, column as int, prev) == location_after(cs@.take(i as int)),
            decreases cs@.len() - i,
        {
            if i == self.start {
                break;
            }
            let c = cs[i];
            proof {
                lemma_location_bounds(cs@.take(i as int));
                assert(cs@.take(i + 1).drop_last() =~= cs@.take(i as int));
            }
            if c == '\n' && prev == '\r' {
            } else if c == '\r' || c == '\n' {
                line = line + 1;
                column = 1;
            } else {
                column = column + 1;
            }
            prev = c;
            i = i + 1;
        }
        proof {
            if i < cs@.len() {
                assert(i == self.start);
            } else {
                assert(cs@.take(i as int) =~= cs@.take(cs@.len() as int));
            }
        }
        (line, column)
    }
}

/// The kinds of token.
#[derive(Debug, PartialEq, Eq, Clone, Copy, Structural)]
pub enum TokenKind {
    StringLiteral,
    NumberLiteral,
    Comment,
    Invalid,
    LessIdent,
    GreaterIdent,
    DollarIdent,
    HashIdent,
    Out,
    Times,
    Dup,
    Over,
    If,
    Else,
    Ift,
    Ifte,
    Lt,
    Lte,
    Eq,
    Not,
    Nip,
    Drop,
    This,
    String,
    Nil,
    Head,
    Tail,
    Swap,
    While,
    WhileDo,
    LQuote,
    RQuote,
    LList,
    RList,
    Join,
    Bang,
    Plus,
    Minus,
    Cons,
    Asterisk,
    Slash,
    Percent,
}

#[derive(Debug, Clone, Copy)]
pub struct Token {
    pub kind: TokenKind,
    pub span: Span,
}

/// Characters that end an identifier and cannot start one.
pub open spec fn spec_is_reserved(c: char) -> bool {
    c == '<' || c == '>' || c == '$' || c == '#' || c == '!' || c == '+' || c == '-' || c == '['
        || c == ']' || c == '(' || c == ')' || c == ':'
}

pub open spec fn spec_is_ident_start(c: char) -> bool {
    (spec_is_alphabetic(c) || c == '_') && !spec_is_reserved(c)
}

pub open spec fn spec_is_ident_continue(c: char) -> bool {
    !spec_is_reserved(c) && !unicode_whitespace(c)
}

/// First index from `i` on that is not white space.
pub open spec fn ws_end(cs: Seq<char>, i: int) -> int
    decreases cs.len() - i,
{
    if 0 <= i < cs.len() && unicode_whitespace(cs[i]) {
        ws_end(cs, i + 1)
    } else {
        i
    }
}

/// First index from `i` on that is not an ASCII digit.
pub open spec fn digits_end(cs: Seq<char>, i: int) -> int
    decreases cs.len() - i,
{
    if 0 <= i < cs.len() && spec_is_ascii_digit(cs[i]) {
        digits_end(cs, i + 1)
    } else {
        i
    }
}

/// First index from `i` on that cannot continue an identifier.
pub open spec fn ident_end(cs: Seq<char>, i: int) -> int
    decreases cs.len() - i,
{
    if 0 <= i < cs.len() && spec_is_ident_continue(cs[i]) {
        ident_end(cs, i + 1)
    } else {
        i
    }
}

/// First index from `i` on that holds a line feed, or the end.
pub open spec fn line_end(cs: Seq<char>, i: int) -> int
    decreases cs.len() - i,
{
    if 0 <= i < cs.len() && cs[i] != '\n' {
        line_end(cs, i + 1)
    } else {
        i
    }
}

/// End of a string literal whose body starts at `i`, and whether a closing
/// quote was found; a backslash takes the character after it along.
pub open spec fn string_end(cs: Seq<char>, i: int) -> (int, bool)
    decreases cs.len() - i,
{
    if i < 0 || i >= cs.len() {
        (cs.len() as int, false)
    } else if cs[i] == '\\' {
        if i + 1 < cs.len() {
            string_end(cs, i + 2)
        } else {
            (cs.len() as int, false)
        }
    } else if cs[i] == '"' {
        (i + 1, true)
    } else {
        string_end(cs, i + 1)
    }
}

/// End of a number literal starting at `i`: digits, then `.` and digits
/// when a digit follows the point, then an exponent `e` or `E`, an optional
/// sign and digits when a digit follows.
pub open spec fn number_end(cs: Seq<char>, i: int) -> int {
    let d = digits_end(cs, i);
    let f = if d + 1 < cs.len() && cs[d] == '.' && spec_is_ascii_digit(cs[d + 1]) {
        digits_end(cs, d + 1)
    } else {
        d
    };
    if f < cs.len() && (cs[f] == 'e' || cs[f] == 'E') {
        let k = if f + 1 < cs.len() && (cs[f + 1] == '+' || cs[f + 1] == '-') {
            f + 2
        } else {
            f + 1
        };
        if k < cs.len() && spec_is_ascii_digit(cs[k]) {
            digits_end(cs, k)
        } else {
            f
        }
    } else {
        f
    }
}

/// The keyword a word spells, or `Invalid`.
pub open spec fn spec_keyword_kind(w: Seq<char>) -> TokenKind {
    if w == seq!['o', 'u', 't'] {
        TokenKind::Out
    } else if w == seq!['o', 'v', 'e', 'r'] {
        TokenKind::Over
    } else if w == seq!['t', 'i', 'm', 'e', 's'] {
        TokenKind::Times
    } else if w == seq!['d', 'u', 'p'] {
        TokenKind::Dup
    } else if w == seq!['s', 't', 'r', 'i', 'n', 'g'] {
        TokenKind::String
    } else if w == seq!['i', 'f'] {
        TokenKind::If
    } else if w == seq!['e', 'l', 's', 'e'] {
        TokenKind::Else
    } else if w == seq!['i', 'f', 't'] {
        TokenKind::Ift
    } else if w == seq!['i', 'f', 't', 'e'] {
        TokenKind::Ifte
    } else if w == seq!['l', 't'] {
        TokenKind::Lt
    } else if w == seq!['l', 't', 'e'] {
        TokenKind::Lte
    } else if w == seq!['n', 'i', 'p'] {
        TokenKind::Nip
    } else if w == seq!['d', 'r', 'o', 'p'] {
        TokenKind::Drop
    } else if w == seq!['t', 'h', 'i', 's'] {
        TokenKind::This
    } else if w == seq!['n', 'i', 'l'] {
        TokenKind::Nil
    } else if w == seq!['e', 'q'] {
        TokenKind::Eq
    } else if w == seq!['h', 'e', 'a', 'd'] {
        TokenKind::Head
    } else if w == seq!['t', 'a', 'i', 'l'] {
        TokenKind::Tail
    } else if w == seq!['s', 'w', 'a', 'p'] {
        TokenKind::Swap
    } else if w == seq!['w', 'h', 'i', 'l', 'e'] {
        TokenKind::While
    } else if w == seq!['w', 'h', 'i', 'l', 'e', 'd', 'o'] {
        TokenKind::WhileDo
    } else if w == seq!['n', 'o', 't'] {
        TokenKind::Not
    } else {
        TokenKind::Invalid
    }
}

/// Kind of the one-character token `c`, when it is one.
pub open spec fn single_char_kind(c: char) -> Option<TokenKind> {
    if c == '!' {
        Some(TokenKind::Bang)
    } else if c == '-' {
        Some(TokenKind::Minus)
    } else if c == '*' {
        Some(TokenKind::Asterisk)
    } else if c == '/' {
        Some(TokenKind::Slash)
    } else if c == '%' {
        Some(TokenKind::Percent)
    } else if c == '[' {
        Some(TokenKind::LQuote)
    } else if c == ']' {
        Some(TokenKind::RQuote)
    } else if c == '(' {
        Some(TokenKind::LList)
    } else if c == ')' {
        Some(TokenKind::RList)
    } else {
        None
    }
}

pub open spec fn prefix_kind(c: char) -> TokenKind {
    if c == '<' {
        TokenKind::LessIdent
    } else if c == '>' {
        TokenKind::GreaterIdent
    } else if c == '$' {
        TokenKind::DollarIdent
    } else {
        TokenKind::HashIdent
    }
}

/// Kind and end of the token that starts at index `i`, for `i` within the text.
pub open spec fn token_at(cs: Seq<char>, i: int) -> (TokenKind, int) {
    let c = cs[i];
    if i + 1 < cs.len() && c == '-' && cs[i + 1] == '-' {
        (TokenKind::Comment, line_end(cs, i + 2))
    } else if c == '"' {
        let (e, closed) = string_end(cs, i + 1);
        (if closed {
            TokenKind::StringLiteral
        } else {
            TokenKind::Invalid
        }, e)
    } else if c == '<' || c == '>' || c == '$' || c == '#' {
        if i + 1 < cs.len() && spec_is_ident_start(cs[i + 1]) {
            (prefix_kind(c), ident_end(cs, i + 1))
        } else {
            (TokenKind::Invalid, i + 1)
        }
    } else if spec_is_ident_start(c) {
        let e = ident_end(cs, i);
        (spec_keyword_kind(cs.subrange(i, e)), e)
    } else if spec_is_ascii_digit(c) {
        (TokenKind::NumberLiteral, number_end(cs, i))
    } else if c == '+' {
        if i + 1 < cs.len() && cs[i + 1] == '+' {
            (TokenKind::Join, i + 2)
        } else {
            (TokenKind::Plus, i + 1)
        }
    } else if c == ':' {
        if i + 1 < cs.len() && cs[i + 1] == ':' {
            (TokenKind::Cons, i + 2)
        } else {
            (TokenKind::Invalid, i + 1)
        }
    } else if let Some(k) = single_char_kind(c) {
        (k, i + 1)
    } else {
        (TokenKind::Invalid, i + 1)
    }
}

/// A token with its kind and its bounds as character indices.
pub struct TokSpec {
    pub kind: TokenKind,
    pub start: int,
    pub end: int,
}

/// The token that follows index `i`, after white space, if any.
pub open spec fn spec_next(cs: Seq<char>, i: int) -> Option<TokSpec> {
    let w = ws_end(cs, i);
    if w >= cs.len() {
        None
    } else {
        let (kind, end) = token_at(cs, w);
        Some(TokSpec { kind, start: w, end })
    }
}

/// Byte offset of character index `i`.
pub open spec fn byte_at(cs: Seq<char>, i: int) -> int {
    utf8_len(cs.take(i)) as int
}

pub open spec fn token_of(cs: Seq<char>, t: TokSpec) -> Token {
    Token { kind: t.kind, span: Span { start: byte_at(cs, t.start) as usize, end: byte_at(cs, t.end) as usize } }
}

/// Tokenizes a source text.
pub struct Lexer<'a> {
    source: &'a str,
    chars: Vec<char>,
    ci: usize,
    pos: usize,
}

impl<'a> Lexer<'a> {
    /// The source text.
    pub closed spec fn text(&self) -> Seq<char> {
        self.chars@
    }

    /// Character index of the next character to read.
    pub closed spec fn index(&self) -> int {
        self.ci as int
    }

    pub closed spec fn wf(&self) -> bool {
        &&& self.chars@ == self.source@
        &&& self.ci <= self.chars@.len()
        &&& self.pos == utf8_len(self.chars@.take(self.ci as int))
        &&& utf8_len(self.chars@) <= usize::MAX
    }

    pub fn new(source: &'a str) -> (l: Self)
        requires
            utf8_len(source@) <= usize::MAX,
        ensures
            l.wf(),
            l.text() == source@,
            l.index() == 0,
    {
        let chars = chars_of(source);
        assert(chars@.take(0) =~= Seq::<char>::empty());
        Self { source, chars, ci: 0, pos: 0 }
    }

    fn peek(&self) -> (r: Option<char>)
        requires
            self.wf(),
        ensures
            self.ci < self.chars@.len() ==> r == Some(self.chars@[self.ci as int]),
            self.ci >= self.chars@.len() ==> r is None,
    {
        if self.ci < self.chars.len() {
            Some(self.chars[self.ci])
        } else {
            None
        }
    }

    fn peek_over(&self) -> (r: Option<char>)
        requires
            self.wf(),
        ensures
            self.ci + 1 < self.chars@.len() ==> r == Some(self.chars@[self.ci + 1]),
            self.ci + 1 >= self.chars@.len() ==> r is None,
    {
        if self.ci < self.chars.len() && self.ci + 1 < self.chars.len() {
            Some(self.chars[self.ci + 1])
        } else {
            None
        }
    }

    fn bump(&mut self) -> (r: Option<char>)
        requires
            old(self).wf(),
        ensures
            final(self).wf(),
            final(self).chars@ == old(self).chars@,
            final(self).source == old(self).source,
            old(self).ci < old(self).chars@.len() ==> r == Some(old(self).chars@[old(self).ci as int])
                && final(self).ci == old(self).ci + 1,
            old(self).ci >= old(self).chars@.len() ==> r is None && final(self).ci == old(self).ci,
    {
        if self.ci >= self.chars.len() {
            return None;
        }
        let c = self.chars[self.ci];
        proof {
            lemma_utf8_len_take(self.chars@, self.ci as int);
            lemma_utf8_len_mono(self.chars@, self.ci + 1, self.chars@.len() as int);
            assert(self.chars@.take(self.chars@.len() as int) =~= self.chars@);
        }
        self.pos = self.pos + len_utf8(c);
        self.ci = self.ci + 1;
        Some(c)
    }

    fn match_next(&mut self, expected: char) -> (r: bool)
        requires
            old(self).wf(),
        ensures
            final(self).wf(),
            final(self).chars@ == old(self).chars@,
            final(self).source == old(self).source,
            r == (old(self).ci < old(self).chars@.len() && old(self).chars@[old(self).ci as int]
                == expected),
            final(self).ci == old(self).ci + if r {
                1int
            } else {
                0int
            },
    {
        if self.peek() == Some(expected) {
            self.bump();
            true
        } else {
            false
        }
    }

    fn make_token(&self, start: usize, kind: TokenKind) -> (t: Token)
        ensures
            t == (Token { kind, span: Span { start, end: self.pos } }),
    {
        Token { kind, span: Span { start, end: self.pos } }
    }

    fn consume_digits(&mut self)
        requires
            old(self).wf(),
        ensures
            final(self).wf(),
            final(self).chars@ == old(self).chars@,
            final(self).source == old(self).source,
            final(self).ci == digits_end(old(self).chars@, old(self).ci as int),
    {
        while self.ci < self.chars.len() && is_ascii_digit(self.chars[self.ci])
            invariant
                self.wf(),
                self.chars@ == old(self).chars@,
                self.source == old(self).source,
                digits_end(self.chars@, self.ci as int) == digits_end(
                    old(self).chars@,
                    old(self).ci as int,
                ),
            decreases self.chars@.len() - self.ci,
        {
            self.bump();
        }
    }

    fn consume_ident_body(&mut self)
        requires
            old(self).wf(),
        ensures
            final(self).wf(),
            final(self).chars@ == old(self).chars@,
            final(self).source == old(self).source,
            final(self).ci == ident_end(old(self).chars@, old(self).ci as int),
    {
        while self.ci < self.chars.len() && self.is_ident_continue(self.chars[self.ci])
            invariant
                self.wf(),
                self.chars@ == old(self).chars@,
                self.source == old(self).source,
                ident_end(self.chars@, self.ci as int) == ident_end(
                    old(self).chars@,
                    old(self).ci as int,
                ),
            decreases self.chars@.len() - self.ci,
        {
            self.bump();
        }
    }

    fn skip_ws(&mut self)
        requires
            old(self).wf(),
        ensures
            final(self).wf(),
            final(self).chars@ == old(self).chars@,
            final(self).source == old(self).source,
            final(self).ci == ws_end(old(self).chars@, old(self).ci as int),
    {
        while self.ci < self.chars.len() && is_whitespace(self.chars[self.ci])
            invariant
                self.wf(),
                self.chars@ == old(self).chars@,
                self.source == old(self).source,
                ws_end(self.chars@, self.ci as int) == ws_end(
                    old(self).chars@,
                    old(self).ci as int,
                ),
            decreases self.chars@.len() - self.ci,
        {
            self.bump();
        }
    }

    fn is_reserved(&self, c: char) -> (r: bool)
        ensures
            r == spec_is_reserved(c),
    {
        c == '<' || c == '>' || c == '$' || c == '#' || c == '!' || c == '+' || c == '-' || c
            == '[' || c == ']' || c == '(' || c == ')' || c == ':'
    }

    fn is_ident_start(&self, c: char) -> (r: bool)
        ensures
            r == spec_is_ident_start(c),
    {
        (is_alphabetic(c) || c == '_') && !self.is_reserved(c)
    }

    fn is_ident_continue(&self, c: char) -> (r: bool)
        ensures
            r == spec_is_ident_continue(c),
    {
        !self.is_reserved(c) && !is_whitespace(c)
    }

    fn consume_number(&mut self)
        requires
            old(self).wf(),
        ensures
            final(self).wf(),
            final(self).chars@ == old(self).chars@,
            final(self).source == old(self).source,
            final(self).ci == number_end(old(self).chars@, old(self).ci as int),
    {
        let ghost cs = self.chars@;
        let ghost i0 = self.ci as int;
        self.consume_digits();
        match self.peek() {
            Some('.') => {
                match self.peek_over() {
                    Some(next) => {
                        if is_ascii_digit(next) {
                            self.bump();
                            self.consume_digits();
                        }
                    },
                    None => {},
                }
            },
            _ => {},
        }
        let is_exp = match self.peek() {
            Some('e') => true,
            Some('E') => true,
            _ => false,
        };
        if is_exp {
            let len = self.chars.len();
            let mut k = self.ci + 1;
            let mut next_char = if k < len {
                Some(self.chars[k])
            } else {
                None
            };
            let signed = match next_char {
                Some('+') => true,
                Some('-') => true,
                _ => false,
            };
            if signed {
                k = k + 1;
                next_char = if k < len {
                    Some(self.chars[k])
                } else {
                    None
                };
            }
            match next_char {
                Some(c) => {
                    if is_ascii_digit(c) {
                        self.bump();
                        let sign_next = match self.peek() {
                            Some('+') => true,
                            Some('-') => true,
                            _ => false,
                        };
                        if sign_next {
                            self.bump();
                        }
                        self.consume_digits();
                    }
                },
                None => {},
            }
        }
    }

    fn lex_string(&mut self) -> (kind: TokenKind)
        requires
            old(self).wf(),
            old(self).ci < old(self).chars@.len(),
        ensures
            final(self).wf(),
            final(self).chars@ == old(self).chars@,
            final(self).source == old(self).source,
            final(self).ci == string_end(old(self).chars@, old(self).ci + 1).0,
            kind == if string_end(old(self).chars@, old(self).ci + 1).1 {
                TokenKind::StringLiteral
            } else {
                TokenKind::Invalid
            },
    {
        let ghost cs = self.chars@;
        let ghost target = string_end(cs, old(self).ci + 1);
        self.bump();
        let mut terminated = false;
        while self.ci < self.chars.len()
            invariant_except_break
                self.wf(),
                self.chars@ == cs,
                self.source == old(self).source,
                string_end(cs, self.ci as int) == target,
                !terminated,
            ensures
                self.wf(),
                self.chars@ == cs,
                self.source == old(self).source,
                self.ci == target.0,
                terminated == target.1,
            decreases self.chars@.len() - self.ci,
        {
            let c = self.chars[self.ci];
            if c == '\\' {
                self.bump();
                if self.ci < self.chars.len() {
                    self.bump();
                }
            } else if c == '"' {
                self.bump();
                terminated = true;
                break;
            } else {
                self.bump();
            }
        }
        if terminated {
            TokenKind::StringLiteral
        } else {
            TokenKind::Invalid
        }
    }

    fn lex_tagged_ident(&mut self, prefix: char) -> (kind: TokenKind)
        requires
            old(self).wf(),
            old(self).ci < old(self).chars@.len(),
            prefix == '<' || prefix == '>' || prefix == '$' || prefix == '#',
        ensures
            final(self).wf(),
            final(self).chars@ == old(self).chars@,
            final(self).source == old(self).source,
            ({
                let cs = old(self).chars@;
                let i = old(self).ci as int;
                if i + 1 < cs.len() && spec_is_ident_start(cs[i + 1]) {
                    kind == prefix_kind(prefix) && final(self).ci == ident_end(cs, i + 1)
                } else {
                    kind == TokenKind::Invalid && final(self).ci == i + 1
                }
            }),
    {
        self.bump();
        match self.peek() {
            Some(first) => {
                if self.is_ident_start(first) {
                    self.consume_ident_body();
                    return if prefix == '<' {
                        TokenKind::LessIdent
                    } else if prefix == '>' {
                        TokenKind::GreaterIdent
                    } else if prefix == '$' {
                        TokenKind::DollarIdent
                    } else {
                        TokenKind::HashIdent
                    };
                }
            },
            None => {},
        }
        TokenKind::Invalid
    }

    fn lex_keyword_or_invalid(&mut self) -> (kind: TokenKind)
        requires
            old(self).wf(),
        ensures
            final(self).wf(),
            final(self).chars@ == old(self).chars@,
            final(self).source == old(self).source,
            final(self).ci == ident_end(old(self).chars@, old(self).ci as int),
            kind == spec_keyword_kind(
                old(self).chars@.subrange(old(self).ci as int, final(self).ci as int),
            ),
    {
        let start = self.ci;
        self.consume_ident_body();
        proof {
            lemma_ident_end_bounds(self.chars@, start as int);
        }
        keyword_kind(&self.chars, start, self.ci)
    }

    /// Reads the next token and reports its bounds as character indices too.
    pub fn next_indexed(&mut self) -> (r: Option<(Token, usize, usize)>)
        requires
            old(self).wf(),
        ensures
            final(self).wf(),
            final(self).text() == old(self).text(),
            match spec_next(old(self).text(), old(self).index()) {
                None => r is None && final(self).index() == ws_end(
                    old(self).text(),
                    old(self).index(),
                ),
                Some(t) => r matches Some((tok, s, e)) && tok == token_of(old(self).text(), t)
                    && s == t.start && e == t.end && final(self).index() == t.end,
            },
    {
        let ghost cs = self.chars@;
        self.skip_ws();
        if self.ci >= self.chars.len() {
            return None;
        }
        let start = self.pos;
        let start_ci = self.ci;
        let ghost w = self.ci as int;
        let ghost expect = token_at(cs, w);
        if self.ci + 1 < self.chars.len() && self.chars[self.ci] == '-' && self.chars[self.ci + 1]
            == '-' {
            self.bump();
            self.bump();
            while self.ci < self.chars.len() && self.chars[self.ci] != '\n'
                invariant
                    self.wf(),
                    self.chars@ == cs,
                    self.source == old(self).source,
                    line_end(cs, self.ci as int) == line_end(cs, w + 2),
                decreases self.chars@.len() - self.ci,
            {
                self.bump();
            }
            let t = self.make_token(start, TokenKind::Comment);
            return Some((t, start_ci, self.ci));
        }
        let ch = self.chars[self.ci];
        let kind = if ch == '"' {
            self.lex_string()
        } else if ch == '<' || ch == '>' || ch == '$' || ch == '#' {
            self.lex_tagged_ident(ch)
        } else if self.is_ident_start(ch) {
            self.lex_keyword_or_invalid()
        } else if is_ascii_digit(ch) {
            self.consume_number();
            TokenKind::NumberLiteral
        } else if ch == '+' {
            self.bump();
            if self.match_next('+') {
                TokenKind::Join
            } else {
                TokenKind::Plus
            }
        } else if ch == ':' {
            self.bump();
            if self.match_next(':') {
                TokenKind::Cons
            } else {
                TokenKind::Invalid
            }
        } else if ch == '!' {
            self.bump();
            TokenKind::Bang
        } else if ch == '-' {
            self.bump();
            TokenKind::Minus
        } else if ch == '*' {
            self.bump();
            TokenKind::Asterisk
        } else if ch == '/' {
            self.bump();
            TokenKind::Slash
        } else if ch == '%' {
            self.bump();
            TokenKind::Percent
        } else if ch == '[' {
            self.bump();
            TokenKind::LQuote
        } else if ch == ']' {
            self.bump();
            TokenKind::RQuote
        } else if ch == '(' {
            self.bump();
            TokenKind::LList
        } else if ch == ')' {
            self.bump();
            TokenKind::RList
        } else {
            self.bump();
            TokenKind::Invalid
        };
        assert(kind == expect.0 && self.ci == expect.1);
        Some((self.make_token(start, kind), start_ci, self.ci))
    }

    /// The next token, or `None` at the end of the text.
    pub fn next_token(&mut self) -> (r: Option<Token>)
        requires
            old(self).wf(),
        ensures
            final(self).wf(),
            final(self).text() == old(self).text(),
            match spec_next(old(self).text(), old(self).index()) {
                None => r is None && final(self).index() == ws_end(
                    old(self).text(),
                    old(self).index(),
                ),
                Some(t) => r == Some(token_of(old(self).text(), t)) && final(self).index()
                    == t.end,
            },
    {
        match self.next_indexed() {
            Some((t, _, _)) => Some(t),
            None => None,
        }
    }
}

proof fn lemma_ident_end_bounds(cs: Seq<char>, i: int)
    requires
        0 <= i <= cs.len(),
    ensures
        i <= ident_end(cs, i) <= cs.len(),
    decreases cs.len() - i,
{
    if i < cs.len() && spec_is_ident_continue(cs[i]) {
        lemma_ident_end_bounds(cs, i + 1);
    }
}

fn slice_is(chars: &Vec<char>, start: usize, end: usize, w: &[char]) -> (r: bool)
    requires
        start <= end <= chars@.len(),
    ensures
        r == (chars@.subrange(start as int, end as int) == w@),
{
    if end - start != w.len() {
        return false;
    }
    let mut i: usize = 0;
    while i < w.len()
        invariant
            i <= w@.len(),
            end - start == w@.len(),
            start <= end <= chars@.len(),
            forall|j: int| 0 <= j < i ==> chars@[start + j] == w@[j],
        decreases w@.len() - i,
    {
        if chars[start + i] != w[i] {
            assert(chars@.subrange(start as int, end as int)[i as int] != w@[i as int]);
            return false;
        }
        i = i + 1;
    }
    assert(chars@.subrange(start as int, end as int) =~= w@);
    true
}

fn keyword_kind(chars: &Vec<char>, start: usize, end: usize) -> (k: TokenKind)
    requires
        start <= end <= chars@.len(),
    ensures
        k == spec_keyword_kind(chars@.subrange(start as int, end as int)),
{
    let ghost w = chars@.subrange(start as int, end as int);
    let lit: [char; 3] = ['o', 'u', 't'];
    assert(lit@ =~= seq!['o', 'u', 't']);
    if slice_is(chars, start, end, &lit) {
        return TokenKind::Out;
    }
    let lit: [char; 4] = ['o', 'v', 'e', 'r'];
    assert(lit@ =~= seq!['o', 'v', 'e', 'r']);
    if slice_is(chars, start, end, &lit) {
        return TokenKind::Over;
    }
    let lit: [char; 5] = ['t', 'i', 'm', 'e', 's'];
    assert(lit@ =~= seq!['t', 'i', 'm', 'e', 's']);
    if slice_is(chars, start, end, &lit) {
        return TokenKind::Times;
    }
    let lit: [char; 3] = ['d', 'u', 'p'];
    assert(lit@ =~= seq!['d', 'u', 'p']);
    if slice_is(chars, start, end, &lit) {
        return TokenKind::Dup;
    }
    let lit: [char; 6] = ['s', 't', 'r', 'i', 'n', 'g'];
    assert(lit@ =~= seq!['s', 't', 'r', 'i', 'n', 'g']);
    if slice_is(chars, start, end, &lit) {
        return TokenKind::String;
    }
    let lit: [char; 2] = ['i', 'f'];
    assert(lit@ =~= seq!['i', 'f']);
    if slice_is(chars, start, end, &lit) {
        return TokenKind::If;
    }
    let lit: [char; 4] = ['e', 'l', 's', 'e'];
    assert(lit@ =~= seq!['e', 'l', 's', 'e']);
    if slice_is(chars, start, end, &lit) {
        return TokenKind::Else;
    }
    let lit: [char; 3] = ['i', 'f', 't'];
    assert(lit@ =~= seq!['i', 'f', 't']);
    if slice_is(chars, start, end, &lit) {
        return TokenKind::Ift;
    }
    let lit: [char; 4] = ['i', 'f', 't', 'e'];
    assert(lit@ =~= seq!['i', 'f', 't', 'e']);
    if slice_is(chars, start, end, &lit) {
        return TokenKind::Ifte;
    }
    let lit: [char; 2] = ['l', 't'];
    assert(lit@ =~= seq!['l', 't']);
    if slice_is(chars, start, end, &lit) {
        return TokenKind::Lt;
    }
    let lit: [char; 3] = ['l', 't', 'e'];
    assert(lit@ =~= seq!['l', 't', 'e']);
    if slice_is(chars, start, end, &lit) {
        return TokenKind::Lte;
    }
    let lit: [char; 3] = ['n', 'i', 'p'];
    assert(lit@ =~= seq!['n', 'i', 'p']);
    if slice_is(chars, start, end, &lit) {
        return TokenKind::Nip;
    }
    let lit: [char; 4] = ['d', 'r', 'o', 'p'];
    assert(lit@ =~= seq!['d', 'r', 'o', 'p']);
    if slice_is(chars, start, end, &lit) {
        return TokenKind::Drop;
    }
    let lit: [char; 4] = ['t', 'h', 'i', 's'];
    assert(lit@ =~= seq!['t', 'h', 'i', 's']);
    if slice_is(chars, start, end, &lit) {
        return TokenKind::This;
    }
    let lit: [char; 3] = ['n', 'i', 'l'];
    assert(lit@ =~= seq!['n', 'i', 'l']);
    if slice_is(chars, start, end, &lit) {
        return TokenKind::Nil;
    }
    let lit: [char; 2] = ['e', 'q'];
    assert(lit@ =~= seq!['e', 'q']);
    if slice_is(chars, start, end, &lit) {
        return TokenKind::Eq;
    }
    let lit: [char; 4] = ['h', 'e', 'a', 'd'];
    assert(lit@ =~= seq!['h', 'e', 'a', 'd']);
    if slice_is(chars, start, end, &lit) {
        return TokenKind::Head;
    }
    let lit: [char; 4] = ['t', 'a', 'i', 'l'];
    assert(lit@ =~= seq!['t', 'a', 'i', 'l']);
    if slice_is(chars, start, end, &lit) {
        return TokenKind::Tail;
    }
    let lit: [char; 4] = ['s', 'w', 'a', 'p'];
    assert(lit@ =~= seq!['s', 'w', 'a', 'p']);
    if slice_is(chars, start, end, &lit) {
        return TokenKind::Swap;
    }
    let lit: [char; 5] = ['w', 'h', 'i', 'l', 'e'];
    assert(lit@ =~= seq!['w', 'h', 'i', 'l', 'e']);
    if slice_is(chars, start, end, &lit) {
        return TokenKind::While;
    }
    let lit: [char; 7] = ['w', 'h', 'i', 'l', 'e', 'd', 'o'];
    assert(lit@ =~= seq!['w', 'h', 'i', 'l', 'e', 'd', 'o']);
    if slice_is(chars, start, end, &lit) {
        return TokenKind::WhileDo;
    }
    let lit: [char; 3] = ['n', 'o', 't'];
    assert(lit@ =~= seq!['n', 'o', 't']);
    if slice_is(chars, start, end, &lit) {
        return TokenKind::Not;
    }
    TokenKind::Invalid
}

} // verus!

verus! {

/// The printed form of a token: its kind and its lexeme as Rust's `Debug`
/// prints them, then `@ line:column`.
pub open spec fn token_line(kind: TokenKind, lexeme: Seq<char>, line: usize, column: usize) -> Seq<
    char,
> {
    token_kind_name(kind) + "("@ + str_debug(lexeme) + ") @ "@ + decimal(line as nat) + ":"@
        + decimal(column as nat)
}

/// A token together with the text it was read from, for printing.
pub struct TokenDisplay<'a> {
    token: &'a Token,
    src: &'a str,
}

/// The characters that `TokenDisplay` prints as the lexeme: those whose
/// character index lies in the span's byte range.
pub open spec fn display_lexeme(cs: Seq<char>, span: Span) -> Seq<char> {
    let s = min(span.start as int, cs.len() as int);
    let e = min(span.end as int, cs.len() as int);
    cs.subrange(s, e)
}

impl<'a> TokenDisplay<'a> {
    pub closed spec fn token(&self) -> Token {
        *self.token
    }

    pub closed spec fn source(&self) -> Seq<char> {
        self.src@
    }

    /// The printed form: kind, lexeme, line and column of the token.
    pub fn render(&self) -> (s: String)
        requires
            self.source().len() < usize::MAX,
            self.token().span.start <= self.token().span.end,
        ensures
            ({
                let cs = self.source();
                let span = self.token().span;
                let at = cs.take(min(span.start as int, cs.len() as int));
                s@ == token_line(
                    self.token().kind,
                    display_lexeme(cs, span),
                    location_after(at).0 as usize,
                    location_after(at).1 as usize,
                )
            }),
    {
        let (line, col) = self.token.span.to_location(self.src);
        let cs = chars_of(self.src);
        let len = cs.len();
        let start = if self.token.span.start < len {
            self.token.span.start
        } else {
            len
        };
        let end = if self.token.span.end < len {
            self.token.span.end
        } else {
            len
        };
        let mut lexeme: Vec<char> = Vec::new();
        let mut i = start;
        while i < end
            invariant
                start <= i <= end <= cs@.len(),
                lexeme@ == cs@.subrange(start as int, i as int),
            decreases end - i,
        {
            lexeme.push(cs[i]);
            assert(cs@.subrange(start as int, i + 1) =~= cs@.subrange(start as int, i as int).push(
                cs@[i as int],
            ));
            i = i + 1;
        }
        let text = crate::text::string_from_chars(&lexeme);
        let mut out = String::new();
        out.append(self.token.kind.name());
        out.append("(");
        let quoted = str_debug_text(text.as_str());
        out.append(quoted.as_str());
        out.append(") @ ");
        push_number(&mut out, line);
        out.append(":");
        push_number(&mut out, col);
        assert(out@ =~= token_line(self.token.kind, text@, line, col));
        out
    }
}

impl Token {
    pub fn display<'a>(&'a self, src: &'a str) -> (d: TokenDisplay<'a>)
        ensures
            d.token() == *self,
            d.source() == src@,
    {
        TokenDisplay { token: self, src }
    }
}

proof fn lemma_ws_end(cs: Seq<char>, i: int)
    requires
        0 <= i <= cs.len(),
    ensures
        i <= ws_end(cs, i) <= cs.len(),
        ws_end(cs, i) < cs.len() ==> !unicode_whitespace(cs[ws_end(cs, i)]),
    decreases cs.len() - i,
{
    if i < cs.len() && unicode_whitespace(cs[i]) {
        lemma_ws_end(cs, i + 1);
    }
}

proof fn lemma_digits_end(cs: Seq<char>, i: int)
    requires
        0 <= i <= cs.len(),
    ensures
        i <= digits_end(cs, i) <= cs.len(),
        i < cs.len() && spec_is_ascii_digit(cs[i]) ==> digits_end(cs, i) > i,
    decreases cs.len() - i,
{
    if i < cs.len() && spec_is_ascii_digit(cs[i]) {
        lemma_digits_end(cs, i + 1);
    }
}

proof fn lemma_line_end(cs: Seq<char>, i: int)
    requires
        0 <= i <= cs.len(),
    ensures
        i <= line_end(cs, i) <= cs.len(),
    decreases cs.len() - i,
{
    if i < cs.len() && cs[i] != '\n' {
        lemma_line_end(cs, i + 1);
    }
}

proof fn lemma_string_end(cs: Seq<char>, i: int)
    requires
        0 <= i <= cs.len(),
    ensures
        i <= string_end(cs, i).0 <= cs.len(),
    decreases cs.len() - i,
{
    if i < cs.len() {
        if cs[i] == '\\' {
            if i + 1 < cs.len() {
                lemma_string_end(cs, i + 2);
            }
        } else if cs[i] != '"' {
            lemma_string_end(cs, i + 1);
        }
    }
}

proof fn lemma_number_end(cs: Seq<char>, i: int)
    requires
        0 <= i < cs.len(),
        spec_is_ascii_digit(cs[i]),
    ensures
        i < number_end(cs, i) <= cs.len(),
{
    lemma_digits_end(cs, i);
    let d = digits_end(cs, i);
    if d + 1 < cs.len() && cs[d] == '.' && spec_is_ascii_digit(cs[d + 1]) {
        lemma_digits_end(cs, d + 1);
    }
    let f = if d + 1 < cs.len() && cs[d] == '.' && spec_is_ascii_digit(cs[d + 1]) {
        digits_end(cs, d + 1)
    } else {
        d
    };
    if f < cs.len() && (cs[f] == 'e' || cs[f] == 'E') {
        let k = if f + 1 < cs.len() && (cs[f + 1] == '+' || cs[f + 1] == '-') {
            f + 2
        } else {
            f + 1
        };
        if k < cs.len() && spec_is_ascii_digit(cs[k]) {
            lemma_digits_end(cs, k);
        }
    }
}

/// Every token the lexer reads starts after the white space it skips, is
/// not empty, and ends within the text; so the lexer always moves on.
pub proof fn law_token_progress(cs: Seq<char>, i: int)
    requires
        0 <= i <= cs.len(),
    ensures
        spec_next(cs, i) matches Some(t) ==> i <= t.start < t.end <= cs.len() && t.start == ws_end(
            cs,
            i,
        ),
        spec_next(cs, i) is None ==> ws_end(cs, i) == cs.len(),
{
    lemma_ws_end(cs, i);
    let w = ws_end(cs, i);
    if w < cs.len() {
        let c = cs[w];
        if w + 1 < cs.len() && c == '-' && cs[w + 1] == '-' {
            lemma_line_end(cs, w + 2);
        } else if c == '"' {
            lemma_string_end(cs, w + 1);
        } else if c == '<' || c == '>' || c == '$' || c == '#' {
            if w + 1 < cs.len() && spec_is_ident_start(cs[w + 1]) {
                lemma_ident_end_bounds(cs, w + 1);
            }
        } else if spec_is_ident_start(c) {
            lemma_ident_end_bounds(cs, w + 1);
            assert(spec_is_ident_continue(c));
            assert(ident_end(cs, w) == ident_end(cs, w + 1));
        } else if spec_is_ascii_digit(c) {
            lemma_number_end(cs, w);
        }
    }
}

} // verus!

verus! {

/// The name of a token kind, as its derived `Debug` prints it.
pub open spec fn token_kind_name(kind: TokenKind) -> Seq<char> {
    match kind {
        TokenKind::StringLiteral => "StringLiteral"@,
        TokenKind::NumberLiteral => "NumberLiteral"@,
        TokenKind::Comment => "Comment"@,
        TokenKind::Invalid => "Invalid"@,
        TokenKind::LessIdent => "LessIdent"@,
        TokenKind::GreaterIdent => "GreaterIdent"@,
        TokenKind::DollarIdent => "DollarIdent"@,
        TokenKind::HashIdent => "HashIdent"@,
        TokenKind::Out => "Out"@,
        TokenKind::Times => "Times"@,
        TokenKind::Dup => "Dup"@,
        TokenKind::Over => "Over"@,
        TokenKind::If => "If"@,
        TokenKind::Else => "Else"@,
        TokenKind::Ift => "Ift"@,
        TokenKind::Ifte => "Ifte"@,
        TokenKind::Lt => "Lt"@,
        TokenKind::Lte => "Lte"@,
        TokenKind::Eq => "Eq"@,
        TokenKind::Not => "Not"@,
        TokenKind::Nip => "Nip"@,
        TokenKind::Drop => "Drop"@,
        TokenKind::This => "This"@,
        TokenKind::String => "String"@,
        TokenKind::Nil => "Nil"@,
        TokenKind::Head => "Head"@,
        TokenKind::Tail => "Tail"@,
        TokenKind::Swap => "Swap"@,
        TokenKind::While => "While"@,
        TokenKind::WhileDo => "WhileDo"@,
        TokenKind::LQuote => "LQuote"@,
        TokenKind::RQuote => "RQuote"@,
        TokenKind::LList => "LList"@,
        TokenKind::RList => "RList"@,
        TokenKind::Join => "Join"@,
        TokenKind::Bang => "Bang"@,
        TokenKind::Plus => "Plus"@,
        TokenKind::Minus => "Minus"@,
        TokenKind::Cons => "Cons"@,
        TokenKind::Asterisk => "Asterisk"@,
        TokenKind::Slash => "Slash"@,
        TokenKind::Percent => "Percent"@,
    }
}

impl TokenKind {
    /// The name of the kind.
    pub fn name(self) -> (r: &'static str)
        ensures
            r@ == token_kind_name(self),
    {
        match self {
            TokenKind::StringLiteral => "StringLiteral",
            TokenKind::NumberLiteral => "NumberLiteral",
            TokenKind::Comment => "Comment",
            TokenKind::Invalid => "Invalid",
            TokenKind::LessIdent => "LessIdent",
            TokenKind::GreaterIdent => "GreaterIdent",
            TokenKind::DollarIdent => "DollarIdent",
            TokenKind::HashIdent => "HashIdent",
            TokenKind::Out => "Out",
            TokenKind::Times => "Times",
            TokenKind::Dup => "Dup",
            TokenKind::Over => "Over",
            TokenKind::If => "If",
            TokenKind::Else => "Else",
            TokenKind::Ift => "Ift",
            TokenKind::Ifte => "Ifte",
            TokenKind::Lt => "Lt",
            TokenKind::Lte => "Lte",
            TokenKind::Eq => "Eq",
            TokenKind::Not => "Not",
            TokenKind::Nip => "Nip",
            TokenKind::Drop => "Drop",
            TokenKind::This => "This",
            TokenKind::String => "String",
            TokenKind::Nil => "Nil",
            TokenKind::Head => "Head",
            TokenKind::Tail => "Tail",
            TokenKind::Swap => "Swap",
            TokenKind::While => "While",
            TokenKind::WhileDo => "WhileDo",
            TokenKind::LQuote => "LQuote",
            TokenKind::RQuote => "RQuote",
            TokenKind::LList => "LList",
            TokenKind::RList => "RList",
            TokenKind::Join => "Join",
            TokenKind::Bang => "Bang",
            TokenKind::Plus => "Plus",
            TokenKind::Minus => "Minus",
            TokenKind::Cons => "Cons",
            TokenKind::Asterisk => "Asterisk",
            TokenKind::Slash => "Slash",
            TokenKind::Percent => "Percent",
        }
    }
}

/// The tokens from index `i` on, comments left out.
pub open spec fn sig_tokens(cs: Seq<char>, i: int) -> Seq<TokSpec>
    decreases cs.len() - i,
{
    if i < 0 || i > cs.len() {
        seq![]
    } else {
        match spec_next(cs, i) {
            None => seq![],
            Some(t) => if t.end <= i || t.end > cs.len() {
                seq![]
            } else if t.kind == TokenKind::Comment {
                sig_tokens(cs, t.end)
            } else {
                seq![t] + sig_tokens(cs, t.end)
            },
        }
    }
}

/// The tokens read one after another from index `i` until none is left,
/// comments included.
pub open spec fn token_run(cs: Seq<char>, i: int) -> Seq<TokSpec>
    decreases cs.len() - i,
{
    if i < 0 || i > cs.len() {
        seq![]
    } else {
        match spec_next(cs, i) {
            None => seq![],
            Some(t) => if t.end <= i || t.end > cs.len() {
                seq![]
            } else {
                seq![t] + token_run(cs, t.end)
            },
        }
    }
}

/// Where reading stops: the end of the last token of the run.
pub open spec fn run_end(cs: Seq<char>, i: int) -> int {
    let ts = token_run(cs, i);
    if ts.len() == 0 {
        i
    } else {
        ts.last().end
    }
}

/// Whether character `j` lies inside one of the tokens.
pub open spec fn in_some_token(ts: Seq<TokSpec>, j: int) -> bool {
    exists|k: int| 0 <= k < ts.len() && (#[trigger] ts[k]).start <= j < ts[k].end
}

proof fn lemma_ws_span(cs: Seq<char>, i: int)
    requires
        0 <= i <= cs.len(),
    ensures
        forall|j: int| i <= j < ws_end(cs, i) ==> unicode_whitespace(#[trigger] cs[j]),
    decreases cs.len() - i,
{
    if i < cs.len() && unicode_whitespace(cs[i]) {
        lemma_ws_span(cs, i + 1);
    }
}

/// Reading a text from index `i` until no token is left yields at most one
/// token a character; the tokens are nonempty, in order and do not
/// overlap; every character outside them is white space; and once reading
/// stops, no token follows.
pub proof fn law_token_run(cs: Seq<char>, i: int)
    requires
        0 <= i <= cs.len(),
    ensures
        token_run(cs, i).len() <= cs.len() - i,
        forall|k: int|
            0 <= k < token_run(cs, i).len() ==> i <= (#[trigger] token_run(cs, i)[k]).start
                < token_run(cs, i)[k].end <= cs.len(),
        forall|k: int, l: int|
            0 <= k < l < token_run(cs, i).len() ==> (#[trigger] token_run(cs, i)[k]).end
                <= (#[trigger] token_run(cs, i)[l]).start,
        forall|j: int|
            i <= j < cs.len() && !in_some_token(token_run(cs, i), j) ==> unicode_whitespace(
                #[trigger] cs[j],
            ),
        spec_next(cs, run_end(cs, i)) is None,
    decreases cs.len() - i,
{
    law_token_progress(cs, i);
    lemma_ws_end(cs, i);
    lemma_ws_span(cs, i);
    let ts = token_run(cs, i);
    match spec_next(cs, i) {
        None => {
            assert(ts.len() == 0);
        },
        Some(t) => {
            let rest = token_run(cs, t.end);
            law_token_run(cs, t.end);
            assert(ts == seq![t] + rest);
            assert(ts[0] == t);
            assert forall|k: int| 0 < k < ts.len() implies ts[k] == rest[k - 1] by {}
            assert forall|k: int|
                0 <= k < ts.len() implies i <= (#[trigger] ts[k]).start < ts[k].end <= cs.len() by {
                if k > 0 {
                    assert(ts[k] == rest[k - 1]);
                }
            }
            assert forall|k: int, l: int|
                0 <= k < l < ts.len() implies (#[trigger] ts[k]).end <= (#[trigger] ts[l]).start by {
                assert(ts[l] == rest[l - 1]);
                if k > 0 {
                    assert(ts[k] == rest[k - 1]);
                }
            }
            assert forall|j: int| i <= j < cs.len() && !in_some_token(ts, j) implies unicode_whitespace(
                #[trigger] cs[j],
            ) by {
                if j < t.start {
                } else if j < t.end {
                    assert(ts[0].start <= j < ts[0].end);
                } else {
                    if in_some_token(rest, j) {
                        let k = choose|k: int| 0 <= k < rest.len() && (#[trigger] rest[k]).start <= j < rest[k].end;
                        assert(ts[k + 1] == rest[k]);
                    }
                }
            }
            if rest.len() > 0 {
                assert(ts.last() == rest.last());
            }
        },
    }
}

/// Reading a whole text with a fresh lexer: at most one token a byte; each
/// token's byte span is nonempty and ends before the next one starts; every
/// character outside the tokens is white space; and when no token is left,
/// the lexer stands at the end of the text, where again no token follows.
pub proof fn law_token_stream(cs: Seq<char>)
    requires
        utf8_len(cs) <= usize::MAX,
    ensures
        token_run(cs, 0).len() <= utf8_len(cs),
        forall|k: int|
            0 <= k < token_run(cs, 0).len() ==> (#[trigger] token_of(cs, token_run(cs, 0)[k])).span.start
                < token_of(cs, token_run(cs, 0)[k]).span.end,
        forall|k: int, l: int|
            0 <= k < l < token_run(cs, 0).len() ==> (#[trigger] token_of(cs, token_run(cs, 0)[k])).span.end
                <= (#[trigger] token_of(cs, token_run(cs, 0)[l])).span.start,
        forall|j: int|
            0 <= j < cs.len() && !in_some_token(token_run(cs, 0), j) ==> unicode_whitespace(
                #[trigger] cs[j],
            ),
        spec_next(cs, run_end(cs, 0)) is None,
        ws_end(cs, run_end(cs, 0)) == cs.len(),
        spec_next(cs, cs.len() as int) is None,
{
    let ts = token_run(cs, 0);
    law_token_run(cs, 0);
    assert(cs.take(cs.len() as int) =~= cs);
    lemma_utf8_len_mono(cs, 0, cs.len() as int);
    assert forall|a: int, b: int| 0 <= a <= b <= cs.len() implies byte_at(cs, a) + (b - a) <= byte_at(
        cs,
        b,
    ) && byte_at(cs, b) <= utf8_len(cs) by {
        lemma_utf8_len_mono(cs, a, b);
        lemma_utf8_len_mono(cs, b, cs.len() as int);
    }
    assert forall|k: int| 0 <= k < ts.len() implies (#[trigger] token_of(cs, ts[k])).span.start
        < token_of(cs, ts[k]).span.end by {
        assert(0 <= ts[k].start < ts[k].end <= cs.len());
    }
    assert forall|k: int, l: int| 0 <= k < l < ts.len() implies (#[trigger] token_of(cs, ts[k])).span.end
        <= (#[trigger] token_of(cs, ts[l])).span.start by {
        assert(ts[k].end <= ts[l].start);
        assert(0 <= ts[l].start <= cs.len());
        assert(0 <= ts[k].end <= cs.len());
    }
    let e = run_end(cs, 0);
    if ts.len() > 0 {
        assert(0 <= ts[ts.len() - 1].start < ts.last().end <= cs.len());
    }
    law_token_progress(cs, e);
}

proof fn lemma_digit_run(cs: Seq<char>, i: int, e: int)
    requires
        0 <= i <= e <= cs.len(),
        forall|j: int| i <= j < e ==> spec_is_ascii_digit(#[trigger] cs[j]),
        e == cs.len() || !spec_is_ascii_digit(cs[e]),
    ensures
        digits_end(cs, i) == e,
    decreases e - i,
{
    if i < e {
        lemma_digit_run(cs, i + 1, e);
    }
}

/// A run of digits, then `e` or `E`, then a sign, then digits is one number
/// literal whichever the sign, `+` or `-`: it ends where the exponent's
/// digits end.
pub proof fn law_signed_exponent(cs: Seq<char>, w: int, f: int, g: int)
    requires
        0 <= w < f,
        f + 2 < g <= cs.len(),
        forall|j: int| w <= j < f ==> spec_is_ascii_digit(#[trigger] cs[j]),
        cs[f] == 'e' || cs[f] == 'E',
        cs[f + 1] == '+' || cs[f + 1] == '-',
        forall|j: int| f + 2 <= j < g ==> spec_is_ascii_digit(#[trigger] cs[j]),
        g == cs.len() || !spec_is_ascii_digit(cs[g]),
    ensures
        token_at(cs, w) == (TokenKind::NumberLiteral, g),
{
    assert(spec_is_ascii_digit(cs[w]));
    assert(!spec_is_ascii_digit(cs[f]));
    lemma_digit_run(cs, w, f);
    assert(spec_is_ascii_digit(cs[f + 2]));
    lemma_digit_run(cs, f + 2, g);
}

/// Once no token follows an index, none follows the end of the white space after it.
pub proof fn lemma_ws_end_idempotent(cs: Seq<char>, i: int)
    requires
        0 <= i <= cs.len(),
    ensures
        ws_end(cs, ws_end(cs, i)) == ws_end(cs, i),
{
    lemma_ws_end(cs, i);
}

} // verus!
