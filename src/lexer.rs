//! Splitting the input text into tokens, one on demand.
use vstd::prelude::*;
use vstd::string::*;
use crate::ast::i64_max;

verus! {

/// A token of the expression language.
#[derive(Debug, Clone, Copy, PartialEq, Eq, Structural)]
pub enum Token {
    Integer(i64),
    Plus,
    Minus,
    Star,
    Slash,
    LParen,
    RParen,
    Eof,
}

/// Why an input was rejected. The first two are lexical, the last two
/// syntactic.
#[derive(Debug, Clone, Copy, PartialEq, Eq, Structural)]
pub enum ParseError {
    /// A character that begins no token.
    UnexpectedChar(char),
    /// An integer literal above the largest 64-bit signed value.
    IntegerOverflow,
    /// A token where an operand was needed, or after a complete expression.
    UnexpectedToken(Token),
    /// An opening parenthesis without its closing one.
    MissingRParen,
}

/// The characters with the Unicode `White_Space` property.
pub open spec fn is_whitespace(c: char) -> bool {
    let u = c as u32;
    (0x09 <= u <= 0x0D) || u == 0x20 || u == 0x85 || u == 0xA0 || u == 0x1680 || (0x2000 <= u
        <= 0x200A) || u == 0x2028 || u == 0x2029 || u == 0x202F || u == 0x205F || u == 0x3000
}

pub open spec fn is_digit(c: char) -> bool {
    '0' <= c <= '9'
}

/// The value of a run of decimal digits, most significant first.
pub open spec fn digits_value(d: Seq<char>) -> nat
    decreases d.len(),
{
    if d.len() == 0 {
        0
    } else {
        10 * digits_value(d.drop_last()) + (d.last() as u32 - '0' as u32) as nat
    }
}

/// The first position at or after `pos` that holds no whitespace.
pub open spec fn skip_ws(s: Seq<char>, pos: nat) -> nat
    decreases s.len() - pos,
{
    if pos < s.len() && is_whitespace(s[pos as int]) {
        skip_ws(s, pos + 1)
    } else {
        pos
    }
}

/// The end of the run of digits that starts at `pos`.
pub open spec fn digits_end(s: Seq<char>, pos: nat) -> nat
    decreases s.len() - pos,
{
    if pos < s.len() && is_digit(s[pos as int]) {
        digits_end(s, pos + 1)
    } else {
        pos
    }
}

/// The token that starts at or after `pos` (after any whitespace), and the
/// position just past it; at the end of the text, `Eof`.
pub open spec fn scan(s: Seq<char>, pos: nat) -> Result<(Token, nat), ParseError> {
    let p = skip_ws(s, pos);
    if p >= s.len() {
        Ok((Token::Eof, p))
    } else {
        let c = s[p as int];
        if c == '+' {
            Ok((Token::Plus, p + 1))
        } else if c == '-' {
            Ok((Token::Minus, p + 1))
        } else if c == '*' {
            Ok((Token::Star, p + 1))
        } else if c == '/' {
            Ok((Token::Slash, p + 1))
        } else if c == '(' {
            Ok((Token::LParen, p + 1))
        } else if c == ')' {
            Ok((Token::RParen, p + 1))
        } else if is_digit(c) {
            let e = digits_end(s, p);
            let v = digits_value(s.subrange(p as int, e as int));
            if v <= i64_max() {
                Ok((Token::Integer(v as i64), e))
            } else {
                Err(ParseError::IntegerOverflow)
            }
        } else {
            Err(ParseError::UnexpectedChar(c))
        }
    }
}

/// A cursor over the input text that hands out one token at a time.
pub struct Lexer<'a> {
    input: &'a str,
    pos: usize,
    len: usize,
}

impl<'a> Lexer<'a> {
    /// The text being read.
    pub closed spec fn text(&self) -> Seq<char> {
        self.input@
    }

    /// The position, in characters, from which the next token is read.
    pub closed spec fn pos(&self) -> nat {
        self.pos as nat
    }

    pub closed spec fn wf(&self) -> bool {
        self.len == self.input@.len() && self.pos <= self.len
    }

    /// A lexer at the start of `input`.
    pub fn new(input: &'a str) -> (r: Self)
        ensures
            r.wf(),
            r.text() == input@,
            r.pos() == 0,
    {
        Lexer { input, pos: 0, len: input.unicode_len() }
    }

    /// Reads the next token: the one that `scan` finds at the cursor, which
    /// then moves past it. At the end of the text this is `Eof`, again and again.
    pub fn next_token(&mut self) -> (r: Result<Token, ParseError>)
        requires
            old(self).wf(),
        ensures
            final(self).wf(),
            final(self).text() == old(self).text(),
            match scan(old(self).text(), old(self).pos()) {
                Ok((t, p)) => r == Ok::<Token, ParseError>(t) && final(self).pos() == p,
                Err(e) => r == Err::<Token, ParseError>(e),
            },
    {
        self.skip_whitespace();
        if self.pos >= self.len {
            return Ok(Token::Eof);
        }
        let ch = self.input.get_char(self.pos);
        if ch == '+' {
            self.pos = self.pos + 1;
            Ok(Token::Plus)
        } else if ch == '-' {
            self.pos = self.pos + 1;
            Ok(Token::Minus)
        } else if ch == '*' {
            self.pos = self.pos + 1;
            Ok(Token::Star)
        } else if ch == '/' {
            self.pos = self.pos + 1;
            Ok(Token::Slash)
        } else if ch == '(' {
            self.pos = self.pos + 1;
            Ok(Token::LParen)
        } else if ch == ')' {
            self.pos = self.pos + 1;
            Ok(Token::RParen)
        } else if '0' <= ch && ch <= '9' {
            self.read_integer()
        } else {
            Err(ParseError::UnexpectedChar(ch))
        }
    }

    /// Moves the cursor past any whitespace.
    fn skip_whitespace(&mut self)
        requires
            old(self).wf(),
        ensures
            final(self).wf(),
            final(self).input == old(self).input,
            final(self).pos == skip_ws(old(self).input@, old(self).pos as nat),
    {
        let ghost target = skip_ws(self.input@, self.pos as nat);
        loop
            invariant
                self.wf(),
                self.input == old(self).input,
                skip_ws(self.input@, self.pos as nat) == target,
            ensures
                self.wf(),
                self.input == old(self).input,
                self.pos == target,
            decreases self.len - self.pos,
        {
            let ch = match self.current_char() {
                Some(c) => c,
                None => break,
            };
            if is_space(ch) {
                self.pos = self.pos + 1;
            } else {
                break;
            }
        }
    }

    /// The character at the cursor, if any is left.
    fn current_char(&self) -> (r: Option<char>)
        requires
            self.wf(),
        ensures
            r == (if self.pos < self.len {
                Some(self.input@[self.pos as int])
            } else {
                None
            }),
    {
        if self.pos < self.len {
            Some(self.input.get_char(self.pos))
        } else {
            None
        }
    }

    /// Reads the run of digits at the cursor as a 64-bit signed integer.
    fn read_integer(&mut self) -> (r: Result<Token, ParseError>)
        requires
            old(self).wf(),
            old(self).pos < old(self).len,
            is_digit(old(self).input@[old(self).pos as int]),
        ensures
            final(self).wf(),
            final(self).input == old(self).input,
            ({
                let s = old(self).input@;
                let e = digits_end(s, old(self).pos as nat);
                let v = digits_value(s.subrange(old(self).pos as int, e as int));
                if v <= i64_max() {
                    r == Ok::<Token, ParseError>(Token::Integer(v as i64)) && final(self).pos == e
                } else {
                    r == Err::<Token, ParseError>(ParseError::IntegerOverflow)
                }
            }),
    {
        let start = self.pos;
        let ghost s = self.input@;
        let ghost end = digits_end(s, start as nat);
        let mut acc: i64 = 0;
        let mut overflow = false;
        assert(s.subrange(start as int, start as int) =~= Seq::<char>::empty());
        loop
            invariant
                self.wf(),
                self.input == old(self).input,
                s == self.input@,
                start <= self.pos,
                digits_end(s, self.pos as nat) == end,
                !overflow ==> acc as int == digits_value(s.subrange(start as int, self.pos as int)),
                !overflow ==> acc >= 0,
                overflow ==> digits_value(s.subrange(start as int, self.pos as int)) > i64_max(),
            ensures
                self.wf(),
                self.input == old(self).input,
                self.pos == end,
                start <= self.pos,
                !overflow ==> acc as int == digits_value(s.subrange(start as int, self.pos as int)),
                overflow ==> digits_value(s.subrange(start as int, self.pos as int)) > i64_max(),
            decreases self.len - self.pos,
        {
            let ch = match self.current_char() {
                Some(c) => c,
                None => break,
            };
            if '0' <= ch && ch <= '9' {
                let d = (ch as u32 - '0' as u32) as i64;
                let ghost before = digits_value(s.subrange(start as int, self.pos as int));
                assert(s.subrange(start as int, self.pos + 1).drop_last() =~= s.subrange(
                    start as int,
                    self.pos as int,
                ));
                if !overflow {
                    if acc > 922337203685477580 || (acc == 922337203685477580 && d > 7) {
                        overflow = true;
                    } else {
                        acc = acc * 10 + d;
                    }
                }
                self.pos = self.pos + 1;
            } else {
                break;
            }
        }
        if overflow {
            Err(ParseError::IntegerOverflow)
        } else {
            Ok(Token::Integer(acc))
        }
    }
}

/// Whether `c` is whitespace: the Unicode `White_Space` characters.
fn is_space(c: char) -> (r: bool)
    ensures
        r == is_whitespace(c),
{
    let u = c as u32;
    (0x09 <= u && u <= 0x0D) || u == 0x20 || u == 0x85 || u == 0xA0 || u == 0x1680 || (0x2000
        <= u && u <= 0x200A) || u == 0x2028 || u == 0x2029 || u == 0x202F || u == 0x205F || u
        == 0x3000
}

/// Once the text is used up, reading again gives `Eof` at the same place.
pub proof fn lemma_scan_eof_idempotent(s: Seq<char>, pos: nat)
    requires
        scan(s, pos) matches Ok((Token::Eof, _)),
    ensures
        scan(s, scan(s, pos)->Ok_0.1) == scan(s, pos),
{
    lemma_skip_ws_end(s, pos);
}

pub(crate) proof fn lemma_skip_ws_end(s: Seq<char>, pos: nat)
    ensures
        skip_ws(s, pos) >= pos,
        skip_ws(s, pos) < s.len() ==> !is_whitespace(s[skip_ws(s, pos) as int]),
        pos <= s.len() ==> skip_ws(s, pos) <= s.len(),
        skip_ws(s, skip_ws(s, pos)) == skip_ws(s, pos),
    decreases s.len() - pos,
{
    if pos < s.len() && is_whitespace(s[pos as int]) {
        lemma_skip_ws_end(s, pos + 1);
    }
}

pub(crate) proof fn lemma_digits_end(s: Seq<char>, pos: nat)
    ensures
        digits_end(s, pos) >= pos,
        pos <= s.len() ==> digits_end(s, pos) <= s.len(),
        pos < s.len() && is_digit(s[pos as int]) ==> digits_end(s, pos) > pos,
    decreases s.len() - pos,
{
    if pos < s.len() && is_digit(s[pos as int]) {
        lemma_digits_end(s, pos + 1);
    }
}

} // verus!
