//! Recursive-descent parsing with ordinary precedence and left associativity:
//!
//! ```text
//! expression ::= term
//! term       ::= factor  (('+' | '-') factor)*
//! factor     ::= primary (('*' | '/') primary)*
//! primary    ::= INTEGER | '(' expression ')'
//! ```
use vstd::prelude::*;
use crate::ast::{BinOp, Expr};
use crate::lexer::{
    Lexer, ParseError, Token, scan, skip_ws, lemma_scan_eof_idempotent, lemma_skip_ws_end,
    lemma_digits_end,
};

verus! {

/// The tokens of a text in order, without the final `Eof`, and the lexical
/// error that stops the text short, if one does.
pub struct TokenStream {
    pub toks: Seq<Token>,
    pub err: Option<ParseError>,
}

/// Every token but `Eof` moves the cursor forward, and not past the end.
pub proof fn lemma_scan_advances(s: Seq<char>, pos: nat)
    ensures
        match scan(s, pos) {
            Ok((t, p)) => t != Token::Eof ==> pos < p && p <= s.len(),
            Err(_) => true,
        },
{
    lemma_skip_ws_end(s, pos);
    let p = skip_ws(s, pos);
    lemma_digits_end(s, p);
}

/// The tokens read from `pos` on, up to the end of the text or the first
/// lexical error.
pub open spec fn tokens_from(s: Seq<char>, pos: nat) -> TokenStream
    decreases s.len() - pos,
    via tokens_from_decreases
{
    match scan(s, pos) {
        Ok((t, p)) => if t == Token::Eof {
            TokenStream { toks: Seq::empty(), err: None }
        } else {
            let rest = tokens_from(s, p);
            TokenStream { toks: seq![t] + rest.toks, err: rest.err }
        },
        Err(e) => TokenStream { toks: Seq::empty(), err: Some(e) },
    }
}

#[via_fn]
proof fn tokens_from_decreases(s: Seq<char>, pos: nat) {
    lemma_scan_advances(s, pos);
}

/// The token stream of a whole text.
pub open spec fn tokens(s: Seq<char>) -> TokenStream {
    tokens_from(s, 0)
}

/// The `i`-th token, as the lexer hands it out: past the last one comes the
/// lexical error, if any, else `Eof`.
pub open spec fn token_at(ts: TokenStream, i: int) -> Result<Token, ParseError> {
    if 0 <= i < ts.toks.len() {
        Ok(ts.toks[i])
    } else {
        match ts.err {
            Some(e) => Err(e),
            None => Ok(Token::Eof),
        }
    }
}

/// Moving past the token at `i`: this reads the next one, and fails with its
/// lexical error.
pub open spec fn advance_past(ts: TokenStream, i: int) -> Result<(), ParseError> {
    match token_at(ts, i + 1) {
        Ok(_) => Ok(()),
        Err(e) => Err(e),
    }
}

pub open spec fn additive(t: Result<Token, ParseError>) -> Option<BinOp> {
    match t {
        Ok(Token::Plus) => Some(BinOp::Add),
        Ok(Token::Minus) => Some(BinOp::Sub),
        _ => None,
    }
}

pub open spec fn multiplicative(t: Result<Token, ParseError>) -> Option<BinOp> {
    match t {
        Ok(Token::Star) => Some(BinOp::Mul),
        Ok(Token::Slash) => Some(BinOp::Div),
        _ => None,
    }
}

pub open spec fn node(op: BinOp, l: Expr, r: Expr) -> Expr {
    Expr::BinaryOp { op, left: Box::new(l), right: Box::new(r) }
}

/// How far position `i` is from the end of the stream.
pub open spec fn remaining(ts: TokenStream, i: int) -> nat {
    if i <= ts.toks.len() + 1 {
        (ts.toks.len() + 1 - i) as nat
    } else {
        0
    }
}

/// A term parsed from position `i`: the tree, and how many tokens it took.
pub open spec fn parse_term_at(ts: TokenStream, i: int) -> Result<(Expr, nat), ParseError>
    decreases remaining(ts, i), 4nat,
{
    match parse_factor_at(ts, i) {
        Ok((f, n)) => match term_rest(ts, f, i + n) {
            Ok((t, m)) => Ok((t, n + m)),
            Err(e) => Err(e),
        },
        Err(e) => Err(e),
    }
}

/// The additive tail of a term at position `i`, folded onto `acc` from the
/// left.
pub open spec fn term_rest(ts: TokenStream, acc: Expr, i: int) -> Result<(Expr, nat), ParseError>
    decreases remaining(ts, i), 3nat,
{
    match additive(token_at(ts, i)) {
        None => Ok((acc, 0)),
        Some(op) => match advance_past(ts, i) {
            Err(e) => Err(e),
            Ok(()) => match parse_factor_at(ts, i + 1) {
                Err(e) => Err(e),
                Ok((r, n)) => match term_rest(ts, node(op, acc, r), i + 1 + n) {
                    Ok((t, m)) => Ok((t, 1 + n + m)),
                    Err(e) => Err(e),
                },
            },
        },
    }
}

/// A factor parsed from position `i`.
pub open spec fn parse_factor_at(ts: TokenStream, i: int) -> Result<(Expr, nat), ParseError>
    decreases remaining(ts, i), 2nat,
{
    match parse_primary_at(ts, i) {
        Ok((p, n)) => match factor_rest(ts, p, i + n) {
            Ok((f, m)) => Ok((f, n + m)),
            Err(e) => Err(e),
        },
        Err(e) => Err(e),
    }
}

/// The multiplicative tail of a factor at position `i`, folded onto `acc`
/// from the left.
pub open spec fn factor_rest(ts: TokenStream, acc: Expr, i: int) -> Result<(Expr, nat), ParseError>
    decreases remaining(ts, i), 1nat,
{
    match multiplicative(token_at(ts, i)) {
        None => Ok((acc, 0)),
        Some(op) => match advance_past(ts, i) {
            Err(e) => Err(e),
            Ok(()) => match parse_primary_at(ts, i + 1) {
                Err(e) => Err(e),
                Ok((r, n)) => match factor_rest(ts, node(op, acc, r), i + 1 + n) {
                    Ok((t, m)) => Ok((t, 1 + n + m)),
                    Err(e) => Err(e),
                },
            },
        },
    }
}

/// A primary parsed from position `i`: an integer, or an expression in
/// parentheses.
pub open spec fn parse_primary_at(ts: TokenStream, i: int) -> Result<(Expr, nat), ParseError>
    decreases remaining(ts, i), 0nat,
{
    match token_at(ts, i) {
        Ok(Token::Integer(v)) => match advance_past(ts, i) {
            Ok(()) => Ok((Expr::Integer(v), 1)),
            Err(e) => Err(e),
        },
        Ok(Token::LParen) => match advance_past(ts, i) {
            Err(e) => Err(e),
            Ok(()) => match parse_term_at(ts, i + 1) {
                Err(e) => Err(e),
                Ok((x, n)) => if token_at(ts, i + 1 + n) == Ok::<Token, ParseError>(Token::RParen) {
                    match advance_past(ts, i + 1 + n) {
                        Ok(()) => Ok((x, n + 2)),
                        Err(e) => Err(e),
                    }
                } else {
                    Err(ParseError::MissingRParen)
                },
            },
        },
        Ok(t) => Err(ParseError::UnexpectedToken(t)),
        Err(e) => Err(e),
    }
}

/// A complete expression from position `i`: a term followed by `Eof`.
pub open spec fn parse_complete_at(ts: TokenStream, i: int) -> Result<Expr, ParseError> {
    match parse_term_at(ts, i) {
        Ok((x, n)) => match token_at(ts, i + n) {
            Ok(Token::Eof) => Ok(x),
            Ok(t) => Err(ParseError::UnexpectedToken(t)),
            Err(e) => Err(e),
        },
        Err(e) => Err(e),
    }
}

/// What parsing a text gives: the first token is read, then a complete
/// expression.
pub open spec fn parse_text(s: Seq<char>) -> Result<Expr, ParseError> {
    match token_at(tokens(s), 0) {
        Ok(_) => parse_complete_at(tokens(s), 0),
        Err(e) => Err(e),
    }
}

/// A parser over one text, with one token of lookahead.
pub struct Parser<'a> {
    lexer: Lexer<'a>,
    current: Token,
    index: Ghost<int>,
}

/// The result of a parse function seen from the exec side: the tree it
/// returns and the position it moves to, or the error.
pub open spec fn outcome_matches(
    r: Result<Expr, ParseError>,
    expected: Result<(Expr, nat), ParseError>,
    start: int,
    end: int,
    end_wf: bool,
) -> bool {
    match expected {
        Ok((x, n)) => r == Ok::<Expr, ParseError>(x) && end_wf && end == start + n,
        Err(e) => r == Err::<Expr, ParseError>(e),
    }
}

impl<'a> Parser<'a> {
    /// The text being parsed.
    pub closed spec fn text(&self) -> Seq<char> {
        self.lexer.text()
    }

    /// The tokens of the text.
    pub open spec fn stream(&self) -> TokenStream {
        tokens(self.text())
    }

    /// The position of the lookahead token in the stream.
    pub closed spec fn index(&self) -> int {
        self.index@
    }

    /// The lookahead token is the one at `index`, and the lexer is positioned
    /// just after it.
    pub closed spec fn wf(&self) -> bool {
        let ts = tokens(self.lexer.text());
        let i = self.index@;
        &&& self.lexer.wf()
        &&& 0 <= i <= ts.toks.len()
        &&& token_at(ts, i) == Ok::<Token, ParseError>(self.current)
        &&& tokens_from(self.lexer.text(), self.lexer.pos()) == (TokenStream {
            toks: ts.toks.subrange(if i < ts.toks.len() { i + 1 } else { i }, ts.toks.len() as int),
            err: ts.err,
        })
    }

    /// A parser over `input` with its first token read; fails with that
    /// token's lexical error.
    pub fn new(input: &'a str) -> (r: Result<Self, ParseError>)
        ensures
            match token_at(tokens(input@), 0) {
                Ok(_) => r matches Ok(p) && p.wf() && p.text() == input@ && p.index() == 0,
                Err(e) => r == Err::<Self, ParseError>(e),
            },
    {
        let mut lexer = Lexer::new(input);
        let ghost s = input@;
        proof {
            lemma_scan_advances(s, 0);
        }
        let current = match lexer.next_token() {
            Ok(t) => t,
            Err(e) => return Err(e),
        };
        proof {
            let ts = tokens(s);
            if current == Token::Eof {
                lemma_scan_eof_idempotent(s, 0);
                assert(ts.toks.subrange(0, 0) =~= Seq::<Token>::empty());
            } else {
                assert(ts.toks.subrange(1, ts.toks.len() as int) =~= tokens_from(s, lexer.pos()).toks);
            }
        }
        Ok(Parser { lexer, current, index: Ghost(0) })
    }

    /// Parses a complete expression from the lookahead token on; the
    /// expression must be followed by the end of the text.
    pub fn parse(&mut self) -> (r: Result<Expr, ParseError>)
        requires
            old(self).wf(),
        ensures
            final(self).text() == old(self).text(),
            r == parse_complete_at(old(self).stream(), old(self).index()),
    {
        let expr = match self.parse_expression() {
            Ok(e) => e,
            Err(e) => return Err(e),
        };
        match self.current {
            Token::Eof => Ok(expr),
            t => Err(ParseError::UnexpectedToken(t)),
        }
    }

    /// Reads the next token into the lookahead.
    fn advance(&mut self) -> (r: Result<(), ParseError>)
        requires
            old(self).wf(),
            old(self).current != Token::Eof,
        ensures
            final(self).text() == old(self).text(),
            r == advance_past(old(self).stream(), old(self).index()),
            r is Ok ==> final(self).wf() && final(self).index() == old(self).index() + 1,
    {
        let ghost s = self.lexer.text();
        let ghost ts = tokens(s);
        let ghost i = self.index@;
        let ghost pos = self.lexer.pos();
        proof {
            lemma_scan_advances(s, pos);
            if i + 1 < ts.toks.len() {
                assert(tokens_from(s, pos).toks[0] == ts.toks[i + 1]);
            }
        }
        let t = match self.lexer.next_token() {
            Ok(t) => t,
            Err(e) => return Err(e),
        };
        self.current = t;
        self.index = Ghost(i + 1);
        proof {
            let rest = tokens_from(s, pos);
            assert(rest.toks == ts.toks.subrange(i + 1, ts.toks.len() as int));
            if t == Token::Eof {
                lemma_scan_eof_idempotent(s, pos);
                assert(rest.toks.len() == 0);
                assert(ts.toks.subrange(i + 1, ts.toks.len() as int) =~= Seq::<Token>::empty());
            } else {
                let rest2 = tokens_from(s, self.lexer.pos());
                assert(rest.toks == seq![t] + rest2.toks);
                assert(rest2.toks =~= rest.toks.subrange(1, rest.toks.len() as int));
                assert(ts.toks[i + 1] == rest.toks[0]);
                assert(ts.toks.subrange(i + 2, ts.toks.len() as int) =~= rest2.toks);
            }
        }
        Ok(())
    }

    fn parse_expression(&mut self) -> (r: Result<Expr, ParseError>)
        requires
            old(self).wf(),
        ensures
            final(self).text() == old(self).text(),
            outcome_matches(
                r,
                parse_term_at(old(self).stream(), old(self).index()),
                old(self).index(),
                final(self).index(),
                final(self).wf(),
            ),
        decreases remaining(old(self).stream(), old(self).index()), 5nat,
    {
        self.parse_term()
    }

    fn parse_term(&mut self) -> (r: Result<Expr, ParseError>)
        requires
            old(self).wf(),
        ensures
            final(self).text() == old(self).text(),
            outcome_matches(
                r,
                parse_term_at(old(self).stream(), old(self).index()),
                old(self).index(),
                final(self).index(),
                final(self).wf(),
            ),
        decreases remaining(old(self).stream(), old(self).index()), 4nat,
    {
        let ghost ts = self.stream();
        let ghost i0 = self.index();
        let mut left = match self.parse_factor() {
            Ok(e) => e,
            Err(e) => return Err(e),
        };
        loop
            invariant
                self.wf(),
                self.text() == old(self).text(),
                ts == old(self).stream(),
                i0 == old(self).index(),
                self.index() >= i0,
                parse_term_at(ts, i0) == match term_rest(ts, left, self.index()) {
                    Ok((t, m)) => Ok((t, (self.index() - i0 + m) as nat)),
                    Err(e) => Err(e),
                },
            ensures
                self.wf(),
                self.text() == old(self).text(),
                parse_term_at(ts, i0) == Ok::<(Expr, nat), ParseError>(
                    (left, (self.index() - i0) as nat),
                ),
            decreases ts.toks.len() - self.index(),
        {
            let ghost i = self.index();
            proof {
                assert(token_at(ts, i) == Ok::<Token, ParseError>(self.current));
            }
            let op = match self.current {
                Token::Plus => BinOp::Add,
                Token::Minus => BinOp::Sub,
                _ => {
                    proof {
                        assert(additive(token_at(ts, i)) is None);
                        assert(term_rest(ts, left, i) == Ok::<(Expr, nat), ParseError>((left, 0)));
                    }
                    break;
                },
            };
            let ghost acc = left;
            match self.advance() {
                Ok(()) => {},
                Err(e) => return Err(e),
            }
            let right = match self.parse_factor() {
                Ok(e) => e,
                Err(e) => return Err(e),
            };
            left = Expr::BinaryOp { op, left: Box::new(left), right: Box::new(right) };
            proof {
                assert(left == node(op, acc, right));
            }
        }
        Ok(left)
    }

    fn parse_factor(&mut self) -> (r: Result<Expr, ParseError>)
        requires
            old(self).wf(),
        ensures
            final(self).text() == old(self).text(),
            outcome_matches(
                r,
                parse_factor_at(old(self).stream(), old(self).index()),
                old(self).index(),
                final(self).index(),
                final(self).wf(),
            ),
        decreases remaining(old(self).stream(), old(self).index()), 2nat,
    {
        let ghost ts = self.stream();
        let ghost i0 = self.index();
        let mut left = match self.parse_primary() {
            Ok(e) => e,
            Err(e) => return Err(e),
        };
        loop
            invariant
                self.wf(),
                self.text() == old(self).text(),
                ts == old(self).stream(),
                i0 == old(self).index(),
                self.index() >= i0,
                parse_factor_at(ts, i0) == match factor_rest(ts, left, self.index()) {
                    Ok((t, m)) => Ok((t, (self.index() - i0 + m) as nat)),
                    Err(e) => Err(e),
                },
            ensures
                self.wf(),
                self.text() == old(self).text(),
                parse_factor_at(ts, i0) == Ok::<(Expr, nat), ParseError>(
                    (left, (self.index() - i0) as nat),
                ),
            decreases ts.toks.len() - self.index(),
        {
            let ghost i = self.index();
            proof {
                assert(token_at(ts, i) == Ok::<Token, ParseError>(self.current));
            }
            let op = match self.current {
                Token::Star => BinOp::Mul,
                Token::Slash => BinOp::Div,
                _ => {
                    proof {
                        assert(multiplicative(token_at(ts, i)) is None);
                        assert(factor_rest(ts, left, i) == Ok::<(Expr, nat), ParseError>((left, 0)));
                    }
                    break;
                },
            };
            let ghost acc = left;
            match self.advance() {
                Ok(()) => {},
                Err(e) => return Err(e),
            }
            let right = match self.parse_primary() {
                Ok(e) => e,
                Err(e) => return Err(e),
            };
            left = Expr::BinaryOp { op, left: Box::new(left), right: Box::new(right) };
            proof {
                assert(left == node(op, acc, right));
            }
        }
        Ok(left)
    }

    fn parse_primary(&mut self) -> (r: Result<Expr, ParseError>)
        requires
            old(self).wf(),
        ensures
            final(self).text() == old(self).text(),
            outcome_matches(
                r,
                parse_primary_at(old(self).stream(), old(self).index()),
                old(self).index(),
                final(self).index(),
                final(self).wf(),
            ),
        decreases remaining(old(self).stream(), old(self).index()), 0nat,
    {
        match self.current {
            Token::Integer(n) => {
                match self.advance() {
                    Ok(()) => {},
                    Err(e) => return Err(e),
                }
                Ok(Expr::Integer(n))
            },
            Token::LParen => {
                match self.advance() {
                    Ok(()) => {},
                    Err(e) => return Err(e),
                }
                let expr = match self.parse_expression() {
                    Ok(e) => e,
                    Err(e) => return Err(e),
                };
                match self.current {
                    Token::RParen => {},
                    _ => return Err(ParseError::MissingRParen),
                }
                match self.advance() {
                    Ok(()) => {},
                    Err(e) => return Err(e),
                }
                Ok(expr)
            },
            t => Err(ParseError::UnexpectedToken(t)),
        }
    }
}

/// Parses a whole text into an expression tree.
pub fn parse(input: &str) -> (r: Result<Expr, ParseError>)
    ensures
        r == parse_text(input@),
{
    let mut parser = match Parser::new(input) {
        Ok(p) => p,
        Err(e) => return Err(e),
    };
    parser.parse()
}

} // verus!
