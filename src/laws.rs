//! Properties that relate the parser, the code generator and the machine.
use vstd::prelude::*;
use crate::ast::{BinOp, Expr, eval};
use crate::codegen::{program, lemma_program_returns_value};
use crate::lexer::{ParseError, Token};
use crate::machine::{MachineState, call};
use crate::lexer::{scan, skip_ws, digits_end, is_whitespace, is_digit, lemma_skip_ws_end};
use crate::parser::{
    TokenStream, additive, multiplicative, node, parse_text, parse_complete_at, parse_term_at,
    term_rest, parse_factor_at, factor_rest, parse_primary_at, token_at, remaining, advance_past,
    tokens, tokens_from, lemma_scan_advances,
};

verus! {

/// For every text that parses, calling the compiled function returns the value
/// of the text under ordinary precedence and associativity (wrapping add,
/// subtract and multiply; division truncating toward zero), whatever the
/// machine state at entry; it faults exactly where a division traps.
pub proof fn lemma_compiled_text_value(s: Seq<char>, st: MachineState)
    requires
        parse_text(s) is Ok,
    ensures
        call(program(parse_text(s)->Ok_0), st) == eval(parse_text(s)->Ok_0),
{
    lemma_program_returns_value(parse_text(s)->Ok_0, st);
}

/// The operator that a token stands for, where it is one.
pub open spec fn operator_of(t: Token) -> Option<BinOp> {
    match additive(Ok(t)) {
        Some(op) => Some(op),
        None => multiplicative(Ok(t)),
    }
}

/// Two operators of one precedence level associate to the left: the tokens
/// `a o1 b o2 c` parse as `(a o1 b) o2 c`.
pub proof fn lemma_left_associative(a: i64, b: i64, c: i64, t1: Token, t2: Token)
    requires
        (additive(Ok(t1)) is Some && additive(Ok(t2)) is Some) || (multiplicative(Ok(t1)) is Some
            && multiplicative(Ok(t2)) is Some),
    ensures
        ({
            let ts = TokenStream {
                toks: seq![Token::Integer(a), t1, Token::Integer(b), t2, Token::Integer(c)],
                err: None,
            };
            parse_complete_at(ts, 0) == Ok::<Expr, ParseError>(
                node(
                    operator_of(t2)->0,
                    node(operator_of(t1)->0, Expr::Integer(a), Expr::Integer(b)),
                    Expr::Integer(c),
                ),
            )
        }),
{
    let ts = TokenStream {
        toks: seq![Token::Integer(a), t1, Token::Integer(b), t2, Token::Integer(c)],
        err: None,
    };
    let ia = Expr::Integer(a);
    let ib = Expr::Integer(b);
    let ic = Expr::Integer(c);
    assert(token_at(ts, 0) == Ok::<Token, ParseError>(Token::Integer(a)));
    assert(token_at(ts, 1) == Ok::<Token, ParseError>(t1));
    assert(token_at(ts, 2) == Ok::<Token, ParseError>(Token::Integer(b)));
    assert(token_at(ts, 3) == Ok::<Token, ParseError>(t2));
    assert(token_at(ts, 4) == Ok::<Token, ParseError>(Token::Integer(c)));
    assert(token_at(ts, 5) == Ok::<Token, ParseError>(Token::Eof));
    assert(parse_primary_at(ts, 0) == Ok::<(Expr, nat), ParseError>((ia, 1)));
    assert(parse_primary_at(ts, 2) == Ok::<(Expr, nat), ParseError>((ib, 1)));
    assert(parse_primary_at(ts, 4) == Ok::<(Expr, nat), ParseError>((ic, 1)));
    let first = operator_of(t1)->0;
    let second = operator_of(t2)->0;
    let ab = node(first, ia, ib);
    let abc = node(second, ab, ic);
    if additive(Ok(t1)) is Some {
        assert(factor_rest(ts, ia, 1) == Ok::<(Expr, nat), ParseError>((ia, 0)));
        assert(factor_rest(ts, ib, 3) == Ok::<(Expr, nat), ParseError>((ib, 0)));
        assert(factor_rest(ts, ic, 5) == Ok::<(Expr, nat), ParseError>((ic, 0)));
        assert(parse_factor_at(ts, 0) == Ok::<(Expr, nat), ParseError>((ia, 1)));
        assert(parse_factor_at(ts, 2) == Ok::<(Expr, nat), ParseError>((ib, 1)));
        assert(parse_factor_at(ts, 4) == Ok::<(Expr, nat), ParseError>((ic, 1)));
        assert(term_rest(ts, abc, 5) == Ok::<(Expr, nat), ParseError>((abc, 0)));
        assert(term_rest(ts, ab, 3) == Ok::<(Expr, nat), ParseError>((abc, 2)));
        assert(term_rest(ts, ia, 1) == Ok::<(Expr, nat), ParseError>((abc, 4)));
        assert(parse_term_at(ts, 0) == Ok::<(Expr, nat), ParseError>((abc, 5)));
    } else {
        assert(factor_rest(ts, abc, 5) == Ok::<(Expr, nat), ParseError>((abc, 0)));
        assert(factor_rest(ts, ab, 3) == Ok::<(Expr, nat), ParseError>((abc, 2)));
        assert(factor_rest(ts, ia, 1) == Ok::<(Expr, nat), ParseError>((abc, 4)));
        assert(parse_factor_at(ts, 0) == Ok::<(Expr, nat), ParseError>((abc, 5)));
        assert(term_rest(ts, abc, 5) == Ok::<(Expr, nat), ParseError>((abc, 0)));
        assert(parse_term_at(ts, 0) == Ok::<(Expr, nat), ParseError>((abc, 5)));
    }
}

/// Whether a tree holds only multiplications, divisions and integers.
pub open spec fn products_only(e: Expr) -> bool
    decreases e,
{
    match e {
        Expr::Integer(_) => true,
        Expr::BinaryOp { op, left, right } => (op == BinOp::Mul || op == BinOp::Div)
            && products_only(*left) && products_only(*right),
    }
}

/// Whether no multiplication or division in a tree has an addition or a
/// subtraction below it.
pub open spec fn products_below_sums(e: Expr) -> bool
    decreases e,
{
    match e {
        Expr::Integer(_) => true,
        Expr::BinaryOp { op, left, right } => if op == BinOp::Mul || op == BinOp::Div {
            products_only(*left) && products_only(*right)
        } else {
            products_below_sums(*left) && products_below_sums(*right)
        },
    }
}

/// Whether a token stream holds no opening parenthesis.
pub open spec fn no_parens(ts: TokenStream) -> bool {
    forall|k: int| 0 <= k < ts.toks.len() ==> ts.toks[k] != Token::LParen
}

proof fn lemma_products_only_below_sums(e: Expr)
    requires
        products_only(e),
    ensures
        products_below_sums(e),
    decreases e,
{
    match e {
        Expr::Integer(_) => {},
        Expr::BinaryOp { op, left, right } => {},
    }
}

/// Whether every chain of operators of one level in a tree is grouped from
/// the left: the right operand of `*` or `/` is an integer, and the right
/// operand of `+` or `-` holds no `+` or `-`.
pub open spec fn leans_left(e: Expr) -> bool
    decreases e,
{
    match e {
        Expr::Integer(_) => true,
        Expr::BinaryOp { op, left, right } => leans_left(*left) && if op == BinOp::Mul || op
            == BinOp::Div {
            *right is Integer
        } else {
            products_only(*right) && leans_left(*right)
        },
    }
}

proof fn lemma_factor_rest_shape(ts: TokenStream, acc: Expr, i: int)
    requires
        no_parens(ts),
        products_only(acc),
        leans_left(acc),
    ensures
        factor_rest(ts, acc, i) matches Ok((x, _)) ==> products_only(x) && leans_left(x),
    decreases remaining(ts, i),
{
    match multiplicative(token_at(ts, i)) {
        None => {},
        Some(op) => {
            match parse_primary_at(ts, i + 1) {
                Ok((r, n)) => {
                    assert(r matches Expr::Integer(_));
                    assert(products_only(r));
                    assert(op == BinOp::Mul || op == BinOp::Div);
                    let next = node(op, acc, r);
                    assert(products_only(next));
                    assert(leans_left(next));
                    lemma_factor_rest_shape(ts, next, i + 1 + n);
                },
                Err(_) => {},
            }
        },
    }
}

proof fn lemma_term_rest_shape(ts: TokenStream, acc: Expr, i: int)
    requires
        no_parens(ts),
        products_below_sums(acc),
        leans_left(acc),
    ensures
        term_rest(ts, acc, i) matches Ok((x, _)) ==> products_below_sums(x) && leans_left(x),
    decreases remaining(ts, i),
{
    match additive(token_at(ts, i)) {
        None => {},
        Some(op) => {
            match parse_factor_at(ts, i + 1) {
                Ok((r, n)) => {
                    lemma_factor_shape(ts, i + 1);
                    lemma_products_only_below_sums(r);
                    let next = node(op, acc, r);
                    assert(products_below_sums(next));
                    assert(leans_left(next));
                    lemma_term_rest_shape(ts, next, i + 1 + n);
                },
                Err(_) => {},
            }
        },
    }
}

proof fn lemma_factor_shape(ts: TokenStream, i: int)
    requires
        no_parens(ts),
    ensures
        parse_factor_at(ts, i) matches Ok((x, _)) ==> products_only(x) && leans_left(x),
{
    match parse_primary_at(ts, i) {
        Ok((p, n)) => {
            assert(p matches Expr::Integer(_));
            lemma_factor_rest_shape(ts, p, i + n);
        },
        Err(_) => {},
    }
}

proof fn lemma_term_shape(ts: TokenStream)
    requires
        no_parens(ts),
    ensures
        parse_complete_at(ts, 0) matches Ok(x) ==> products_below_sums(x) && leans_left(x),
{
    match parse_factor_at(ts, 0) {
        Ok((f, n)) => {
            lemma_factor_shape(ts, 0);
            lemma_products_only_below_sums(f);
            lemma_term_rest_shape(ts, f, n as int);
        },
        Err(_) => {},
    }
}

/// Without parentheses, multiplication and division bind tighter than
/// addition and subtraction: in the parsed tree no `*` or `/` node has a `+`
/// or `-` node below it.
pub proof fn lemma_precedence(ts: TokenStream)
    requires
        no_parens(ts),
        parse_complete_at(ts, 0) is Ok,
    ensures
        products_below_sums(parse_complete_at(ts, 0)->Ok_0),
{
    lemma_term_shape(ts);
}

/// Without parentheses, every chain of operators of one level is grouped from
/// the left, however long it is.
pub proof fn lemma_chains_left_associative(ts: TokenStream)
    requires
        no_parens(ts),
        parse_complete_at(ts, 0) is Ok,
    ensures
        leans_left(parse_complete_at(ts, 0)->Ok_0),
{
    lemma_term_shape(ts);
}

/// The stream of a parenthesized text: `(`, the tokens, then `)`.
pub open spec fn parenthesized(ts: TokenStream) -> TokenStream {
    TokenStream { toks: seq![Token::LParen] + ts.toks + seq![Token::RParen], err: None }
}

/// A stream as the lexer makes it: `Eof` only after its last token.
pub open spec fn well_formed(ts: TokenStream) -> bool {
    forall|k: int| 0 <= k < ts.toks.len() ==> ts.toks[k] != Token::Eof
}

proof fn lemma_parenthesized_token(ts: TokenStream, j: int)
    requires
        ts.err is None,
        0 <= j,
    ensures
        j < ts.toks.len() ==> token_at(parenthesized(ts), j + 1) == token_at(ts, j),
        j == ts.toks.len() ==> token_at(parenthesized(ts), j + 1) == Ok::<Token, ParseError>(
            Token::RParen,
        ) && token_at(ts, j) == Ok::<Token, ParseError>(Token::Eof),
        j > ts.toks.len() ==> token_at(parenthesized(ts), j + 1) == token_at(ts, j),
{
    let w = parenthesized(ts);
    if j < ts.toks.len() {
        assert(w.toks[j + 1] == ts.toks[j]);
    } else if j == ts.toks.len() {
        assert(w.toks[j + 1] == Token::RParen);
    }
}

proof fn lemma_shift_term(ts: TokenStream, i: int)
    requires
        ts.err is None,
        0 <= i <= ts.toks.len(),
    ensures
        parse_term_at(ts, i) matches Ok((x, n)) ==> parse_term_at(parenthesized(ts), i + 1)
            == Ok::<(Expr, nat), ParseError>((x, n)) && i + n <= ts.toks.len(),
    decreases remaining(ts, i), 4nat,
{
    lemma_shift_factor(ts, i);
    match parse_factor_at(ts, i) {
        Ok((f, n)) => lemma_shift_term_rest(ts, f, i + n),
        Err(_) => {},
    }
}

proof fn lemma_shift_term_rest(ts: TokenStream, acc: Expr, i: int)
    requires
        ts.err is None,
        0 <= i <= ts.toks.len(),
    ensures
        term_rest(ts, acc, i) matches Ok((x, n)) ==> term_rest(parenthesized(ts), acc, i + 1)
            == Ok::<(Expr, nat), ParseError>((x, n)) && i + n <= ts.toks.len(),
    decreases remaining(ts, i), 3nat,
{
    let w = parenthesized(ts);
    lemma_parenthesized_token(ts, i);
    lemma_parenthesized_token(ts, i + 1);
    match additive(token_at(ts, i)) {
        None => {},
        Some(op) => {
            assert(advance_past(ts, i) is Ok && advance_past(w, i + 1) is Ok);
            lemma_shift_factor(ts, i + 1);
            match parse_factor_at(ts, i + 1) {
                Ok((r, n)) => lemma_shift_term_rest(ts, node(op, acc, r), i + 1 + n),
                Err(_) => {},
            }
        },
    }
}

proof fn lemma_shift_factor(ts: TokenStream, i: int)
    requires
        ts.err is None,
        0 <= i <= ts.toks.len(),
    ensures
        parse_factor_at(ts, i) matches Ok((x, n)) ==> parse_factor_at(parenthesized(ts), i + 1)
            == Ok::<(Expr, nat), ParseError>((x, n)) && i + n <= ts.toks.len(),
    decreases remaining(ts, i), 2nat,
{
    lemma_shift_primary(ts, i);
    match parse_primary_at(ts, i) {
        Ok((p, n)) => lemma_shift_factor_rest(ts, p, i + n),
        Err(_) => {},
    }
}

proof fn lemma_shift_factor_rest(ts: TokenStream, acc: Expr, i: int)
    requires
        ts.err is None,
        0 <= i <= ts.toks.len(),
    ensures
        factor_rest(ts, acc, i) matches Ok((x, n)) ==> factor_rest(parenthesized(ts), acc, i + 1)
            == Ok::<(Expr, nat), ParseError>((x, n)) && i + n <= ts.toks.len(),
    decreases remaining(ts, i), 1nat,
{
    let w = parenthesized(ts);
    lemma_parenthesized_token(ts, i);
    lemma_parenthesized_token(ts, i + 1);
    match multiplicative(token_at(ts, i)) {
        None => {},
        Some(op) => {
            assert(advance_past(ts, i) is Ok && advance_past(w, i + 1) is Ok);
            lemma_shift_primary(ts, i + 1);
            match parse_primary_at(ts, i + 1) {
                Ok((r, n)) => lemma_shift_factor_rest(ts, node(op, acc, r), i + 1 + n),
                Err(_) => {},
            }
        },
    }
}

proof fn lemma_shift_primary(ts: TokenStream, i: int)
    requires
        ts.err is None,
        0 <= i <= ts.toks.len(),
    ensures
        parse_primary_at(ts, i) matches Ok((x, n)) ==> parse_primary_at(parenthesized(ts), i + 1)
            == Ok::<(Expr, nat), ParseError>((x, n)) && i + n <= ts.toks.len(),
    decreases remaining(ts, i), 0nat,
{
    let w = parenthesized(ts);
    lemma_parenthesized_token(ts, i);
    lemma_parenthesized_token(ts, i + 1);
    match token_at(ts, i) {
        Ok(Token::LParen) => {
            lemma_shift_term(ts, i + 1);
            match parse_term_at(ts, i + 1) {
                Ok((x, n)) => {
                    lemma_parenthesized_token(ts, i + 1 + n);
                    lemma_parenthesized_token(ts, i + 2 + n);
                },
                Err(_) => {},
            }
        },
        _ => {},
    }
}

/// Wrapping a whole token stream in parentheses parses to the same tree.
proof fn lemma_parenthesized_stream(ts: TokenStream)
    requires
        ts.err is None,
        well_formed(ts),
        parse_complete_at(ts, 0) is Ok,
    ensures
        parse_complete_at(parenthesized(ts), 0) == parse_complete_at(ts, 0),
{
    let w = parenthesized(ts);
    let len = ts.toks.len() as int;
    lemma_shift_term(ts, 0);
    let (e, n) = parse_term_at(ts, 0)->Ok_0;
    assert(n == len);
    lemma_parenthesized_token(ts, -1 + 1);
    assert(token_at(w, 0) == Ok::<Token, ParseError>(Token::LParen));
    lemma_parenthesized_token(ts, len);
    lemma_parenthesized_token(ts, len + 1);
    assert(parse_primary_at(w, 0) == Ok::<(Expr, nat), ParseError>((e, (len + 2) as nat)));
    assert(factor_rest(w, e, len + 2) == Ok::<(Expr, nat), ParseError>((e, 0)));
    assert(parse_factor_at(w, 0) == Ok::<(Expr, nat), ParseError>((e, (len + 2) as nat)));
    assert(term_rest(w, e, len + 2) == Ok::<(Expr, nat), ParseError>((e, 0)));
    assert(parse_term_at(w, 0) == Ok::<(Expr, nat), ParseError>((e, (len + 2) as nat)));
}

/// A text wrapped in parentheses.
pub open spec fn in_parens(s: Seq<char>) -> Seq<char> {
    seq!['('] + s + seq![')']
}

proof fn lemma_in_parens_skip_ws(s: Seq<char>, k: nat)
    requires
        k <= s.len(),
    ensures
        skip_ws(in_parens(s), k + 1) == skip_ws(s, k) + 1,
    decreases s.len() - k,
{
    let w = in_parens(s);
    assert(w[k + 1int] == if k < s.len() { s[k as int] } else { ')' });
    if k < s.len() && is_whitespace(s[k as int]) {
        lemma_in_parens_skip_ws(s, k + 1);
    }
}

proof fn lemma_in_parens_digits_end(s: Seq<char>, k: nat)
    requires
        k <= s.len(),
    ensures
        digits_end(in_parens(s), k + 1) == digits_end(s, k) + 1,
        k <= digits_end(s, k) <= s.len(),
    decreases s.len() - k,
{
    let w = in_parens(s);
    assert(w[k + 1int] == if k < s.len() { s[k as int] } else { ')' });
    if k < s.len() && is_digit(s[k as int]) {
        lemma_in_parens_digits_end(s, k + 1);
    }
}

/// Scanning inside the parentheses finds what scanning the bare text finds,
/// one place further on; where the bare text ends, the `)` comes instead.
proof fn lemma_in_parens_scan(s: Seq<char>, k: nat)
    requires
        k <= s.len(),
    ensures
        match scan(s, k) {
            Ok((t, p)) => if t == Token::Eof {
                scan(in_parens(s), k + 1) == Ok::<(Token, nat), ParseError>(
                    (Token::RParen, s.len() + 2),
                )
            } else {
                scan(in_parens(s), k + 1) == Ok::<(Token, nat), ParseError>((t, p + 1))
            },
            Err(e) => scan(in_parens(s), k + 1) == Err::<(Token, nat), ParseError>(e),
        },
{
    let w = in_parens(s);
    lemma_in_parens_skip_ws(s, k);
    lemma_skip_ws_end(s, k);
    let p = skip_ws(s, k);
    assert(w[p + 1int] == if p < s.len() { s[p as int] } else { ')' });
    if p < s.len() && is_digit(s[p as int]) {
        lemma_in_parens_digits_end(s, p);
        let e = digits_end(s, p);
        assert(w.subrange(p + 1int, e + 1int) =~= s.subrange(p as int, e as int));
    }
}

proof fn lemma_in_parens_tokens_from(s: Seq<char>, k: nat)
    requires
        k <= s.len(),
        tokens_from(s, k).err is None,
    ensures
        tokens_from(in_parens(s), k + 1) == (TokenStream {
            toks: tokens_from(s, k).toks + seq![Token::RParen],
            err: None,
        }),
    decreases s.len() - k,
{
    let w = in_parens(s);
    lemma_in_parens_scan(s, k);
    lemma_scan_advances(s, k);
    match scan(s, k) {
        Ok((t, p)) => {
            if t == Token::Eof {
                let end = (s.len() + 2) as nat;
                assert(skip_ws(w, end) == end);
                assert(tokens_from(w, end) == TokenStream { toks: Seq::<Token>::empty(), err: None });
                assert(tokens_from(s, k).toks + seq![Token::RParen] =~= seq![Token::RParen]
                    + tokens_from(w, end).toks);
            } else {
                lemma_in_parens_tokens_from(s, p);
                assert(tokens_from(s, k).toks + seq![Token::RParen] =~= seq![t] + tokens_from(
                    w,
                    p + 1,
                ).toks);
            }
        },
        Err(_) => {},
    }
}

proof fn lemma_tokens_from_well_formed(s: Seq<char>, k: nat)
    ensures
        well_formed(tokens_from(s, k)),
    decreases s.len() - k,
{
    lemma_scan_advances(s, k);
    match scan(s, k) {
        Ok((t, p)) => if t != Token::Eof {
            lemma_tokens_from_well_formed(s, p);
            let rest = tokens_from(s, p);
            assert forall|j: int| 0 <= j < tokens_from(s, k).toks.len() implies tokens_from(
                s,
                k,
            ).toks[j] != Token::Eof by {
                if j > 0 {
                    assert(tokens_from(s, k).toks[j] == rest.toks[j - 1]);
                }
            }
        },
        Err(_) => {},
    }
}

/// Wrapping a whole text that parses in one pair of parentheses gives the
/// same tree.
pub proof fn lemma_parenthesized_text(s: Seq<char>)
    requires
        parse_text(s) is Ok,
    ensures
        parse_text(in_parens(s)) == parse_text(s),
{
    let ts = tokens(s);
    let w = in_parens(s);
    lemma_tokens_from_well_formed(s, 0);
    lemma_shift_term(ts, 0);
    assert(ts.err is None);
    lemma_in_parens_tokens_from(s, 0);
    assert(w[0] == '(');
    assert(skip_ws(w, 0) == 0);
    assert(scan(w, 0) == Ok::<(Token, nat), ParseError>((Token::LParen, 1)));
    assert(tokens(w).toks =~= parenthesized(ts).toks);
    assert(tokens(w) == parenthesized(ts));
    lemma_parenthesized_stream(ts);
}

} // verus!
