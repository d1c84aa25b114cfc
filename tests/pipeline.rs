use expr_jit::encoding;
use expr_jit::{compile, parse, round_up_to_pages, BinOp, Expr, Lexer, ParseError, Parser, Token};

/// Runs the compiled bytes on a small model of the registers and the stack,
/// decoding each instruction by its exact encoding.
fn run_code(code: &[u8]) -> i64 {
    let (mut rax, mut rbx, mut rdx): (i64, i64, i64) = (0, 0, 0);
    let mut stack: Vec<i64> = Vec::new();
    let mut pc = 0usize;
    loop {
        let rest = &code[pc..];
        if rest.starts_with(&[0xC3]) {
            assert!(stack.is_empty(), "ret with values left on the stack");
            assert_eq!(pc + 1, code.len(), "ret before the end of the code");
            return rax;
        } else if rest.starts_with(&[0x50]) {
            stack.push(rax);
            pc += 1;
        } else if rest.starts_with(&[0x58]) {
            rax = stack.pop().expect("pop from an empty stack");
            pc += 1;
        } else if rest.starts_with(&[0x5B]) {
            rbx = stack.pop().expect("pop from an empty stack");
            pc += 1;
        } else if rest.starts_with(&[0x48, 0xB8]) {
            let mut b = [0u8; 8];
            b.copy_from_slice(&rest[2..10]);
            rax = i64::from_le_bytes(b);
            pc += 10;
        } else if rest.starts_with(&[0x48, 0x01, 0xD8]) {
            rax = rax.wrapping_add(rbx);
            pc += 3;
        } else if rest.starts_with(&[0x48, 0x29, 0xD8]) {
            rax = rax.wrapping_sub(rbx);
            pc += 3;
        } else if rest.starts_with(&[0x48, 0x0F, 0xAF, 0xC3]) {
            rax = rax.wrapping_mul(rbx);
            pc += 4;
        } else if rest.starts_with(&[0x48, 0x99]) {
            rdx = if rax < 0 { -1 } else { 0 };
            pc += 2;
        } else if rest.starts_with(&[0x48, 0xF7, 0xFB]) {
            let n = ((rdx as i128) << 64) | (rax as u64 as i128);
            let q = n / rbx as i128;
            rdx = (n % rbx as i128) as i64;
            rax = i64::try_from(q).expect("quotient out of range");
            pc += 3;
        } else {
            panic!("unknown instruction at {}", pc);
        }
    }
}

fn eval(input: &str) -> i64 {
    let mut parser = Parser::new(input).unwrap();
    let ast = parser.parse().unwrap();
    let code = compile(&ast);
    run_code(&code)
}

fn lit(n: i64) -> Expr {
    Expr::Integer(n)
}

fn bin(op: BinOp, l: Expr, r: Expr) -> Expr {
    Expr::BinaryOp { op, left: Box::new(l), right: Box::new(r) }
}

#[test]
fn single_integer() {
    assert_eq!(eval("42"), 42);
    assert_eq!(eval("0"), 0);
    assert_eq!(eval("1"), 1);
}

#[test]
fn addition() {
    assert_eq!(eval("1 + 2"), 3);
    assert_eq!(eval("0 + 0"), 0);
    assert_eq!(eval("100 + 200"), 300);
}

#[test]
fn subtraction() {
    assert_eq!(eval("5 - 3"), 2);
    assert_eq!(eval("3 - 5"), -2);
    assert_eq!(eval("0 - 0"), 0);
}

#[test]
fn multiplication() {
    assert_eq!(eval("4 * 5"), 20);
    assert_eq!(eval("0 * 100"), 0);
    assert_eq!(eval("1 * 1"), 1);
}

#[test]
fn division() {
    assert_eq!(eval("10 / 2"), 5);
    assert_eq!(eval("10 / 3"), 3);
    assert_eq!(eval("0 / 5"), 0);
    assert_eq!(eval("1 / 1"), 1);
}

#[test]
fn division_truncation() {
    assert_eq!(eval("7 / 2"), 3);
    assert_eq!(eval("7 / 3"), 2);
}

#[test]
fn precedence() {
    assert_eq!(eval("2 + 3 * 4"), 14);
    assert_eq!(eval("2 * 3 + 4"), 10);
    assert_eq!(eval("10 - 2 * 3"), 4);
    assert_eq!(eval("10 / 2 + 3"), 8);
}

#[test]
fn parentheses() {
    assert_eq!(eval("(2 + 3) * 4"), 20);
    assert_eq!(eval("2 * (3 + 4)"), 14);
    assert_eq!(eval("(10 - 2) * 3"), 24);
    assert_eq!(eval("((1 + 2))"), 3);
}

#[test]
fn associativity() {
    assert_eq!(eval("10 - 3 - 2"), 5);
    assert_eq!(eval("20 / 4 / 2"), 2);
    assert_eq!(eval("2 + 3 + 4"), 9);
    assert_eq!(eval("2 * 3 * 4"), 24);
}

#[test]
fn complex_expressions() {
    assert_eq!(eval("(2 + 3) * (4 - 1)"), 15);
    assert_eq!(eval("1 + 2 * 3 + 4"), 11);
    assert_eq!(eval("(1 + 2) * (3 + 4) * (5 + 6)"), 231);
}

#[test]
fn negative_results() {
    assert_eq!(eval("3 - 10"), -7);
    assert_eq!(eval("0 - 100"), -100);
    assert_eq!(eval("(1 - 5) * 2"), -8);
}

#[test]
fn large_numbers() {
    assert_eq!(eval("1000000 * 1000"), 1000000000);
    assert_eq!(eval("1000000000 + 1000000000"), 2000000000);
}

#[test]
fn truncation_toward_zero_for_negative_quotients() {
    assert_eq!(eval("(0 - 7) / 2"), -3);
    assert_eq!(eval("7 / (0 - 2)"), -3);
    assert_eq!(eval("(0 - 7) / (0 - 2)"), 3);
}

#[test]
fn arithmetic_wraps() {
    assert_eq!(eval("9223372036854775807 + 1"), i64::MIN);
    assert_eq!(eval("0 - 9223372036854775807 - 2"), i64::MAX);
    assert_eq!(eval("4611686018427387904 * 2"), i64::MIN);
}

#[test]
fn largest_literal_is_accepted() {
    assert_eq!(eval("9223372036854775807"), i64::MAX);
    assert_eq!(eval("007"), 7);
}

#[test]
fn rejects_empty_input() {
    assert_eq!(parse(""), Err(ParseError::UnexpectedToken(Token::Eof)));
    assert_eq!(parse("   "), Err(ParseError::UnexpectedToken(Token::Eof)));
}

#[test]
fn rejects_unexpected_character() {
    assert_eq!(parse("@"), Err(ParseError::UnexpectedChar('@')));
    assert_eq!(parse("1 + x"), Err(ParseError::UnexpectedChar('x')));
}

#[test]
fn rejects_missing_operand() {
    assert_eq!(parse("1 +"), Err(ParseError::UnexpectedToken(Token::Eof)));
    assert_eq!(parse("-5"), Err(ParseError::UnexpectedToken(Token::Minus)));
}

#[test]
fn rejects_missing_close_paren() {
    assert_eq!(parse("(1 + 2"), Err(ParseError::MissingRParen));
}

#[test]
fn rejects_trailing_tokens() {
    assert_eq!(parse("1 + 2)"), Err(ParseError::UnexpectedToken(Token::RParen)));
    assert_eq!(parse("1 2"), Err(ParseError::UnexpectedToken(Token::Integer(2))));
    assert_eq!(parse("1 + 2 3"), Err(ParseError::UnexpectedToken(Token::Integer(3))));
}

#[test]
fn rejects_literal_overflow() {
    assert_eq!(parse("9223372036854775808"), Err(ParseError::IntegerOverflow));
    assert_eq!(parse("1 + 99999999999999999999"), Err(ParseError::IntegerOverflow));
}

#[test]
fn syntax_error_before_later_bad_character() {
    assert_eq!(parse("1 2 @"), Err(ParseError::UnexpectedToken(Token::Integer(2))));
}

#[test]
fn lexer_tokens_and_end_of_input() {
    let mut lexer = Lexer::new(" 12\t+(3)*\n4 - 5 / 6 ");
    let expected = [
        Token::Integer(12),
        Token::Plus,
        Token::LParen,
        Token::Integer(3),
        Token::RParen,
        Token::Star,
        Token::Integer(4),
        Token::Minus,
        Token::Integer(5),
        Token::Slash,
        Token::Integer(6),
    ];
    for t in expected.iter() {
        assert_eq!(lexer.next_token(), Ok(*t));
    }
    for _ in 0..5 {
        assert_eq!(lexer.next_token(), Ok(Token::Eof));
    }
}

#[test]
fn lexer_skips_unicode_whitespace() {
    let mut lexer = Lexer::new("\u{3000}7\u{00A0}");
    assert_eq!(lexer.next_token(), Ok(Token::Integer(7)));
    assert_eq!(lexer.next_token(), Ok(Token::Eof));
}

#[test]
fn parse_is_left_associative() {
    assert_eq!(
        parse("10 - 3 - 2"),
        Ok(bin(BinOp::Sub, bin(BinOp::Sub, lit(10), lit(3)), lit(2)))
    );
    assert_eq!(
        parse("20 / 4 / 2"),
        Ok(bin(BinOp::Div, bin(BinOp::Div, lit(20), lit(4)), lit(2)))
    );
}

#[test]
fn parse_gives_products_precedence() {
    assert_eq!(
        parse("2 + 3 * 4"),
        Ok(bin(BinOp::Add, lit(2), bin(BinOp::Mul, lit(3), lit(4))))
    );
    assert_eq!(
        parse("2 * 3 - 4 / 2"),
        Ok(bin(BinOp::Sub, bin(BinOp::Mul, lit(2), lit(3)), bin(BinOp::Div, lit(4), lit(2))))
    );
}

#[test]
fn parentheses_around_whole_input_change_nothing() {
    for s in ["1 + 2 * 3", "(4 - 5) / 6", "7", "2 * (3 + 4)"].iter() {
        let wrapped = format!("({})", s);
        assert_eq!(parse(&wrapped), parse(s));
    }
}

#[test]
fn compile_emits_exact_bytes() {
    let code = compile(&bin(BinOp::Div, lit(7), lit(2)));
    let mut expected = vec![0x48, 0xB8, 7, 0, 0, 0, 0, 0, 0, 0, 0x50];
    expected.extend_from_slice(&[0x48, 0xB8, 2, 0, 0, 0, 0, 0, 0, 0, 0x50]);
    expected.extend_from_slice(&[0x5B, 0x58, 0x48, 0x99, 0x48, 0xF7, 0xFB, 0x50]);
    expected.extend_from_slice(&[0x58, 0xC3]);
    assert_eq!(code, expected);
}

#[test]
fn encoders_give_exact_bytes() {
    assert_eq!(encoding::ret(), vec![0xC3]);
    assert_eq!(encoding::push_rax(), vec![0x50]);
    assert_eq!(encoding::pop_rax(), vec![0x58]);
    assert_eq!(encoding::pop_rbx(), vec![0x5B]);
    assert_eq!(encoding::add_rax_rbx(), vec![0x48, 0x01, 0xD8]);
    assert_eq!(encoding::sub_rax_rbx(), vec![0x48, 0x29, 0xD8]);
    assert_eq!(encoding::imul_rax_rbx(), vec![0x48, 0x0F, 0xAF, 0xC3]);
    assert_eq!(encoding::cqo(), vec![0x48, 0x99]);
    assert_eq!(encoding::idiv_rbx(), vec![0x48, 0xF7, 0xFB]);
    assert_eq!(
        encoding::mov_rax_imm64(0x0102030405060708),
        vec![0x48, 0xB8, 0x08, 0x07, 0x06, 0x05, 0x04, 0x03, 0x02, 0x01]
    );
    assert_eq!(
        encoding::mov_rax_imm64(-1),
        vec![0x48, 0xB8, 0xFF, 0xFF, 0xFF, 0xFF, 0xFF, 0xFF, 0xFF, 0xFF]
    );
}

#[test]
fn code_leaves_one_value_per_expression() {
    let e = bin(BinOp::Add, bin(BinOp::Mul, lit(2), lit(3)), lit(4));
    let code = compile(&e);
    assert_eq!(code.len(), 10 + 1 + 10 + 1 + 2 + 4 + 1 + 10 + 1 + 2 + 3 + 1 + 2);
    assert_eq!(run_code(&code), 10);
}

#[test]
fn rounds_up_to_whole_pages() {
    assert_eq!(round_up_to_pages(0, 4096), Some(0));
    assert_eq!(round_up_to_pages(1, 4096), Some(4096));
    assert_eq!(round_up_to_pages(4096, 4096), Some(4096));
    assert_eq!(round_up_to_pages(4097, 4096), Some(8192));
    assert_eq!(round_up_to_pages(usize::MAX, 4096), None);
}
