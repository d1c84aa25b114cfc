//! Lowering an expression tree to machine code that evaluates it on the
//! machine stack.
use vstd::prelude::*;
use crate::ast::{BinOp, Expr, eval, apply, div_trunc, abs, i64_min, i64_max};
use crate::encoding::{self, Instr, encode, encode_all, lemma_encode_all_append};
use crate::machine::{MachineState, exec, call, step, wide_dividend, lemma_exec_append, lemma_exec_single};

verus! {

/// The instructions that apply `op` to rax and rbx, leaving the result in rax.
pub open spec fn op_code(op: BinOp) -> Seq<Instr> {
    match op {
        BinOp::Add => seq![Instr::AddRaxRbx],
        BinOp::Sub => seq![Instr::SubRaxRbx],
        BinOp::Mul => seq![Instr::ImulRaxRbx],
        BinOp::Div => seq![Instr::Cqo, Instr::IdivRbx],
    }
}

/// The instructions that push the value of `e`: a leaf loads and pushes its
/// value; a node runs both operands, pops them into rbx (right) and rax
/// (left), applies its operator and pushes the result.
pub open spec fn emit(e: Expr) -> Seq<Instr>
    decreases e,
{
    match e {
        Expr::Integer(n) => seq![Instr::MovRaxImm64(n), Instr::PushRax],
        Expr::BinaryOp { op, left, right } => emit(*left) + emit(*right) + seq![
            Instr::PopRbx,
            Instr::PopRax,
        ] + op_code(op) + seq![Instr::PushRax],
    }
}

/// A whole function body: the code of `e`, then the value moved into the
/// return register, then `ret`.
pub open spec fn program(e: Expr) -> Seq<Instr> {
    emit(e) + seq![Instr::PopRax, Instr::Ret]
}

/// A quotient truncated toward zero is no larger in magnitude than the
/// dividend, and dividing by minus one negates.
proof fn lemma_div_trunc_bounds(a: int, b: int)
    requires
        b != 0,
    ensures
        abs(div_trunc(a, b)) <= abs(a),
        b == 1 ==> div_trunc(a, b) == a,
        b == -1 ==> div_trunc(a, b) == -a,
        abs(b) >= 2 ==> 2 * abs(div_trunc(a, b)) <= abs(a),
{
    let x = abs(a);
    let y = abs(b);
    assert(x / y <= x) by (nonlinear_arith)
        requires
            x >= 0,
            y >= 1,
    ;
    assert(y >= 2 ==> 2 * (x / y) <= x) by (nonlinear_arith)
        requires
            x >= 0,
            y >= 1,
    ;
    assert(x / 1 == x);
}

/// The instructions of an operator, run with the left operand in rax and the
/// right one in rbx, leave the operator's value in rax and the stack as it was;
/// they fault exactly where the operator has no value.
proof fn lemma_op_code(op: BinOp, st: MachineState)
    ensures
        exec(op_code(op), st) is Some <==> apply(op, st.rax, st.rbx) is Some,
        apply(op, st.rax, st.rbx) is Some ==> exec(op_code(op), st)->0.rax == apply(
            op,
            st.rax,
            st.rbx,
        )->0 && exec(op_code(op), st)->0.stack == st.stack,
{
    match op {
        BinOp::Div => {
            let a = st.rax;
            let b = st.rbx;
            lemma_exec_append(seq![Instr::Cqo], seq![Instr::IdivRbx], st);
            assert(seq![Instr::Cqo] + seq![Instr::IdivRbx] =~= op_code(op));
            lemma_exec_single(Instr::Cqo, st);
            let s1 = step(Instr::Cqo, st)->0;
            lemma_exec_single(Instr::IdivRbx, s1);
            assert(wide_dividend(s1.rdx, s1.rax) == a as int);
            if b != 0 {
                lemma_div_trunc_bounds(a as int, b as int);
                let q = div_trunc(a as int, b as int);
                if a == i64_min() && b == -1 {
                    assert(q > i64_max());
                } else {
                    assert(i64_min() <= q <= i64_max());
                }
            }
        },
        _ => {
            lemma_exec_single(Instr::AddRaxRbx, st);
            lemma_exec_single(Instr::SubRaxRbx, st);
            lemma_exec_single(Instr::ImulRaxRbx, st);
        },
    }
}

/// The code of an expression pushes exactly one value, the value of the
/// expression, on top of the stack it found, and leaves the stack beneath
/// untouched; it faults exactly where a division in the expression traps.
pub proof fn lemma_emit_pushes_value(e: Expr, st: MachineState)
    ensures
        exec(emit(e), st) is Some <==> eval(e) is Some,
        eval(e) is Some ==> exec(emit(e), st)->0.stack == st.stack.push(eval(e)->0),
    decreases e,
{
    match e {
        Expr::Integer(n) => {
            lemma_exec_append(seq![Instr::MovRaxImm64(n)], seq![Instr::PushRax], st);
            assert(seq![Instr::MovRaxImm64(n)] + seq![Instr::PushRax] =~= emit(e));
            lemma_exec_single(Instr::MovRaxImm64(n), st);
            lemma_exec_single(Instr::PushRax, step(Instr::MovRaxImm64(n), st)->0);
        },
        Expr::BinaryOp { op, left, right } => {
            let l = emit(*left);
            let r = emit(*right);
            let pops = seq![Instr::PopRbx, Instr::PopRax];
            let o = op_code(op);
            let push = seq![Instr::PushRax];
            lemma_exec_append(l + r + pops + o, push, st);
            lemma_exec_append(l + r + pops, o, st);
            lemma_exec_append(l + r, pops, st);
            lemma_exec_append(l, r, st);
            lemma_emit_pushes_value(*left, st);
            if eval(*left) is Some {
                let s1 = exec(l, st)->0;
                lemma_emit_pushes_value(*right, s1);
                if eval(*right) is Some {
                    let s2 = exec(r, s1)->0;
                    let va = eval(*left)->0;
                    let vb = eval(*right)->0;
                    lemma_exec_append(seq![Instr::PopRbx], seq![Instr::PopRax], s2);
                    assert(seq![Instr::PopRbx] + seq![Instr::PopRax] =~= pops);
                    lemma_exec_single(Instr::PopRbx, s2);
                    let s3 = step(Instr::PopRbx, s2)->0;
                    lemma_exec_single(Instr::PopRax, s3);
                    let s4 = step(Instr::PopRax, s3)->0;
                    assert(s2.stack.drop_last() =~= s1.stack);
                    assert(s1.stack.drop_last() =~= st.stack);
                    assert(s4.rax == va && s4.rbx == vb && s4.stack == st.stack);
                    assert(exec(l + r + pops, st) == Some(s4));
                    lemma_op_code(op, s4);
                    if apply(op, va, vb) is Some {
                        let s5 = exec(o, s4)->0;
                        lemma_exec_single(Instr::PushRax, s5);
                    }
                }
            }
        },
    }
}

/// Calling the compiled function returns the value of the expression, from any
/// state at entry; it faults exactly where a division in the expression traps.
pub proof fn lemma_program_returns_value(e: Expr, st: MachineState)
    ensures
        call(program(e), st) == eval(e),
{
    let p = program(e);
    assert(p.last() == Instr::Ret);
    assert(p.drop_last() =~= emit(e) + seq![Instr::PopRax]);
    lemma_exec_append(emit(e), seq![Instr::PopRax], st);
    lemma_emit_pushes_value(e, st);
    if eval(e) is Some {
        let s1 = exec(emit(e), st)->0;
        lemma_exec_single(Instr::PopRax, s1);
        assert(s1.stack.drop_last() =~= st.stack);
    }
}

proof fn lemma_encode_all_single(i: Instr)
    ensures
        encode_all(seq![i]) == encode(i),
{
    assert(seq![i].drop_last() =~= Seq::<Instr>::empty());
    assert(encode_all(Seq::<Instr>::empty()) + encode(i) =~= encode(i));
}

proof fn lemma_encode_all_pair(i: Instr, j: Instr)
    ensures
        encode_all(seq![i, j]) == encode(i) + encode(j),
{
    assert(seq![i, j] =~= seq![i] + seq![j]);
    lemma_encode_all_append(seq![i], seq![j]);
    lemma_encode_all_single(i);
    lemma_encode_all_single(j);
}

/// Appends the code of one instruction and says so in terms of its encoding.
fn append_instr(code: &mut Vec<u8>, bytes: Vec<u8>, Ghost(i): Ghost<Instr>)
    requires
        bytes@ == encode(i),
    ensures
        final(code)@ == old(code)@ + encode(i),
{
    let mut b = bytes;
    code.append(&mut b);
}

/// Appends the code that leaves the value of `expr` on top of the stack.
fn emit_expr(code: &mut Vec<u8>, expr: &Expr)
    ensures
        final(code)@ == old(code)@ + encode_all(emit(*expr)),
    decreases expr,
{
    match expr {
        Expr::Integer(n) => {
            append_instr(code, encoding::mov_rax_imm64(*n), Ghost(Instr::MovRaxImm64(*n)));
            append_instr(code, encoding::push_rax(), Ghost(Instr::PushRax));
            proof {
                lemma_encode_all_pair(Instr::MovRaxImm64(*n), Instr::PushRax);
                assert(seq![Instr::MovRaxImm64(*n), Instr::PushRax] =~= emit(*expr));
            }
        },
        Expr::BinaryOp { op, left, right } => {
            let ghost start = code@;
            emit_expr(code, left);
            emit_expr(code, right);
            let ghost operands = code@;
            append_instr(code, encoding::pop_rbx(), Ghost(Instr::PopRbx));
            append_instr(code, encoding::pop_rax(), Ghost(Instr::PopRax));
            let ghost mid = code@;
            proof {
                lemma_encode_all_single(Instr::AddRaxRbx);
                lemma_encode_all_single(Instr::SubRaxRbx);
                lemma_encode_all_single(Instr::ImulRaxRbx);
            }
            match op {
                BinOp::Add => append_instr(code, encoding::add_rax_rbx(), Ghost(Instr::AddRaxRbx)),
                BinOp::Sub => append_instr(code, encoding::sub_rax_rbx(), Ghost(Instr::SubRaxRbx)),
                BinOp::Mul => append_instr(
                    code,
                    encoding::imul_rax_rbx(),
                    Ghost(Instr::ImulRaxRbx),
                ),
                BinOp::Div => {
                    append_instr(code, encoding::cqo(), Ghost(Instr::Cqo));
                    append_instr(code, encoding::idiv_rbx(), Ghost(Instr::IdivRbx));
                    proof {
                        lemma_encode_all_pair(Instr::Cqo, Instr::IdivRbx);
                        assert(code@ =~= mid + encode_all(op_code(*op)));
                    }
                },
            }
            assert(code@ == mid + encode_all(op_code(*op)));
            append_instr(code, encoding::push_rax(), Ghost(Instr::PushRax));
            proof {
                let l = emit(**left);
                let r = emit(**right);
                let pops = seq![Instr::PopRbx, Instr::PopRax];
                let o = op_code(*op);
                let push = seq![Instr::PushRax];
                lemma_encode_all_single(Instr::PushRax);
                lemma_encode_all_pair(Instr::PopRbx, Instr::PopRax);
                lemma_encode_all_append(l, r);
                lemma_encode_all_append(l + r, pops);
                lemma_encode_all_append(l + r + pops, o);
                lemma_encode_all_append(l + r + pops + o, push);
                assert(mid =~= operands + encode_all(pops));
                assert(code@ =~= start + encode_all(l + r + pops + o + push));
            }
        },
    }
}

/// The machine code of a function that returns the value of `expr`.
pub fn compile(expr: &Expr) -> (code: Vec<u8>)
    ensures
        code@ == encode_all(program(*expr)),
{
    let mut code: Vec<u8> = Vec::new();
    emit_expr(&mut code, expr);
    append_instr(&mut code, encoding::pop_rax(), Ghost(Instr::PopRax));
    append_instr(&mut code, encoding::ret(), Ghost(Instr::Ret));
    proof {
        lemma_encode_all_pair(Instr::PopRax, Instr::Ret);
        lemma_encode_all_append(emit(*expr), seq![Instr::PopRax, Instr::Ret]);
        assert(encode_all(program(*expr)) =~= encode_all(emit(*expr)) + encode(Instr::PopRax)
            + encode(Instr::Ret));
        assert(code@ =~= encode_all(program(*expr)));
    }
    code
}

} // verus!
