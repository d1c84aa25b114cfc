//! What the emitted instructions do: a model of the registers and the machine
//! stack that they read and write.
use vstd::prelude::*;
use crate::ast::{div_trunc, i64_max, i64_min, wrap};
use crate::encoding::Instr;

verus! {

/// The registers that compiled code uses, and the values on the machine stack
/// (the last element is the top).
pub struct MachineState {
    pub rax: i64,
    pub rbx: i64,
    pub rdx: i64,
    pub stack: Seq<i64>,
}

/// A register's bits read as an unsigned number.
pub open spec fn unsigned(x: i64) -> int {
    if x < 0 {
        x + 0x1_0000_0000_0000_0000
    } else {
        x as int
    }
}

/// The 128-bit dividend rdx:rax that `idiv` reads.
pub open spec fn wide_dividend(rdx: i64, rax: i64) -> int {
    rdx as int * 0x1_0000_0000_0000_0000 + unsigned(rax)
}

/// One instruction other than `ret`; `None` where it faults (a pop from an
/// empty stack, a division that traps).
pub open spec fn step(i: Instr, st: MachineState) -> Option<MachineState> {
    match i {
        Instr::Ret => None,
        Instr::PushRax => Some(MachineState { stack: st.stack.push(st.rax), ..st }),
        Instr::PopRax => if st.stack.len() > 0 {
            Some(MachineState { rax: st.stack.last(), stack: st.stack.drop_last(), ..st })
        } else {
            None
        },
        Instr::PopRbx => if st.stack.len() > 0 {
            Some(MachineState { rbx: st.stack.last(), stack: st.stack.drop_last(), ..st })
        } else {
            None
        },
        Instr::MovRaxImm64(v) => Some(MachineState { rax: v, ..st }),
        Instr::AddRaxRbx => Some(MachineState { rax: wrap(st.rax + st.rbx), ..st }),
        Instr::SubRaxRbx => Some(MachineState { rax: wrap(st.rax - st.rbx), ..st }),
        Instr::ImulRaxRbx => Some(MachineState { rax: wrap(st.rax * st.rbx), ..st }),
        Instr::Cqo => Some(
            MachineState {
                rdx: if st.rax < 0 {
                    -1i64
                } else {
                    0i64
                },
                ..st
            },
        ),
        Instr::IdivRbx => {
            let n = wide_dividend(st.rdx, st.rax);
            if st.rbx == 0 {
                None
            } else {
                let q = div_trunc(n, st.rbx as int);
                if q < i64_min() || q > i64_max() {
                    None
                } else {
                    Some(MachineState { rax: q as i64, rdx: (n - q * st.rbx) as i64, ..st })
                }
            }
        },
    }
}

/// Straight-line execution of a sequence of instructions, first to last.
pub open spec fn exec(code: Seq<Instr>, st: MachineState) -> Option<MachineState>
    decreases code.len(),
{
    if code.len() == 0 {
        Some(st)
    } else {
        match step(code[0], st) {
            Some(next) => exec(code.subrange(1, code.len() as int), next),
            None => None,
        }
    }
}

/// What calling a function whose body is `code` returns, from the state `st`
/// at entry: the body must end in `ret`, run to it without a fault, and leave
/// the stack as it found it; the result is then in rax.
pub open spec fn call(code: Seq<Instr>, st: MachineState) -> Option<i64> {
    if code.len() > 0 && code.last() == Instr::Ret {
        match exec(code.drop_last(), st) {
            Some(end) => if end.stack == st.stack {
                Some(end.rax)
            } else {
                None
            },
            None => None,
        }
    } else {
        None
    }
}

/// A sequence of one instruction runs that instruction.
pub proof fn lemma_exec_single(i: Instr, st: MachineState)
    ensures
        exec(seq![i], st) == step(i, st),
{
    assert(seq![i].subrange(1, 1) =~= Seq::<Instr>::empty());
    match step(i, st) {
        Some(next) => assert(exec(Seq::<Instr>::empty(), next) == Some(next)),
        None => {},
    }
}

/// Running two sequences one after the other is running their concatenation.
pub proof fn lemma_exec_append(a: Seq<Instr>, b: Seq<Instr>, st: MachineState)
    ensures
        exec(a + b, st) == match exec(a, st) {
            Some(mid) => exec(b, mid),
            None => None,
        },
    decreases a.len(),
{
    if a.len() == 0 {
        assert(a + b =~= b);
    } else {
        assert((a + b)[0] == a[0]);
        assert((a + b).subrange(1, (a + b).len() as int) =~= a.subrange(1, a.len() as int) + b);
        match step(a[0], st) {
            Some(next) => lemma_exec_append(a.subrange(1, a.len() as int), b, next),
            None => {},
        }
    }
}

} // verus!
