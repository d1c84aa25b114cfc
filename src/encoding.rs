//! Byte encodings of the x86-64 instructions that the code generator emits.
use vstd::prelude::*;

verus! {

/// The instructions that compiled code is made of.
pub enum Instr {
    Ret,
    PushRax,
    PopRax,
    PopRbx,
    MovRaxImm64(i64),
    AddRaxRbx,
    SubRaxRbx,
    ImulRaxRbx,
    Cqo,
    IdivRbx,
}

/// The eight little-endian bytes of a 64-bit value, lowest first.
pub open spec fn le_bytes(v: i64) -> Seq<u8> {
    le_digits(v as u64 as nat, 8)
}

/// The lowest `n` base-256 digits of `x`, lowest first.
pub open spec fn le_digits(x: nat, n: nat) -> Seq<u8>
    decreases n,
{
    if n == 0 {
        Seq::empty()
    } else {
        seq![(x % 256) as u8] + le_digits(x / 256, (n - 1) as nat)
    }
}

/// The machine code of one instruction.
pub open spec fn encode(i: Instr) -> Seq<u8> {
    match i {
        Instr::Ret => seq![0xC3],
        Instr::PushRax => seq![0x50],
        Instr::PopRax => seq![0x58],
        Instr::PopRbx => seq![0x5B],
        Instr::MovRaxImm64(v) => seq![0x48u8, 0xB8u8] + le_bytes(v),
        Instr::AddRaxRbx => seq![0x48, 0x01, 0xD8],
        Instr::SubRaxRbx => seq![0x48, 0x29, 0xD8],
        Instr::ImulRaxRbx => seq![0x48, 0x0F, 0xAF, 0xC3],
        Instr::Cqo => seq![0x48, 0x99],
        Instr::IdivRbx => seq![0x48, 0xF7, 0xFB],
    }
}

/// The machine code of an instruction sequence: each encoding in turn.
pub open spec fn encode_all(s: Seq<Instr>) -> Seq<u8>
    decreases s.len(),
{
    if s.len() == 0 {
        Seq::empty()
    } else {
        encode_all(s.drop_last()) + encode(s.last())
    }
}

/// Encoding a concatenation concatenates the encodings.
pub proof fn lemma_encode_all_append(a: Seq<Instr>, b: Seq<Instr>)
    ensures
        encode_all(a + b) == encode_all(a) + encode_all(b),
    decreases b.len(),
{
    if b.len() == 0 {
        assert(a + b =~= a);
        assert(encode_all(b) =~= Seq::<u8>::empty());
        assert(encode_all(a) + encode_all(b) =~= encode_all(a));
    } else {
        assert((a + b).drop_last() =~= a + b.drop_last());
        assert((a + b).last() == b.last());
        lemma_encode_all_append(a, b.drop_last());
        assert(encode_all(a + b) =~= encode_all(a) + encode_all(b));
    }
}

/// `ret`
pub fn ret() -> (r: Vec<u8>)
    ensures
        r@ == encode(Instr::Ret),
{
    let r = vec![0xC3u8];
    assert(r@ =~= encode(Instr::Ret));
    r
}

/// `push rax`
pub fn push_rax() -> (r: Vec<u8>)
    ensures
        r@ == encode(Instr::PushRax),
{
    let r = vec![0x50u8];
    assert(r@ =~= encode(Instr::PushRax));
    r
}

/// `pop rax`
pub fn pop_rax() -> (r: Vec<u8>)
    ensures
        r@ == encode(Instr::PopRax),
{
    let r = vec![0x58u8];
    assert(r@ =~= encode(Instr::PopRax));
    r
}

/// `pop rbx`
pub fn pop_rbx() -> (r: Vec<u8>)
    ensures
        r@ == encode(Instr::PopRbx),
{
    let r = vec![0x5Bu8];
    assert(r@ =~= encode(Instr::PopRbx));
    r
}

/// `mov rax, imm64`: the REX.W prefix, the opcode, then the immediate in
/// little-endian order.
pub fn mov_rax_imm64(value: i64) -> (r: Vec<u8>)
    ensures
        r@ == encode(Instr::MovRaxImm64(value)),
{
    let mut bytes = vec![0x48u8, 0xB8u8];
    let mut x: u64 = value as u64;
    let mut i: usize = 0;
    while i < 8
        invariant
            i <= 8,
            bytes@ + le_digits(x as nat, (8 - i) as nat) == seq![0x48u8, 0xB8u8] + le_bytes(value),
        decreases 8 - i,
    {
        let ghost before = bytes@;
        bytes.push((x % 256) as u8);
        proof {
            assert(le_digits(x as nat, (8 - i) as nat) == seq![(x % 256) as u8] + le_digits(
                (x / 256) as nat,
                (8 - i - 1) as nat,
            ));
            assert(bytes@ + le_digits((x / 256) as nat, (8 - i - 1) as nat) =~= before
                + le_digits(x as nat, (8 - i) as nat));
        }
        x = x / 256;
        i = i + 1;
    }
    assert(bytes@ =~= bytes@ + le_digits(x as nat, 0));
    bytes
}

/// `add rax, rbx`
pub fn add_rax_rbx() -> (r: Vec<u8>)
    ensures
        r@ == encode(Instr::AddRaxRbx),
{
    let r = vec![0x48u8, 0x01u8, 0xD8u8];
    assert(r@ =~= encode(Instr::AddRaxRbx));
    r
}

/// `sub rax, rbx`
pub fn sub_rax_rbx() -> (r: Vec<u8>)
    ensures
        r@ == encode(Instr::SubRaxRbx),
{
    let r = vec![0x48u8, 0x29u8, 0xD8u8];
    assert(r@ =~= encode(Instr::SubRaxRbx));
    r
}

/// `imul rax, rbx`
pub fn imul_rax_rbx() -> (r: Vec<u8>)
    ensures
        r@ == encode(Instr::ImulRaxRbx),
{
    let r = vec![0x48u8, 0x0Fu8, 0xAFu8, 0xC3u8];
    assert(r@ =~= encode(Instr::ImulRaxRbx));
    r
}

/// `cqo`: sign-extend rax into rdx:rax.
pub fn cqo() -> (r: Vec<u8>)
    ensures
        r@ == encode(Instr::Cqo),
{
    let r = vec![0x48u8, 0x99u8];
    assert(r@ =~= encode(Instr::Cqo));
    r
}

/// `idiv rbx`: signed division of rdx:rax by rbx.
pub fn idiv_rbx() -> (r: Vec<u8>)
    ensures
        r@ == encode(Instr::IdivRbx),
{
    let r = vec![0x48u8, 0xF7u8, 0xFBu8];
    assert(r@ =~= encode(Instr::IdivRbx));
    r
}

} // verus!
