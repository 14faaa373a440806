//! What the hook code does when it runs, on a model of the few x64 instructions
//! that it consists of.

use crate::bytes::{le_bytes, lemma_le_roundtrip, lemma_pow256_values};
use crate::io::pe::laws::format::{numbers_are_little_endian, u32_at, u64_at};
use crate::process::tracer::{
    absolute_jump, hook_name, hook_writes, logged_entries, logged_word, stub_code, stub_stores,
    HookModel, PATCH_LEN,
};
use vstd::prelude::*;

verus! {

/// The sixteen registers by their numbers, the memory, the place in the code, and
/// where a jump out of it went.
pub struct Cpu {
    pub regs: Seq<u64>,
    pub memory: spec_fn(int) -> u8,
    pub pos: int,
    pub jumped: Option<u64>,
}

/// The numbers of the registers that the hook code names.
pub open spec fn rax() -> int {
    0
}

pub open spec fn rcx() -> int {
    1
}

pub open spec fn rdx() -> int {
    2
}

pub open spec fn rsp() -> int {
    4
}

pub open spec fn r8() -> int {
    8
}

pub open spec fn r9() -> int {
    9
}

pub open spec fn r10() -> int {
    10
}

pub open spec fn r11() -> int {
    11
}

/// A memory operand: a base register, an index register times a scale, and a
/// displacement.
pub struct Place {
    pub base: int,
    pub index: Option<int>,
    pub scale: int,
    pub disp: int,
}

/// An instruction.
pub enum Code {
    Push(int),
    Pop(int),
    Mov(int, u64),
    Load(int, Place),
    Store(Place, int),
    Lea(int, Place),
    Inc(int),
    Jump(u64),
    Other,
}

/// The eight bytes at `a`, as bytes.
pub open spec fn eight(memory: spec_fn(int) -> u8, a: int) -> Seq<u8> {
    Seq::new(8, |i: int| memory(a + i))
}

/// The 64-bit number at `a`, its low byte first.
#[verifier::opaque]
pub open spec fn word(memory: spec_fn(int) -> u8, a: int) -> u64 {
    u64_at(eight(memory, a), 0)
}

/// Memory after a 64-bit number was stored at `a`.
#[verifier::opaque]
pub open spec fn put(memory: spec_fn(int) -> u8, a: int, v: u64) -> spec_fn(int) -> u8 {
    |x: int|
        if a <= x < a + 8 {
            le_bytes(8, v as nat)[x - a]
        } else {
            memory(x)
        }
}

/// A sum as a 64-bit address.
pub open spec fn wrapped(n: int) -> u64 {
    (n % 0x1_0000_0000_0000_0000) as u64
}

/// A byte as a signed number.
pub open spec fn signed(b: u8) -> int {
    if b < 0x80 {
        b as int
    } else {
        b - 0x100
    }
}

/// The memory operand whose ModRM byte stands at `at`, and where it ends; `x` and
/// `b` are the upper bits of the index and base registers. With an operand of
/// another form there is none.
pub open spec fn place_at(code: Seq<u8>, at: int, x: int, b: int) -> Option<(Place, int)> {
    let m = code[at] as int;
    let (base, index, scale, next) = if m % 8 == 4 {
        let s = code[at + 1] as int;
        let i = s / 8 % 8 + x;
        (
            s % 8 + b,
            if i == 4 {
                None
            } else {
                Some(i)
            },
            if s / 64 == 0 {
                1int
            } else if s / 64 == 1 {
                2
            } else if s / 64 == 2 {
                4
            } else {
                8
            },
            at + 2,
        )
    } else {
        (m % 8 + b, None, 1int, at + 1)
    };
    if m / 64 == 0 && base % 8 != 5 {
        Some((Place { base, index, scale, disp: 0 }, next))
    } else if m / 64 == 1 {
        Some((Place { base, index, scale, disp: signed(code[next]) }, next + 1))
    } else {
        None
    }
}

/// The instruction at `pos`, and where the next one begins.
#[verifier::opaque]
pub open spec fn code_at(code: Seq<u8>, pos: int) -> (Code, int) {
    let first = code[pos] as int;
    let rex = 0x40 <= first < 0x50;
    let (wide, r, x, b) = if rex {
        (first / 8 % 2 == 1, first / 4 % 2 * 8, first / 2 % 2 * 8, first % 2 * 8)
    } else {
        (false, 0int, 0int, 0int)
    };
    let p = if rex {
        pos + 1
    } else {
        pos
    };
    let op = code[p] as int;
    let m = code[p + 1] as int;
    let reg = m / 8 % 8 + r;
    if 0x50 <= op < 0x58 {
        (Code::Push(op - 0x50 + b), p + 1)
    } else if 0x58 <= op < 0x60 {
        (Code::Pop(op - 0x58 + b), p + 1)
    } else if wide && 0xb8 <= op < 0xc0 {
        (Code::Mov(op - 0xb8 + b, u64_at(code, p + 1)), p + 9)
    } else if wide && (op == 0x8b || op == 0x89 || op == 0x8d) {
        match place_at(code, p + 1, x, b) {
            Some((place, next)) => (
                if op == 0x8b {
                    Code::Load(reg, place)
                } else if op == 0x89 {
                    Code::Store(place, reg)
                } else {
                    Code::Lea(reg, place)
                },
                next,
            ),
            None => (Code::Other, pos),
        }
    } else if wide && op == 0xff && m / 64 == 3 && m / 8 % 8 == 0 {
        (Code::Inc(m % 8 + b), p + 2)
    } else if !rex && op == 0xff && m == 0x25 && u32_at(code, p + 2) < 0x8000_0000 {
        (Code::Jump(u64_at(code, p + 6 + u32_at(code, p + 2))), p + 6)
    } else {
        (Code::Other, pos)
    }
}

/// The address of a memory operand.
pub open spec fn address_of(regs: Seq<u64>, p: Place) -> u64 {
    wrapped(
        regs[p.base] + match p.index {
            Some(i) => regs[i] * p.scale,
            None => 0,
        } + p.disp,
    )
}

/// The machine after one instruction.
#[verifier::opaque]
pub open spec fn step(s: Cpu, code: Seq<u8>) -> Cpu {
    let (c, next) = code_at(code, s.pos);
    let regs = s.regs;
    let top = regs[rsp()];
    match c {
        Code::Push(r) => {
            let a = wrapped(top - 8);
            Cpu {
                regs: regs.update(rsp(), a),
                memory: put(s.memory, a as int, regs[r]),
                pos: next,
                ..s
            }
        },
        Code::Pop(r) => Cpu {
            regs: regs.update(rsp(), wrapped(top + 8)).update(r, word(s.memory, top as int)),
            pos: next,
            ..s
        },
        Code::Mov(r, v) => Cpu { regs: regs.update(r, v), pos: next, ..s },
        Code::Load(r, p) => Cpu {
            regs: regs.update(r, word(s.memory, address_of(regs, p) as int)),
            pos: next,
            ..s
        },
        Code::Store(p, r) => Cpu {
            memory: put(s.memory, address_of(regs, p) as int, regs[r]),
            pos: next,
            ..s
        },
        Code::Lea(r, p) => Cpu { regs: regs.update(r, address_of(regs, p)), pos: next, ..s },
        Code::Inc(r) => Cpu { regs: regs.update(r, wrapped(regs[r] + 1)), pos: next, ..s },
        Code::Jump(t) => Cpu { jumped: Some(t), pos: next, ..s },
        Code::Other => s,
    }
}

/// The machine after `n` instructions.
pub open spec fn run(s: Cpu, code: Seq<u8>, n: nat) -> Cpu
    decreases n,
{
    if n == 0 {
        s
    } else {
        step(run(s, code, (n - 1) as nat), code)
    }
}

proof fn lemma_word_put(m: spec_fn(int) -> u8, a: int, v: u64)
    ensures
        word(put(m, a, v), a) == v,
{
    reveal(word);
    reveal(put);
    let b = le_bytes(8, v as nat);
    lemma_pow256_values();
    lemma_le_roundtrip(8, v as nat);
    assert(eight(put(m, a, v), a) =~= b);
    numbers_are_little_endian(b, 0);
    assert(b.subrange(0, 8) =~= b);
}

proof fn lemma_word_apart(m: spec_fn(int) -> u8, a: int, v: u64, x: int)
    requires
        x + 8 <= a || a + 8 <= x,
    ensures
        word(put(m, a, v), x) == word(m, x),
{
    reveal(word);
    reveal(put);
    assert(eight(put(m, a, v), x) =~= eight(m, x));
}

proof fn lemma_imm(v: u64)
    ensures
        le_bytes(8, v as nat).len() == 8,
        u64_at(le_bytes(8, v as nat), 0) == v,
{
    let b = le_bytes(8, v as nat);
    lemma_pow256_values();
    lemma_le_roundtrip(8, v as nat);
    numbers_are_little_endian(b, 0);
    assert(b.subrange(0, 8) =~= b);
}

/// An absolute jump goes to its target, whatever stands before it.
proof fn lemma_jump(before: Seq<u8>, target: u64)
    ensures
        code_at(before + absolute_jump(target), before.len() as int) == (
            Code::Jump(target),
            before.len() as int + 6,
        ),
        absolute_jump(target).len() == 14,
{
    reveal(code_at);
    lemma_imm(target);
    let j = absolute_jump(target);
    let code = before + j;
    let n = before.len() as int;
    let b = le_bytes(8, target as nat);
    assert(code[n] == 0xff && code[n + 1] == 0x25 && code[n + 2] == 0 && code[n + 3] == 0 && code[n
        + 4] == 0 && code[n + 5] == 0);
    assert(u32_at(code, n + 2) == 0);
    assert(forall|i: int| 0 <= i < 8 ==> code[n + 6 + i] == #[trigger] b[i]);
    assert(u64_at(code, n + 6) == u64_at(b, 0));
}

/// The jump that is written over a function goes to the hook's region, and
/// leaves the registers and the memory alone.
pub proof fn patch_jumps_to_its_target(target: u64, s: Cpu)
    requires
        s.pos == 0,
        s.jumped is None,
    ensures
        absolute_jump(target).len() == PATCH_LEN,
        run(s, absolute_jump(target), 1) == (Cpu { jumped: Some(target), pos: 6, ..s }),
{
    lemma_jump(Seq::empty(), target);
    assert(Seq::<u8>::empty() + absolute_jump(target) =~= absolute_jump(target));
    reveal(step);
    reveal_with_fuel(run, 2);
}

/// Behind the function's own first bytes the trampoline jumps on into the
/// function, past the bytes that were written over.
pub proof fn trampoline_jumps_back(original: Seq<u8>, function_addr: u64, s: Cpu)
    requires
        original.len() == PATCH_LEN,
        function_addr + PATCH_LEN <= u64::MAX,
        s.pos == PATCH_LEN,
        s.jumped is None,
    ensures
        ({
            let code = original + absolute_jump((function_addr + PATCH_LEN) as u64);
            &&& code.take(PATCH_LEN as int) == original
            &&& run(s, code, 1).jumped == Some((function_addr + PATCH_LEN) as u64)
            &&& run(s, code, 1).regs == s.regs
            &&& run(s, code, 1).memory == s.memory
        }),
{
    let code = original + absolute_jump((function_addr + PATCH_LEN) as u64);
    lemma_jump(original, (function_addr + PATCH_LEN) as u64);
    assert(code.take(PATCH_LEN as int) =~= original);
    reveal(step);
    reveal_with_fuel(run, 2);
}

/// The bytes of the stub.
proof fn lemma_stub_bytes(log_base: u64, hook_id: u64, trampoline: u64)
    ensures
        ({
            let code = stub_code(log_base, hook_id, trampoline);
            &&& code.len() == 105
            &&& u64_at(code, 9) == log_base
            &&& u64_at(code, 31) == hook_id
            &&& exists|before: Seq<u8>|
                before.len() == 91 && code == before + #[trigger] absolute_jump(trampoline)
                    && before == code.take(91)
            &&& code[0] == 0x51
            &&& code[1] == 0x52
            &&& code[2] == 0x41
            &&& code[3] == 0x50
            &&& code[4] == 0x41
            &&& code[5] == 0x51
            &&& code[6] == 0x50
            &&& code[7] == 0x48
            &&& code[8] == 0xb8
            &&& code[17] == 0x4c
            &&& code[18] == 0x8b
            &&& code[19] == 0x10
            &&& code[20] == 0x4f
            &&& code[21] == 0x8d
            &&& code[22] == 0x1c
            &&& code[23] == 0x92
            &&& code[24] == 0x4e
            &&& code[25] == 0x8d
            &&& code[26] == 0x5c
            &&& code[27] == 0xd8
            &&& code[28] == 0x08
            &&& code[29] == 0x48
            &&& code[30] == 0xba
            &&& code[39] == 0x49
            &&& code[40] == 0x89
            &&& code[41] == 0x13
            &&& code[42] == 0x48
            &&& code[43] == 0x8b
            &&& code[44] == 0x4c
            &&& code[45] == 0x24
            &&& code[46] == 0x20
            &&& code[47] == 0x49
            &&& code[48] == 0x89
            &&& code[49] == 0x4b
            &&& code[50] == 0x08
            &&& code[51] == 0x48
            &&& code[52] == 0x8b
            &&& code[53] == 0x4c
            &&& code[54] == 0x24
            &&& code[55] == 0x18
            &&& code[56] == 0x49
            &&& code[57] == 0x89
            &&& code[58] == 0x4b
            &&& code[59] == 0x10
            &&& code[60] == 0x48
            &&& code[61] == 0x8b
            &&& code[62] == 0x4c
            &&& code[63] == 0x24
            &&& code[64] == 0x10
            &&& code[65] == 0x49
            &&& code[66] == 0x89
            &&& code[67] == 0x4b
            &&& code[68] == 0x18
            &&& code[69] == 0x48
            &&& code[70] == 0x8b
            &&& code[71] == 0x4c
            &&& code[72] == 0x24
            &&& code[73] == 0x08
            &&& code[74] == 0x49
            &&& code[75] == 0x89
            &&& code[76] == 0x4b
            &&& code[77] == 0x20
            &&& code[78] == 0x49
            &&& code[79] == 0xff
            &&& code[80] == 0xc2
            &&& code[81] == 0x4c
            &&& code[82] == 0x89
            &&& code[83] == 0x10
            &&& code[84] == 0x58
            &&& code[85] == 0x41
            &&& code[86] == 0x59
            &&& code[87] == 0x41
            &&& code[88] == 0x58
            &&& code[89] == 0x5a
            &&& code[90] == 0x59
        }),
{
    let a = seq![0x51u8, 0x52, 0x41, 0x50, 0x41, 0x51, 0x50, 0x48, 0xb8];
    let lb = le_bytes(8, log_base as nat);
    let b = seq![
        0x4cu8, 0x8b, 0x10, 0x4f, 0x8d, 0x1c, 0x92, 0x4e, 0x8d, 0x5c, 0xd8, 0x08, 0x48, 0xba,
    ];
    let id = le_bytes(8, hook_id as nat);
    let st = stub_stores();
    let j = absolute_jump(trampoline);
    let code = stub_code(log_base, hook_id, trampoline);
    lemma_imm(log_base);
    lemma_imm(hook_id);
    lemma_imm(trampoline);
    assert(code == a + lb + b + id + st + j);
    assert(st.len() == 52);
    assert(j.len() == 14);
    let head = a + lb + b + id;
    assert(head.len() == 39);
    assert forall|i: int| 0 <= i < 9 implies code[i] == #[trigger] a[i] by {}
    assert forall|i: int| 0 <= i < 8 implies code[9 + i] == #[trigger] lb[i] by {}
    assert forall|i: int| 0 <= i < 14 implies code[17 + i] == #[trigger] b[i] by {}
    assert forall|i: int| 0 <= i < 8 implies code[31 + i] == #[trigger] id[i] by {}
    assert forall|i: int| 0 <= i < 52 implies code[39 + i] == #[trigger] st[i] by {}
    assert(u64_at(code, 9) == u64_at(lb, 0));
    assert(u64_at(code, 31) == u64_at(id, 0));
    let before = head + st;
    assert(code == before + j);
    assert(before =~= code.take(91));
    assert(code[0] == a[0]);
    assert(code[1] == a[1]);
    assert(code[2] == a[2]);
    assert(code[3] == a[3]);
    assert(code[4] == a[4]);
    assert(code[5] == a[5]);
    assert(code[6] == a[6]);
    assert(code[7] == a[7]);
    assert(code[8] == a[8]);
    assert(code[17] == b[0]);
    assert(code[18] == b[1]);
    assert(code[19] == b[2]);
    assert(code[20] == b[3]);
    assert(code[21] == b[4]);
    assert(code[22] == b[5]);
    assert(code[23] == b[6]);
    assert(code[24] == b[7]);
    assert(code[25] == b[8]);
    assert(code[26] == b[9]);
    assert(code[27] == b[10]);
    assert(code[28] == b[11]);
    assert(code[29] == b[12]);
    assert(code[30] == b[13]);
    assert(code[39] == st[0]);
    assert(code[40] == st[1]);
    assert(code[41] == st[2]);
    assert(code[42] == st[3]);
    assert(code[43] == st[4]);
    assert(code[44] == st[5]);
    assert(code[45] == st[6]);
    assert(code[46] == st[7]);
    assert(code[47] == st[8]);
    assert(code[48] == st[9]);
    assert(code[49] == st[10]);
    assert(code[50] == st[11]);
    assert(code[51] == st[12]);
    assert(code[52] == st[13]);
    assert(code[53] == st[14]);
    assert(code[54] == st[15]);
    assert(code[55] == st[16]);
    assert(code[56] == st[17]);
    assert(code[57] == st[18]);
    assert(code[58] == st[19]);
    assert(code[59] == st[20]);
    assert(code[60] == st[21]);
    assert(code[61] == st[22]);
    assert(code[62] == st[23]);
    assert(code[63] == st[24]);
    assert(code[64] == st[25]);
    assert(code[65] == st[26]);
    assert(code[66] == st[27]);
    assert(code[67] == st[28]);
    assert(code[68] == st[29]);
    assert(code[69] == st[30]);
    assert(code[70] == st[31]);
    assert(code[71] == st[32]);
    assert(code[72] == st[33]);
    assert(code[73] == st[34]);
    assert(code[74] == st[35]);
    assert(code[75] == st[36]);
    assert(code[76] == st[37]);
    assert(code[77] == st[38]);
    assert(code[78] == st[39]);
    assert(code[79] == st[40]);
    assert(code[80] == st[41]);
    assert(code[81] == st[42]);
    assert(code[82] == st[43]);
    assert(code[83] == st[44]);
    assert(code[84] == st[45]);
    assert(code[85] == st[46]);
    assert(code[86] == st[47]);
    assert(code[87] == st[48]);
    assert(code[88] == st[49]);
    assert(code[89] == st[50]);
    assert(code[90] == st[51]);
}

/// Some of the instructions of the stub.
#[verifier::rlimit(40)]
#[verifier::spinoff_prover]
proof fn lemma_code_saves(log_base: u64, hook_id: u64, trampoline: u64)
    ensures
        ({
            let code = stub_code(log_base, hook_id, trampoline);
            &&& code_at(code, 0) == (Code::Push(rcx()), 1int)
            &&& code_at(code, 1) == (Code::Push(rdx()), 2int)
            &&& code_at(code, 2) == (Code::Push(r8()), 4int)
            &&& code_at(code, 4) == (Code::Push(r9()), 6int)
            &&& code_at(code, 6) == (Code::Push(rax()), 7int)
            &&& code_at(code, 7) == (Code::Mov(rax(), log_base), 17int)
            &&& code_at(code, 17) == (
                Code::Load(r10(), Place { base: rax(), index: None, scale: 1, disp: 0 }),
                20int,
            )
        }),
{
    let code = stub_code(log_base, hook_id, trampoline);
    lemma_stub_bytes(log_base, hook_id, trampoline);
    assert(code_at(code, 0) == (Code::Push(rcx()), 1int)) by {
        reveal(code_at);
    }
    assert(code_at(code, 1) == (Code::Push(rdx()), 2int)) by {
        reveal(code_at);
    }
    assert(code_at(code, 2) == (Code::Push(r8()), 4int)) by {
        reveal(code_at);
    }
    assert(code_at(code, 4) == (Code::Push(r9()), 6int)) by {
        reveal(code_at);
    }
    assert(code_at(code, 6) == (Code::Push(rax()), 7int)) by {
        reveal(code_at);
    }
    assert(code_at(code, 7) == (Code::Mov(rax(), log_base), 17int)) by {
        reveal(code_at);
    }
    assert(code_at(code, 17) == (
        Code::Load(r10(), Place { base: rax(), index: None, scale: 1, disp: 0 }),
        20int,
    )) by {
        reveal(code_at);
    }
}

/// Some of the instructions of the stub.
#[verifier::rlimit(40)]
#[verifier::spinoff_prover]
proof fn lemma_code_finds(log_base: u64, hook_id: u64, trampoline: u64)
    ensures
        ({
            let code = stub_code(log_base, hook_id, trampoline);
            &&& code_at(code, 20) == (
                Code::Lea(r11(), Place { base: r10(), index: Some(r10()), scale: 4, disp: 0 }),
                24int,
            )
            &&& code_at(code, 24) == (
                Code::Lea(r11(), Place { base: rax(), index: Some(r11()), scale: 8, disp: 8 }),
                29int,
            )
            &&& code_at(code, 29) == (Code::Mov(rdx(), hook_id), 39int)
            &&& code_at(code, 39) == (
                Code::Store(Place { base: r11(), index: None, scale: 1, disp: 0 }, rdx()),
                42int,
            )
        }),
{
    let code = stub_code(log_base, hook_id, trampoline);
    lemma_stub_bytes(log_base, hook_id, trampoline);
    assert(code_at(code, 20) == (
        Code::Lea(r11(), Place { base: r10(), index: Some(r10()), scale: 4, disp: 0 }),
        24int,
    )) by {
        reveal(code_at);
    }
    assert(code_at(code, 24) == (
        Code::Lea(r11(), Place { base: rax(), index: Some(r11()), scale: 8, disp: 8 }),
        29int,
    )) by {
        reveal(code_at);
    }
    assert(code_at(code, 29) == (Code::Mov(rdx(), hook_id), 39int)) by {
        reveal(code_at);
    }
    assert(code_at(code, 39) == (
        Code::Store(Place { base: r11(), index: None, scale: 1, disp: 0 }, rdx()),
        42int,
    )) by {
        reveal(code_at);
    }
}

/// Some of the instructions of the stub.
#[verifier::rlimit(40)]
#[verifier::spinoff_prover]
proof fn lemma_code_copies(log_base: u64, hook_id: u64, trampoline: u64)
    ensures
        ({
            let code = stub_code(log_base, hook_id, trampoline);
            &&& code_at(code, 42) == (
                Code::Load(rcx(), Place { base: rsp(), index: None, scale: 1, disp: 32 }),
                47int,
            )
            &&& code_at(code, 47) == (
                Code::Store(Place { base: r11(), index: None, scale: 1, disp: 8 }, rcx()),
                51int,
            )
            &&& code_at(code, 51) == (
                Code::Load(rcx(), Place { base: rsp(), index: None, scale: 1, disp: 24 }),
                56int,
            )
            &&& code_at(code, 56) == (
                Code::Store(Place { base: r11(), index: None, scale: 1, disp: 16 }, rcx()),
                60int,
            )
            &&& code_at(code, 60) == (
                Code::Load(rcx(), Place { base: rsp(), index: None, scale: 1, disp: 16 }),
                65int,
            )
            &&& code_at(code, 65) == (
                Code::Store(Place { base: r11(), index: None, scale: 1, disp: 24 }, rcx()),
                69int,
            )
            &&& code_at(code, 69) == (
                Code::Load(rcx(), Place { base: rsp(), index: None, scale: 1, disp: 8 }),
                74int,
            )
            &&& code_at(code, 74) == (
                Code::Store(Place { base: r11(), index: None, scale: 1, disp: 32 }, rcx()),
                78int,
            )
        }),
{
    let code = stub_code(log_base, hook_id, trampoline);
    lemma_stub_bytes(log_base, hook_id, trampoline);
    assert(code_at(code, 42) == (
        Code::Load(rcx(), Place { base: rsp(), index: None, scale: 1, disp: 32 }),
        47int,
    )) by {
        reveal(code_at);
    }
    assert(code_at(code, 47) == (
        Code::Store(Place { base: r11(), index: None, scale: 1, disp: 8 }, rcx()),
        51int,
    )) by {
        reveal(code_at);
    }
    assert(code_at(code, 51) == (
        Code::Load(rcx(), Place { base: rsp(), index: None, scale: 1, disp: 24 }),
        56int,
    )) by {
        reveal(code_at);
    }
    assert(code_at(code, 56) == (
        Code::Store(Place { base: r11(), index: None, scale: 1, disp: 16 }, rcx()),
        60int,
    )) by {
        reveal(code_at);
    }
    assert(code_at(code, 60) == (
        Code::Load(rcx(), Place { base: rsp(), index: None, scale: 1, disp: 16 }),
        65int,
    )) by {
        reveal(code_at);
    }
    assert(code_at(code, 65) == (
        Code::Store(Place { base: r11(), index: None, scale: 1, disp: 24 }, rcx()),
        69int,
    )) by {
        reveal(code_at);
    }
    assert(code_at(code, 69) == (
        Code::Load(rcx(), Place { base: rsp(), index: None, scale: 1, disp: 8 }),
        74int,
    )) by {
        reveal(code_at);
    }
    assert(code_at(code, 74) == (
        Code::Store(Place { base: r11(), index: None, scale: 1, disp: 32 }, rcx()),
        78int,
    )) by {
        reveal(code_at);
    }
}

/// Some of the instructions of the stub.
#[verifier::rlimit(40)]
#[verifier::spinoff_prover]
proof fn lemma_code_restores(log_base: u64, hook_id: u64, trampoline: u64)
    ensures
        ({
            let code = stub_code(log_base, hook_id, trampoline);
            &&& code_at(code, 78) == (Code::Inc(r10()), 81int)
            &&& code_at(code, 81) == (
                Code::Store(Place { base: rax(), index: None, scale: 1, disp: 0 }, r10()),
                84int,
            )
            &&& code_at(code, 84) == (Code::Pop(rax()), 85int)
            &&& code_at(code, 85) == (Code::Pop(r9()), 87int)
            &&& code_at(code, 87) == (Code::Pop(r8()), 89int)
            &&& code_at(code, 89) == (Code::Pop(rdx()), 90int)
            &&& code_at(code, 90) == (Code::Pop(rcx()), 91int)
        }),
{
    let code = stub_code(log_base, hook_id, trampoline);
    lemma_stub_bytes(log_base, hook_id, trampoline);
    assert(code_at(code, 78) == (Code::Inc(r10()), 81int)) by {
        reveal(code_at);
    }
    assert(code_at(code, 81) == (
        Code::Store(Place { base: rax(), index: None, scale: 1, disp: 0 }, r10()),
        84int,
    )) by {
        reveal(code_at);
    }
    assert(code_at(code, 84) == (Code::Pop(rax()), 85int)) by {
        reveal(code_at);
    }
    assert(code_at(code, 85) == (Code::Pop(r9()), 87int)) by {
        reveal(code_at);
    }
    assert(code_at(code, 87) == (Code::Pop(r8()), 89int)) by {
        reveal(code_at);
    }
    assert(code_at(code, 89) == (Code::Pop(rdx()), 90int)) by {
        reveal(code_at);
    }
    assert(code_at(code, 90) == (Code::Pop(rcx()), 91int)) by {
        reveal(code_at);
    }
}

/// The instructions of the stub.
proof fn lemma_stub_code(log_base: u64, hook_id: u64, trampoline: u64)
    ensures
        ({
            let code = stub_code(log_base, hook_id, trampoline);
            &&& code_at(code, 0) == (Code::Push(rcx()), 1int)
            &&& code_at(code, 1) == (Code::Push(rdx()), 2int)
            &&& code_at(code, 2) == (Code::Push(r8()), 4int)
            &&& code_at(code, 4) == (Code::Push(r9()), 6int)
            &&& code_at(code, 6) == (Code::Push(rax()), 7int)
            &&& code_at(code, 7) == (Code::Mov(rax(), log_base), 17int)
            &&& code_at(code, 17) == (
                Code::Load(r10(), Place { base: rax(), index: None, scale: 1, disp: 0 }),
                20int,
            )
            &&& code_at(code, 20) == (
                Code::Lea(r11(), Place { base: r10(), index: Some(r10()), scale: 4, disp: 0 }),
                24int,
            )
            &&& code_at(code, 24) == (
                Code::Lea(r11(), Place { base: rax(), index: Some(r11()), scale: 8, disp: 8 }),
                29int,
            )
            &&& code_at(code, 29) == (Code::Mov(rdx(), hook_id), 39int)
            &&& code_at(code, 39) == (
                Code::Store(Place { base: r11(), index: None, scale: 1, disp: 0 }, rdx()),
                42int,
            )
            &&& code_at(code, 42) == (
                Code::Load(rcx(), Place { base: rsp(), index: None, scale: 1, disp: 32 }),
                47int,
            )
            &&& code_at(code, 47) == (
                Code::Store(Place { base: r11(), index: None, scale: 1, disp: 8 }, rcx()),
                51int,
            )
            &&& code_at(code, 51) == (
                Code::Load(rcx(), Place { base: rsp(), index: None, scale: 1, disp: 24 }),
                56int,
            )
            &&& code_at(code, 56) == (
                Code::Store(Place { base: r11(), index: None, scale: 1, disp: 16 }, rcx()),
                60int,
            )
            &&& code_at(code, 60) == (
                Code::Load(rcx(), Place { base: rsp(), index: None, scale: 1, disp: 16 }),
                65int,
            )
            &&& code_at(code, 65) == (
                Code::Store(Place { base: r11(), index: None, scale: 1, disp: 24 }, rcx()),
                69int,
            )
            &&& code_at(code, 69) == (
                Code::Load(rcx(), Place { base: rsp(), index: None, scale: 1, disp: 8 }),
                74int,
            )
            &&& code_at(code, 74) == (
                Code::Store(Place { base: r11(), index: None, scale: 1, disp: 32 }, rcx()),
                78int,
            )
            &&& code_at(code, 78) == (Code::Inc(r10()), 81int)
            &&& code_at(code, 81) == (
                Code::Store(Place { base: rax(), index: None, scale: 1, disp: 0 }, r10()),
                84int,
            )
            &&& code_at(code, 84) == (Code::Pop(rax()), 85int)
            &&& code_at(code, 85) == (Code::Pop(r9()), 87int)
            &&& code_at(code, 87) == (Code::Pop(r8()), 89int)
            &&& code_at(code, 89) == (Code::Pop(rdx()), 90int)
            &&& code_at(code, 90) == (Code::Pop(rcx()), 91int)
            &&& code_at(code, 91) == (Code::Jump(trampoline), 97int)
        }),
{
    let code = stub_code(log_base, hook_id, trampoline);
    lemma_code_saves(log_base, hook_id, trampoline);
    lemma_code_finds(log_base, hook_id, trampoline);
    lemma_code_copies(log_base, hook_id, trampoline);
    lemma_code_restores(log_base, hook_id, trampoline);
    assert(code_at(code, 91) == (Code::Jump(trampoline), 97int)) by {
        lemma_stub_bytes(log_base, hook_id, trampoline);
        lemma_jump(code.take(91), trampoline);
    }
}

/// Where the stub may run: its stack, the log's counter and the log's next entry
/// do not wrap around and share no byte.
pub open spec fn stub_may_run(log_base: u64, s: Cpu) -> bool {
    let index = word(s.memory, log_base as int);
    let entry = log_base + 8 + 40 * index;
    let top = s.regs[rsp()];
    &&& s.pos == 0
    &&& s.jumped is None
    &&& s.regs.len() == 16
    &&& top >= 40
    &&& entry + 40 <= u64::MAX
    &&& top <= log_base || log_base + 8 <= top - 40
    &&& top <= entry || entry + 40 <= top - 40
}

proof fn lemma_next(s: Cpu, code: Seq<u8>, n: nat)
    ensures
        run(s, code, n + 1) == step(run(s, code, n), code),
{
}

proof fn lemma_push(s: Cpu, code: Seq<u8>, r: int, next: int)
    requires
        code_at(code, s.pos) == (Code::Push(r), next),
        s.regs[rsp()] >= 8,
    ensures
        step(s, code) == (Cpu {
            regs: s.regs.update(rsp(), (s.regs[rsp()] - 8) as u64),
            memory: put(s.memory, s.regs[rsp()] - 8, s.regs[r]),
            pos: next,
            jumped: s.jumped,
        }),
{
    reveal(step);
}

proof fn lemma_pop(s: Cpu, code: Seq<u8>, r: int, next: int)
    requires
        code_at(code, s.pos) == (Code::Pop(r), next),
        s.regs[rsp()] + 8 <= u64::MAX,
    ensures
        step(s, code) == (Cpu {
            regs: s.regs.update(rsp(), (s.regs[rsp()] + 8) as u64).update(
                r,
                word(s.memory, s.regs[rsp()] as int),
            ),
            memory: s.memory,
            pos: next,
            jumped: s.jumped,
        }),
{
    reveal(step);
}

proof fn lemma_mov(s: Cpu, code: Seq<u8>, r: int, v: u64, next: int)
    requires
        code_at(code, s.pos) == (Code::Mov(r, v), next),
    ensures
        step(s, code) == (Cpu {
            regs: s.regs.update(r, v),
            memory: s.memory,
            pos: next,
            jumped: s.jumped,
        }),
{
    reveal(step);
}

proof fn lemma_load(s: Cpu, code: Seq<u8>, r: int, b: int, d: int, next: int)
    requires
        code_at(code, s.pos) == (
            Code::Load(r, Place { base: b, index: None, scale: 1, disp: d }),
            next,
        ),
        0 <= s.regs[b] + d <= u64::MAX,
    ensures
        step(s, code) == (Cpu {
            regs: s.regs.update(r, word(s.memory, s.regs[b] + d)),
            memory: s.memory,
            pos: next,
            jumped: s.jumped,
        }),
{
    reveal(step);
}

proof fn lemma_store(s: Cpu, code: Seq<u8>, r: int, b: int, d: int, next: int)
    requires
        code_at(code, s.pos) == (
            Code::Store(Place { base: b, index: None, scale: 1, disp: d }, r),
            next,
        ),
        0 <= s.regs[b] + d <= u64::MAX,
    ensures
        step(s, code) == (Cpu {
            regs: s.regs,
            memory: put(s.memory, s.regs[b] + d, s.regs[r]),
            pos: next,
            jumped: s.jumped,
        }),
{
    reveal(step);
}

proof fn lemma_lea(s: Cpu, code: Seq<u8>, r: int, p: Place, v: u64, next: int)
    requires
        code_at(code, s.pos) == (Code::Lea(r, p), next),
        address_of(s.regs, p) == v,
    ensures
        step(s, code) == (Cpu {
            regs: s.regs.update(r, v),
            memory: s.memory,
            pos: next,
            jumped: s.jumped,
        }),
{
    reveal(step);
}

/// The stack after the five registers were saved.
spec fn saved(s: Cpu) -> spec_fn(int) -> u8 {
    let top = s.regs[rsp()] as int;
    put(
        put(
            put(
                put(put(s.memory, top - 8, s.regs[rcx()]), top - 16, s.regs[rdx()]),
                top - 24,
                s.regs[r8()],
            ),
            top - 32,
            s.regs[r9()],
        ),
        top - 40,
        s.regs[rax()],
    )
}

/// The stub saves five registers.
proof fn lemma_saves(log_base: u64, hook_id: u64, trampoline: u64, s: Cpu)
    requires
        stub_may_run(log_base, s),
    ensures
        run(s, stub_code(log_base, hook_id, trampoline), 5) == (Cpu {
            regs: s.regs.update(rsp(), (s.regs[rsp()] - 40) as u64),
            memory: saved(s),
            pos: 7,
            jumped: None,
        }),
{
    let code = stub_code(log_base, hook_id, trampoline);
    lemma_stub_code(log_base, hook_id, trampoline);
    let top = s.regs[rsp()] as int;
    let s0 = run(s, code, 0);
    assert(s0 == s);
    lemma_next(s, code, 0);
    lemma_push(s0, code, rcx(), 1);
    let s1 = run(s, code, 1);
    lemma_next(s, code, 1);
    lemma_push(s1, code, rdx(), 2);
    let s2 = run(s, code, 2);
    lemma_next(s, code, 2);
    lemma_push(s2, code, r8(), 4);
    let s3 = run(s, code, 3);
    lemma_next(s, code, 3);
    lemma_push(s3, code, r9(), 6);
    let s4 = run(s, code, 4);
    lemma_next(s, code, 4);
    lemma_push(s4, code, rax(), 7);
    let s5 = run(s, code, 5);
    assert(s5.regs =~= s.regs.update(rsp(), (top - 40) as u64));
    assert(s1.regs[rdx()] == s.regs[rdx()]);
    assert(s2.regs[r8()] == s.regs[r8()]);
    assert(s3.regs[r9()] == s.regs[r9()]);
    assert(s4.regs[rax()] == s.regs[rax()]);
    assert(s5.memory == saved(s));
}

/// A word away from the stub's stack is as it was.
proof fn lemma_saved_apart(s: Cpu, x: int)
    requires
        s.regs[rsp()] <= x || x + 8 <= s.regs[rsp()] - 40,
    ensures
        word(saved(s), x) == word(s.memory, x),
{
    let top = s.regs[rsp()] as int;
    let m1 = put(s.memory, top - 8, s.regs[rcx()]);
    let m2 = put(m1, top - 16, s.regs[rdx()]);
    let m3 = put(m2, top - 24, s.regs[r8()]);
    let m4 = put(m3, top - 32, s.regs[r9()]);
    lemma_word_apart(s.memory, top - 8, s.regs[rcx()], x);
    lemma_word_apart(m1, top - 16, s.regs[rdx()], x);
    lemma_word_apart(m2, top - 24, s.regs[r8()], x);
    lemma_word_apart(m3, top - 32, s.regs[r9()], x);
    lemma_word_apart(m4, top - 40, s.regs[rax()], x);
}

/// The saved registers stand on the stack.
proof fn lemma_saved_words(s: Cpu)
    ensures
        ({
            let top = s.regs[rsp()] as int;
            &&& word(saved(s), top - 8) == s.regs[rcx()]
            &&& word(saved(s), top - 16) == s.regs[rdx()]
            &&& word(saved(s), top - 24) == s.regs[r8()]
            &&& word(saved(s), top - 32) == s.regs[r9()]
            &&& word(saved(s), top - 40) == s.regs[rax()]
        }),
{
    let top = s.regs[rsp()] as int;
    let (a, b, c, d, e) = (
        s.regs[rcx()],
        s.regs[rdx()],
        s.regs[r8()],
        s.regs[r9()],
        s.regs[rax()],
    );
    let m1 = put(s.memory, top - 8, a);
    let m2 = put(m1, top - 16, b);
    let m3 = put(m2, top - 24, c);
    let m4 = put(m3, top - 32, d);
    lemma_word_put(s.memory, top - 8, a);
    lemma_word_apart(m1, top - 16, b, top - 8);
    lemma_word_apart(m2, top - 24, c, top - 8);
    lemma_word_apart(m3, top - 32, d, top - 8);
    lemma_word_apart(m4, top - 40, e, top - 8);
    lemma_word_put(m1, top - 16, b);
    lemma_word_apart(m2, top - 24, c, top - 16);
    lemma_word_apart(m3, top - 32, d, top - 16);
    lemma_word_apart(m4, top - 40, e, top - 16);
    lemma_word_put(m2, top - 24, c);
    lemma_word_apart(m3, top - 32, d, top - 24);
    lemma_word_apart(m4, top - 40, e, top - 24);
    lemma_word_put(m3, top - 32, d);
    lemma_word_apart(m4, top - 40, e, top - 32);
    lemma_word_put(m4, top - 40, e);
}

/// The registers of the stub once it has worked out where the entry goes.
spec fn ready(s: Cpu, log_base: u64, hook_id: u64) -> Seq<u64> {
    let index = word(s.memory, log_base as int);
    s.regs.update(rsp(), (s.regs[rsp()] - 40) as u64).update(rax(), log_base).update(
        r10(),
        index,
    ).update(r11(), (log_base + 8 + 40 * index) as u64).update(rdx(), hook_id)
}

/// The stub works out where the entry goes.
proof fn lemma_finds_entry(log_base: u64, hook_id: u64, trampoline: u64, s: Cpu)
    requires
        stub_may_run(log_base, s),
    ensures
        run(s, stub_code(log_base, hook_id, trampoline), 10) == (Cpu {
            regs: ready(s, log_base, hook_id),
            memory: saved(s),
            pos: 39,
            jumped: None,
        }),
{
    let code = stub_code(log_base, hook_id, trampoline);
    let index = word(s.memory, log_base as int);
    lemma_stub_code(log_base, hook_id, trampoline);
    lemma_saves(log_base, hook_id, trampoline, s);
    lemma_saved_apart(s, log_base as int);
    let s5 = run(s, code, 5);
    lemma_next(s, code, 5);
    lemma_mov(s5, code, rax(), log_base, 17);
    let s6 = run(s, code, 6);
    lemma_next(s, code, 6);
    lemma_load(s6, code, r10(), rax(), 0, 20);
    let s7 = run(s, code, 7);
    assert(s7.regs[r10()] == index);
    let p = Place { base: r10(), index: Some(r10()), scale: 4, disp: 0 };
    assert(index * p.scale == 4 * index) by (nonlinear_arith)
        requires
            p.scale == 4,
    ;
    assert(address_of(s7.regs, p) == 5 * index);
    lemma_next(s, code, 7);
    lemma_lea(s7, code, r11(), p, (5 * index) as u64, 24);
    let s8 = run(s, code, 8);
    let q = Place { base: rax(), index: Some(r11()), scale: 8, disp: 8 };
    let entry = (log_base + 8 + 40 * index) as u64;
    assert(s8.regs[rax()] == log_base && s8.regs[r11()] == 5 * index);
    let five = s8.regs[r11()];
    assert(five * q.scale == 8 * five) by (nonlinear_arith)
        requires
            q.scale == 8,
    ;
    assert(address_of(s8.regs, q) == entry);
    lemma_next(s, code, 8);
    lemma_lea(s8, code, r11(), q, entry, 29);
    let s9 = run(s, code, 9);
    lemma_next(s, code, 9);
    lemma_mov(s9, code, rdx(), hook_id, 39);
    assert(run(s, code, 10).regs =~= ready(s, log_base, hook_id));
}

/// The memory once the entry is stored.
spec fn entry_stored(s: Cpu, m: spec_fn(int) -> u8, at: int, hook_id: u64) -> spec_fn(int) -> u8 {
    put(
        put(
            put(
                put(put(m, at, hook_id), at + 8, s.regs[rcx()]),
                at + 16,
                s.regs[rdx()],
            ),
            at + 24,
            s.regs[r8()],
        ),
        at + 32,
        s.regs[r9()],
    )
}

/// Storing the entry changes no word away from it.
proof fn lemma_entry_apart(s: Cpu, m: spec_fn(int) -> u8, at: int, hook_id: u64, x: int)
    requires
        x + 8 <= at || at + 40 <= x,
    ensures
        word(entry_stored(s, m, at, hook_id), x) == word(m, x),
{
    let m1 = put(m, at, hook_id);
    let m2 = put(m1, at + 8, s.regs[rcx()]);
    let m3 = put(m2, at + 16, s.regs[rdx()]);
    let m4 = put(m3, at + 24, s.regs[r8()]);
    lemma_word_apart(m, at, hook_id, x);
    lemma_word_apart(m1, at + 8, s.regs[rcx()], x);
    lemma_word_apart(m2, at + 16, s.regs[rdx()], x);
    lemma_word_apart(m3, at + 24, s.regs[r8()], x);
    lemma_word_apart(m4, at + 32, s.regs[r9()], x);
}

proof fn lemma_entry_words(s: Cpu, m: spec_fn(int) -> u8, at: int, hook_id: u64)
    ensures
        ({
            let e = entry_stored(s, m, at, hook_id);
            &&& word(e, at) == hook_id
            &&& word(e, at + 8) == s.regs[rcx()]
            &&& word(e, at + 16) == s.regs[rdx()]
            &&& word(e, at + 24) == s.regs[r8()]
            &&& word(e, at + 32) == s.regs[r9()]
        }),
{
    let (a, b, c, d) = (s.regs[rcx()], s.regs[rdx()], s.regs[r8()], s.regs[r9()]);
    let m1 = put(m, at, hook_id);
    let m2 = put(m1, at + 8, a);
    let m3 = put(m2, at + 16, b);
    let m4 = put(m3, at + 24, c);
    lemma_word_put(m, at, hook_id);
    lemma_word_apart(m1, at + 8, a, at);
    lemma_word_apart(m2, at + 16, b, at);
    lemma_word_apart(m3, at + 24, c, at);
    lemma_word_apart(m4, at + 32, d, at);
    lemma_word_put(m1, at + 8, a);
    lemma_word_apart(m2, at + 16, b, at + 8);
    lemma_word_apart(m3, at + 24, c, at + 8);
    lemma_word_apart(m4, at + 32, d, at + 8);
    lemma_word_put(m2, at + 16, b);
    lemma_word_apart(m3, at + 24, c, at + 16);
    lemma_word_apart(m4, at + 32, d, at + 16);
    lemma_word_put(m3, at + 24, c);
    lemma_word_apart(m4, at + 32, d, at + 24);
    lemma_word_put(m4, at + 32, d);
}

/// One argument is copied from the stack to the entry.
proof fn lemma_copy(t: Cpu, code: Seq<u8>, from: int, to: int, mid: int, next: int, v: u64)
    requires
        t.regs.len() == 16,
        code_at(code, t.pos) == (
            Code::Load(rcx(), Place { base: rsp(), index: None, scale: 1, disp: from }),
            mid,
        ),
        code_at(code, mid) == (
            Code::Store(Place { base: r11(), index: None, scale: 1, disp: to }, rcx()),
            next,
        ),
        0 <= t.regs[rsp()] + from <= u64::MAX,
        0 <= t.regs[r11()] + to <= u64::MAX,
        word(t.memory, t.regs[rsp()] + from) == v,
    ensures
        step(step(t, code), code) == (Cpu {
            regs: t.regs.update(rcx(), v),
            memory: put(t.memory, t.regs[r11()] + to, v),
            pos: next,
            jumped: t.jumped,
        }),
{
    lemma_load(t, code, rcx(), rsp(), from, mid);
    let u = step(t, code);
    assert(u.regs[r11()] == t.regs[r11()]);
    lemma_store(u, code, rcx(), r11(), to, next);
}

/// The stub stores the entry.
proof fn lemma_stores_entry(log_base: u64, hook_id: u64, trampoline: u64, s: Cpu)
    requires
        stub_may_run(log_base, s),
    ensures
        run(s, stub_code(log_base, hook_id, trampoline), 19) == (Cpu {
            regs: ready(s, log_base, hook_id).update(rcx(), s.regs[r9()]),
            memory: entry_stored(
                s,
                saved(s),
                log_base + 8 + 40 * word(s.memory, log_base as int),
                hook_id,
            ),
            pos: 78,
            jumped: None,
        }),
{
    let code = stub_code(log_base, hook_id, trampoline);
    let at = log_base + 8 + 40 * word(s.memory, log_base as int);
    let top = s.regs[rsp()] as int;
    lemma_stub_code(log_base, hook_id, trampoline);
    lemma_finds_entry(log_base, hook_id, trampoline, s);
    lemma_saved_words(s);
    let s10 = run(s, code, 10);
    lemma_next(s, code, 10);
    lemma_store(s10, code, rdx(), r11(), 0, 42);
    let s11 = run(s, code, 11);
    let m0 = saved(s);
    let m1 = put(m0, at, hook_id);
    let m2 = put(m1, at + 8, s.regs[rcx()]);
    let m3 = put(m2, at + 16, s.regs[rdx()]);
    let m4 = put(m3, at + 24, s.regs[r8()]);
    assert(s11.memory == m1);
    assert(s11.regs[rsp()] == top - 40 && s11.regs[r11()] == at);
    lemma_word_apart(m0, at, hook_id, top - 8);
    lemma_next(s, code, 11);
    lemma_next(s, code, 12);
    lemma_copy(s11, code, 32, 8, 47, 51, s.regs[rcx()]);
    let s13 = run(s, code, 13);
    assert(s13.memory == m2);
    lemma_word_apart(m0, at, hook_id, top - 16);
    lemma_word_apart(m1, at + 8, s.regs[rcx()], top - 16);
    lemma_next(s, code, 13);
    lemma_next(s, code, 14);
    lemma_copy(s13, code, 24, 16, 56, 60, s.regs[rdx()]);
    let s15 = run(s, code, 15);
    assert(s15.memory == m3);
    lemma_word_apart(m0, at, hook_id, top - 24);
    lemma_word_apart(m1, at + 8, s.regs[rcx()], top - 24);
    lemma_word_apart(m2, at + 16, s.regs[rdx()], top - 24);
    lemma_next(s, code, 15);
    lemma_next(s, code, 16);
    lemma_copy(s15, code, 16, 24, 65, 69, s.regs[r8()]);
    let s17 = run(s, code, 17);
    assert(s17.memory == m4);
    lemma_word_apart(m0, at, hook_id, top - 32);
    lemma_word_apart(m1, at + 8, s.regs[rcx()], top - 32);
    lemma_word_apart(m2, at + 16, s.regs[rdx()], top - 32);
    lemma_word_apart(m3, at + 24, s.regs[r8()], top - 32);
    lemma_next(s, code, 17);
    lemma_next(s, code, 18);
    lemma_copy(s17, code, 8, 32, 74, 78, s.regs[r9()]);
    let s19 = run(s, code, 19);
    assert(s19.regs =~= ready(s, log_base, hook_id).update(rcx(), s.regs[r9()]));
}

/// The memory when the stub is done.
spec fn stub_memory(s: Cpu, log_base: u64, hook_id: u64) -> spec_fn(int) -> u8 {
    let index = word(s.memory, log_base as int);
    put(
        entry_stored(s, saved(s), log_base + 8 + 40 * index, hook_id),
        log_base as int,
        (index + 1) as u64,
    )
}

proof fn lemma_run_on(s: Cpu, code: Seq<u8>, a: nat, b: nat)
    ensures
        run(s, code, a + b) == run(run(s, code, a), code, b),
    decreases b,
{
    if b > 0 {
        lemma_run_on(s, code, a, (b - 1) as nat);
    }
}

/// The stub counts.
proof fn lemma_counts(log_base: u64, hook_id: u64, trampoline: u64, s: Cpu)
    requires
        stub_may_run(log_base, s),
    ensures
        run(s, stub_code(log_base, hook_id, trampoline), 21) == (Cpu {
            regs: ready(s, log_base, hook_id).update(rcx(), s.regs[r9()]).update(
                r10(),
                (word(s.memory, log_base as int) + 1) as u64,
            ),
            memory: stub_memory(s, log_base, hook_id),
            pos: 84,
            jumped: None,
        }),
{
    let code = stub_code(log_base, hook_id, trampoline);
    let index = word(s.memory, log_base as int);
    lemma_stub_code(log_base, hook_id, trampoline);
    lemma_stores_entry(log_base, hook_id, trampoline, s);
    let s19 = run(s, code, 19);
    lemma_next(s, code, 19);
    let s20 = run(s, code, 20);
    assert(s20 == (Cpu { regs: s19.regs.update(r10(), (index + 1) as u64), pos: 81, ..s19 })) by {
        reveal(step);
        assert(s19.regs[r10()] == index);
    }
    lemma_next(s, code, 20);
    lemma_store(s20, code, r10(), rax(), 0, 84);
}

/// The stub restores the five registers and jumps.
proof fn lemma_restores(log_base: u64, hook_id: u64, trampoline: u64, t: Cpu, top: int)
    requires
        t.regs.len() == 16,
        t.pos == 84,
        40 <= top <= u64::MAX,
        t.regs[rsp()] == top - 40,
    ensures
        run(t, stub_code(log_base, hook_id, trampoline), 6) == (Cpu {
            regs: t.regs.update(rsp(), top as u64).update(rax(), word(t.memory, top - 40)).update(
                r9(),
                word(t.memory, top - 32),
            ).update(r8(), word(t.memory, top - 24)).update(rdx(), word(t.memory, top - 16)).update(
                rcx(),
                word(t.memory, top - 8),
            ),
            memory: t.memory,
            pos: 97,
            jumped: Some(trampoline),
        }),
{
    let code = stub_code(log_base, hook_id, trampoline);
    lemma_stub_code(log_base, hook_id, trampoline);
    assert(run(t, code, 0) == t);
    lemma_next(t, code, 0);
    lemma_pop(t, code, rax(), 85);
    let s1 = run(t, code, 1);
    assert(s1.regs[rsp()] == top - 32);
    lemma_next(t, code, 1);
    lemma_pop(s1, code, r9(), 87);
    let s2 = run(t, code, 2);
    assert(s2.regs[rsp()] == top - 24);
    lemma_next(t, code, 2);
    lemma_pop(s2, code, r8(), 89);
    let s3 = run(t, code, 3);
    assert(s3.regs[rsp()] == top - 16);
    lemma_next(t, code, 3);
    lemma_pop(s3, code, rdx(), 90);
    let s4 = run(t, code, 4);
    assert(s4.regs[rsp()] == top - 8);
    lemma_next(t, code, 4);
    lemma_pop(s4, code, rcx(), 91);
    let s5 = run(t, code, 5);
    lemma_next(t, code, 5);
    let s6 = run(t, code, 6);
    assert(s6 == (Cpu { jumped: Some(trampoline), pos: 97, ..s5 })) by {
        reveal(step);
    }
    assert(s6.regs =~= t.regs.update(rsp(), top as u64).update(
        rax(),
        word(t.memory, top - 40),
    ).update(r9(), word(t.memory, top - 32)).update(r8(), word(t.memory, top - 24)).update(
        rdx(),
        word(t.memory, top - 16),
    ).update(rcx(), word(t.memory, top - 8)));
}

/// A word of the stub's stack is there to the end.
proof fn lemma_stack_kept(log_base: u64, hook_id: u64, s: Cpu, x: int)
    requires
        stub_may_run(log_base, s),
        s.regs[rsp()] - 40 <= x,
        x + 8 <= s.regs[rsp()],
    ensures
        word(stub_memory(s, log_base, hook_id), x) == word(saved(s), x),
{
    let index = word(s.memory, log_base as int);
    let at = log_base + 8 + 40 * index;
    lemma_entry_apart(s, saved(s), at, hook_id, x);
    lemma_word_apart(
        entry_stored(s, saved(s), at, hook_id),
        log_base as int,
        (index + 1) as u64,
        x,
    );
}

/// The stub counts, restores and jumps.
proof fn lemma_finishes(log_base: u64, hook_id: u64, trampoline: u64, s: Cpu)
    requires
        stub_may_run(log_base, s),
    ensures
        ({
            let index = word(s.memory, log_base as int);
            let t = run(s, stub_code(log_base, hook_id, trampoline), 27);
            &&& t.jumped == Some(trampoline)
            &&& t.memory == stub_memory(s, log_base, hook_id)
            &&& t.regs == s.regs.update(r10(), (index + 1) as u64).update(
                r11(),
                (log_base + 8 + 40 * index) as u64,
            )
        }),
{
    let code = stub_code(log_base, hook_id, trampoline);
    let index = word(s.memory, log_base as int);
    let top = s.regs[rsp()] as int;
    lemma_counts(log_base, hook_id, trampoline, s);
    let t = run(s, code, 21);
    lemma_restores(log_base, hook_id, trampoline, t, top);
    lemma_run_on(s, code, 21, 6);
    lemma_saved_words(s);
    lemma_stack_kept(log_base, hook_id, s, top - 40);
    lemma_stack_kept(log_base, hook_id, s, top - 32);
    lemma_stack_kept(log_base, hook_id, s, top - 24);
    lemma_stack_kept(log_base, hook_id, s, top - 16);
    lemma_stack_kept(log_base, hook_id, s, top - 8);
    assert(run(s, code, 27).regs =~= s.regs.update(r10(), (index + 1) as u64).update(
        r11(),
        (log_base + 8 + 40 * index) as u64,
    ));
}

/// When the stub has run, the log's next entry holds the hook id and the four
/// arguments that were in `rcx`, `rdx`, `r8` and `r9`, in this order; the log's
/// counter is one higher; every register but the scratch registers `r10` and
/// `r11` is as it was; nothing else in memory has changed but the stub's own
/// stack below the stack pointer; and the trampoline comes next.
pub proof fn stub_logs_the_call(log_base: u64, hook_id: u64, trampoline: u64, s: Cpu)
    requires
        stub_may_run(log_base, s),
    ensures
        ({
            let t = run(s, stub_code(log_base, hook_id, trampoline), 27);
            let index = word(s.memory, log_base as int);
            let entry = log_base + 8 + 40 * index;
            let top = s.regs[4] as int;
            &&& t.jumped == Some(trampoline)
            &&& word(t.memory, log_base as int) == index + 1
            &&& word(t.memory, entry) == hook_id
            &&& word(t.memory, entry + 8) == s.regs[1]
            &&& word(t.memory, entry + 16) == s.regs[2]
            &&& word(t.memory, entry + 24) == s.regs[8]
            &&& word(t.memory, entry + 32) == s.regs[9]
            &&& t.regs.len() == 16
            &&& forall|r: int| 0 <= r < 16 && r != 10 && r != 11 ==> #[trigger] t.regs[r] == s.regs[r]
            &&& forall|x: int|
                !(log_base <= x < log_base + 8) && !(entry <= x < entry + 40) && !(top - 40 <= x
                    < top) ==> #[trigger] (t.memory)(x) == (s.memory)(x)
        }),
{
    let t = run(s, stub_code(log_base, hook_id, trampoline), 27);
    let index = word(s.memory, log_base as int);
    let at = log_base + 8 + 40 * index;
    let top = s.regs[rsp()] as int;
    let m = entry_stored(s, saved(s), at, hook_id);
    let v = (index + 1) as u64;
    lemma_finishes(log_base, hook_id, trampoline, s);
    lemma_entry_words(s, saved(s), at, hook_id);
    lemma_word_put(m, log_base as int, v);
    lemma_word_apart(m, log_base as int, v, at);
    lemma_word_apart(m, log_base as int, v, at + 8);
    lemma_word_apart(m, log_base as int, v, at + 16);
    lemma_word_apart(m, log_base as int, v, at + 24);
    lemma_word_apart(m, log_base as int, v, at + 32);
    assert forall|x: int|
        !(log_base <= x < log_base + 8) && !(at <= x < at + 40) && !(top - 40 <= x
            < top) implies #[trigger] (t.memory)(x) == (s.memory)(x) by {
        reveal(put);
    }
}

/// The bytes of the first `n` entries of the log at `log_base`.
pub open spec fn log_bytes(memory: spec_fn(int) -> u8, log_base: u64, n: nat) -> Seq<u8> {
    Seq::new(40 * n, |k: int| memory(log_base + 8 + k))
}

/// What the stub logs is what is read from the log: the new entry is the call
/// with its hook's id and its four arguments, and the entries before it are as
/// they were.
pub proof fn logged_calls_are_read_back(
    log_base: u64,
    hook_id: u64,
    trampoline: u64,
    s: Cpu,
    hooks: Seq<HookModel>,
    j: int,
)
    requires
        stub_may_run(log_base, s),
        s.regs[4] <= log_base || log_base + 8 + 40 * word(s.memory, log_base as int) + 40
            <= s.regs[4] - 40,
    ensures
        ({
            let t = run(s, stub_code(log_base, hook_id, trampoline), 27);
            let index = word(s.memory, log_base as int);
            let n = (index + 1) as nat;
            let log = logged_entries(hooks, log_bytes(t.memory, log_base, n), n);
            let call = log[index as int];
            &&& call.hook_id == hook_id
            &&& call.arg1 == s.regs[1]
            &&& call.arg2 == s.regs[2]
            &&& call.arg3 == s.regs[8]
            &&& call.arg4 == s.regs[9]
            &&& 0 <= j < index ==> log[j] == logged_entries(
                hooks,
                log_bytes(s.memory, log_base, index as nat),
                index as nat,
            )[j]
        }),
{
    let t = run(s, stub_code(log_base, hook_id, trampoline), 27);
    let index = word(s.memory, log_base as int);
    let n = (index + 1) as nat;
    let at = log_base + 8 + 40 * index;
    stub_logs_the_call(log_base, hook_id, trampoline, s);
    let b = log_bytes(t.memory, log_base, n);
    lemma_logged_word(t.memory, log_base, n, index as int, 0);
    lemma_logged_word(t.memory, log_base, n, index as int, 1);
    lemma_logged_word(t.memory, log_base, n, index as int, 2);
    lemma_logged_word(t.memory, log_base, n, index as int, 3);
    lemma_logged_word(t.memory, log_base, n, index as int, 4);
    if 0 <= j < index {
        let o = log_bytes(s.memory, log_base, index as nat);
        assert forall|k: int| 0 <= k < 5 implies #[trigger] logged_word(b, j, k) == logged_word(
            o,
            j,
            k,
        ) by {
            assert(b.subrange(40 * j + 8 * k, 40 * j + 8 * k + 8) =~= o.subrange(
                40 * j + 8 * k,
                40 * j + 8 * k + 8,
            ));
        }
        assert(logged_word(b, j, 0) == logged_word(o, j, 0));
        assert(logged_word(b, j, 1) == logged_word(o, j, 1));
        assert(logged_word(b, j, 2) == logged_word(o, j, 2));
        assert(logged_word(b, j, 3) == logged_word(o, j, 3));
        assert(logged_word(b, j, 4) == logged_word(o, j, 4));
    }
}

proof fn lemma_logged_word(memory: spec_fn(int) -> u8, log_base: u64, n: nat, i: int, k: int)
    requires
        0 <= i < n,
        0 <= k < 5,
    ensures
        logged_word(log_bytes(memory, log_base, n), i, k) == word(
            memory,
            log_base + 8 + 40 * i + 8 * k,
        ),
{
    reveal(word);
    let b = log_bytes(memory, log_base, n);
    let o = 40 * i + 8 * k;
    let e = eight(memory, log_base + 8 + 40 * i + 8 * k);
    assert(b.subrange(o, o + 8) =~= e);
    numbers_are_little_endian(e, 0);
    assert(e.subrange(0, 8) =~= e);
}

/// An entry of the log is its five numbers, and the name that its hook has.
pub proof fn log_entries_are_five_numbers(hooks: Seq<HookModel>, b: Seq<u8>, n: nat, i: int)
    requires
        40 * n <= b.len(),
        0 <= i < n,
    ensures
        ({
            let e = logged_entries(hooks, b, n)[i];
            &&& logged_entries(hooks, b, n).len() == n
            &&& e.hook_id == u64_at(b, 40 * i)
            &&& e.arg1 == u64_at(b, 40 * i + 8)
            &&& e.arg2 == u64_at(b, 40 * i + 16)
            &&& e.arg3 == u64_at(b, 40 * i + 24)
            &&& e.arg4 == u64_at(b, 40 * i + 32)
            &&& forall|h: int|
                0 <= h < hooks.len() && (#[trigger] hooks[h]).id == e.hook_id && (forall|g: int|
                    0 <= g < h ==> (#[trigger] hooks[g]).id != e.hook_id) ==> e.name
                    == hooks[h].name
            &&& (forall|h: int| 0 <= h < hooks.len() ==> (#[trigger] hooks[h]).id != e.hook_id)
                ==> e.name.len() == 0
        }),
{
    numbers_are_little_endian(b, 40 * i);
    numbers_are_little_endian(b, 40 * i + 8);
    numbers_are_little_endian(b, 40 * i + 16);
    numbers_are_little_endian(b, 40 * i + 24);
    numbers_are_little_endian(b, 40 * i + 32);
    let id = u64_at(b, 40 * i);
    assert forall|h: int|
        0 <= h < hooks.len() && (#[trigger] hooks[h]).id == id && (forall|g: int|
            0 <= g < h ==> (#[trigger] hooks[g]).id != id) implies hook_name(hooks, id)
        == hooks[h].name by {
        lemma_hook_name(hooks, id, h);
    }
    if forall|h: int| 0 <= h < hooks.len() ==> (#[trigger] hooks[h]).id != id {
        lemma_no_hook_name(hooks, id);
    }
}

proof fn lemma_hook_name(hooks: Seq<HookModel>, id: u64, h: int)
    requires
        0 <= h < hooks.len(),
        hooks[h].id == id,
        forall|g: int| 0 <= g < h ==> (#[trigger] hooks[g]).id != id,
    ensures
        hook_name(hooks, id) == hooks[h].name,
    decreases h,
{
    if h > 0 {
        let rest = hooks.drop_first();
        assert(hooks[0].id != id);
        assert forall|g: int| 0 <= g < h - 1 implies (#[trigger] rest[g]).id != id by {
            assert(rest[g] == hooks[g + 1]);
        }
        lemma_hook_name(rest, id, h - 1);
    }
}

proof fn lemma_no_hook_name(hooks: Seq<HookModel>, id: u64)
    requires
        forall|h: int| 0 <= h < hooks.len() ==> (#[trigger] hooks[h]).id != id,
    ensures
        hook_name(hooks, id).len() == 0,
    decreases hooks.len(),
{
    if hooks.len() > 0 {
        let rest = hooks.drop_first();
        assert forall|g: int| 0 <= g < rest.len() implies (#[trigger] rest[g]).id != id by {
            assert(rest[g] == hooks[g + 1]);
        }
        lemma_no_hook_name(rest, id);
    }
}

/// An installed hook is a chain: the jump over the function's beginning goes to
/// the stub, the stub to the trampoline, and the trampoline runs the function's
/// own first bytes and goes on behind the jump. Stub and trampoline do not
/// overlap.
pub proof fn installed_hook_leads_back(
    log_base: u64,
    id: u64,
    function_addr: u64,
    region: u64,
    original: Seq<u8>,
    s: Cpu,
    t: Cpu,
)
    requires
        original.len() == 14,
        function_addr + 14 <= u64::MAX,
        region + 0x140 <= u64::MAX,
        stub_may_run(log_base, s),
        t.pos == 14,
        t.jumped is None,
    ensures
        ({
            let w = hook_writes(log_base, id, function_addr, region, original);
            &&& w.len() == 3
            &&& w[2].at == function_addr
            &&& w[2].bytes.len() == original.len()
            &&& run(s, w[2].bytes, 1).jumped == Some(w[0].at)
            &&& run(s, w[0].bytes, 27).jumped == Some(w[1].at)
            &&& w[1].bytes.take(14) == original
            &&& run(t, w[1].bytes, 1).jumped == Some((function_addr + original.len()) as u64)
            &&& w[0].at + w[0].bytes.len() <= w[1].at
            &&& w[1].at + w[1].bytes.len() <= region + 0x140
        }),
{
    let w = hook_writes(log_base, id, function_addr, region, original);
    patch_jumps_to_its_target(region, s);
    lemma_stub_bytes(log_base, id, w[1].at);
    stub_logs_the_call(log_base, id, w[1].at, s);
    trampoline_jumps_back(original, function_addr, t);
    lemma_imm((function_addr + 14) as u64);
}

} // verus!
