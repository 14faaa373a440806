//! The x86 instructions of a byte range, as far as IAT scanning reads them.

use iced_x86::{Decoder, DecoderOptions, Encoder, Mnemonic, OpKind, Register};
use vstd::prelude::*;

verus! {

/// The instruction families that reference an IAT slot, and everything else.
#[derive(Debug, Clone, Copy, PartialEq, Eq, Structural)]
pub enum InsnKind {
    Call,
    Jmp,
    Push,
    Mov,
    Lea,
    Other,
}

/// One decoded instruction.
#[derive(Debug, PartialEq, Eq)]
pub struct Insn {
    /// How many bytes it takes.
    pub len: usize,
    pub kind: InsnKind,
    /// Whether its memory operand is relative to the instruction pointer.
    pub ip_relative: bool,
    /// The address such an operand refers to.
    pub ip_target: u64,
    /// For each operand, whether it is a memory operand.
    pub memory_operands: Vec<bool>,
    pub has_base: bool,
    pub has_index: bool,
    /// The displacement of its memory operand.
    pub displacement: u64,
}

/// A decoded instruction as mathematical values.
pub struct InsnModel {
    pub len: nat,
    pub kind: InsnKind,
    pub ip_relative: bool,
    pub ip_target: u64,
    pub memory_operands: Seq<bool>,
    pub has_base: bool,
    pub has_index: bool,
    pub displacement: u64,
}

impl View for Insn {
    type V = InsnModel;

    open spec fn view(&self) -> InsnModel {
        InsnModel {
            len: self.len as nat,
            kind: self.kind,
            ip_relative: self.ip_relative,
            ip_target: self.ip_target,
            memory_operands: self.memory_operands@,
            has_base: self.has_base,
            has_index: self.has_index,
            displacement: self.displacement,
        }
    }
}

/// The instruction that `iced_x86` decodes at the start of `bytes`, when `ip`
/// is the address of the first byte.
pub uninterp spec fn decoded(bitness: u32, bytes: Seq<u8>, ip: u64) -> InsnModel;

/// `iced_x86::Decoder::decode` on the first instruction of `bytes`, for the
/// given bitness and address and with no decoder options. The instruction is a
/// function of these alone and has the name `decoded`. It takes at least one
/// byte and no more than there are: an invalid or cut-off instruction takes
/// the bytes that were looked at.
#[verifier::external_body]
pub(crate) fn decode_one(bitness: u32, bytes: &[u8], ip: u64) -> (r: Insn)
    requires
        bitness == 32 || bitness == 64,
        bytes@.len() > 0,
    ensures
        r@ == decoded(bitness, bytes@, ip),
        1 <= r.len <= bytes@.len(),
{
    let mut decoder = Decoder::with_ip(bitness, bytes, ip, DecoderOptions::NONE);
    let insn = decoder.decode();
    let kind = match insn.mnemonic() {
        Mnemonic::Call => InsnKind::Call,
        Mnemonic::Jmp => InsnKind::Jmp,
        Mnemonic::Push => InsnKind::Push,
        Mnemonic::Mov => InsnKind::Mov,
        Mnemonic::Lea => InsnKind::Lea,
        _ => InsnKind::Other,
    };
    let memory_operands = insn.op_kinds().map(|k| matches!(k, OpKind::Memory)).collect();
    Insn { len: decoder.position(), kind, memory_operands, ip_target: insn.ip_rel_memory_address(),
        ip_relative: insn.is_ip_rel_memory_operand(), displacement: insn.memory_displacement64(),
        has_base: insn.memory_base() != Register::None,
        has_index: insn.memory_index() != Register::None }
}

/// The bytes that `iced_x86` gives for the instruction at the start of `bytes`
/// after its memory displacement was set to `target`, if it can be encoded.
pub uninterp spec fn reencoded(bitness: u32, bytes: Seq<u8>, ip: u64, target: u64) -> Option<
    Seq<u8>,
>;

/// `iced_x86::Encoder::encode` at the address `ip`, on the first instruction of
/// `bytes` after `Instruction::set_memory_displacement64(target)`. `None` when
/// the encoder reports an error. The result is a function of the arguments
/// alone and has the name `reencoded`; its length is left open.
#[verifier::external_body]
pub(crate) fn reencode_one(bitness: u32, bytes: &[u8], ip: u64, target: u64) -> (r: Option<Vec<u8>>)
    requires
        bitness == 32 || bitness == 64,
        bytes@.len() > 0,
    ensures
        match r {
            Some(b) => reencoded(bitness, bytes@, ip, target) == Some(b@),
            None => reencoded(bitness, bytes@, ip, target) is None,
        },
{
    let mut insn = Decoder::with_ip(bitness, bytes, ip, DecoderOptions::NONE).decode();
    insn.set_memory_displacement64(target);
    let mut encoder = Encoder::new(bitness);
    match encoder.encode(&insn, ip) {
        Ok(_) => Some(encoder.take_buffer()),
        Err(_) => None,
    }
}

} // verus!
