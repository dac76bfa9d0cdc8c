//! The code generator.
//!
//! Each instruction is encoded as exactly 16 binary digit characters, most
//! significant bit first.  An address instruction is `0` followed by the
//! 15-bit value; a compute instruction is `111`, the 7-bit computation
//! code, the 3-bit destination code and the 3-bit jump code, taken from
//! fixed mnemonic-to-code tables.

use crate::parser::{BInstructionComp, BInstructionDest, BInstructionJump, Instruction, Program};
use vstd::prelude::*;
use vstd::string::*;

verus! {

/// The 7-bit code of a computation mnemonic.
pub open spec fn comp_code_spec(comp: BInstructionComp) -> u16 {
    match comp {
        BInstructionComp::Zero => 0b0101010,
        BInstructionComp::One => 0b0111111,
        BInstructionComp::MinusOne => 0b0111010,
        BInstructionComp::D => 0b0001100,
        BInstructionComp::A => 0b0110000,
        BInstructionComp::NotD => 0b0001101,
        BInstructionComp::NotA => 0b0110001,
        BInstructionComp::MinusD => 0b0001111,
        BInstructionComp::MinusA => 0b0110011,
        BInstructionComp::DPlusOne => 0b0011111,
        BInstructionComp::APlusOne => 0b0110111,
        BInstructionComp::DMinusOne => 0b0001110,
        BInstructionComp::AMinusOne => 0b0110010,
        BInstructionComp::DPlusA => 0b0000010,
        BInstructionComp::DMinusA => 0b0010011,
        BInstructionComp::AMinusD => 0b0000111,
        BInstructionComp::DAndA => 0b0000000,
        BInstructionComp::DOrA => 0b0010101,
        BInstructionComp::M => 0b1110000,
        BInstructionComp::NotM => 0b1110001,
        BInstructionComp::MinusM => 0b1110011,
        BInstructionComp::MPlusOne => 0b1110111,
        BInstructionComp::MMinusOne => 0b1110010,
        BInstructionComp::DPlusM => 0b1000010,
        BInstructionComp::DMinusM => 0b1010011,
        BInstructionComp::MMinusD => 0b1000111,
        BInstructionComp::DAndM => 0b1000000,
        BInstructionComp::DOrM => 0b1010101,
    }
}

/// The 3-bit code of a destination mnemonic.
pub open spec fn dest_code_spec(dest: BInstructionDest) -> u16 {
    match dest {
        BInstructionDest::Null => 0b000,
        BInstructionDest::M => 0b001,
        BInstructionDest::D => 0b010,
        BInstructionDest::MD => 0b011,
        BInstructionDest::A => 0b100,
        BInstructionDest::AM => 0b101,
        BInstructionDest::AD => 0b110,
        BInstructionDest::AMD => 0b111,
    }
}

/// The 3-bit code of a jump mnemonic.
pub open spec fn jump_code_spec(jump: BInstructionJump) -> u16 {
    match jump {
        BInstructionJump::Null => 0b000,
        BInstructionJump::JGT => 0b001,
        BInstructionJump::JEQ => 0b010,
        BInstructionJump::JGE => 0b011,
        BInstructionJump::JLT => 0b100,
        BInstructionJump::JNE => 0b101,
        BInstructionJump::JLE => 0b110,
        BInstructionJump::JMP => 0b111,
    }
}

/// The 16-bit machine word of an instruction.
pub open spec fn instr_word(i: Instruction) -> u16 {
    match i {
        Instruction::AInstruction(a) => a.value,
        Instruction::BInstruction(b) => (7u16 << 13) | (comp_code_spec(b.comp) << 6) | (
        dest_code_spec(b.dest) << 3) | jump_code_spec(b.jump),
    }
}

/// Whether bit `k` (counted from the least significant end) of `w` is set.
pub open spec fn wbit(w: u16, k: int) -> bool
    recommends
        0 <= k < 16,
{
    (w >> (k as u16)) & 1 == 1
}

/// The 16 binary digit characters of a word, most significant bit first.
pub open spec fn bits_of(w: u16) -> Seq<char> {
    Seq::new(16, |j: int| if wbit(w, 15 - j) { '1' } else { '0' })
}

/// The encoding of one instruction.
pub open spec fn encoding_spec(i: Instruction) -> Seq<char> {
    bits_of(instr_word(i))
}

fn generate_instruction_comp_code(comp: &BInstructionComp) -> (r: u16)
    ensures
        r == comp_code_spec(*comp),
{
    match comp {
        BInstructionComp::Zero => 0b0101010,
        BInstructionComp::One => 0b0111111,
        BInstructionComp::MinusOne => 0b0111010,
        BInstructionComp::D => 0b0001100,
        BInstructionComp::A => 0b0110000,
        BInstructionComp::NotD => 0b0001101,
        BInstructionComp::NotA => 0b0110001,
        BInstructionComp::MinusD => 0b0001111,
        BInstructionComp::MinusA => 0b0110011,
        BInstructionComp::DPlusOne => 0b0011111,
        BInstructionComp::APlusOne => 0b0110111,
        BInstructionComp::DMinusOne => 0b0001110,
        BInstructionComp::AMinusOne => 0b0110010,
        BInstructionComp::DPlusA => 0b0000010,
        BInstructionComp::DMinusA => 0b0010011,
        BInstructionComp::AMinusD => 0b0000111,
        BInstructionComp::DAndA => 0b0000000,
        BInstructionComp::DOrA => 0b0010101,
        BInstructionComp::M => 0b1110000,
        BInstructionComp::NotM => 0b1110001,
        BInstructionComp::MinusM => 0b1110011,
        BInstructionComp::MPlusOne => 0b1110111,
        BInstructionComp::MMinusOne => 0b1110010,
        BInstructionComp::DPlusM => 0b1000010,
        BInstructionComp::DMinusM => 0b1010011,
        BInstructionComp::MMinusD => 0b1000111,
        BInstructionComp::DAndM => 0b1000000,
        BInstructionComp::DOrM => 0b1010101,
    }
}

fn generate_instruction_dest_code(dest: &BInstructionDest) -> (r: u16)
    ensures
        r == dest_code_spec(*dest),
{
    match dest {
        BInstructionDest::Null => 0b000,
        BInstructionDest::M => 0b001,
        BInstructionDest::D => 0b010,
        BInstructionDest::MD => 0b011,
        BInstructionDest::A => 0b100,
        BInstructionDest::AM => 0b101,
        BInstructionDest::AD => 0b110,
        BInstructionDest::AMD => 0b111,
    }
}

fn generate_instruction_jump_code(jump: &BInstructionJump) -> (r: u16)
    ensures
        r == jump_code_spec(*jump),
{
    match jump {
        BInstructionJump::Null => 0b000,
        BInstructionJump::JGT => 0b001,
        BInstructionJump::JEQ => 0b010,
        BInstructionJump::JGE => 0b011,
        BInstructionJump::JLT => 0b100,
        BInstructionJump::JNE => 0b101,
        BInstructionJump::JLE => 0b110,
        BInstructionJump::JMP => 0b111,
    }
}

/// The 16 binary digits of a word, as a string.
fn bits_to_string(w: u16) -> (r: String)
    ensures
        r@ == bits_of(w),
{
    let mut s = String::new();
    proof {
        assert(s@ =~= bits_of(w).take(0));
    }
    let mut j: usize = 0;
    while j < 16
        invariant
            j <= 16,
            s@ == bits_of(w).take(j as int),
        decreases 16 - j,
    {
        let ghost prev = s@;
        let k: u16 = 15 - (j as u16);
        let b: u16 = (w >> k) & 1;
        if b == 1 {
            s.append("1");
        } else {
            s.append("0");
        }
        j = j + 1;
        proof {
            reveal_strlit("0");
            reveal_strlit("1");
            assert("1"@ =~= seq!['1']);
            assert("0"@ =~= seq!['0']);
            assert(bits_of(w)[j - 1] == (if wbit(w, 15 - (j - 1)) {
                '1'
            } else {
                '0'
            }));
            assert(s@ =~= bits_of(w).take(j as int));
        }
    }
    proof {
        assert(bits_of(w).take(16) =~= bits_of(w));
    }
    s
}

fn generate_instruction_code(instruction: &Instruction) -> (r: String)
    ensures
        r@ == encoding_spec(*instruction),
{
    match instruction {
        Instruction::AInstruction(ins) => bits_to_string(ins.value),
        Instruction::BInstruction(ins) => {
            let comp_code = generate_instruction_comp_code(&ins.comp);
            let dest_code = generate_instruction_dest_code(&ins.dest);
            let jump_code = generate_instruction_jump_code(&ins.jump);
            bits_to_string((7u16 << 13) | (comp_code << 6) | (dest_code << 3) | jump_code)
        },
    }
}

/// Encodes a parsed program: one 16-digit line per instruction, in order.
pub fn generate_code(program: &Program) -> (r: Vec<String>)
    ensures
        r@.len() == program@.len(),
        forall|i: int| 0 <= i < program@.len() ==> (#[trigger] r@[i])@ == encoding_spec(
            program@[i],
        ),
{
    let mut r: Vec<String> = Vec::new();
    let mut i: usize = 0;
    while i < program.len()
        invariant
            i <= program@.len(),
            r@.len() == i,
            forall|j: int| 0 <= j < i ==> (#[trigger] r@[j])@ == encoding_spec(program@[j]),
        decreases program@.len() - i,
    {
        let s = generate_instruction_code(&program[i]);
        r.push(s);
        i = i + 1;
    }
    r
}

/// Every encoding is exactly 16 characters, each a binary digit.
pub proof fn lemma_encoding_shape(i: Instruction)
    ensures
        encoding_spec(i).len() == 16,
        forall|j: int|
            0 <= j < 16 ==> (#[trigger] encoding_spec(i)[j] == '0' || encoding_spec(i)[j] == '1'),
{
}

/// Every address instruction in the 15-bit range encodes with its top bit
/// clear.
pub proof fn lemma_address_encoding_msb(i: Instruction)
    requires
        i matches Instruction::AInstruction(a) && a.value <= 32767,
    ensures
        encoding_spec(i)[0] == '0',
{
    let w = instr_word(i);
    assert(w <= 32767 ==> ((w >> 15u16) & 1 != 1)) by (bit_vector);
}

/// Every compute instruction encodes with its top three bits set.
pub proof fn lemma_compute_encoding_prefix(i: Instruction)
    requires
        i matches Instruction::BInstruction(_),
    ensures
        encoding_spec(i)[0] == '1',
        encoding_spec(i)[1] == '1',
        encoding_spec(i)[2] == '1',
{
    let b = i->BInstruction_0;
    let cc = comp_code_spec(b.comp);
    let dc = dest_code_spec(b.dest);
    let jc = jump_code_spec(b.jump);
    let w = (7u16 << 13) | (cc << 6) | (dc << 3) | jc;
    assert((((7u16 << 13) | (cc << 6) | (dc << 3) | jc) >> 15u16) & 1 == 1) by (bit_vector);
    assert((((7u16 << 13) | (cc << 6) | (dc << 3) | jc) >> 14u16) & 1 == 1) by (bit_vector);
    assert((((7u16 << 13) | (cc << 6) | (dc << 3) | jc) >> 13u16) & 1 == 1) by (bit_vector);
}

} // verus!

