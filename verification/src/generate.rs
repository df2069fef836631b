//! The encoder: from resolved instructions to words of four bytes.

use vstd::prelude::*;
use crate::error::{AssembleError, Failure, UnsupportedInstructionError};
use crate::parse::{Instruction, InstructionView, Shape};
use crate::resolve::{lemma_resolved_has_no_labels, resolve, symbol_table};

verus! {

/// What the opcode table holds for a mnemonic and a shape: the 4-bit code,
/// the reset bit, the flag bit and the 2-bit offset.
pub open spec fn opcode_table(mnemonic: Seq<char>, shape: Shape) -> Option<(u8, bool, bool, u8)> {
    if mnemonic == "ADD"@ {
        match shape {
            Shape::RegReg => Some((0b0000u8, false, false, 0u8)),
            Shape::RegCst => Some((0b0001u8, false, false, 0u8)),
            _ => None,
        }
    } else if mnemonic == "ADDC"@ {
        match shape {
            Shape::RegReg => Some((0b0000u8, false, true, 0u8)),
            Shape::RegCst => Some((0b0001u8, false, true, 0u8)),
            _ => None,
        }
    } else if mnemonic == "SUB"@ {
        match shape {
            Shape::RegReg => Some((0b0011u8, false, false, 0u8)),
            Shape::RegCst => Some((0b0111u8, false, false, 0u8)),
            _ => None,
        }
    } else if mnemonic == "SUBC"@ {
        match shape {
            Shape::RegReg => Some((0b0011u8, false, true, 0u8)),
            Shape::RegCst => Some((0b0111u8, false, true, 0u8)),
            _ => None,
        }
    } else if mnemonic == "MOV"@ {
        match shape {
            Shape::RegReg => Some((0b0000u8, true, false, 0u8)),
            Shape::RegCst => Some((0b0001u8, true, false, 0u8)),
            _ => None,
        }
    } else if mnemonic == "PUSH"@ {
        match shape {
            Shape::Reg => Some((0b0010u8, false, false, 0u8)),
            _ => None,
        }
    } else if mnemonic == "POP"@ {
        match shape {
            Shape::Reg => Some((0b0010u8, true, false, 0u8)),
            _ => None,
        }
    } else if mnemonic == "LDR"@ {
        match shape {
            Shape::RegPtr => Some((0b0100u8, false, false, 0u8)),
            Shape::RegCst => Some((0b0101u8, true, false, 0u8)),
            _ => None,
        }
    } else if mnemonic == "STR"@ {
        match shape {
            Shape::RegPtr => Some((0b1000u8, true, false, 0u8)),
            Shape::RegCst => Some((0b1001u8, true, false, 0u8)),
            _ => None,
        }
    } else if mnemonic == "CMP"@ {
        match shape {
            Shape::RegReg => Some((0b1100u8, true, true, 0u8)),
            Shape::RegCst => Some((0b1100u8, true, true, 1u8)),
            _ => None,
        }
    } else if mnemonic == "BEQ"@ {
        match shape {
            Shape::Reg => Some((0b1011u8, true, false, 0u8)),
            _ => None,
        }
    } else if mnemonic == "BNEQ"@ {
        match shape {
            Shape::Reg => Some((0b1011u8, true, true, 0u8)),
            _ => None,
        }
    } else if mnemonic == "BLT"@ {
        match shape {
            Shape::Reg => Some((0b1011u8, true, true, 1u8)),
            _ => None,
        }
    } else if mnemonic == "BLE"@ {
        match shape {
            Shape::Reg => Some((0b1011u8, true, false, 1u8)),
            _ => None,
        }
    } else if mnemonic == "IN"@ {
        match shape {
            Shape::Reg => Some((0b1111u8, true, false, 1u8)),
            _ => None,
        }
    } else if mnemonic == "OUT"@ {
        match shape {
            Shape::Reg => Some((0b1111u8, true, true, 1u8)),
            _ => None,
        }
    } else {
        None
    }
}

/// Whether two strings hold the same characters.
pub fn same_text(a: &str, b: &str) -> (same: bool)
    ensures
        same == (a@ == b@),
{
    let x = a.as_bytes();
    let y = b.as_bytes();
    proof {
        vstd::utf8::encode_utf8_decode_utf8(a@);
        vstd::utf8::encode_utf8_decode_utf8(b@);
    }
    if x.len() != y.len() {
        return false;
    }
    let mut i: usize = 0;
    while i < x.len()
        invariant
            i <= x.len(),
            x.len() == y.len(),
            x@ == vstd::utf8::encode_utf8(a@),
            y@ == vstd::utf8::encode_utf8(b@),
            forall|k: int| 0 <= k < i ==> x@[k] == y@[k],
        decreases x.len() - i,
    {
        if x[i] != y[i] {
            return false;
        }
        i += 1;
    }
    assert(x@ =~= y@);
    true
}

/// Looks a mnemonic and a shape up in the opcode table.
pub fn lookup_opcode(mnemonic: &str, shape: Shape) -> (entry: Option<(u8, bool, bool, u8)>)
    ensures
        entry == opcode_table(mnemonic@, shape),
{
    if same_text(mnemonic, "ADD") {
        match shape {
            Shape::RegReg => Some((0b0000u8, false, false, 0u8)),
            Shape::RegCst => Some((0b0001u8, false, false, 0u8)),
            _ => None,
        }
    } else if same_text(mnemonic, "ADDC") {
        match shape {
            Shape::RegReg => Some((0b0000u8, false, true, 0u8)),
            Shape::RegCst => Some((0b0001u8, false, true, 0u8)),
            _ => None,
        }
    } else if same_text(mnemonic, "SUB") {
        match shape {
            Shape::RegReg => Some((0b0011u8, false, false, 0u8)),
            Shape::RegCst => Some((0b0111u8, false, false, 0u8)),
            _ => None,
        }
    } else if same_text(mnemonic, "SUBC") {
        match shape {
            Shape::RegReg => Some((0b0011u8, false, true, 0u8)),
            Shape::RegCst => Some((0b0111u8, false, true, 0u8)),
            _ => None,
        }
    } else if same_text(mnemonic, "MOV") {
        match shape {
            Shape::RegReg => Some((0b0000u8, true, false, 0u8)),
            Shape::RegCst => Some((0b0001u8, true, false, 0u8)),
            _ => None,
        }
    } else if same_text(mnemonic, "PUSH") {
        match shape {
            Shape::Reg => Some((0b0010u8, false, false, 0u8)),
            _ => None,
        }
    } else if same_text(mnemonic, "POP") {
        match shape {
            Shape::Reg => Some((0b0010u8, true, false, 0u8)),
            _ => None,
        }
    } else if same_text(mnemonic, "LDR") {
        match shape {
            Shape::RegPtr => Some((0b0100u8, false, false, 0u8)),
            Shape::RegCst => Some((0b0101u8, true, false, 0u8)),
            _ => None,
        }
    } else if same_text(mnemonic, "STR") {
        match shape {
            Shape::RegPtr => Some((0b1000u8, true, false, 0u8)),
            Shape::RegCst => Some((0b1001u8, true, false, 0u8)),
            _ => None,
        }
    } else if same_text(mnemonic, "CMP") {
        match shape {
            Shape::RegReg => Some((0b1100u8, true, true, 0u8)),
            Shape::RegCst => Some((0b1100u8, true, true, 1u8)),
            _ => None,
        }
    } else if same_text(mnemonic, "BEQ") {
        match shape {
            Shape::Reg => Some((0b1011u8, true, false, 0u8)),
            _ => None,
        }
    } else if same_text(mnemonic, "BNEQ") {
        match shape {
            Shape::Reg => Some((0b1011u8, true, true, 0u8)),
            _ => None,
        }
    } else if same_text(mnemonic, "BLT") {
        match shape {
            Shape::Reg => Some((0b1011u8, true, true, 1u8)),
            _ => None,
        }
    } else if same_text(mnemonic, "BLE") {
        match shape {
            Shape::Reg => Some((0b1011u8, true, false, 1u8)),
            _ => None,
        }
    } else if same_text(mnemonic, "IN") {
        match shape {
            Shape::Reg => Some((0b1111u8, true, false, 1u8)),
            _ => None,
        }
    } else if same_text(mnemonic, "OUT") {
        match shape {
            Shape::Reg => Some((0b1111u8, true, true, 1u8)),
            _ => None,
        }
    } else {
        None
    }
}

/// The opcode table's entry for an instruction, by its mnemonic and shape.
/// A label has none.
pub open spec fn code_of(inst: InstructionView) -> Option<(u8, bool, bool, u8)> {
    match inst.key() {
        Some((mnemonic, shape)) => opcode_table(mnemonic, shape),
        None => None,
    }
}

/// The opcode table's entry for an instruction, or `None` where the table
/// has no entry for its mnemonic with its shape.
pub fn get_code(inst: &Instruction) -> (entry: Option<(u8, bool, bool, u8)>)
    ensures
        entry == code_of(inst@),
{
    match inst {
        Instruction::Label(_) => None,
        Instruction::Reg(m, _) => lookup_opcode(m.as_str(), Shape::Reg),
        Instruction::RegReg(m, _, _) => lookup_opcode(m.as_str(), Shape::RegReg),
        Instruction::RegPtr(m, _, _) => lookup_opcode(m.as_str(), Shape::RegPtr),
        Instruction::RegCst(m, _, _) => lookup_opcode(m.as_str(), Shape::RegCst),
        Instruction::RegLabel(m, _, _) => lookup_opcode(m.as_str(), Shape::RegLabel),
    }
}

/// The first byte of a word: the low four bits of the code in bits 4 to 7,
/// the reset bit in bit 3, the flag bit in bit 2 and the low two bits of the
/// offset in bits 0 and 1.
pub open spec fn control_byte(code: u8, reset: bool, flag: bool, offset: u8) -> u8 {
    ((code % 16) * 16 + (if reset { 8int } else { 0int }) + (if flag { 4int } else { 0int })
        + offset % 4) as u8
}

/// The word of an instruction whose second operand is a register: the control
/// byte, the first register's low four bits in the low nibble of byte 1, the
/// second register's low four bits in the high nibble of byte 2, and zero.
pub open spec fn word_reg_reg(
    code: u8,
    reset: bool,
    flag: bool,
    offset: u8,
    op1: u8,
    op2: u8,
) -> Seq<u8> {
    seq![
        control_byte(code, reset, flag, offset),
        op1 % 16,
        ((op2 % 16) * 16) as u8,
        0u8,
    ]
}

/// The word of an instruction whose second operand is a constant: the control
/// byte, the register's low four bits, then the constant's high and low byte.
pub open spec fn word_reg_cst(
    code: u8,
    reset: bool,
    flag: bool,
    offset: u8,
    op1: u8,
    op2: u16,
) -> Seq<u8> {
    seq![
        control_byte(code, reset, flag, offset),
        op1 % 16,
        (op2 / 256) as u8,
        (op2 % 256) as u8,
    ]
}

fn make_control_byte(code: u8, reset: bool, flag: bool, offset: u8) -> (byte: u8)
    ensures
        byte == control_byte(code, reset, flag, offset),
{
    let r: u8 = if reset { 8 } else { 0 };
    let f: u8 = if flag { 4 } else { 0 };
    let byte = ((code & 0xF) << 4) | r | f | (offset & 3);
    assert(((code & 0xF) << 4) | r | f | (offset & 3) == (code % 16) * 16 + r + f + offset % 4)
        by (bit_vector)
        requires
            r == 8 || r == 0,
            f == 4 || f == 0,
    ;
    byte
}

/// Encodes an instruction with two register operands.
pub fn make_opcode_reg_reg(
    code: u8,
    reset: bool,
    flag: bool,
    offset: u8,
    op1: u8,
    op2: u8,
) -> (word: [u8; 4])
    ensures
        word@ == word_reg_reg(code, reset, flag, offset, op1, op2),
{
    let b0 = make_control_byte(code, reset, flag, offset);
    let b1 = op1 & 0xF;
    let b2 = (op2 & 0xF) << 4;
    assert(op1 & 0xF == op1 % 16) by (bit_vector);
    assert((op2 & 0xF) << 4 == (op2 % 16) * 16) by (bit_vector);
    let word = [b0, b1, b2, 0u8];
    assert(word@ =~= word_reg_reg(code, reset, flag, offset, op1, op2));
    word
}

/// Encodes an instruction with a register and a constant operand.
pub fn make_opcode_reg_cst(
    code: u8,
    reset: bool,
    flag: bool,
    offset: u8,
    op1: u8,
    op2: u16,
) -> (word: [u8; 4])
    ensures
        word@ == word_reg_cst(code, reset, flag, offset, op1, op2),
{
    let b0 = make_control_byte(code, reset, flag, offset);
    let b1 = op1 & 0xF;
    let b2 = ((op2 & 0xFF00) >> 8) as u8;
    let b3 = (op2 & 0xFF) as u8;
    assert(op1 & 0xF == op1 % 16) by (bit_vector);
    assert(((op2 & 0xFF00) >> 8) == op2 / 256 && (op2 & 0xFF00) >> 8 < 256) by (bit_vector);
    assert((op2 & 0xFF) == op2 % 256 && op2 & 0xFF < 256) by (bit_vector);
    let word = [b0, b1, b2, b3];
    assert(word@ =~= word_reg_cst(code, reset, flag, offset, op1, op2));
    word
}

/// The word that an instruction is encoded as, or `None` where the opcode
/// table has no entry for it.
pub open spec fn word_of(inst: InstructionView) -> Option<Seq<u8>> {
    match code_of(inst) {
        Some((code, reset, flag, offset)) => match inst {
            InstructionView::Reg(_, reg) => Some(
                word_reg_reg(code, reset, flag, offset, reg, 0),
            ),
            InstructionView::RegReg(_, r1, r2) => Some(
                word_reg_reg(code, reset, flag, offset, r1, r2),
            ),
            InstructionView::RegPtr(_, r1, r2) => Some(
                word_reg_reg(code, reset, flag, offset, r1, r2),
            ),
            InstructionView::RegCst(_, reg, cst) => Some(
                word_reg_cst(code, reset, flag, offset, reg, cst),
            ),
            _ => None,
        },
        None => None,
    }
}

/// Encodes one instruction as a word of four bytes. The result is `None`
/// exactly where the opcode table has no entry for the instruction.
pub fn binarize(inst: &Instruction) -> (word: Option<[u8; 4]>)
    ensures
        match word {
            Some(w) => word_of(inst@) == Some(w@),
            None => word_of(inst@) is None,
        },
{
    match get_code(inst) {
        Some((code, reset, flag, offset)) => match inst {
            Instruction::RegReg(_, r1, r2) => Some(
                make_opcode_reg_reg(code, reset, flag, offset, *r1, *r2),
            ),
            Instruction::RegPtr(_, r1, r2) => Some(
                make_opcode_reg_reg(code, reset, flag, offset, *r1, *r2),
            ),
            Instruction::RegCst(_, reg, cst) => Some(
                make_opcode_reg_cst(code, reset, flag, offset, *reg, *cst),
            ),
            Instruction::Reg(_, reg) => Some(make_opcode_reg_reg(code, reset, flag, offset, *reg, 0)),
            _ => None,
        },
        None => None,
    }
}

/// The words of a program's instructions, one behind the other. An
/// instruction without a word adds nothing.
pub open spec fn words(program: Seq<InstructionView>) -> Seq<u8>
    decreases program.len(),
{
    if program.len() == 0 {
        Seq::empty()
    } else {
        words(program.drop_last()) + match word_of(program.last()) {
            Some(word) => word,
            None => Seq::empty(),
        }
    }
}

/// Whether the instruction at index `i` has no entry in the opcode table.
pub open spec fn unsupported_at(program: Seq<InstructionView>, i: int) -> bool {
    0 <= i < program.len() && word_of(program[i]) is None
}

/// Whether index `i` is the first whose instruction has no entry in the
/// opcode table.
pub open spec fn first_unsupported_at(program: Seq<InstructionView>, i: int) -> bool {
    &&& unsupported_at(program, i)
    &&& forall|j: int| 0 <= j < i ==> !unsupported_at(program, j)
}

/// What encoding a resolved program writes and returns. Where every
/// instruction is in the opcode table, it writes all their words and returns
/// the number of bytes. Else it writes the words of the instructions before
/// the first that is not, and fails with that instruction's mnemonic and
/// shape.
pub open spec fn encode(program: Seq<InstructionView>) -> (Seq<u8>, Result<nat, Failure>) {
    if exists|i: int| unsupported_at(program, i) {
        let first = choose|i: int| first_unsupported_at(program, i);
        let (mnemonic, shape) = program[first].key().unwrap();
        (words(program.take(first)), Err(Failure::UnsupportedInstruction(mnemonic, shape)))
    } else {
        (words(program), Ok(4 * program.len()))
    }
}

/// What assembling a parsed program writes and returns. Where a label is
/// referred to and not declared, it writes nothing and fails with the
/// label's name. Else it encodes the resolved program.
pub open spec fn assemble_program(program: Seq<InstructionView>) -> (Seq<u8>, Result<nat, Failure>) {
    match resolve(program, symbol_table(program)) {
        Ok(final_program) => encode(final_program),
        Err(label) => (Seq::empty(), Err(Failure::UndefinedLabel(label))),
    }
}

/// Whether a call's result is the one that a specification gives.
pub open spec fn result_is(given: Result<usize, AssembleError>, wanted: Result<nat, Failure>) -> bool {
    match given {
        Ok(written) => wanted == Ok::<nat, Failure>(written as nat),
        Err(e) => wanted == Err::<nat, Failure>(e@),
    }
}

/// The words of a program are four bytes for each instruction that has one.
pub proof fn lemma_words_len(program: Seq<InstructionView>)
    requires
        forall|i: int| 0 <= i < program.len() ==> !unsupported_at(program, i),
    ensures
        words(program).len() == 4 * program.len(),
    decreases program.len(),
{
    if program.len() > 0 {
        let before = program.drop_last();
        assert forall|i: int| 0 <= i < before.len() implies !unsupported_at(before, i) by {
            assert(!unsupported_at(program, i));
        }
        lemma_words_len(before);
        assert(!unsupported_at(program, program.len() - 1));
    }
}

/// The mnemonic and the shape of an instruction that is no label.
fn key_of(inst: &Instruction) -> (key: (String, Shape))
    requires
        !(inst@ is Label),
    ensures
        inst@.key() == Some((key.0@, key.1)),
{
    match inst {
        Instruction::Label(_) => vstd::pervasive::unreached(),
        Instruction::Reg(m, _) => (m.clone(), Shape::Reg),
        Instruction::RegReg(m, _, _) => (m.clone(), Shape::RegReg),
        Instruction::RegPtr(m, _, _) => (m.clone(), Shape::RegPtr),
        Instruction::RegCst(m, _, _) => (m.clone(), Shape::RegCst),
        Instruction::RegLabel(m, _, _) => (m.clone(), Shape::RegLabel),
    }
}

/// Assembles a parsed program: resolves its labels, encodes every
/// instruction and appends the words to `buf`, in order. It returns the
/// number of bytes appended.
///
/// It fails, before anything is appended, where the program refers to a
/// label that it does not declare. It fails at the first instruction that
/// the opcode table does not hold; the words of the instructions before it
/// stay in `buf`.
pub fn assemble(instructions: Vec<Instruction>, buf: &mut Vec<u8>) -> (written: Result<
    usize,
    AssembleError,
>)
    ensures
        final(buf)@ == old(buf)@ + assemble_program(instructions.deep_view()).0,
        result_is(written, assemble_program(instructions.deep_view()).1),
{
    let ghost program = instructions.deep_view();
    let ghost before = buf@;
    let table = Instruction::get_addresses(instructions.as_slice());
    let resolved = match Instruction::set_addresses(instructions.as_slice(), &table) {
        Ok(resolved) => resolved,
        Err(e) => {
            assert(buf@ =~= before + Seq::<u8>::empty());
            return Err(AssembleError::UndefinedLabel(e));
        },
    };
    let ghost fin = resolved.deep_view();
    let mut written: usize = 0;
    let mut i: usize = 0;
    while i < resolved.len()
        invariant
            i <= resolved.len(),
            fin == resolved.deep_view(),
            before == old(buf)@,
            program == instructions.deep_view(),
            resolve(program, symbol_table(program)) == Ok::<Seq<InstructionView>, Seq<char>>(fin),
            forall|j: int| 0 <= j < i ==> !unsupported_at(fin, j),
            buf@ == before + words(fin.take(i as int)),
            written == 4 * i,
        decreases resolved.len() - i,
    {
        proof {
            assert(fin.take(i + 1).drop_last() =~= fin.take(i as int));
            assert forall|j: int| 0 <= j < i implies !unsupported_at(fin.take(i as int), j) by {
                assert(!unsupported_at(fin, j));
            }
            lemma_words_len(fin.take(i as int));
        }
        match binarize(&resolved[i]) {
            Some(word) => {
                buf.push(word[0]);
                buf.push(word[1]);
                buf.push(word[2]);
                buf.push(word[3]);
                proof {
                    let upto = fin.take(i + 1);
                    assert(buf@ =~= before + words(upto));
                    assert forall|j: int| 0 <= j < upto.len() implies !unsupported_at(upto, j) by {
                        assert(!unsupported_at(fin, j));
                    }
                    lemma_words_len(upto);
                    assert(buf@.len() == before.len() + 4 * (i + 1));
                    assert(buf.len() <= usize::MAX);
                }
                written += 4;
            },
            None => {
                proof {
                    lemma_resolved_has_no_labels(program, symbol_table(program), i as int);
                    assert(first_unsupported_at(fin, i as int));
                    let first = choose|k: int| first_unsupported_at(fin, k);
                    assert(first == i);
                }
                let (mnemonic, shape) = key_of(&resolved[i]);
                return Err(
                    AssembleError::UnsupportedInstruction(
                        UnsupportedInstructionError { mnemonic, shape },
                    ),
                );
            },
        }
        i += 1;
    }
    assert(fin.take(i as int) =~= fin);
    Ok(written)
}

} // verus!
