//! The resolver: label addresses, and label references replaced by them.

use vstd::prelude::*;
use vstd::hash_map::StringHashMap;
use crate::error::UndefinedLabelError;
use crate::parse::{Instruction, InstructionView};

verus! {

/// The symbol table: from a label's name to its 16-bit instruction address.
pub type SymbolTable = StringHashMap<u16>;

/// Whether an instruction takes an address slot. A label takes none.
pub open spec fn takes_slot(inst: InstructionView) -> bool {
    !(inst is Label)
}

/// The number of instructions of a program that take an address slot.
pub open spec fn slot_count(program: Seq<InstructionView>) -> nat {
    program.filter(|inst: InstructionView| takes_slot(inst)).len()
}

/// The address of the instruction that would follow a program: its slot
/// count, of which a 16-bit address keeps the low 16 bits.
pub open spec fn next_address(program: Seq<InstructionView>) -> u16 {
    (slot_count(program) % 0x1_0000) as u16
}

/// The name that an instruction declares, if it is a label.
pub open spec fn declared_name(inst: InstructionView) -> Option<Seq<char>> {
    match inst {
        InstructionView::Label(name) => Some(name),
        _ => None,
    }
}

/// The names of the labels that a program declares, in the order of their
/// declarations.
pub open spec fn label_names(program: Seq<InstructionView>) -> Seq<Seq<char>> {
    program.filter_map(|inst: InstructionView| declared_name(inst))
}

/// The symbol table of a program. Each declaration gives its label the
/// address of the next instruction; a later declaration of a name replaces
/// an earlier one.
pub open spec fn symbol_table(program: Seq<InstructionView>) -> Map<Seq<char>, u16>
    decreases program.len(),
{
    if program.len() == 0 {
        Map::empty()
    } else {
        let before = program.drop_last();
        match program.last() {
            InstructionView::Label(name) => symbol_table(before).insert(name, next_address(before)),
            _ => symbol_table(before),
        }
    }
}

/// What becomes of one instruction when labels are resolved: a label is
/// dropped, a label reference becomes the constant that the table holds for
/// the name, and any other instruction stays as it is.
pub open spec fn resolve_one(inst: InstructionView, table: Map<Seq<char>, u16>) -> Option<
    InstructionView,
> {
    match inst {
        InstructionView::Label(_) => None,
        InstructionView::RegLabel(mnemonic, reg, name) => Some(
            InstructionView::RegCst(mnemonic, reg, table[name]),
        ),
        other => Some(other),
    }
}

/// Every instruction of a program in its final form, in order.
pub open spec fn resolved(program: Seq<InstructionView>, table: Map<Seq<char>, u16>) -> Seq<
    InstructionView,
> {
    program.filter_map(|inst: InstructionView| resolve_one(inst, table))
}

/// Whether the instruction at index `i` refers to a label that the table
/// does not hold.
pub open spec fn undefined_at(
    program: Seq<InstructionView>,
    table: Map<Seq<char>, u16>,
    i: int,
) -> bool {
    &&& 0 <= i < program.len()
    &&& program[i] matches InstructionView::RegLabel(_, _, name)
    &&& !table.contains_key(name)
}

/// Whether index `i` is the first at which a program refers to a label that
/// the table does not hold.
pub open spec fn first_undefined_at(
    program: Seq<InstructionView>,
    table: Map<Seq<char>, u16>,
    i: int,
) -> bool {
    &&& undefined_at(program, table, i)
    &&& forall|j: int| 0 <= j < i ==> !undefined_at(program, table, j)
}

/// The resolved program: every instruction in its final form, in order. It
/// is an error, with the name of the first such label, where the program
/// refers to a label that the table does not hold.
pub open spec fn resolve(program: Seq<InstructionView>, table: Map<Seq<char>, u16>) -> Result<
    Seq<InstructionView>,
    Seq<char>,
> {
    if exists|i: int| undefined_at(program, table, i) {
        let first = choose|i: int| first_undefined_at(program, table, i);
        Err(program[first]->RegLabel_2)
    } else {
        Ok(resolved(program, table))
    }
}

/// A label is in the symbol table exactly if the program declares it.
pub proof fn lemma_symbol_table_holds_declared(program: Seq<InstructionView>, name: Seq<char>)
    ensures
        symbol_table(program).contains_key(name) <==> exists|i: int|
            0 <= i < program.len() && program[i] == InstructionView::Label(name),
    decreases program.len(),
{
    if program.len() > 0 {
        let before = program.drop_last();
        lemma_symbol_table_holds_declared(before, name);
        if symbol_table(program).contains_key(name) {
            if program.last() == InstructionView::Label(name) {
                assert(program[program.len() - 1] == InstructionView::Label(name));
            } else {
                let i = choose|i: int|
                    0 <= i < before.len() && before[i] == InstructionView::Label(name);
                assert(program[i] == InstructionView::Label(name));
            }
        }
        if exists|i: int| 0 <= i < program.len() && program[i] == InstructionView::Label(name) {
            let i = choose|i: int|
                0 <= i < program.len() && program[i] == InstructionView::Label(name);
            if i < before.len() {
                assert(before[i] == InstructionView::Label(name));
            }
        }
    }
}

/// The address of a label is the number of instructions other than labels
/// that stand before its declaration, as far as 16 bits hold it. Where a
/// name is declared more than once, this holds of its last declaration.
pub proof fn lemma_label_address(program: Seq<InstructionView>, i: int, name: Seq<char>)
    requires
        0 <= i < program.len(),
        program[i] == InstructionView::Label(name),
        forall|j: int| i < j < program.len() ==> program[j] != InstructionView::Label(name),
    ensures
        symbol_table(program).contains_key(name),
        symbol_table(program)[name] == slot_count(program.take(i)) % 0x1_0000,
        slot_count(program.take(i)) <= 0xFFFF ==> symbol_table(program)[name] == slot_count(
            program.take(i),
        ),
    decreases program.len(),
{
    let before = program.drop_last();
    if i == program.len() - 1 {
        assert(program.take(i) =~= before);
    } else {
        assert(before.take(i) =~= program.take(i));
        lemma_label_address(before, i, name);
    }
}

/// Resolution keeps one instruction for every address slot, in order: the
/// instruction at index `i` of the program, if it is no label, comes out at
/// the index that is the number of address slots before it.
pub proof fn lemma_resolved_position(
    program: Seq<InstructionView>,
    table: Map<Seq<char>, u16>,
    i: int,
)
    requires
        0 <= i < program.len(),
        takes_slot(program[i]),
    ensures
        slot_count(program.take(i)) < slot_count(program),
        resolved(program, table).len() == slot_count(program),
        resolved(program, table)[slot_count(program.take(i)) as int] == resolve_one(
            program[i],
            table,
        ).unwrap(),
    decreases program.len(),
{
    let step = |inst: InstructionView| resolve_one(inst, table);
    let slot = |inst: InstructionView| takes_slot(inst);
    let before = program.drop_last();
    assert(program =~= before.push(program.last()));
    before.lemma_filter_len_push(slot, program.last());
    lemma_resolved_len(before, table);
    if i == program.len() - 1 {
        assert(program.take(i) =~= before);
    } else {
        assert(before.take(i) =~= program.take(i));
        lemma_resolved_position(before, table, i);
    }
}

/// No label and no label reference is left in a resolved program.
pub proof fn lemma_resolved_has_no_labels(
    program: Seq<InstructionView>,
    table: Map<Seq<char>, u16>,
    i: int,
)
    requires
        0 <= i < resolved(program, table).len(),
    ensures
        !(resolved(program, table)[i] is Label),
        !(resolved(program, table)[i] is RegLabel),
    decreases program.len(),
{
    if program.len() > 0 {
        let before = program.drop_last();
        if i < resolved(before, table).len() {
            lemma_resolved_has_no_labels(before, table, i);
        }
    }
}

/// Resolution keeps as many instructions as the program has address slots.
pub proof fn lemma_resolved_len(program: Seq<InstructionView>, table: Map<Seq<char>, u16>)
    ensures
        resolved(program, table).len() == slot_count(program),
    decreases program.len(),
{
    let slot = |inst: InstructionView| takes_slot(inst);
    if program.len() == 0 {
        assert(program.filter(slot).len() == 0) by {
            program.lemma_filter_len(slot);
        }
    } else {
        let before = program.drop_last();
        assert(program =~= before.push(program.last()));
        before.lemma_filter_len_push(slot, program.last());
        lemma_resolved_len(before, table);
    }
}

/// A program without labels and without label references is resolved to
/// itself, whatever the table holds.
pub proof fn lemma_resolve_without_labels(
    program: Seq<InstructionView>,
    table: Map<Seq<char>, u16>,
)
    requires
        forall|i: int|
            0 <= i < program.len() ==> !(program[i] is Label) && !(program[i] is RegLabel),
    ensures
        resolve(program, table) == Ok::<Seq<InstructionView>, Seq<char>>(program),
        symbol_table(program) == Map::<Seq<char>, u16>::empty(),
    decreases program.len(),
{
    if program.len() > 0 {
        let before = program.drop_last();
        lemma_resolve_without_labels(before, table);
        assert(!exists|i: int| undefined_at(before, table, i));
        assert(resolved(program, table) =~= resolved(before, table).push(program.last()));
        assert(program =~= before.push(program.last()));
    } else {
        assert(resolved(program, table) =~= program);
    }
}

/// A copy of an instruction.
pub fn copy_of(inst: &Instruction) -> (copy: Instruction)
    ensures
        copy@ == inst@,
{
    match inst {
        Instruction::Label(name) => Instruction::Label(name.clone()),
        Instruction::Reg(m, r) => Instruction::Reg(m.clone(), *r),
        Instruction::RegReg(m, r1, r2) => Instruction::RegReg(m.clone(), *r1, *r2),
        Instruction::RegPtr(m, r1, r2) => Instruction::RegPtr(m.clone(), *r1, *r2),
        Instruction::RegCst(m, r, c) => Instruction::RegCst(m.clone(), *r, *c),
        Instruction::RegLabel(m, r, name) => Instruction::RegLabel(m.clone(), *r, name.clone()),
    }
}

impl Instruction {
    /// The names of the labels that a program declares, in order.
    pub fn get_labels(inst: &[Instruction]) -> (names: Vec<String>)
        ensures
            names.deep_view() == label_names(inst.deep_view()),
    {
        let ghost program = inst.deep_view();
        let ghost pick = |inst: InstructionView| declared_name(inst);
        let mut output: Vec<String> = Vec::new();
        let mut i: usize = 0;
        while i < inst.len()
            invariant
                i <= inst.len(),
                program == inst.deep_view(),
                pick == (|inst: InstructionView| declared_name(inst)),
                output.deep_view() == program.take(i as int).filter_map(pick),
            decreases inst.len() - i,
        {
            proof {
                program.lemma_filter_map_take_succ(pick, i as int);
            }
            match &inst[i] {
                Instruction::Label(name) => {
                    output.push(name.clone());
                },
                _ => {},
            }
            i += 1;
            assert(output.deep_view() =~= program.take(i as int).filter_map(pick));
        }
        assert(program.take(i as int) =~= program);
        output
    }

    /// The symbol table of a program: the address of every label that it
    /// declares.
    pub fn get_addresses(instructions: &[Instruction]) -> (table: SymbolTable)
        ensures
            table@ == symbol_table(instructions.deep_view()),
    {
        let ghost program = instructions.deep_view();
        let mut table: SymbolTable = StringHashMap::new();
        let mut address: u16 = 0;
        let mut i: usize = 0;
        while i < instructions.len()
            invariant
                i <= instructions.len(),
                program == instructions.deep_view(),
                address == next_address(program.take(i as int)),
                table@ == symbol_table(program.take(i as int)),
            decreases instructions.len() - i,
        {
            proof {
                let before = program.take(i as int);
                let upto = program.take(i + 1);
                assert(upto.drop_last() =~= before);
                assert(upto =~= before.push(program[i as int]));
                before.lemma_filter_len_push(
                    |inst: InstructionView| takes_slot(inst),
                    program[i as int],
                );
                assert(slot_count(upto) == slot_count(before) + (if takes_slot(program[i as int]) {
                    1int
                } else {
                    0int
                }));
            }
            match &instructions[i] {
                Instruction::Label(name) => {
                    table.insert(name.clone(), address);
                },
                _ => {
                    address = if address == u16::MAX {
                        0
                    } else {
                        address + 1
                    };
                },
            }
            i += 1;
        }
        assert(program.take(i as int) =~= program);
        table
    }

    /// Resolves a program against a symbol table: labels are dropped, every
    /// label reference becomes a constant, and every other instruction stays.
    /// It fails on the first reference to a label that the table does not
    /// hold, and only then.
    pub fn set_addresses(instructions: &[Instruction], labels: &SymbolTable) -> (resolved: Result<
        Vec<Instruction>,
        UndefinedLabelError,
    >)
        ensures
            match resolved {
                Ok(out) => resolve(instructions.deep_view(), labels@) == Ok::<
                    Seq<InstructionView>,
                    Seq<char>,
                >(out.deep_view()),
                Err(e) => resolve(instructions.deep_view(), labels@) == Err::<
                    Seq<InstructionView>,
                    Seq<char>,
                >(e.name@),
            },
    {
        let ghost program = instructions.deep_view();
        let ghost table = labels@;
        let ghost step = |inst: InstructionView| resolve_one(inst, table);
        let mut out: Vec<Instruction> = Vec::new();
        let mut i: usize = 0;
        while i < instructions.len()
            invariant
                i <= instructions.len(),
                program == instructions.deep_view(),
                table == labels@,
                step == (|inst: InstructionView| resolve_one(inst, table)),
                forall|j: int| 0 <= j < i ==> !undefined_at(program, table, j),
                out.deep_view() == program.take(i as int).filter_map(step),
            decreases instructions.len() - i,
        {
            proof {
                program.lemma_filter_map_take_succ(step, i as int);
            }
            match &instructions[i] {
                Instruction::Label(_) => {},
                Instruction::RegLabel(mnemonic, reg, name) => {
                    match labels.get(name.as_str()) {
                        Some(address) => {
                            out.push(Instruction::RegCst(mnemonic.clone(), *reg, *address));
                        },
                        None => {
                            proof {
                                assert(first_undefined_at(program, table, i as int));
                                let first = choose|k: int| first_undefined_at(program, table, k);
                                assert(first == i);
                            }
                            return Err(UndefinedLabelError { name: name.clone() });
                        },
                    }
                },
                other => {
                    out.push(copy_of(other));
                },
            }
            i += 1;
            assert(out.deep_view() =~= program.take(i as int).filter_map(step));
        }
        assert(program.take(i as int) =~= program);
        Ok(out)
    }
}

} // verus!
