//! Reference data: what an instruction looks like, and tables that file
//! a value under each code byte.
use crate::error::DecodeError;
use crate::hex::{code_of_key, from_hex};
use std::collections::HashMap;
use vstd::prelude::*;

verus! {

broadcast use vstd::std_specs::hash::group_hash_axioms;

/// How an instruction treats each of the four flags of the processor.
#[derive(Default, Debug, Clone, PartialEq)]
pub struct Flags {
    pub z: String,
    pub n: String,
    pub h: String,
    pub c: String,
}

/// One argument of an instruction.
#[derive(Default, Debug, Clone, PartialEq)]
pub struct Operand {
    /// The register, condition or literal slot that the operand names.
    pub name: String,
    /// Whether the operand is used as it stands, not as an address.
    pub immediate: bool,
    /// How many bytes after the opcode encode the operand; `None` for an
    /// operand that the opcode implies.
    pub bytes: Option<i32>,
}

/// What one opcode means.
#[derive(Default, Debug, Clone, PartialEq)]
pub struct Instruction {
    pub mnemonic: String,
    /// The length of the encoded instruction, opcode included.
    pub bytes: i64,
    pub cycles: Vec<i64>,
    /// The operands, in the order in which a listing shows them.
    pub operands: Vec<Operand>,
    pub immediate: bool,
    pub flags: Flags,
}

impl Operand {
    /// The number of encoded bytes, 0 where the opcode implies the operand.
    pub open spec fn width(&self) -> int {
        match self.bytes {
            Some(n) => n as int,
            None => 0,
        }
    }
}

/// The table that a list of keyed entries describes: each entry whose key
/// is the key of a code byte is filed under that byte, a later entry
/// replacing an earlier one, and the other entries are left out.
pub open spec fn keyed<V>(entries: Seq<(String, V)>) -> Map<u8, V>
    decreases entries.len(),
{
    if entries.len() == 0 {
        Map::empty()
    } else {
        let rest = keyed(entries.drop_last());
        match code_of_key(entries.last().0@) {
            Some(code) => rest.insert(code, entries.last().1),
            None => rest,
        }
    }
}

/// At most one value for each code byte.
pub struct CodeTable<V> {
    entries: HashMap<u8, V>,
}

impl<V> View for CodeTable<V> {
    type V = Map<u8, V>;

    closed spec fn view(&self) -> Map<u8, V> {
        self.entries@
    }
}

impl<V> CodeTable<V> {
    /// A table with no entry.
    pub fn new() -> (table: Self)
        ensures
            table@ == Map::<u8, V>::empty(),
    {
        CodeTable { entries: HashMap::new() }
    }

    /// Files `value` under `code`, in place of what was filed there.
    pub fn insert(&mut self, code: u8, value: V)
        ensures
            final(self)@ == old(self)@.insert(code, value),
    {
        self.entries.insert(code, value);
    }

    /// What is filed under `code`.
    pub fn get(&self, code: u8) -> (found: Option<&V>)
        ensures
            match found {
                Some(value) => self@.contains_key(code) && *value == self@[code],
                None => !self@.contains_key(code),
            },
    {
        self.entries.get(&code)
    }

    /// The table of a list of entries keyed as the reference documents
    /// key them, by `0x` and two upper-case digits.
    pub fn from_entries(entries: Vec<(String, V)>) -> (table: Self)
        ensures
            table@ == keyed(entries@),
    {
        let ghost all = entries@;
        let mut table = CodeTable::new();
        for entry in it: entries
            invariant
                it.seq() == all,
                table@ == keyed(all.take(it.index() as int)),
        {
            let ghost before = it.index() as int;
            let (key, value) = entry;
            match from_hex(key.as_str()) {
                Some(code) => {
                    table.insert(code, value);
                },
                None => {},
            }
            proof {
                assert(all.take(before + 1).drop_last() =~= all.take(before));
                assert(all.take(before + 1).last() == all[before]);
            }
        }
        proof {
            assert(all.take(all.len() as int) =~= all);
        }
        table
    }
}

/// The instruction filed under `opcode`.
pub fn lookup(table: &CodeTable<Instruction>, opcode: u8) -> (r: Result<&Instruction, DecodeError>)
    ensures
        match r {
            Ok(instruction) => table@.contains_key(opcode) && *instruction == table@[opcode],
            Err(e) => !table@.contains_key(opcode) && e == (DecodeError::UnknownOpcode { opcode }),
        },
{
    match table.get(opcode) {
        Some(instruction) => Ok(instruction),
        None => Err(DecodeError::UnknownOpcode { opcode }),
    }
}

} // verus!
