//! The listing: a walk over the image, one instruction after the other,
//! from the entrypoint to the end.
//!
//! The walk never follows a jump. Each step reads the opcode under the
//! cursor, finds what it means in the two instruction tables, takes the
//! bytes that belong to it, and moves the cursor past them.
use crate::error::DecodeError;
use crate::hex::{
    hex_digits, hex_pair, lemma_hex_digits_injective, lemma_hex_digits_of_next_byte, lower_hex,
    lower_hex_pair,
};
use crate::table::{lookup, CodeTable, Instruction, Operand};
use vstd::prelude::*;
use vstd::slice::slice_to_vec;
use vstd::string::*;

verus! {

/// Where the image keeps the offset of its first instruction.
pub const ENTRYPOINT_OFFSET: usize = 0x102;

/// One instruction of the listing.
#[derive(Debug, Clone, PartialEq)]
pub struct DecodedInstruction<'a> {
    /// Where in the image the instruction begins.
    pub offset: usize,
    /// The bytes of the instruction, opcode first.
    pub raw: Vec<u8>,
    /// What the tables say of the opcode.
    pub instruction: &'a Instruction,
    /// One piece of text for each operand, in the order of the table.
    pub operands: Vec<String>,
}

/// What a `DecodedInstruction` holds, as plain values.
pub struct Decoded {
    pub offset: int,
    pub raw: Seq<u8>,
    pub instruction: Instruction,
    pub operands: Seq<Seq<char>>,
}

/// A listing, and why it ended where it did.
#[derive(Debug, Clone, PartialEq)]
pub struct Disassembly<'a> {
    /// The instructions that were decoded, in the order of the image.
    pub records: Vec<DecodedInstruction<'a>>,
    /// `None` when the walk reached the end of the image, else what
    /// stopped it after the last record.
    pub failure: Option<DecodeError>,
}

/// What a `Disassembly` holds, as plain values.
pub struct Walk {
    pub records: Seq<Decoded>,
    pub failure: Option<DecodeError>,
}

/// The characters of each string of a list.
pub open spec fn texts(strings: Seq<String>) -> Seq<Seq<char>> {
    Seq::new(strings.len(), |i: int| strings[i]@)
}

/// The plain values of each record of a list.
pub open spec fn decoded_views(records: Seq<DecodedInstruction>) -> Seq<Decoded> {
    Seq::new(records.len(), |i: int| records[i]@)
}

impl<'a> View for DecodedInstruction<'a> {
    type V = Decoded;

    open spec fn view(&self) -> Decoded {
        Decoded {
            offset: self.offset as int,
            raw: self.raw@,
            instruction: *self.instruction,
            operands: texts(self.operands@),
        }
    }
}

impl<'a> View for Disassembly<'a> {
    type V = Walk;

    open spec fn view(&self) -> Walk {
        Walk { records: decoded_views(self.records@), failure: self.failure }
    }
}

/// The mnemonic by which the first table marks an opcode as the escape
/// into the second.
pub open spec fn escape_mnemonic() -> Seq<char> {
    seq!['P', 'R', 'E', 'F', 'I', 'X']
}

/// The instruction that an opcode stands for: what the first table files
/// under it, unless that is the escape; then what the second table files
/// under the same byte.
pub open spec fn resolve(
    primary: Map<u8, Instruction>,
    escape: Map<u8, Instruction>,
    opcode: u8,
) -> Option<Instruction> {
    if !primary.contains_key(opcode) {
        None
    } else if primary[opcode].mnemonic@ != escape_mnemonic() {
        Some(primary[opcode])
    } else if escape.contains_key(opcode) {
        Some(escape[opcode])
    } else {
        None
    }
}

/// Whether every operand lies within the bytes that follow the opcode.
pub open spec fn operands_fit(instruction: Instruction) -> bool {
    forall|i: int|
        0 <= i < instruction.operands@.len() ==> 0 <= (
        #[trigger] instruction.operands@[i]).width() < instruction.bytes
}

/// The number that a run of bytes writes, first byte lowest.
pub open spec fn le_value(bytes: Seq<u8>) -> nat
    decreases bytes.len(),
{
    if bytes.len() == 0 {
        0
    } else {
        bytes[0] as nat + 256 * le_value(bytes.drop_first())
    }
}

/// The bytes that encode an operand: those that follow the opcode, as
/// many as the operand is wide.
pub open spec fn operand_bytes(operand: Operand, raw: Seq<u8>) -> Seq<u8> {
    raw.subrange(1, 1 + operand.width())
}

/// The text of an operand within an instruction whose bytes are `raw`:
/// for an encoded operand the hexadecimal literal of the number that its
/// bytes write, first byte lowest, that is `0x` and the natural
/// lower-case digits of that number; for an operand that the opcode
/// implies, its name.
pub open spec fn operand_text(operand: Operand, raw: Seq<u8>) -> Seq<char> {
    if operand.width() > 0 {
        seq!['0', 'x'] + hex_digits(le_value(operand_bytes(operand, raw)))
    } else {
        operand.name@
    }
}

/// The record of `instruction` found at `pc`.
pub open spec fn decoded_at(image: Seq<u8>, pc: nat, instruction: Instruction) -> Decoded {
    let raw = image.subrange(pc as int, pc + instruction.bytes);
    Decoded {
        offset: pc as int,
        raw,
        instruction,
        operands: Seq::new(
            instruction.operands@.len(),
            |i: int| operand_text(instruction.operands@[i], raw),
        ),
    }
}

/// One step of the walk with the cursor at `pc`: `Ok(None)` at or past
/// the end of the image, else the record of the instruction under the
/// cursor, or the reason why there is none.
pub open spec fn step(
    image: Seq<u8>,
    pc: nat,
    primary: Map<u8, Instruction>,
    escape: Map<u8, Instruction>,
) -> Result<Option<Decoded>, DecodeError> {
    if pc >= image.len() {
        Ok(None)
    } else {
        match resolve(primary, escape, image[pc as int]) {
            None => Err(DecodeError::UnknownOpcode { opcode: image[pc as int] }),
            Some(instruction) => {
                if instruction.bytes < 1 {
                    Err(DecodeError::MalformedReferenceData)
                } else if pc + instruction.bytes > image.len() {
                    Err(DecodeError::TruncatedInstruction)
                } else if !operands_fit(instruction) {
                    Err(DecodeError::MalformedReferenceData)
                } else {
                    Ok(Some(decoded_at(image, pc, instruction)))
                }
            },
        }
    }
}

/// The walk from `pc`: the records of the steps that succeed, each step
/// starting where the bytes of the one before end, up to the end of the
/// image or the first step that fails.
pub open spec fn walk(
    image: Seq<u8>,
    pc: nat,
    primary: Map<u8, Instruction>,
    escape: Map<u8, Instruction>,
) -> Walk
    decreases image.len() - pc,
{
    match step(image, pc, primary, escape) {
        Ok(None) => Walk { records: Seq::empty(), failure: None },
        Err(e) => Walk { records: Seq::empty(), failure: Some(e) },
        Ok(Some(record)) => {
            let rest = walk(image, pc + record.raw.len(), primary, escape);
            Walk { records: seq![record] + rest.records, failure: rest.failure }
        },
    }
}

/// The natural digits of each byte in turn, a blank before each.
pub open spec fn spaced_hex(bytes: Seq<u8>) -> Seq<char>
    decreases bytes.len(),
{
    if bytes.len() == 0 {
        Seq::empty()
    } else {
        spaced_hex(bytes.drop_last()) + seq![' '] + hex_digits(bytes.last() as nat)
    }
}

/// Each word in turn, a blank before each.
pub open spec fn spaced(words: Seq<Seq<char>>) -> Seq<char>
    decreases words.len(),
{
    if words.len() == 0 {
        Seq::empty()
    } else {
        spaced(words.drop_last()) + seq![' '] + words.last()
    }
}

/// The line of a record in a listing: the offset in natural lower-case
/// digits, a colon, the bytes in the order of the image, the mnemonic
/// after one tab behind three bytes and after two behind fewer or more,
/// then the operands.
pub open spec fn line(record: Decoded) -> Seq<char> {
    hex_digits(record.offset as nat) + seq![':', ' ', '\t'] + spaced_hex(record.raw) + (
    if record.raw.len() == 3 {
        seq![' ', '\t']
    } else {
        seq![' ', '\t', '\t']
    }) + record.instruction.mnemonic@ + spaced(record.operands)
}

/// The offset that the image names as its entrypoint: two bytes, the low
/// one first.
pub open spec fn entry_of(image: Seq<u8>) -> nat {
    (image[ENTRYPOINT_OFFSET as int] + 256 * image[ENTRYPOINT_OFFSET + 1]) as nat
}

/// The listing of a whole image, from the entrypoint that it names.
pub open spec fn listing(
    image: Seq<u8>,
    primary: Map<u8, Instruction>,
    escape: Map<u8, Instruction>,
) -> Walk {
    if image.len() < ENTRYPOINT_OFFSET + 2 {
        Walk { records: Seq::empty(), failure: Some(DecodeError::TruncatedImage) }
    } else {
        walk(image, entry_of(image), primary, escape)
    }
}

/// The result of a step, as plain values.
pub open spec fn step_view(r: Result<Option<DecodedInstruction>, DecodeError>) -> Result<
    Option<Decoded>,
    DecodeError,
> {
    match r {
        Ok(Some(record)) => Ok(Some(record@)),
        Ok(None) => Ok(None),
        Err(e) => Err(e),
    }
}

/// The cursor after the records of a walk that began at `pc`.
pub open spec fn cursor_after(records: Seq<Decoded>, pc: nat) -> int {
    if records.len() == 0 {
        pc as int
    } else {
        records.last().offset + records.last().raw.len()
    }
}

/// A step that gives a record gives one that starts at the cursor, holds
/// the bytes of the image from there, at least one, and ends within the
/// image.
pub proof fn lemma_step_record(
    image: Seq<u8>,
    pc: nat,
    primary: Map<u8, Instruction>,
    escape: Map<u8, Instruction>,
)
    requires
        step(image, pc, primary, escape) matches Ok(Some(_)),
    ensures
        ({
            let record = step(image, pc, primary, escape)->Ok_0->Some_0;
            &&& record.offset == pc
            &&& 1 <= record.raw.len() == record.instruction.bytes
            &&& pc + record.raw.len() <= image.len()
            &&& record.raw == image.subrange(pc as int, (pc + record.raw.len()) as int)
            &&& resolve(primary, escape, image[pc as int]) == Some(record.instruction)
            &&& record.operands.len() == record.instruction.operands@.len()
        }),
{
}

/// On an opcode that the first table marks as the escape, the record
/// holds what the second table files under that same byte, and is as
/// long as the second table says: the walk moves on by that length and
/// by no byte more.
pub proof fn lemma_escape_uses_second_table(
    image: Seq<u8>,
    pc: nat,
    primary: Map<u8, Instruction>,
    escape: Map<u8, Instruction>,
)
    requires
        pc < image.len(),
        primary.contains_key(image[pc as int]),
        primary[image[pc as int]].mnemonic@ == escape_mnemonic(),
    ensures
        match step(image, pc, primary, escape) {
            Ok(Some(record)) => {
                &&& escape.contains_key(image[pc as int])
                &&& record.instruction == escape[image[pc as int]]
                &&& record.raw.len() == escape[image[pc as int]].bytes
                &&& record.raw[0] == image[pc as int]
            },
            Ok(None) => false,
            Err(e) => !escape.contains_key(image[pc as int]) ==> e == (DecodeError::UnknownOpcode {
                opcode: image[pc as int],
            }),
        },
{
}

/// The records of a walk lie end to end: the first begins at the start
/// of the walk and each of the others where the one before ends. A walk
/// does not end in silence: either it reports no failure and its cursor
/// has reached the end of the image, or it reports the failure of the
/// step at its cursor.
pub proof fn lemma_walk_is_contiguous(
    image: Seq<u8>,
    pc: nat,
    primary: Map<u8, Instruction>,
    escape: Map<u8, Instruction>,
)
    ensures
        ({
            let w = walk(image, pc, primary, escape);
            let end = cursor_after(w.records, pc);
            &&& forall|i: int|
                0 <= i < w.records.len() ==> (#[trigger] w.records[i]).offset == cursor_after(
                    w.records.take(i),
                    pc,
                )
            &&& forall|i: int|
                0 <= i < w.records.len() ==> 1 <= (#[trigger] w.records[i]).raw.len()
                    && w.records[i].offset + w.records[i].raw.len() <= image.len()
            &&& end >= pc
            &&& match w.failure {
                None => step(image, end as nat, primary, escape) == Ok::<
                    Option<Decoded>,
                    DecodeError,
                >(None) && (pc <= image.len() ==> end == image.len()),
                Some(e) => step(image, end as nat, primary, escape) == Err::<
                    Option<Decoded>,
                    DecodeError,
                >(e),
            }
        }),
    decreases image.len() - pc,
{
    let w = walk(image, pc, primary, escape);
    match step(image, pc, primary, escape) {
        Ok(Some(record)) => {
            lemma_step_record(image, pc, primary, escape);
            let next = pc + record.raw.len();
            let rest = walk(image, next, primary, escape);
            lemma_walk_is_contiguous(image, next, primary, escape);
            assert(w.records == seq![record] + rest.records);
            assert(w.records.take(0) =~= Seq::<Decoded>::empty());
            assert forall|i: int| 0 <= i < w.records.len() implies (#[trigger] w.records[i]).offset
                == cursor_after(w.records.take(i), pc) by {
                if i > 0 {
                    assert(w.records[i] == rest.records[i - 1]);
                    if i == 1 {
                        assert(w.records.take(1).last() == record);
                        assert(rest.records.take(0) =~= Seq::<Decoded>::empty());
                    } else {
                        assert(w.records.take(i).last() == rest.records.take(i - 1).last());
                    }
                }
            }
            assert forall|i: int| 0 <= i < w.records.len() implies 1 <= (
            #[trigger] w.records[i]).raw.len() && w.records[i].offset + w.records[i].raw.len()
                <= image.len() by {
                if i > 0 {
                    assert(w.records[i] == rest.records[i - 1]);
                }
            }
            if rest.records.len() > 0 {
                assert(w.records.last() == rest.records.last());
            }
        },
        _ => {},
    }
}

/// Two runs of the same number of bytes that write the same number,
/// first byte lowest, are the same run.
pub proof fn lemma_le_value_injective(a: Seq<u8>, b: Seq<u8>)
    requires
        a.len() == b.len(),
        le_value(a) == le_value(b),
    ensures
        a == b,
    decreases a.len(),
{
    if a.len() > 0 {
        let x = le_value(a.drop_first());
        let y = le_value(b.drop_first());
        assert(a[0] as nat + 256 * x == b[0] as nat + 256 * y);
        assert(a[0] == b[0] && x == y);
        lemma_le_value_injective(a.drop_first(), b.drop_first());
        assert(a =~= seq![a[0]] + a.drop_first());
        assert(b =~= seq![b[0]] + b.drop_first());
    } else {
        assert(a =~= b);
    }
}

/// The text of an encoded operand tells its bytes: two operands of the
/// same width with the same text have the same bytes.
pub proof fn lemma_operand_text_tells_bytes(operand: Operand, first: Seq<u8>, second: Seq<u8>)
    requires
        0 < operand.width() < first.len(),
        operand.width() < second.len(),
        operand_text(operand, first) == operand_text(operand, second),
    ensures
        operand_bytes(operand, first) == operand_bytes(operand, second),
{
    let a = le_value(operand_bytes(operand, first));
    let b = le_value(operand_bytes(operand, second));
    let head = seq!['0', 'x'];
    assert(hex_digits(a) =~= (head + hex_digits(a)).skip(2));
    assert(hex_digits(b) =~= (head + hex_digits(b)).skip(2));
    assert((head + hex_digits(a)).len() == (head + hex_digits(b)).len());
    lemma_hex_digits_injective(a, b);
    lemma_le_value_injective(operand_bytes(operand, first), operand_bytes(operand, second));
}

/// The text of one operand.
fn render_operand(operand: &Operand, raw: &Vec<u8>) -> (text: String)
    requires
        0 <= operand.width() < raw@.len(),
    ensures
        text@ == operand_text(*operand, raw@),
{
    let width: i32 = match operand.bytes {
        Some(n) => n,
        None => 0,
    };
    if width > 0 {
        let ghost field = operand_bytes(*operand, raw@);
        let mut text = String::from_str("0x");
        proof {
            reveal_strlit("0x");
            reveal_strlit("0");
            assert("0x"@ =~= seq!['0', 'x']);
            assert("0"@ =~= seq!['0']);
            assert(field.subrange(width as int, width as int) =~= Seq::<u8>::empty());
        }
        // Whether a byte that is not zero has been met, from the highest down.
        let mut started = false;
        let mut i: usize = width as usize;
        while i > 0
            invariant
                0 <= i <= width < raw@.len(),
                field == raw@.subrange(1, 1 + width),
                started <==> le_value(field.subrange(i as int, width as int)) > 0,
                text@ == seq!['0', 'x'] + (if started {
                    hex_digits(le_value(field.subrange(i as int, width as int)))
                } else {
                    Seq::empty()
                }),
            decreases i,
        {
            let byte = raw[i];
            proof {
                let above = field.subrange(i as int, width as int);
                let with_byte = field.subrange(i - 1, width as int);
                assert(with_byte[0] == byte);
                assert(with_byte.drop_first() =~= above);
                assert(le_value(with_byte) == byte as nat + 256 * le_value(above));
                if started {
                    lemma_hex_digits_of_next_byte(le_value(above), byte);
                    assert(seq!['0', 'x'] + (hex_digits(le_value(above)) + hex_pair(byte)) =~= (
                    seq!['0', 'x'] + hex_digits(le_value(above))) + hex_pair(byte));
                }
            }
            if started {
                let pair = lower_hex_pair(byte);
                text.append(pair.as_str());
            } else if byte != 0 {
                let digits = lower_hex(byte as usize);
                text.append(digits.as_str());
                started = true;
            }
            i = i - 1;
        }
        proof {
            assert(field.subrange(0, width as int) =~= field);
        }
        if !started {
            text.append("0");
        }
        text
    } else {
        operand.name.clone()
    }
}

/// One step of the walk, with the cursor at `pc`.
///
/// `Ok(None)` says that the cursor is at or past the end of the image.
/// An opcode that neither table explains is `UnknownOpcode`; an
/// instruction that would run past the end of the image is
/// `TruncatedInstruction`; an instruction shorter than one byte, or with
/// an operand that does not fit behind its opcode, is
/// `MalformedReferenceData`.
#[verifier::loop_isolation(false)]
pub fn decode_step<'a>(
    image: &[u8],
    pc: usize,
    primary: &'a CodeTable<Instruction>,
    escape: &'a CodeTable<Instruction>,
) -> (r: Result<Option<DecodedInstruction<'a>>, DecodeError>)
    ensures
        step_view(r) == step(image@, pc as nat, primary@, escape@),
{
    if pc >= image.len() {
        return Ok(None);
    }
    let opcode = image[pc];
    let first = match lookup(primary, opcode) {
        Ok(found) => found,
        Err(e) => {
            return Err(e);
        },
    };
    let marker = String::from_str("PREFIX");
    proof {
        reveal_strlit("PREFIX");
        assert(marker@ =~= escape_mnemonic());
    }
    let instruction = if first.mnemonic == marker {
        match lookup(escape, opcode) {
            Ok(found) => found,
            Err(e) => {
                return Err(e);
            },
        }
    } else {
        first
    };
    assert(resolve(primary@, escape@, opcode) == Some(*instruction));
    if instruction.bytes < 1 {
        return Err(DecodeError::MalformedReferenceData);
    }
    let left = image.len() - pc;
    if instruction.bytes as u64 > left as u64 {
        return Err(DecodeError::TruncatedInstruction);
    }
    let length = instruction.bytes as usize;
    let raw = slice_to_vec(&image[pc..pc + length]);
    let mut operands: Vec<String> = Vec::new();
    let mut k: usize = 0;
    while k < instruction.operands.len()
        invariant
            0 <= k <= instruction.operands@.len(),
            raw@.len() == instruction.bytes,
            operands@.len() == k,
            forall|i: int|
                0 <= i < k ==> 0 <= (#[trigger] instruction.operands@[i]).width()
                    < instruction.bytes,
            forall|i: int|
                0 <= i < k ==> (#[trigger] operands@[i])@ == operand_text(
                    instruction.operands@[i],
                    raw@,
                ),
        decreases instruction.operands@.len() - k,
    {
        let operand = &instruction.operands[k];
        let fits = match operand.bytes {
            Some(n) => 0 <= n && (n as i64) < instruction.bytes,
            None => true,
        };
        if !fits {
            assert(!(0 <= instruction.operands@[k as int].width() < instruction.bytes));
            return Err(DecodeError::MalformedReferenceData);
        }
        let text = render_operand(operand, &raw);
        operands.push(text);
        k = k + 1;
    }
    let record = DecodedInstruction { offset: pc, raw, instruction, operands };
    proof {
        assert(record@.operands =~= decoded_at(image@, pc as nat, *instruction).operands);
    }
    Ok(Some(record))
}

impl<'a> DecodedInstruction<'a> {
    /// The line of this record in a listing.
    pub fn render(&self) -> (text: String)
        ensures
            text@ == line(self@),
    {
        let mut text = lower_hex(self.offset);
        text.append(": \t");
        proof {
            reveal_strlit(": \t");
            reveal_strlit(" ");
            reveal_strlit(" \t");
            reveal_strlit(" \t\t");
            assert(": \t"@ =~= seq![':', ' ', '\t']);
            assert(" "@ =~= seq![' ']);
            assert(" \t"@ =~= seq![' ', '\t']);
            assert(" \t\t"@ =~= seq![' ', '\t', '\t']);
            assert(self.raw@.take(0) =~= Seq::<u8>::empty());
        }
        let ghost head = hex_digits(self.offset as nat) + seq![':', ' ', '\t'];
        let mut i: usize = 0;
        while i < self.raw.len()
            invariant
                0 <= i <= self.raw@.len(),
                " "@ == seq![' '],
                text@ == head + spaced_hex(self.raw@.take(i as int)),
            decreases self.raw@.len() - i,
        {
            let digits = lower_hex(self.raw[i] as usize);
            proof {
                let done = self.raw@.take(i as int);
                let next = self.raw@.take(i + 1);
                assert(next.drop_last() =~= done);
                assert(next.last() == self.raw@[i as int]);
                assert(head + spaced_hex(next) =~= ((head + spaced_hex(done)) + seq![' '])
                    + digits@);
            }
            text.append(" ");
            text.append(digits.as_str());
            i = i + 1;
        }
        proof {
            assert(self.raw@.take(self.raw@.len() as int) =~= self.raw@);
        }
        if self.raw.len() == 3 {
            text.append(" \t");
        } else {
            text.append(" \t\t");
        }
        text.append(self.instruction.mnemonic.as_str());
        let ghost stem = text@;
        let ghost words = texts(self.operands@);
        proof {
            assert(words.take(0) =~= Seq::<Seq<char>>::empty());
            assert(stem + Seq::<char>::empty() =~= stem);
        }
        let mut j: usize = 0;
        while j < self.operands.len()
            invariant
                0 <= j <= self.operands@.len(),
                " "@ == seq![' '],
                words == texts(self.operands@),
                text@ == stem + spaced(words.take(j as int)),
            decreases self.operands@.len() - j,
        {
            proof {
                let done = words.take(j as int);
                let next = words.take(j + 1);
                assert(next.drop_last() =~= done);
                assert(next.last() == self.operands@[j as int]@);
                assert(stem + spaced(next) =~= ((stem + spaced(done)) + seq![' '])
                    + self.operands@[j as int]@);
            }
            text.append(" ");
            text.append(self.operands[j].as_str());
            j = j + 1;
        }
        proof {
            assert(words.take(words.len() as int) =~= words);
        }
        text
    }
}

/// The listing of `image` from the offset `entry` to its end.
pub fn disassemble<'a>(
    image: &[u8],
    entry: usize,
    primary: &'a CodeTable<Instruction>,
    escape: &'a CodeTable<Instruction>,
) -> (r: Disassembly<'a>)
    ensures
        r@ == walk(image@, entry as nat, primary@, escape@),
{
    let mut records: Vec<DecodedInstruction<'a>> = Vec::new();
    let mut pc: usize = entry;
    let size = image.len();
    loop
        invariant
            size == image@.len(),
            walk(image@, entry as nat, primary@, escape@).records == decoded_views(records@)
                + walk(image@, pc as nat, primary@, escape@).records,
            walk(image@, entry as nat, primary@, escape@).failure == walk(
                image@,
                pc as nat,
                primary@,
                escape@,
            ).failure,
        decreases image@.len() - pc,
    {
        let ghost before = decoded_views(records@);
        let ghost rest = walk(image@, pc as nat, primary@, escape@);
        match decode_step(image, pc, primary, escape) {
            Ok(Some(record)) => {
                proof {
                    lemma_step_record(image@, pc as nat, primary@, escape@);
                    let after = walk(image@, (pc + record@.raw.len()) as nat, primary@, escape@);
                    assert(rest.records == seq![record@] + after.records);
                    assert(before + rest.records =~= (before + seq![record@]) + after.records);
                    assert(decoded_views(records@.push(record)) =~= before + seq![record@]);
                }
                pc = pc + record.raw.len();
                records.push(record);
            },
            Ok(None) => {
                proof {
                    assert(before + Seq::<Decoded>::empty() =~= before);
                }
                return Disassembly { records, failure: None };
            },
            Err(e) => {
                proof {
                    assert(before + Seq::<Decoded>::empty() =~= before);
                }
                return Disassembly { records, failure: Some(e) };
            },
        }
    }
}

/// The offset of the first instruction, as the image names it.
pub fn entrypoint(image: &[u8]) -> (r: Result<u16, DecodeError>)
    ensures
        match r {
            Ok(entry) => image@.len() >= ENTRYPOINT_OFFSET + 2 && entry == entry_of(image@),
            Err(e) => image@.len() < ENTRYPOINT_OFFSET + 2 && e == DecodeError::TruncatedImage,
        },
{
    if image.len() < ENTRYPOINT_OFFSET + 2 {
        return Err(DecodeError::TruncatedImage);
    }
    let low = image[ENTRYPOINT_OFFSET] as u16;
    let high = image[ENTRYPOINT_OFFSET + 1] as u16;
    Ok(low + 256 * high)
}

/// The listing of a whole image: the walk from the entrypoint that the
/// image names, or `TruncatedImage` and no record where the image ends
/// before it has named one.
pub fn dissass_rom<'a>(
    image: &[u8],
    primary: &'a CodeTable<Instruction>,
    escape: &'a CodeTable<Instruction>,
) -> (r: Disassembly<'a>)
    ensures
        r@ == listing(image@, primary@, escape@),
{
    match entrypoint(image) {
        Ok(entry) => disassemble(image, entry as usize, primary, escape),
        Err(e) => {
            let r = Disassembly { records: Vec::new(), failure: Some(e) };
            assert(r@.records =~= Seq::<Decoded>::empty());
            r
        },
    }
}

} // verus!
