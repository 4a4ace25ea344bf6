//! The call destinations found by disassembling code, used as symbols when
//! a file has no symbol table.
use vstd::prelude::*;
use capstone::arch::ArchOperand;
use capstone::arch::arm::ArmOperandType;
use capstone::arch::arm64::Arm64OperandType;
use capstone::arch::mips::MipsOperand;
use capstone::arch::x86::X86OperandType;
use crate::elf::arch::{Architecture, Disassembler};
use crate::elf::code_region::CodeContext;
use crate::error::TelfhashError;
use crate::order::same_text;
use crate::text::{chars_of, string_from_chars};

verus! {

broadcast use vstd::string::group_string_axioms;

/// An operand as the destination search reads it.
#[derive(Debug)]
pub enum OperandRecord {
    /// An immediate of 32-bit ARM.
    Imm32(i32),
    /// An immediate of x86 or AArch64.
    Imm64(i64),
    /// A MIPS register, by its name when Capstone gives one.
    Register(Option<String>),
    /// A MIPS memory operand, by its displacement.
    Memory(i64),
    /// Any other operand.
    Other,
}

/// A disassembled instruction: its text, and its operands when Capstone
/// gives details for it.
#[derive(Debug)]
pub struct InstructionRecord {
    pub mnemonic: String,
    pub op_str: String,
    pub operands: Option<Vec<OperandRecord>>,
}

/// `capstone::Insn`, one disassembled instruction.
#[verifier::external_type_specification]
#[verifier::external_body]
pub struct ExInsn<'a>(capstone::Insn<'a>);

/// `capstone::arch::ArchOperand`, an operand of any architecture.
#[verifier::external_type_specification]
#[verifier::external_body]
pub struct ExArchOperand(ArchOperand);

/// What the engine built for `architecture` reads in `code` loaded at
/// `address` with `Capstone::disasm_all`: the instructions in order, or the
/// message of the error.
pub uninterp spec fn disassembly(architecture: Architecture, code: Seq<u8>, address: u64) -> Result<
    Seq<InstructionRecord>,
    Seq<char>,
>;

/// Reads an operand: immediates of x86, ARM and AArch64, and registers (by
/// `Capstone::reg_name`) and memory displacements of MIPS; any other is
/// `Other`.
#[verifier::external_body]
fn operand_record(engine: &capstone::Capstone, op: ArchOperand) -> OperandRecord {
    match op {
        ArchOperand::X86Operand(o) => match o.op_type { X86OperandType::Imm(v) => OperandRecord::Imm64(v), _ => OperandRecord::Other },
        ArchOperand::ArmOperand(o) => match o.op_type { ArmOperandType::Imm(v) => OperandRecord::Imm32(v), _ => OperandRecord::Other },
        ArchOperand::Arm64Operand(o) => match o.op_type { Arm64OperandType::Imm(v) => OperandRecord::Imm64(v), _ => OperandRecord::Other },
        ArchOperand::MipsOperand(MipsOperand::Reg(reg)) => OperandRecord::Register(engine.reg_name(reg)),
        ArchOperand::MipsOperand(MipsOperand::Mem(mem)) => OperandRecord::Memory(mem.disp()),
        _ => OperandRecord::Other,
    }
}

/// Reads an instruction: its mnemonic and operand text (empty when
/// Capstone gives none), and the operands of `Capstone::insn_detail`'s
/// architecture detail, or `None` when there is no detail.
#[verifier::external_body]
fn instruction_record(engine: &capstone::Capstone, insn: &capstone::Insn) -> InstructionRecord {
    let operands = match engine.insn_detail(insn) {
        Ok(detail) => Some(detail.arch_detail().operands().into_iter().map(|op| operand_record(engine, op)).collect()),
        Err(_) => None,
    };
    let mnemonic = insn.mnemonic().unwrap_or_default().to_string();
    InstructionRecord { mnemonic, op_str: insn.op_str().unwrap_or_default().to_string(), operands }
}

/// Disassembles `code`, loaded at `address`, with `Capstone::disasm_all` on
/// the engine of `d`, and reads each instruction; an error becomes its
/// message.
///
/// The contract names the result; Capstone's decoding is not restated.
#[verifier::external_body]
fn disassemble(d: &Disassembler, code: &[u8], address: u64) -> (r: Result<Vec<InstructionRecord>, String>)
    ensures
        match r {
            Ok(v) => disassembly(d.architecture(), code@, address) == Ok::<
                Seq<InstructionRecord>,
                Seq<char>,
            >(v@),
            Err(m) => disassembly(d.architecture(), code@, address) == Err::<
                Seq<InstructionRecord>,
                Seq<char>,
            >(m@),
        },
{
    let engine = d.engine();
    let instructions = match engine.disasm_all(code, address) {
        Ok(instructions) => instructions,
        Err(error) => return Err(error.to_string()),
    };
    let mut out = Vec::new();
    for insn in instructions.iter() {
        out.push(instruction_record(engine, insn));
    }
    Ok(out)
}

/// The lower-case hexadecimal digit of `d`, below 16.
pub open spec fn hex_digit(d: nat) -> char {
    if d < 10 {
        ((48 + d) as u32) as char
    } else {
        ((87 + d) as u32) as char
    }
}

/// `n` in lower-case hexadecimal, without leading zeros.
pub open spec fn hex_text(n: nat) -> Seq<char>
    decreases n,
{
    if n < 16 {
        seq![hex_digit(n)]
    } else {
        hex_text(n / 16).push(hex_digit(n % 16))
    }
}

fn hex_digit_of(d: u64) -> (r: char)
    requires
        d < 16,
    ensures
        r == hex_digit(d as nat),
{
    let b: u8 = d as u8;
    if b < 10 {
        (48 + b) as char
    } else {
        (87 + b) as char
    }
}

/// `n` in lower-case hexadecimal, as `{:x}` writes it.
pub fn hex_u64(n: u64) -> (r: String)
    ensures
        r@ == hex_text(n as nat),
    decreases n,
{
    if n < 16 {
        let mut s = String::new();
        s.push(hex_digit_of(n));
        s
    } else {
        let mut s = hex_u64(n / 16);
        s.push(hex_digit_of(n % 16));
        s
    }
}

/// `p` is a prefix of `s`.
pub open spec fn has_prefix(s: Seq<char>, p: Seq<char>) -> bool {
    p.len() <= s.len() && s.subrange(0, p.len() as int) == p
}

/// `s` with every leading repetition of `p` removed, as
/// `str::trim_start_matches` removes them.
pub open spec fn trim_all(s: Seq<char>, p: Seq<char>) -> Seq<char>
    decreases s.len(),
{
    if p.len() > 0 && has_prefix(s, p) {
        trim_all(s.skip(p.len() as int), p)
    } else {
        s
    }
}

/// The part of `s` before the first `c`, or all of `s`.
pub open spec fn before_char(s: Seq<char>, c: char) -> Seq<char>
    decreases s.len(),
{
    if s.len() == 0 {
        s
    } else if s[0] == c {
        Seq::empty()
    } else {
        seq![s[0]] + before_char(s.drop_first(), c)
    }
}

fn prefix_at(s: &Vec<char>, from: usize, p: &Vec<char>) -> (r: bool)
    requires
        from <= s@.len(),
    ensures
        r == has_prefix(s@.skip(from as int), p@),
{
    let n = s.len();
    if p.len() > n - from {
        return false;
    }
    let mut i: usize = 0;
    while i < p.len()
        invariant
            0 <= i <= p@.len(),
            n == s@.len(),
            from <= s@.len(),
            from + p@.len() <= s@.len(),
            forall|k: int| 0 <= k < i ==> s@[from + k] == p@[k],
        decreases p@.len() - i,
    {
        if s[from + i] != p[i] {
            proof {
                assert(s@.skip(from as int).subrange(0, p@.len() as int)[i as int] != p@[i as int]);
            }
            return false;
        }
        i = i + 1;
    }
    proof {
        assert(s@.skip(from as int).subrange(0, p@.len() as int) =~= p@);
    }
    true
}

fn trim_from(s: &Vec<char>, from: usize, p: &Vec<char>) -> (r: usize)
    requires
        from <= s@.len(),
    ensures
        from <= r <= s@.len(),
        s@.skip(r as int) == trim_all(s@.skip(from as int), p@),
    decreases s@.len() - from,
{
    let n = s.len();
    if p.len() > 0 && prefix_at(s, from, p) {
        proof {
            assert(s@.skip(from as int).len() == n - from);
            assert(s@.skip(from as int).skip(p@.len() as int) =~= s@.skip(from + p@.len()));
        }
        trim_from(s, from + p.len(), p)
    } else {
        from
    }
}

fn end_before(s: &Vec<char>, from: usize, c: char) -> (r: usize)
    requires
        from <= s@.len(),
    ensures
        from <= r <= s@.len(),
        s@.subrange(from as int, r as int) == before_char(s@.skip(from as int), c),
    decreases s@.len() - from,
{
    if from == s.len() {
        proof {
            assert(s@.skip(from as int) =~= Seq::<char>::empty());
        }
        from
    } else if s[from] == c {
        from
    } else {
        let r = end_before(s, from + 1, c);
        proof {
            assert(s@.skip(from as int).drop_first() =~= s@.skip(from + 1));
            assert(s@.subrange(from as int, r as int) =~= seq![s@[from as int]] + s@.subrange(
                from + 1,
                r as int,
            ));
        }
        r
    }
}

fn string_of_range(chars: &Vec<char>, from: usize, to: usize) -> (s: String)
    requires
        from <= to <= chars@.len(),
    ensures
        s@ == chars@.subrange(from as int, to as int),
{
    let mut s = String::new();
    let mut i = from;
    while i < to
        invariant
            from <= i <= to <= chars@.len(),
            s@ == chars@.subrange(from as int, i as int),
        decreases to - i,
    {
        s.push(chars[i]);
        proof {
            assert(chars@.subrange(from as int, i + 1) =~= chars@.subrange(from as int, i as int).push(
                chars@[i as int],
            ));
        }
        i = i + 1;
    }
    s
}

/// The destination an instruction's text names: an x86 `call` to a `0x`
/// address, an ARM `bl*` or AArch64 `bl` to a `#0x` address, or a MIPS
/// `lw $t9, ` load from an address; the address without its prefixes.
pub open spec fn text_destination(architecture: Architecture, mnemonic: Seq<char>, op: Seq<char>) -> Option<
    Seq<char>,
> {
    match architecture {
        Architecture::X86 | Architecture::X64 => if mnemonic == "call"@ && has_prefix(op, "0x"@) {
            Some(trim_all(op, "0x"@))
        } else {
            None
        },
        Architecture::Arm => if has_prefix(mnemonic, "bl"@) && has_prefix(op, "#0x"@) {
            Some(trim_all(op, "#0x"@))
        } else {
            None
        },
        Architecture::Aarch64 => if mnemonic == "bl"@ && has_prefix(op, "#0x"@) {
            Some(trim_all(op, "#0x"@))
        } else {
            None
        },
        Architecture::Mips => if mnemonic == "lw"@ && has_prefix(op, "$t9, "@) {
            Some(trim_all(before_char(trim_all(op, "$t9, "@), '('), "0x"@))
        } else {
            None
        },
    }
}

/// The text after every leading `prefix`, when `op` starts with it.
fn after_prefix(op: &str, prefix: &str) -> (r: Option<String>)
    ensures
        match r {
            Some(s) => has_prefix(op@, prefix@) && s@ == trim_all(op@, prefix@),
            None => !has_prefix(op@, prefix@),
        },
{
    let s = chars_of(op);
    let p = chars_of(prefix);
    proof {
        assert(s@.skip(0) =~= s@);
    }
    if !prefix_at(&s, 0, &p) {
        return None;
    }
    let k = trim_from(&s, 0, &p);
    Some(string_from_chars(&s, k))
}

/// The destination an instruction's text names, as `text_destination` says.
pub fn parse_destination_operand(architecture: Architecture, mnemonic: &str, op_str: &str) -> (r:
    Option<String>)
    ensures
        match text_destination(architecture, mnemonic@, op_str@) {
            Some(t) => r matches Some(s) && s@ == t,
            None => r is None,
        },
{
    match architecture {
        Architecture::X86 | Architecture::X64 => {
            if !same_text(mnemonic, "call") {
                return None;
            }
            after_prefix(op_str, "0x")
        },
        Architecture::Arm => {
            let m = chars_of(mnemonic);
            let bl = chars_of("bl");
            proof {
                assert(m@.skip(0) =~= m@);
            }
            if !prefix_at(&m, 0, &bl) {
                return None;
            }
            after_prefix(op_str, "#0x")
        },
        Architecture::Aarch64 => {
            if !same_text(mnemonic, "bl") {
                return None;
            }
            after_prefix(op_str, "#0x")
        },
        Architecture::Mips => {
            if !same_text(mnemonic, "lw") {
                return None;
            }
            let address = match after_prefix(op_str, "$t9, ") {
                Some(a) => a,
                None => return None,
            };
            let a = chars_of(address.as_str());
            proof {
                assert(a@.skip(0) =~= a@);
            }
            let end = end_before(&a, 0, '(');
            let head = string_of_range(&a, 0, end);
            let h = chars_of(head.as_str());
            let p = chars_of("0x");
            proof {
                assert(h@.skip(0) =~= h@);
            }
            let k = trim_from(&h, 0, &p);
            Some(string_from_chars(&h, k))
        },
    }
}

/// The destination an instruction's details name: the immediate of an x86
/// `call`, of an ARM `bl*` or of an AArch64 `bl`, or the displacement of a
/// MIPS `lw` into `t9`; in hexadecimal.
pub open spec fn detail_destination(architecture: Architecture, rec: InstructionRecord) -> Option<
    Seq<char>,
> {
    match rec.operands {
        None => None,
        Some(ops) => match architecture {
            Architecture::X86 | Architecture::X64 => if ops@.len() > 0 && rec.mnemonic@ == "call"@ {
                match ops@[0] {
                    OperandRecord::Imm64(v) => Some(hex_text((v as u64) as nat)),
                    _ => None,
                }
            } else {
                None
            },
            Architecture::Arm => if ops@.len() > 0 && has_prefix(rec.mnemonic@, "bl"@) {
                match ops@[0] {
                    OperandRecord::Imm32(v) => Some(hex_text((v as u32) as nat)),
                    _ => None,
                }
            } else {
                None
            },
            Architecture::Aarch64 => if ops@.len() > 0 && rec.mnemonic@ == "bl"@ {
                match ops@[0] {
                    OperandRecord::Imm64(v) => Some(hex_text((v as u64) as nat)),
                    _ => None,
                }
            } else {
                None
            },
            Architecture::Mips => if ops@.len() > 1 && rec.mnemonic@ == "lw"@ {
                match ops@[0] {
                    OperandRecord::Register(Some(name)) => if name@ == "t9"@ {
                        match ops@[1] {
                            OperandRecord::Memory(d) => Some(hex_text((d as u64) as nat)),
                            _ => None,
                        }
                    } else {
                        None
                    },
                    _ => None,
                }
            } else {
                None
            },
        },
    }
}

/// The destination an instruction names: by its details, else by its text.
pub open spec fn destination(architecture: Architecture, rec: InstructionRecord) -> Option<Seq<char>> {
    match detail_destination(architecture, rec) {
        Some(d) => Some(d),
        None => text_destination(architecture, rec.mnemonic@, rec.op_str@),
    }
}

/// The destination an instruction's details name, as `detail_destination`
/// says.
pub fn extract_destination_from_detail(architecture: Architecture, rec: &InstructionRecord) -> (r:
    Option<String>)
    ensures
        match detail_destination(architecture, *rec) {
            Some(t) => r matches Some(s) && s@ == t,
            None => r is None,
        },
{
    let ops = match &rec.operands {
        Some(ops) => ops,
        None => return None,
    };
    let mnemonic = rec.mnemonic.as_str();
    match architecture {
        Architecture::X86 | Architecture::X64 => {
            if ops.len() == 0 || !same_text(mnemonic, "call") {
                return None;
            }
            match &ops[0] {
                OperandRecord::Imm64(v) => Some(hex_u64(*v as u64)),
                _ => None,
            }
        },
        Architecture::Arm => {
            if ops.len() == 0 {
                return None;
            }
            let m = chars_of(mnemonic);
            let bl = chars_of("bl");
            proof {
                assert(m@.skip(0) =~= m@);
            }
            if !prefix_at(&m, 0, &bl) {
                return None;
            }
            match &ops[0] {
                OperandRecord::Imm32(v) => Some(hex_u64((*v as u32) as u64)),
                _ => None,
            }
        },
        Architecture::Aarch64 => {
            if ops.len() == 0 || !same_text(mnemonic, "bl") {
                return None;
            }
            match &ops[0] {
                OperandRecord::Imm64(v) => Some(hex_u64(*v as u64)),
                _ => None,
            }
        },
        Architecture::Mips => {
            if ops.len() < 2 || !same_text(mnemonic, "lw") {
                return None;
            }
            match &ops[0] {
                OperandRecord::Register(Some(name)) => {
                    if !same_text(name.as_str(), "t9") {
                        return None;
                    }
                    match &ops[1] {
                        OperandRecord::Memory(d) => Some(hex_u64(*d as u64)),
                        _ => None,
                    }
                },
                _ => None,
            }
        },
    }
}

/// `list` with `d` appended, unless it holds `d` already.
pub open spec fn push_unique_spec(list: Seq<Seq<char>>, d: Seq<char>) -> Seq<Seq<char>> {
    if list.contains(d) {
        list
    } else {
        list.push(d)
    }
}

/// The destinations the instructions name, each once, in the order of
/// first appearance.
pub open spec fn destinations_of(architecture: Architecture, recs: Seq<InstructionRecord>) -> Seq<
    Seq<char>,
>
    decreases recs.len(),
{
    if recs.len() == 0 {
        Seq::empty()
    } else {
        let prev = destinations_of(architecture, recs.drop_last());
        match destination(architecture, recs.last()) {
            Some(d) => push_unique_spec(prev, d),
            None => prev,
        }
    }
}

/// The destinations instruction texts name, each once, in the order of
/// first appearance.
pub open spec fn text_destinations_of(architecture: Architecture, texts: Seq<(String, String)>) -> Seq<
    Seq<char>,
>
    decreases texts.len(),
{
    if texts.len() == 0 {
        Seq::empty()
    } else {
        let prev = text_destinations_of(architecture, texts.drop_last());
        match text_destination(architecture, texts.last().0@, texts.last().1@) {
            Some(d) => push_unique_spec(prev, d),
            None => prev,
        }
    }
}

/// Appends `value` unless the list holds it already.
pub fn push_unique(output: &mut Vec<String>, value: String)
    ensures
        final(output).deep_view() == push_unique_spec(old(output).deep_view(), value@),
{
    let mut i: usize = 0;
    while i < output.len()
        invariant
            0 <= i <= output@.len(),
            forall|k: int| 0 <= k < i ==> #[trigger] output.deep_view()[k] != value@,
        decreases output@.len() - i,
    {
        if same_text(output[i].as_str(), value.as_str()) {
            proof {
                assert(output.deep_view()[i as int] == value@);
                assert(output.deep_view().contains(value@));
            }
            return;
        }
        i = i + 1;
    }
    let ghost before = output.deep_view();
    output.push(value);
    proof {
        assert(output.deep_view() =~= before.push(value@));
    }
}

/// The destination an instruction names, by its details, else by its text.
fn instruction_destination(architecture: Architecture, rec: &InstructionRecord) -> (r: Option<String>)
    ensures
        match destination(architecture, *rec) {
            Some(t) => r matches Some(s) && s@ == t,
            None => r is None,
        },
{
    match extract_destination_from_detail(architecture, rec) {
        Some(d) => Some(d),
        None => parse_destination_operand(architecture, rec.mnemonic.as_str(), rec.op_str.as_str()),
    }
}

/// The destinations the instructions name, each once, in the order of
/// first appearance.
pub fn call_destinations(architecture: Architecture, recs: &[InstructionRecord]) -> (r: Vec<String>)
    ensures
        r.deep_view() == destinations_of(architecture, recs@),
{
    let mut out: Vec<String> = Vec::new();
    for i in 0..recs.len()
        invariant
            out.deep_view() == destinations_of(architecture, recs@.take(i as int)),
    {
        proof {
            assert(recs@.take(i + 1).drop_last() =~= recs@.take(i as int));
            assert(recs@.take(i + 1).last() == recs@[i as int]);
        }
        match instruction_destination(architecture, &recs[i]) {
            Some(d) => push_unique(&mut out, d),
            None => {},
        }
    }
    proof {
        assert(recs@.take(recs@.len() as int) =~= recs@);
    }
    out
}

/// The destinations instruction texts (mnemonic, operands) name, each once,
/// in the order of first appearance.
pub fn collect_call_destinations(architecture: Architecture, instructions: &[(String, String)]) -> (r:
    Vec<String>)
    ensures
        r.deep_view() == text_destinations_of(architecture, instructions@),
{
    let mut out: Vec<String> = Vec::new();
    for i in 0..instructions.len()
        invariant
            out.deep_view() == text_destinations_of(architecture, instructions@.take(i as int)),
    {
        proof {
            assert(instructions@.take(i + 1).drop_last() =~= instructions@.take(i as int));
            assert(instructions@.take(i + 1).last() == instructions@[i as int]);
        }
        let (mnemonic, op_str) = &instructions[i];
        match parse_destination_operand(architecture, mnemonic.as_str(), op_str.as_str()) {
            Some(d) => push_unique(&mut out, d),
            None => {},
        }
    }
    proof {
        assert(instructions@.take(instructions@.len() as int) =~= instructions@);
    }
    out
}

/// The call destinations of the code: the engine is built for the
/// architecture, the code disassembled at its address, and the destinations
/// collected; a failed disassembly is its message.
pub fn extract_call_destinations(architecture: Architecture, context: &CodeContext) -> (r: Result<
    Vec<String>,
    TelfhashError,
>)
    ensures
        match disassembly(architecture, context.bytes@, context.address) {
            Ok(recs) => r matches Ok(v) && v.deep_view() == destinations_of(architecture, recs),
            Err(m) => r matches Err(TelfhashError::Message(x)) && x@ == m,
        },
{
    let d = architecture.build_capstone()?;
    match disassemble(&d, context.bytes.as_slice(), context.address) {
        Ok(recs) => Ok(call_destinations(architecture, recs.as_slice())),
        Err(message) => Err(TelfhashError::Message(message)),
    }
}

/// Appending a text unless it is there keeps a list free of repeats, and
/// the list then holds exactly the old texts and the new one.
pub proof fn lemma_push_unique(list: Seq<Seq<char>>, d: Seq<char>)
    requires
        list.no_duplicates(),
    ensures
        push_unique_spec(list, d).no_duplicates(),
        forall|x: Seq<char>|
            #[trigger] push_unique_spec(list, d).contains(x) <==> list.contains(x) || x == d,
{
    if !list.contains(d) {
        let t = list.push(d);
        assert forall|a: int, b: int| 0 <= a < t.len() && 0 <= b < t.len() && a != b implies t[a]
            != t[b] by {
            if a == list.len() as int && b < list.len() {
                assert(list.contains(list[b]));
            } else if b == list.len() as int && a < list.len() {
                assert(list.contains(list[a]));
            }
        }
        assert forall|x: Seq<char>| #[trigger] t.contains(x) <==> list.contains(x) || x == d by {
            if list.contains(x) {
                let m = choose|m: int| 0 <= m < list.len() && list[m] == x;
                assert(t[m] == x);
            }
            if t.contains(x) {
                let m = choose|m: int| 0 <= m < t.len() && t[m] == x;
                if m < list.len() {
                    assert(list[m] == x);
                }
            }
            assert(t[list.len() as int] == d);
        }
    }
}

/// The call destinations found in code are all different.
pub proof fn law_call_destinations_distinct(architecture: Architecture, recs: Seq<InstructionRecord>)
    ensures
        destinations_of(architecture, recs).no_duplicates(),
    decreases recs.len(),
{
    if recs.len() > 0 {
        law_call_destinations_distinct(architecture, recs.drop_last());
        match destination(architecture, recs.last()) {
            Some(d) => lemma_push_unique(destinations_of(architecture, recs.drop_last()), d),
            None => {},
        }
    }
}

/// A text is among the call destinations found in code exactly when some
/// instruction names it.
pub proof fn law_call_destinations_named(
    architecture: Architecture,
    recs: Seq<InstructionRecord>,
    x: Seq<char>,
)
    ensures
        destinations_of(architecture, recs).contains(x) <==> exists|k: int|
            0 <= k < recs.len() && destination(architecture, #[trigger] recs[k]) == Some(x),
    decreases recs.len(),
{
    if recs.len() > 0 {
        let p = recs.drop_last();
        law_call_destinations_named(architecture, p, x);
        law_call_destinations_distinct(architecture, p);
        let prev = destinations_of(architecture, p);
        match destination(architecture, recs.last()) {
            Some(d) => lemma_push_unique(prev, d),
            None => {},
        }
        if exists|k: int| 0 <= k < p.len() && destination(architecture, #[trigger] p[k]) == Some(x) {
            let k = choose|k: int| 0 <= k < p.len() && destination(architecture, #[trigger] p[k]) == Some(x);
            assert(recs[k] == p[k]);
        }
        if exists|k: int| 0 <= k < recs.len() && destination(architecture, #[trigger] recs[k]) == Some(x) {
            let k = choose|k: int| 0 <= k < recs.len() && destination(architecture, #[trigger] recs[k]) == Some(x);
            if k < p.len() {
                assert(p[k] == recs[k]);
            }
        }
        assert(recs[recs.len() - 1] == recs.last());
    }
}

/// Only the calling instruction of each architecture names a destination:
/// on x86 and x86-64 an instruction whose mnemonic is not `call` (a `jmp`,
/// say) names none, by its details or by its text; likewise on ARM one whose
/// mnemonic does not start with `bl`, on AArch64 one other than `bl`, and on
/// MIPS one other than `lw`.
pub proof fn law_only_calls_name_destinations(architecture: Architecture, rec: InstructionRecord)
    ensures
        (architecture == Architecture::X86 || architecture == Architecture::X64) && rec.mnemonic@
            != "call"@ ==> detail_destination(architecture, rec) is None && destination(
            architecture,
            rec,
        ) is None,
        architecture == Architecture::Arm && !has_prefix(rec.mnemonic@, "bl"@) ==> detail_destination(
            architecture,
            rec,
        ) is None && destination(architecture, rec) is None,
        architecture == Architecture::Aarch64 && rec.mnemonic@ != "bl"@ ==> detail_destination(
            architecture,
            rec,
        ) is None && destination(architecture, rec) is None,
        architecture == Architecture::Mips && rec.mnemonic@ != "lw"@ ==> detail_destination(
            architecture,
            rec,
        ) is None && destination(architecture, rec) is None,
{
}

/// Every call destination found in x86 or x86-64 code is named by a `call`
/// instruction.
pub proof fn law_x86_destinations_come_from_calls(
    architecture: Architecture,
    recs: Seq<InstructionRecord>,
    x: Seq<char>,
)
    requires
        architecture == Architecture::X86 || architecture == Architecture::X64,
        destinations_of(architecture, recs).contains(x),
    ensures
        exists|k: int|
            0 <= k < recs.len() && #[trigger] recs[k].mnemonic@ == "call"@ && destination(
                architecture,
                recs[k],
            ) == Some(x),
{
    law_call_destinations_named(architecture, recs, x);
    let k = choose|k: int| 0 <= k < recs.len() && destination(architecture, #[trigger] recs[k]) == Some(x);
    law_only_calls_name_destinations(architecture, recs[k]);
}

} // verus!
