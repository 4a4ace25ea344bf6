//! The machine architectures whose code the fallback can disassemble, and
//! the Capstone engines built for them.
use vstd::prelude::*;
use vstd::string::StringExecFns;
use capstone::arch::BuildsCapstone;
use capstone::arch::BuildsCapstoneEndian;
use crate::error::TelfhashError;

verus! {

broadcast use vstd::string::group_string_axioms;

/// `e_machine` of Intel 80386 code.
pub const EM_386: u16 = 3;
/// `e_machine` of MIPS code.
pub const EM_MIPS: u16 = 8;
/// `e_machine` of little-endian MIPS R3000 code.
pub const EM_MIPS_RS3_LE: u16 = 10;
/// `e_machine` of 32-bit ARM code.
pub const EM_ARM: u16 = 40;
/// `e_machine` of Stanford MIPS-X code.
pub const EM_MIPS_X: u16 = 51;
/// `e_machine` of AMD x86-64 code.
pub const EM_X86_64: u16 = 62;
/// `e_machine` of 64-bit ARM code.
pub const EM_AARCH64: u16 = 183;

/// An architecture whose code can be disassembled.
#[derive(Debug, Clone, Copy, PartialEq, Eq, Structural)]
pub enum Architecture {
    X86,
    X64,
    Arm,
    Aarch64,
    Mips,
}

/// The architecture of an `e_machine` value, if it is one of the supported.
pub open spec fn machine_architecture(machine: u16) -> Option<Architecture> {
    if machine == EM_386 {
        Some(Architecture::X86)
    } else if machine == EM_X86_64 {
        Some(Architecture::X64)
    } else if machine == EM_ARM {
        Some(Architecture::Arm)
    } else if machine == EM_AARCH64 {
        Some(Architecture::Aarch64)
    } else if machine == EM_MIPS || machine == EM_MIPS_RS3_LE || machine == EM_MIPS_X {
        Some(Architecture::Mips)
    } else {
        None
    }
}

/// `capstone::Capstone`, a disassembly engine.
#[verifier::external_type_specification]
#[verifier::external_body]
pub struct ExCapstone(capstone::Capstone);

/// Builds a Capstone engine for 32-bit x86 with instruction details on,
/// labelled with the architecture it was built for. `build` fails only
/// without a mode, when `cs_open` rejects the architecture or mode, or when
/// an option cannot be set; none of these happens here, with every
/// architecture compiled in, so it succeeds.
#[verifier::external_body]
fn capstone_x86_32() -> (r: Result<Disassembler, String>)
    ensures
        r is Ok,
        r is Ok ==> r->Ok_0.architecture() == Architecture::X86,
{
    let builder = capstone::Capstone::new().x86().mode(capstone::arch::x86::ArchMode::Mode32);
    match builder.detail(true).build() {
        Ok(engine) => Ok(Disassembler { architecture: Architecture::X86, engine }),
        Err(error) => Err(error.to_string()),
    }
}

/// Builds a Capstone engine for 64-bit x86 with instruction details on,
/// labelled with the architecture it was built for; it succeeds for the
/// reasons given at `capstone_x86_32`.
#[verifier::external_body]
fn capstone_x86_64() -> (r: Result<Disassembler, String>)
    ensures
        r is Ok,
        r is Ok ==> r->Ok_0.architecture() == Architecture::X64,
{
    let builder = capstone::Capstone::new().x86().mode(capstone::arch::x86::ArchMode::Mode64);
    match builder.detail(true).build() {
        Ok(engine) => Ok(Disassembler { architecture: Architecture::X64, engine }),
        Err(error) => Err(error.to_string()),
    }
}

/// Builds a Capstone engine for 32-bit ARM with instruction details on,
/// labelled with the architecture it was built for; it succeeds for the
/// reasons given at `capstone_x86_32`.
#[verifier::external_body]
fn capstone_arm() -> (r: Result<Disassembler, String>)
    ensures
        r is Ok,
        r is Ok ==> r->Ok_0.architecture() == Architecture::Arm,
{
    let builder = capstone::Capstone::new().arm().mode(capstone::arch::arm::ArchMode::Arm);
    match builder.detail(true).build() {
        Ok(engine) => Ok(Disassembler { architecture: Architecture::Arm, engine }),
        Err(error) => Err(error.to_string()),
    }
}

/// Builds a Capstone engine for 64-bit ARM with instruction details on,
/// labelled with the architecture it was built for; it succeeds for the
/// reasons given at `capstone_x86_32`.
#[verifier::external_body]
fn capstone_aarch64() -> (r: Result<Disassembler, String>)
    ensures
        r is Ok,
        r is Ok ==> r->Ok_0.architecture() == Architecture::Aarch64,
{
    let builder = capstone::Capstone::new().arm64().mode(capstone::arch::arm64::ArchMode::Arm);
    match builder.detail(true).build() {
        Ok(engine) => Ok(Disassembler { architecture: Architecture::Aarch64, engine }),
        Err(error) => Err(error.to_string()),
    }
}

/// Builds a Capstone engine for big-endian MIPS32R6 with instruction
/// details on, labelled with the architecture it was built for; it succeeds
/// for the reasons given at `capstone_x86_32`.
#[verifier::external_body]
fn capstone_mips() -> (r: Result<Disassembler, String>)
    ensures
        r is Ok,
        r is Ok ==> r->Ok_0.architecture() == Architecture::Mips,
{
    let builder = capstone::Capstone::new().mips().mode(capstone::arch::mips::ArchMode::Mips32R6);
    match builder.endian(capstone::Endian::Big).detail(true).build() {
        Ok(engine) => Ok(Disassembler { architecture: Architecture::Mips, engine }),
        Err(error) => Err(error.to_string()),
    }
}

/// A Capstone engine with the architecture it was built for.
pub struct Disassembler {
    architecture: Architecture,
    engine: capstone::Capstone,
}

impl Disassembler {
    /// The architecture the engine was built for.
    pub closed spec fn architecture(self) -> Architecture {
        self.architecture
    }

    /// The engine the disassembler holds.
    pub closed spec fn engine_spec(self) -> capstone::Capstone {
        self.engine
    }

    /// The engine.
    pub(crate) fn engine(&self) -> (r: &capstone::Capstone)
        ensures
            *r == self.engine_spec(),
    {
        &self.engine
    }
}

impl Architecture {
    /// The architecture of an `e_machine` value; other machines are
    /// unsupported.
    pub fn from_machine(machine: u16) -> (r: Result<Self, TelfhashError>)
        ensures
            match machine_architecture(machine) {
                Some(a) => r == Ok::<Architecture, TelfhashError>(a),
                None => r matches Err(TelfhashError::UnsupportedArchitecture),
            },
    {
        if machine == EM_386 {
            Ok(Architecture::X86)
        } else if machine == EM_X86_64 {
            Ok(Architecture::X64)
        } else if machine == EM_ARM {
            Ok(Architecture::Arm)
        } else if machine == EM_AARCH64 {
            Ok(Architecture::Aarch64)
        } else if machine == EM_MIPS || machine == EM_MIPS_RS3_LE || machine == EM_MIPS_X {
            Ok(Architecture::Mips)
        } else {
            Err(TelfhashError::UnsupportedArchitecture)
        }
    }

    /// A Capstone engine for this architecture, with instruction details on:
    /// x86 in 32- or 64-bit mode, ARM in ARM mode, AArch64, and big-endian
    /// MIPS32R6. Building always succeeds.
    pub fn build_capstone(self) -> (r: Result<Disassembler, TelfhashError>)
        ensures
            r matches Ok(d) && d.architecture() == self,
    {
        let built = match self {
            Architecture::X86 => capstone_x86_32(),
            Architecture::X64 => capstone_x86_64(),
            Architecture::Arm => capstone_arm(),
            Architecture::Aarch64 => capstone_aarch64(),
            Architecture::Mips => capstone_mips(),
        };
        match built {
            Ok(disassembler) => Ok(disassembler),
            Err(message) => Err(TelfhashError::Message(message)),
        }
    }
}

/// The ELF class name of a file.
pub open spec fn elf_class_name(is_64: bool) -> Seq<char> {
    if is_64 {
        "ELFCLASS64"@
    } else {
        "ELFCLASS32"@
    }
}

/// The ELF class name of a file: `ELFCLASS64` or `ELFCLASS32`.
pub fn elf_class(is_64: bool) -> (r: String)
    ensures
        r@ == elf_class_name(is_64),
{
    if is_64 {
        String::from_str("ELFCLASS64")
    } else {
        String::from_str("ELFCLASS32")
    }
}

} // verus!
