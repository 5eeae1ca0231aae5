//! Architecture tags, raw section flags, and the rule that decides
//! which sections hold machine instructions.

use vstd::prelude::*;
use crate::errors::ErrorKind;

verus! {

/// The architectures a decoder exists for, plus a tag for everything
/// else.
#[derive(Clone, Copy, Debug, PartialEq, Eq, Structural)]
pub enum ArchKind {
    X86_64,
    I386,
    Arm,
    Aarch64,
    Riscv32,
    Riscv64,
    Mips64,
    PowerPc,
    PowerPc64,
    Sparc,
    Unsupported,
}

/// A section's flag word, still in its container format's encoding.
#[derive(Clone, Copy, Debug, PartialEq, Eq, Structural)]
pub enum RawSectionFlags {
    /// `sh_flags` of an ELF section header.
    Elf(u64),
    /// `flags` of a Mach-O section header.
    MachO(u32),
    /// `Characteristics` of a COFF/PE section header.
    Coff(u32),
    /// The parser reported no flags.
    NoFlags,
    /// Any other flag encoding.
    Other,
}

/// ELF: the section holds executable instructions.
pub const SHF_EXECINSTR: u64 = 0x4;

/// Mach-O: the section holds only machine instructions.
pub const S_ATTR_PURE_INSTRUCTIONS: u32 = 0x80000000;

/// COFF/PE: the section is executable.
pub const IMAGE_SCN_MEM_EXECUTE: u32 = 0x20000000;

/// Whether a section's flags mark it as machine code: the executable
/// bit of its container format. Flag encodings of other formats are
/// rejected.
pub fn should_disassemble(flags: &RawSectionFlags) -> (r: Result<bool, ErrorKind>)
    ensures
        r == spec_should_disassemble(*flags),
{
    match flags {
        RawSectionFlags::Elf(sh_flags) => Ok(*sh_flags & SHF_EXECINSTR != 0),
        RawSectionFlags::MachO(f) => Ok(*f & S_ATTR_PURE_INSTRUCTIONS != 0),
        RawSectionFlags::Coff(characteristics) => Ok(
            *characteristics & IMAGE_SCN_MEM_EXECUTE != 0,
        ),
        RawSectionFlags::NoFlags => Ok(false),
        RawSectionFlags::Other => Err(ErrorKind::UnsupportedSectionFlags),
    }
}

/// The classification rule: ELF by `SHF_EXECINSTR`, Mach-O by
/// `S_ATTR_PURE_INSTRUCTIONS`, COFF by `IMAGE_SCN_MEM_EXECUTE`; no
/// flags means not code; other encodings are errors.
pub open spec fn spec_should_disassemble(flags: RawSectionFlags) -> Result<bool, ErrorKind> {
    match flags {
        RawSectionFlags::Elf(f) => Ok((f & SHF_EXECINSTR) != 0),
        RawSectionFlags::MachO(f) => Ok((f & S_ATTR_PURE_INSTRUCTIONS) != 0),
        RawSectionFlags::Coff(f) => Ok((f & IMAGE_SCN_MEM_EXECUTE) != 0),
        RawSectionFlags::NoFlags => Ok(false),
        RawSectionFlags::Other => Err(ErrorKind::UnsupportedSectionFlags),
    }
}

} // verus!
