//! The object model: the parsed binary, its sections classified as
//! code or info, the eager-disassembly path, and the lazily built
//! DWARF surface and line index over it.

use vstd::prelude::*;
use object::{Object, ObjectSection};
use crate::arch::{should_disassemble, ArchKind, RawSectionFlags};
use crate::disasm::{create_capstone, decoded, disasm_parallel, dissasm, plan_regions, Decoder};
use crate::dwarf::{load_dwarf_data, make_context, DwarfData, LineLookup};
use crate::errors::{ErrorKind, WrapedError};
use crate::insn::{
    lemma_wf_decode_section_asm, wf_decode, wf_section_asm, InstructionDetail,
};
use crate::line_map::{fm_contents, fm_has, FileMap, LineMap};
use crate::dwarf::{ctx_loc_fails, ctx_locs};
use vstd::multiset::Multiset;

verus! {

/// The probe stride of region discovery: one region boundary is sought
/// near every multiple of this many bytes.
pub const DISASM_STEP: u64 = 1048576;

/// One section as the object parser hands it over: its name, load
/// address, raw flag word and bytes.
#[derive(Debug)]
pub struct RawSection {
    pub name: String,
    pub address: u64,
    pub flags: RawSectionFlags,
    pub data: Vec<u8>,
}

/// A section that holds machine instructions, with its lazily decoded
/// instruction vector.
#[derive(Debug)]
pub struct CodeSection {
    pub name: String,
    pub data: Vec<u8>,
    pub address: u64,
    pub instructions: Option<Vec<InstructionDetail>>,
}

/// A section that holds anything but machine instructions.
#[derive(Debug)]
pub struct InfoSection {
    pub name: String,
    pub data: Vec<u8>,
    pub address: u64,
}

/// A classified section.
#[derive(Debug)]
pub enum Section {
    Code(CodeSection),
    Info(InfoSection),
}

impl CodeSection {
    /// The section's range fits the address space, and whatever vector
    /// is cached lies inside the section, strictly ordered by address.
    pub open spec fn wf(self) -> bool {
        &&& self.address + self.data@.len() <= u64::MAX
        &&& (self.instructions matches Some(v) ==> wf_section_asm(
            v@,
            self.address as int,
            self.data@.len() as int,
        ))
    }

    /// The cached instruction vector. Callers must have disassembled
    /// the section first.
    pub fn get_existing_asm(&self) -> (r: &Vec<InstructionDetail>)
        requires
            self.instructions is Some,
        ensures
            self.instructions matches Some(v) && r == v,
    {
        self.instructions.as_ref().unwrap()
    }

    /// Decode the whole section sequentially with the given decoder and
    /// cache the vector; a cached vector is kept as it is.
    #[verifier::rlimit(60)]
    pub fn get_asm_capstone(&mut self, cs: &Decoder) -> (r: Result<(), WrapedError>)
        requires
            old(self).wf(),
        ensures
            final(self).wf(),
            final(self).name == old(self).name,
            final(self).data == old(self).data,
            final(self).address == old(self).address,
            old(self).instructions is Some ==> *final(self) == *old(self),
            r is Ok,
            r matches Ok(()) ==> final(self).instructions is Some,
            (r matches Ok(()) && old(self).instructions is None) ==> (final(self).instructions
                matches Some(v) && v@ == decoded(
                cs.spec_arch(),
                old(self).data@,
                old(self).address as int,
            )),
    {
        if self.instructions.is_some() {
            return Ok(());
        }
        let v = dissasm(cs, &self.data, self.address)?;
        proof {
            lemma_wf_decode_section_asm(v@, self.address as int, self.data@.len() as int);
        }
        self.instructions = Some(v);
        Ok(())
    }

    /// Decode the section and cache the vector, building a decoder for
    /// the given architecture first. A section decoded before answers
    /// from its cache without a decoder; an empty section decodes to an
    /// empty vector.
    pub fn get_asm(&mut self, arch: &ArchKind) -> (r: Result<(), WrapedError>)
        requires
            old(self).wf(),
        ensures
            final(self).wf(),
            final(self).name == old(self).name,
            final(self).data == old(self).data,
            final(self).address == old(self).address,
            old(self).instructions is Some ==> (*final(self) == *old(self) && r is Ok),
            r matches Ok(()) ==> final(self).instructions is Some,
            (r matches Ok(()) && old(self).instructions is None) ==> (final(self).instructions
                matches Some(v) && v@ == decoded(*arch, old(self).data@, old(self).address as int)),
            (r matches Ok(()) && old(self).data@.len() == 0) ==> (final(self).instructions
                matches Some(v) && v@.len() == 0),
            r is Err ==> *final(self) == *old(self),
            (old(self).instructions is None && *arch == ArchKind::Unsupported) ==> (r matches Err(
                e,
            ) && e.kind == ErrorKind::UnsupportedArchitecture),
            r matches Err(e) ==> (e.kind == ErrorKind::UnsupportedArchitecture || e.kind
                == ErrorKind::DisassemblerInit),
    {
        if self.instructions.is_some() {
            proof {
                if self.data@.len() == 0 {
                    match &self.instructions {
                        Some(v) => {
                            crate::insn::lemma_wf_section_asm_empty(v@, self.address as int);
                        },
                        None => {},
                    }
                }
            }
            return Ok(());
        }
        let cs = create_capstone(arch)?;
        let r = self.get_asm_capstone(&cs);
        proof {
            if self.data@.len() == 0 {
                match &self.instructions {
                    Some(v) => {
                        crate::insn::lemma_wf_section_asm_empty(v@, self.address as int);
                    },
                    None => {},
                }
            }
        }
        r
    }
}

impl Section {
    /// The section's name, whichever kind it is.
    pub fn name(&self) -> (r: &String)
        ensures
            r == self.spec_name(),
    {
        match self {
            Section::Code(x) => &x.name,
            Section::Info(x) => &x.name,
        }
    }

    /// The name field of either variant.
    pub open spec fn spec_name(self) -> String {
        match self {
            Section::Code(x) => x.name,
            Section::Info(x) => x.name,
        }
    }

    /// The data field of either variant.
    pub open spec fn spec_data(self) -> Vec<u8> {
        match self {
            Section::Code(x) => x.data,
            Section::Info(x) => x.data,
        }
    }

    /// Code sections keep their cached vectors well-formed.
    pub open spec fn wf(self) -> bool {
        match self {
            Section::Code(c) => c.wf(),
            Section::Info(_) => true,
        }
    }

    /// Nothing is left to decode in this section: it is an info
    /// section, or a code section whose vector is cached.
    pub open spec fn settled(self) -> bool {
        match self {
            Section::Code(c) => c.instructions is Some,
            Section::Info(_) => true,
        }
    }
}

/// Relies on str's PartialEq: two string slices are equal exactly when
/// their character sequences are.
#[verifier::external_body]
fn str_eq(a: &str, b: &str) -> (r: bool)
    ensures
        r == (a@ == b@),
{
    a == b
}

/// The bytes of the first section with the given name, empty when no
/// section has it.
pub open spec fn spec_section_bytes_for(sections: Seq<Section>, name: Seq<char>) -> Seq<u8>
    decreases sections.len(),
{
    if sections.len() == 0 {
        Seq::empty()
    } else if sections[0].spec_name()@ == name {
        sections[0].spec_data()@
    } else {
        spec_section_bytes_for(sections.drop_first(), name)
    }
}

/// Look a section's bytes up by name; absent sections read as empty.
pub fn section_bytes_for<'a>(sections: &'a Vec<Section>, name: &str) -> (r: &'a [u8])
    ensures
        r@ == spec_section_bytes_for(sections@, name@),
{
    let mut i: usize = 0;
    proof {
        assert(sections@.skip(0) =~= sections@);
    }
    while i < sections.len()
        invariant
            i <= sections@.len(),
            spec_section_bytes_for(sections@, name@) == spec_section_bytes_for(
                sections@.skip(i as int),
                name@,
            ),
        decreases sections@.len() - i,
    {
        let sec = &sections[i];
        proof {
            assert(sections@.skip(i as int)[0] == sections@[i as int]);
            assert(sections@.skip(i as int).drop_first() =~= sections@.skip(i + 1));
        }
        if str_eq(sec.name().as_str(), name) {
            return match sec {
                Section::Code(c) => c.data.as_slice(),
                Section::Info(c) => c.data.as_slice(),
            };
        }
        i += 1;
    }
    proof {
        assert(sections@.skip(sections@.len() as int) =~= Seq::<Section>::empty());
    }
    &[]
}

/// Relies on object::Architecture: each supported tag maps to this
/// library's own tag, anything else to the unsupported tag.
#[verifier::external_type_specification]
#[verifier::external_body]
pub struct ExObjArchitecture(object::Architecture);

/// Relies on object::SectionFlags: the flag word of each container
/// format, moved out of the parser's enum.
#[verifier::external_type_specification]
#[verifier::external_body]
pub struct ExObjSectionFlags(object::SectionFlags);

/// Relies on object::Architecture's variants: one arm per supported
/// architecture, moving nothing.
#[verifier::external_body]
fn conv_arch(a: object::Architecture) -> ArchKind {
    match a {
        object::Architecture::X86_64 => ArchKind::X86_64,
        object::Architecture::I386 => ArchKind::I386,
        object::Architecture::Arm => ArchKind::Arm,
        object::Architecture::Aarch64 => ArchKind::Aarch64,
        object::Architecture::Riscv32 => ArchKind::Riscv32,
        object::Architecture::Riscv64 => ArchKind::Riscv64,
        object::Architecture::Mips64 => ArchKind::Mips64,
        object::Architecture::PowerPc => ArchKind::PowerPc,
        object::Architecture::PowerPc64 => ArchKind::PowerPc64,
        object::Architecture::Sparc => ArchKind::Sparc,
        _ => ArchKind::Unsupported,
    }
}

/// Relies on object::SectionFlags' variants: one arm per container
/// format, moving the flag word out.
#[verifier::external_body]
fn conv_flags(f: object::SectionFlags) -> RawSectionFlags {
    match f {
        object::SectionFlags::Elf { sh_flags, .. } => RawSectionFlags::Elf(sh_flags.0),
        object::SectionFlags::MachO { flags, .. } => RawSectionFlags::MachO(flags.0),
        object::SectionFlags::Coff { characteristics } => RawSectionFlags::Coff(
            characteristics.0,
        ),
        object::SectionFlags::None => RawSectionFlags::NoFlags,
        _ => RawSectionFlags::Other,
    }
}

/// What the object parser detects for these bytes: the architecture
/// tag and the endianness, or nothing when the container format is not
/// recognised. A function of the bytes alone.
pub uninterp spec fn obj_head_of(bytes: Seq<u8>) -> Option<(ArchKind, bool)>;

/// The sections the object parser reads from these bytes — name,
/// address, flag word and data, in on-disk order — or nothing when the
/// container or one of its sections cannot be read. A function of the
/// bytes alone.
pub uninterp spec fn obj_sections_of(bytes: Seq<u8>) -> Option<Seq<RawSection>>;

/// Relies on object::File::parse: the detected architecture and
/// endianness of the binary, exactly when the container parses, as
/// `obj_head_of` states it.
#[verifier::external_body]
fn object_parse_head(buffer: &[u8]) -> (r: Result<(ArchKind, bool), WrapedError>)
    ensures
        r is Ok <==> obj_head_of(buffer@) is Some,
        r matches Ok(h) ==> obj_head_of(buffer@) == Some(h),
        r is Err ==> obj_sections_of(buffer@) is None,
        r matches Err(e) ==> e.kind == ErrorKind::UnsupportedFormat,
{
    let fe = |e: object::Error| WrapedError { kind: ErrorKind::UnsupportedFormat, message: e.to_string() };
    let obj = object::File::parse(buffer).map_err(fe)?;
    Ok((conv_arch(obj.architecture()), obj.is_little_endian()))
}

/// Relies on object::File::parse and its section iterator: each
/// section's name, address, flags and bytes, in on-disk order, exactly
/// when all of them can be read, as `obj_sections_of` states it.
#[verifier::external_body]
fn object_parse_sections(buffer: &[u8]) -> (r: Result<Vec<RawSection>, WrapedError>)
    ensures
        r is Ok <==> obj_sections_of(buffer@) is Some,
        r matches Ok(v) ==> obj_sections_of(buffer@) == Some(v@),
        r matches Err(e) ==> (e.kind == ErrorKind::UnsupportedFormat || e.kind
            == ErrorKind::SectionReadFailed),
{
    let fe = |e: object::Error| WrapedError { kind: ErrorKind::UnsupportedFormat, message: e.to_string() };
    let se = |e: object::Error| WrapedError { kind: ErrorKind::SectionReadFailed, message: e.to_string() };
    let obj = object::File::parse(buffer).map_err(fe)?;
    let mut out = Vec::new();
    for s in obj.sections() {
        out.push(RawSection { name: s.name().map_err(se)?.to_string(), address: s.address(),
            flags: conv_flags(s.flags()), data: s.data().map_err(se)?.to_vec() });
    }
    Ok(out)
}

/// A raw section is acceptable: its flag word classifies, and a code
/// section's range fits the address space.
pub open spec fn spec_raw_ok(s: RawSection) -> bool {
    match crate::arch::spec_should_disassemble(s.flags) {
        Ok(is_code) => !is_code || s.address + s.data@.len() <= u64::MAX,
        Err(_) => false,
    }
}

/// Every raw section is acceptable.
pub open spec fn spec_sections_ok(rs: Seq<RawSection>) -> bool {
    forall|k: int| 0 <= k < rs.len() ==> spec_raw_ok(#[trigger] rs[k])
}

/// Parsing these bytes succeeds: the container and its sections read,
/// every flag word classifies, and every code section fits the address
/// space.
pub open spec fn spec_parse_ok(bytes: Seq<u8>) -> bool {
    &&& obj_head_of(bytes) is Some
    &&& obj_sections_of(bytes) matches Some(rs) && spec_sections_ok(rs)
}

/// A classified section carries its raw section's name, address and
/// bytes, and sits on the side its flag word puts it.
pub open spec fn section_matches_raw(s: Section, r: RawSection) -> bool {
    match s {
        Section::Code(c) => crate::arch::spec_should_disassemble(r.flags) == Ok::<
            bool,
            ErrorKind,
        >(true) && c.name == r.name && c.address == r.address && c.data == r.data,
        Section::Info(i) => crate::arch::spec_should_disassemble(r.flags) == Ok::<
            bool,
            ErrorKind,
        >(false) && i.name == r.name && i.address == r.address && i.data == r.data,
    }
}

/// The shape of a parsed binary: its architecture and endianness are
/// the detected ones, its sections classify the raw sections one for
/// one in on-disk order, a lazy parse leaves every cache empty, an
/// eager parse leaves every code section decoded, and no line index is
/// built yet.
pub open spec fn spec_parse_shape(m: MachineFile, bytes: Seq<u8>, parse_asm: bool) -> bool {
    &&& obj_head_of(bytes) matches Some(h) && m.arch == h.0 && m.little_endian == h.1
    &&& obj_sections_of(bytes) matches Some(rs) && m.sections@.len() == rs.len() && (forall|k: int|
        0 <= k < rs.len() ==> section_matches_raw(#[trigger] m.sections@[k], rs[k]))
    &&& !parse_asm ==> forall|k: int|
        0 <= k < m.sections@.len() ==> ((#[trigger] m.sections@[k]) matches Section::Code(c)
            ==> c.instructions is None)
    &&& parse_asm ==> forall|k: int|
        0 <= k < m.sections@.len() ==> (#[trigger] m.sections@[k]).settled()
    &&& m.file_lines is None
}

/// Two sections that are the same section: same side, name, address
/// and bytes; only a code section's decoded cache may differ.
pub open spec fn same_section_identity(a: Section, b: Section) -> bool {
    match (a, b) {
        (Section::Code(x), Section::Code(y)) => x.name == y.name && x.address == y.address
            && x.data == y.data,
        (Section::Info(x), Section::Info(y)) => x == y,
        _ => false,
    }
}

/// One parsed binary: its architecture, endianness, classified
/// sections in on-disk order, and the DWARF surface and line index
/// built over it on first use.
pub struct MachineFile {
    pub arch: ArchKind,
    pub little_endian: bool,
    pub sections: Vec<Section>,
    pub dwarf: Option<DwarfData>,
    pub addr2line: Option<LineLookup>,
    pub file_lines: Option<FileMap>,
}

/// The instruction vector a section shows: empty for info sections and
/// for code sections not yet decoded.
pub open spec fn section_vec(s: Section) -> Seq<InstructionDetail> {
    match s {
        Section::Code(c) => match c.instructions {
            Some(v) => v@,
            None => Seq::empty(),
        },
        Section::Info(_) => Seq::empty(),
    }
}

/// All instructions of a run of sections, as a multiset.
pub open spec fn sections_insns(ss: Seq<Section>) -> Multiset<InstructionDetail>
    decreases ss.len(),
{
    if ss.len() == 0 {
        Multiset::empty()
    } else {
        section_vec(ss[0]).to_multiset().add(sections_insns(ss.drop_first()))
    }
}

proof fn lemma_sections_insns_take(ss: Seq<Section>, i: int)
    requires
        0 <= i < ss.len(),
    ensures
        sections_insns(ss.take(i + 1)) =~= sections_insns(ss.take(i)).add(
            section_vec(ss[i]).to_multiset(),
        ),
    decreases i,
{
    let a = ss.take(i + 1);
    let b = ss.take(i);
    if i == 0 {
        assert(a.drop_first() =~= Seq::<Section>::empty());
        assert(b =~= Seq::<Section>::empty());
        assert(sections_insns(Seq::<Section>::empty()) == Multiset::<InstructionDetail>::empty());
        assert(a[0] == ss[0]);
        assert(sections_insns(a) == section_vec(ss[0]).to_multiset().add(
            sections_insns(Seq::<Section>::empty()),
        ));
        assert(sections_insns(a) =~= sections_insns(b).add(section_vec(ss[i]).to_multiset()));
    } else {
        lemma_sections_insns_take(ss.drop_first(), i - 1);
        assert(a.drop_first() =~= ss.drop_first().take(i));
        assert(b.drop_first() =~= ss.drop_first().take(i - 1));
        assert(a[0] == ss[0] && b[0] == ss[0]);
        assert(ss.drop_first()[i - 1] == ss[i]);
        assert(sections_insns(a) == section_vec(ss[0]).to_multiset().add(
            sections_insns(ss.drop_first().take(i)),
        ));
        assert(sections_insns(b) == section_vec(ss[0]).to_multiset().add(
            sections_insns(ss.drop_first().take(i - 1)),
        ));
        assert(sections_insns(ss.drop_first().take(i)) =~= sections_insns(
            ss.drop_first().take(i - 1),
        ).add(section_vec(ss[i]).to_multiset()));
        assert(sections_insns(a) =~= sections_insns(b).add(section_vec(ss[i]).to_multiset()));
    }
}

/// Nothing outside is left to decide for the index build: the context
/// is built, every section is decoded, and no instruction's address
/// makes the location lookup fail.
pub open spec fn spec_index_ready(m: MachineFile) -> bool {
    &&& m.addr2line is Some
    &&& forall|i: int| 0 <= i < m.sections@.len() ==> (#[trigger] m.sections@[i]).settled()
    &&& forall|i: int, k: int|
        0 <= i < m.sections@.len() && 0 <= k < section_vec(#[trigger] m.sections@[i]).len()
            ==> !ctx_loc_fails(m.addr2line.unwrap()).contains(
            (#[trigger] section_vec(m.sections@[i])[k]).address,
        )
}

/// If the index gives this instruction's address a file and a line, the
/// instruction sits in that file's cell for that line.
pub open spec fn located_one(fm: FileMap, ctx: LineLookup, ins: InstructionDetail) -> bool {
    (ctx_locs(ctx).dom().contains(ins.address) && ctx_locs(ctx)[ins.address].0 is Some
        && ctx_locs(ctx)[ins.address].1 is Some) ==> fm_has(
        fm,
        ctx_locs(ctx)[ins.address].0.unwrap(),
        ctx_locs(ctx)[ins.address].1.unwrap(),
        ins,
    )
}

impl MachineFile {
    /// Every code section is well-formed.
    pub open spec fn wf(self) -> bool {
        forall|i: int| 0 <= i < self.sections@.len() ==> (#[trigger] self.sections@[i]).wf()
    }

    /// Parse a binary: classify its sections by the executable flag of
    /// its container format, and, when asked, decode every code section
    /// at once — with DWARF-guided region splitting when the DWARF
    /// surface is available, sequentially otherwise.
    #[verifier::rlimit(60)]
    pub fn parse(buffer: &[u8], parse_asm: bool) -> (r: Result<MachineFile, WrapedError>)
        ensures
            r matches Ok(m) ==> m.wf() && m.lines_map_ok(),
            r matches Ok(m) ==> spec_parse_shape(m, buffer@, parse_asm),
            r is Ok ==> spec_parse_ok(buffer@),
            !parse_asm ==> (r is Ok <==> spec_parse_ok(buffer@)),
            obj_head_of(buffer@) is None ==> (r matches Err(e) && e.kind
                == ErrorKind::UnsupportedFormat),
            (obj_head_of(buffer@) is Some && obj_sections_of(buffer@) is None) ==> (r matches Err(
                e,
            ) && (e.kind == ErrorKind::UnsupportedFormat || e.kind == ErrorKind::SectionReadFailed)),
            (obj_sections_of(buffer@) matches Some(rs) && !spec_sections_ok(rs)) ==> (r matches Err(
                e,
            ) && (e.kind == ErrorKind::UnsupportedSectionFlags || e.kind
                == ErrorKind::SectionReadFailed)),
            r matches Err(e) ==> (e.kind == ErrorKind::UnsupportedFormat || e.kind
                == ErrorKind::SectionReadFailed || e.kind == ErrorKind::UnsupportedSectionFlags
                || e.kind == ErrorKind::UnsupportedArchitecture || e.kind
                == ErrorKind::DisassemblerInit || e.kind == ErrorKind::Dwarf),
    {
        let (arch, little_endian) = object_parse_head(buffer)?;
        let raw_sections = object_parse_sections(buffer)?;
        let ghost rs0 = raw_sections@;
        let mut raw_sections = raw_sections;
        let total = raw_sections.len();
        let mut sections: Vec<Section> = Vec::new();
        let mut i: usize = 0;
        while raw_sections.len() > 0
            invariant
                rs0 == obj_sections_of(buffer@).unwrap(),
                obj_sections_of(buffer@) is Some,
                obj_head_of(buffer@) is Some,
                total == rs0.len(),
                i + raw_sections@.len() == rs0.len(),
                raw_sections@ == rs0.skip(i as int),
                sections@.len() == i,
                forall|k: int| 0 <= k < i ==> (#[trigger] sections@[k]).wf(),
                forall|k: int|
                    0 <= k < i ==> section_matches_raw(#[trigger] sections@[k], rs0[k]),
                forall|k: int|
                    0 <= k < i ==> ((#[trigger] sections@[k]) matches Section::Code(c)
                        ==> c.instructions is None),
                forall|k: int| 0 <= k < i ==> spec_raw_ok(#[trigger] rs0[k]),
            decreases raw_sections@.len(),
        {
            let s = raw_sections.remove(0);
            proof {
                assert(rs0.skip(i as int)[0] == rs0[i as int]);
                assert(rs0.skip(i as int).drop_first() =~= rs0.skip(i + 1));
            }
            let is_code = match should_disassemble(&s.flags) {
                Ok(b) => b,
                Err(k) => {
                    proof {
                        assert(!spec_raw_ok(rs0[i as int]));
                    }
                    return Err(WrapedError::new(k, String::new()));
                },
            };
            if is_code {
                if s.data.len() as u64 > u64::MAX - s.address {
                    proof {
                        assert(!spec_raw_ok(rs0[i as int]));
                    }
                    return Err(
                        WrapedError::new(ErrorKind::SectionReadFailed, String::new()),
                    );
                }
                sections.push(
                    Section::Code(
                        CodeSection { name: s.name, data: s.data, address: s.address, instructions: None },
                    ),
                );
            } else {
                sections.push(
                    Section::Info(InfoSection { name: s.name, data: s.data, address: s.address }),
                );
            }
            i += 1;
        }
        proof {
            assert(rs0.skip(rs0.len() as int) =~= Seq::<RawSection>::empty());
            assert(spec_sections_ok(rs0));
        }
        let mut ans = MachineFile {
            arch,
            little_endian,
            sections,
            dwarf: None,
            addr2line: None,
            file_lines: None,
        };
        if parse_asm {
            match ans.get_addr2line() {
                Ok(_) => {
                    ans.compile_with_dwarf()?;
                },
                Err(_) => {
                    // no DWARF surface: fall back to the sequential strategy
                    ans.slow_compile()?;
                },
            }
        }
        Ok(ans)
    }

    /// The parsed DWARF of this binary, loaded from its own sections on
    /// first call and shared afterwards.
    pub fn load_dwarf(&mut self) -> (r: &DwarfData)
        ensures
            final(self).dwarf is Some,
            old(self).dwarf is Some ==> *final(self) == *old(self),
            final(self).arch == old(self).arch,
            final(self).little_endian == old(self).little_endian,
            final(self).sections == old(self).sections,
            final(self).addr2line == old(self).addr2line,
            final(self).file_lines == old(self).file_lines,
    {
        if self.dwarf.is_none() {
            let d = load_dwarf_data(&self.sections, self.little_endian);
            self.dwarf = Some(d);
        }
        self.dwarf.as_ref().unwrap()
    }

    /// The address-to-source context of this binary, built over its
    /// DWARF on first call and shared afterwards.
    pub fn get_addr2line(&mut self) -> (r: Result<&LineLookup, WrapedError>)
        ensures
            old(self).addr2line is Some ==> *final(self) == *old(self),
            r is Ok ==> final(self).addr2line is Some,
            final(self).arch == old(self).arch,
            final(self).little_endian == old(self).little_endian,
            final(self).sections == old(self).sections,
            final(self).file_lines == old(self).file_lines,
            r matches Err(e) ==> e.kind == ErrorKind::Dwarf,
            r is Err ==> final(self).addr2line is None,
    {
        if self.addr2line.is_none() {
            let d = self.load_dwarf();
            let ctx = make_context(d)?;
            self.addr2line = Some(ctx);
        }
        Ok(self.addr2line.as_ref().unwrap())
    }

    /// Decode every code section with one decoder, sequentially. A
    /// decoder is built only when an undecoded code section is found,
    /// so a fully decoded binary always succeeds. Every section keeps
    /// its side, name, address and bytes.
    #[verifier::rlimit(100)]
    pub fn slow_compile(&mut self) -> (r: Result<(), WrapedError>)
        requires
            old(self).wf(),
        ensures
            final(self).wf(),
            final(self).arch == old(self).arch,
            final(self).little_endian == old(self).little_endian,
            final(self).dwarf == old(self).dwarf,
            final(self).addr2line == old(self).addr2line,
            final(self).file_lines == old(self).file_lines,
            final(self).sections@.len() == old(self).sections@.len(),
            forall|i: int|
                0 <= i < old(self).sections@.len() ==> same_section_identity(
                    old(self).sections@[i],
                    #[trigger] final(self).sections@[i],
                ),
            forall|i: int|
                0 <= i < old(self).sections@.len() ==> ((#[trigger] old(self).sections@[i]).settled() ==> final(self).sections@[i] == old(self).sections@[i]),
            (forall|i: int| 0 <= i < old(self).sections@.len() ==> (#[trigger] old(self).sections@[i]).settled()) ==> r is Ok,
            r matches Ok(()) ==> forall|i: int|
                0 <= i < final(self).sections@.len() ==> (#[trigger] final(self).sections@[i]).settled(),
            r matches Ok(()) ==> forall|i: int|
                0 <= i < old(self).sections@.len() ==> ((#[trigger] old(self).sections@[i]) matches Section::Code(c0) ==> (c0.instructions is None ==> (final(self).sections@[i] matches Section::Code(c) && c.instructions matches Some(v) && v@
                    == decoded(old(self).arch, c0.data@, c0.address as int)))),
            r matches Err(e) ==> (e.kind == ErrorKind::UnsupportedArchitecture || e.kind
                == ErrorKind::DisassemblerInit),
    {
        let mut cs_opt: Option<Decoder> = None;
        let n = self.sections.len();
        let mut i: usize = 0;
        while i < n
            invariant
                n == self.sections@.len(),
                n == old(self).sections@.len(),
                i <= n,
                self.wf(),
                cs_opt matches Some(d) ==> d.spec_arch() == old(self).arch,
                forall|k: int|
                    0 <= k < n ==> same_section_identity(
                        old(self).sections@[k],
                        #[trigger] self.sections@[k],
                    ),
                forall|k: int|
                    0 <= k < n ==> ((#[trigger] old(self).sections@[k]).settled()
                        ==> self.sections@[k] == old(self).sections@[k]),
                forall|k: int|
                    i <= k < n ==> (#[trigger] self.sections@[k]) == old(self).sections@[k],
                self.arch == old(self).arch,
                self.little_endian == old(self).little_endian,
                self.dwarf == old(self).dwarf,
                self.addr2line == old(self).addr2line,
                self.file_lines == old(self).file_lines,
                forall|k: int|
                    0 <= k < i ==> (#[trigger] self.sections@[k]).settled(),
                forall|k: int|
                    0 <= k < i ==> ((#[trigger] old(self).sections@[k]) matches Section::Code(c0)
                        ==> (c0.instructions is None ==> (self.sections@[k] matches Section::Code(
                            c,
                        ) && c.instructions matches Some(v) && v@ == decoded(
                            old(self).arch,
                            c0.data@,
                            c0.address as int,
                        )))),
            decreases n - i,
        {
            let ghost sb = self.sections@;
            let sec = self.sections.remove(i);
            let ghost sec0 = sec;
            let sec = match sec {
                Section::Code(mut c) => {
                    if c.instructions.is_none() {
                        if cs_opt.is_none() {
                            match create_capstone(&self.arch) {
                                Ok(d) => {
                                    cs_opt = Some(d);
                                },
                                Err(e) => {
                                    self.sections.insert(i, Section::Code(c));
                                    proof {
                                        assert(self.sections@ =~= sb);
                                    }
                                    return Err(e);
                                },
                            }
                        }
                        let cs = cs_opt.as_ref().unwrap();
                        let v = match dissasm(cs, &c.data, c.address) {
                            Ok(v) => v,
                            Err(e) => {
                                self.sections.insert(i, Section::Code(c));
                                proof {
                                    assert(self.sections@ =~= sb);
                                }
                                return Err(e);
                            },
                        };
                        proof {
                            lemma_wf_decode_section_asm(v@, c.address as int, c.data@.len() as int);
                        }
                        c.instructions = Some(v);
                    }
                    Section::Code(c)
                },
                Section::Info(c) => Section::Info(c),
            };
            let ghost secg = sec;
            self.sections.insert(i, sec);
            proof {
                assert(self.sections@ =~= sb.update(i as int, secg));
                assert(sec0 == old(self).sections@[i as int]);
                assert(sec0.settled() ==> secg == sec0);
                assert(same_section_identity(sec0, secg));
            }
            i += 1;
        }
        Ok(())
    }

    /// Decode every code section, splitting it into DWARF-delimited
    /// regions where the line table yields at least two, decoding them
    /// separately and merging in address order; a section the line
    /// table cannot split is decoded sequentially, with no serial
    /// numbers assigned. A decoder is built only when an undecoded code
    /// section is found, so a fully decoded binary always succeeds.
    #[verifier::rlimit(100)]
    pub fn compile_with_dwarf(&mut self) -> (r: Result<(), WrapedError>)
        requires
            old(self).wf(),
            old(self).addr2line is Some,
        ensures
            final(self).wf(),
            final(self).arch == old(self).arch,
            final(self).little_endian == old(self).little_endian,
            final(self).dwarf == old(self).dwarf,
            final(self).addr2line == old(self).addr2line,
            final(self).file_lines == old(self).file_lines,
            final(self).sections@.len() == old(self).sections@.len(),
            forall|i: int|
                0 <= i < old(self).sections@.len() ==> same_section_identity(
                    old(self).sections@[i],
                    #[trigger] final(self).sections@[i],
                ),
            forall|i: int|
                0 <= i < old(self).sections@.len() ==> ((#[trigger] old(self).sections@[i]).settled() ==> final(self).sections@[i] == old(self).sections@[i]),
            (forall|i: int| 0 <= i < old(self).sections@.len() ==> (#[trigger] old(self).sections@[i]).settled()) ==> r is Ok,
            r matches Ok(()) ==> forall|i: int|
                0 <= i < final(self).sections@.len() ==> (#[trigger] final(self).sections@[i]).settled(),
            r matches Ok(()) ==> forall|i: int|
                0 <= i < old(self).sections@.len() ==> ((#[trigger] old(self).sections@[i]) matches Section::Code(c0) ==> (c0.instructions is None ==> (final(self).sections@[i] matches Section::Code(c) && c.instructions matches Some(v) && (v@
                    == decoded(old(self).arch, c0.data@, c0.address as int) || (exists|
                    rs: Seq<crate::disasm::Region>,
                |
                    rs.len() >= 2 && crate::disasm::regions_partition(
                        rs,
                        c0.address as int,
                        c0.address + c0.data@.len(),
                    ) && v@ == crate::disasm::renumber(
                        crate::disasm::concat_dec(
                            old(self).arch,
                            c0.data@,
                            c0.address as int,
                            rs,
                        ),
                    )))))),
            r matches Err(e) ==> (e.kind == ErrorKind::UnsupportedArchitecture || e.kind
                == ErrorKind::DisassemblerInit || e.kind == ErrorKind::Dwarf),
    {
        let mut cs_opt: Option<Decoder> = None;
        let n = self.sections.len();
        let mut i: usize = 0;
        while i < n
            invariant
                n == self.sections@.len(),
                n == old(self).sections@.len(),
                i <= n,
                self.wf(),
                self.addr2line is Some,
                cs_opt matches Some(d) ==> d.spec_arch() == old(self).arch,
                forall|k: int|
                    0 <= k < n ==> same_section_identity(
                        old(self).sections@[k],
                        #[trigger] self.sections@[k],
                    ),
                forall|k: int|
                    0 <= k < n ==> ((#[trigger] old(self).sections@[k]).settled()
                        ==> self.sections@[k] == old(self).sections@[k]),
                forall|k: int|
                    i <= k < n ==> (#[trigger] self.sections@[k]) == old(self).sections@[k],
                self.arch == old(self).arch,
                self.little_endian == old(self).little_endian,
                self.dwarf == old(self).dwarf,
                self.addr2line == old(self).addr2line,
                self.file_lines == old(self).file_lines,
                forall|k: int|
                    0 <= k < i ==> (#[trigger] self.sections@[k]).settled(),
                forall|k: int|
                    0 <= k < i ==> ((#[trigger] old(self).sections@[k]) matches Section::Code(c0)
                        ==> (c0.instructions is None ==> (self.sections@[k] matches Section::Code(
                            c,
                        ) && c.instructions matches Some(v) && (v@ == decoded(
                            old(self).arch,
                            c0.data@,
                            c0.address as int,
                        ) || (exists|rs: Seq<crate::disasm::Region>|
                            rs.len() >= 2 && crate::disasm::regions_partition(
                                rs,
                                c0.address as int,
                                c0.address + c0.data@.len(),
                            ) && v@ == crate::disasm::renumber(
                                crate::disasm::concat_dec(
                                    old(self).arch,
                                    c0.data@,
                                    c0.address as int,
                                    rs,
                                ),
                            )))))),
            decreases n - i,
        {
            let ghost sb = self.sections@;
            let sec = self.sections.remove(i);
            let ghost sec0 = sec;
            let sec = match sec {
                Section::Code(mut c) => {
                    if c.instructions.is_none() {
                        if cs_opt.is_none() {
                            match create_capstone(&self.arch) {
                                Ok(d) => {
                                    cs_opt = Some(d);
                                },
                                Err(e) => {
                                    self.sections.insert(i, Section::Code(c));
                                    proof {
                                        assert(self.sections@ =~= sb);
                                    }
                                    return Err(e);
                                },
                            }
                        }
                        let cs = cs_opt.as_ref().unwrap();
                        let ctx = self.addr2line.as_ref().unwrap();
                        let hi = c.address + c.data.len() as u64;
                        let rows = match ctx.find_location_range(c.address, hi) {
                            Ok(rows) => rows,
                            Err(e) => {
                                self.sections.insert(i, Section::Code(c));
                                proof {
                                    assert(self.sections@ =~= sb);
                                }
                                return Err(e);
                            },
                        };
                        let mut pairs: Vec<(u64, u64)> = Vec::new();
                        let mut k: usize = 0;
                        while k < rows.len()
                            decreases rows@.len() - k,
                        {
                            pairs.push((rows[k].start, rows[k].len));
                            k += 1;
                        }
                        let regions = plan_regions(
                            c.address,
                            c.data.len() as u64,
                            &pairs,
                            DISASM_STEP,
                        );
                        let v = if regions.len() >= 2 {
                            disasm_parallel(cs, &c.data, c.address, &regions)
                        } else {
                            dissasm(cs, &c.data, c.address)
                        };
                        match v {
                            Ok(v) => {
                                proof {
                                    if regions@.len() < 2 {
                                        lemma_wf_decode_section_asm(
                                            v@,
                                            c.address as int,
                                            c.data@.len() as int,
                                        );
                                    }
                                }
                                c.instructions = Some(v);
                            },
                            Err(e) => {
                                self.sections.insert(i, Section::Code(c));
                                proof {
                                    assert(self.sections@ =~= sb);
                                }
                                return Err(e);
                            },
                        }
                    }
                    Section::Code(c)
                },
                Section::Info(c) => Section::Info(c),
            };
            let ghost secg = sec;
            self.sections.insert(i, sec);
            proof {
                assert(self.sections@ =~= sb.update(i as int, secg));
                assert(sec0 == old(self).sections@[i as int]);
                assert(sec0.settled() ==> secg == sec0);
                assert(same_section_identity(sec0, secg));
            }
            i += 1;
        }
        Ok(())
    }

    /// Whatever line index is cached is an index of this binary: it is
    /// well-formed, every section is decoded, its cells and buckets
    /// together hold exactly the sections' instructions, and every
    /// instruction whose address the context locates at a file and line
    /// sits in that file's cell for that line.
    pub open spec fn lines_map_ok(self) -> bool {
        self.file_lines matches Some(fm) ==> {
            &&& self.addr2line is Some
            &&& fm.wf()
            &&& forall|i: int|
                0 <= i < self.sections@.len() ==> (#[trigger] self.sections@[i]).settled()
            &&& fm_contents(fm) == sections_insns(self.sections@)
            &&& forall|i: int, k: int|
                0 <= i < self.sections@.len() && 0 <= k < section_vec(
                    #[trigger] self.sections@[i],
                ).len() ==> located_one(
                    fm,
                    self.addr2line.unwrap(),
                    #[trigger] section_vec(self.sections@[i])[k],
                )
        }
    }

    /// The line index of this binary, built on first call and shared
    /// afterwards: every code section is decoded, and each instruction
    /// is filed under the file and line its address resolves to, under
    /// the file's unknown-line bucket when only the file is known, and
    /// under the unknown-file bucket otherwise.
    #[verifier::rlimit(100)]
    pub fn get_lines_map(&mut self) -> (r: Result<&FileMap, WrapedError>)
        requires
            old(self).wf(),
            old(self).lines_map_ok(),
        ensures
            final(self).wf(),
            final(self).lines_map_ok(),
            final(self).arch == old(self).arch,
            final(self).little_endian == old(self).little_endian,
            old(self).file_lines is Some ==> *final(self) == *old(self),
            r matches Ok(fm) ==> (final(self).file_lines matches Some(f) && *fm == f),
            r is Err ==> final(self).file_lines is None,
            spec_index_ready(*old(self)) ==> r is Ok,
            r matches Err(e) ==> (e.kind == ErrorKind::Dwarf || e.kind
                == ErrorKind::UnsupportedArchitecture || e.kind == ErrorKind::DisassemblerInit),
    {
        proof {
            broadcast use vstd::seq_lib::group_to_multiset_ensures;

        }
        if self.file_lines.is_some() {
            return Ok(self.file_lines.as_ref().unwrap());
        }
        match self.get_addr2line() {
            Ok(_) => (),
            Err(e) => {
                proof {
                    // a ready binary has its context already built
                    assert(!spec_index_ready(*old(self)));
                }
                return Err(e);
            },
        };
        match self.compile_with_dwarf() {
            Ok(()) => (),
            Err(e) => {
                return Err(e);
            },
        };
        proof {
            if spec_index_ready(*old(self)) {
                assert(self.sections@ =~= old(self).sections@);
            }
        }
        let ghost ctxg = self.addr2line.unwrap();
        let mut fm = FileMap::new();
        proof {
            assert(sections_insns(self.sections@.take(0)) == Multiset::<InstructionDetail>::empty());
            assert(fm_contents(fm) =~= Multiset::<InstructionDetail>::empty()) by {
                assert(fm.inner@ =~= Seq::<(String, LineMap)>::empty());
                assert(!(exists|x: InstructionDetail| fm.extra@.contains(x)));
                assert forall|x: InstructionDetail|
                    fm_contents(fm).count(x) == Multiset::<InstructionDetail>::empty().count(
                        x,
                    ) by {
                    assert(!fm.extra@.contains(x));
                }
            }
        }
        let ns = self.sections.len();
        let mut i: usize = 0;
        while i < ns
            invariant
                ns == self.sections@.len(),
                i <= ns,
                self.wf(),
                self.arch == old(self).arch,
                self.little_endian == old(self).little_endian,
                self.addr2line == Some(ctxg),
                self.file_lines is None,
                old(self).file_lines is None,
                spec_index_ready(*old(self)) ==> (self.sections@ == old(self).sections@
                    && old(self).addr2line == Some(ctxg)),
                forall|i2: int|
                    0 <= i2 < ns ==> ((#[trigger] self.sections@[i2]) matches Section::Code(c)
                        ==> c.instructions is Some),
                fm.wf(),
                fm_contents(fm) == sections_insns(self.sections@.take(i as int)),
                forall|i2: int, k: int|
                    0 <= i2 < i && 0 <= k < section_vec(#[trigger] self.sections@[i2]).len()
                        ==> located_one(fm, ctxg, #[trigger] section_vec(self.sections@[i2])[k]),
            decreases ns - i,
        {
            let ghost fm_at_sec = fm;
            match &self.sections[i] {
                Section::Info(_) => {
                    proof {
                        broadcast use vstd::seq_lib::group_to_multiset_ensures;

                        lemma_sections_insns_take(self.sections@, i as int);
                        assert(section_vec(self.sections@[i as int]) =~= Seq::<
                            InstructionDetail,
                        >::empty());
                        assert forall|x: InstructionDetail|
                            section_vec(self.sections@[i as int]).to_multiset().count(x) == 0 by {
                            assert(!section_vec(self.sections@[i as int]).contains(x));
                        }
                        assert(fm_contents(fm) =~= sections_insns(self.sections@.take(i + 1)));
                    }
                },
                Section::Code(c) => {
                    let v = c.instructions.as_ref().unwrap();
                    let ghost vs = v@;
                    let nk = v.len();
                    let mut k: usize = 0;
                    proof {
                        broadcast use vstd::seq_lib::group_to_multiset_ensures;

                        assert(section_vec(self.sections@[i as int]) == vs);
                        assert(vs.take(0) =~= Seq::<InstructionDetail>::empty());
                        assert forall|x: InstructionDetail|
                            vs.take(0).to_multiset().count(x) == 0 by {
                            assert(!vs.take(0).contains(x));
                        }
                        assert(fm_contents(fm) =~= sections_insns(
                            self.sections@.take(i as int),
                        ).add(vs.take(0).to_multiset()));
                    }
                    while k < nk
                        invariant
                            ns == self.sections@.len(),
                            0 <= i < ns,
                            self.wf(),
                            self.arch == old(self).arch,
                            self.little_endian == old(self).little_endian,
                            self.addr2line == Some(ctxg),
                            self.file_lines is None,
                            old(self).file_lines is None,
                            spec_index_ready(*old(self)) ==> (self.sections@ == old(
                                self,
                            ).sections@ && old(self).addr2line == Some(ctxg)),
                            forall|i2: int|
                                0 <= i2 < ns ==> ((#[trigger] self.sections@[i2]) matches Section::Code(c2)
                                    ==> c2.instructions is Some),
                            nk == vs.len(),
                            k <= nk,
                            v@ == vs,
                            section_vec(self.sections@[i as int]) == vs,
                            fm.wf(),
                            fm_contents(fm) == sections_insns(self.sections@.take(i as int)).add(
                                vs.take(k as int).to_multiset(),
                            ),
                            forall|i2: int, k2: int|
                                0 <= i2 < i && 0 <= k2 < section_vec(
                                    #[trigger] self.sections@[i2],
                                ).len() ==> located_one(
                                    fm,
                                    ctxg,
                                    #[trigger] section_vec(self.sections@[i2])[k2],
                                ),
                            forall|k2: int|
                                0 <= k2 < k ==> located_one(fm, ctxg, #[trigger] vs[k2]),
                        decreases nk - k,
                    {
                        let ins = &v[k];
                        let ghost fm0 = fm;
                        let ctx = self.addr2line.as_ref().unwrap();
                        let found = match ctx.find_location(ins.address) {
                            Ok(f) => f,
                            Err(e) => {
                                proof {
                                    if spec_index_ready(*old(self)) {
                                        assert(section_vec(self.sections@[i as int])[k as int]
                                            == vs[k as int]);
                                        assert(!ctx_loc_fails(ctxg).contains(vs[k as int].address));
                                    }
                                }
                                return Err(e);
                            },
                        };
                        match found {
                            Some(fl) => {
                                match (fl.file, fl.line) {
                                    (Some(f), Some(l)) => {
                                        fm.insert_located(&f, l, ins.clone());
                                    },
                                    (Some(f), None) => {
                                        fm.insert_unknown_line(&f, ins.clone());
                                    },
                                    (None, _) => {
                                        fm.push_unknown(ins.clone());
                                    },
                                }
                            },
                            None => {
                                fm.push_unknown(ins.clone());
                            },
                        }
                        proof {
                            broadcast use vstd::seq_lib::group_to_multiset_ensures;

                            assert(located_one(fm, ctxg, vs[k as int]));
                            assert(vs.take(k + 1) =~= vs.take(k as int).push(vs[k as int]));
                            assert(vs.take(k + 1).to_multiset() =~= vs.take(
                                k as int,
                            ).to_multiset().insert(vs[k as int]));
                            assert(fm_contents(fm) =~= sections_insns(
                                self.sections@.take(i as int),
                            ).add(vs.take(k + 1).to_multiset()));
                        }
                        k += 1;
                    }
                    proof {
                        broadcast use vstd::seq_lib::group_to_multiset_ensures;

                        lemma_sections_insns_take(self.sections@, i as int);
                        assert(vs.take(nk as int) =~= vs);
                        assert(section_vec(self.sections@[i as int]) == vs);
                        assert(fm_contents(fm) =~= sections_insns(self.sections@.take(i + 1)));
                    }
                },
            }
            i += 1;
        }
        proof {
            assert(self.sections@.take(ns as int) =~= self.sections@);
        }
        self.file_lines = Some(fm);
        Ok(self.file_lines.as_ref().unwrap())
    }
}

/// Law: the unknown-file bucket, every file's unknown-line bucket and
/// every by-line cell of a built line index together hold, as a
/// multiset, exactly the instructions of the binary's sections.
pub proof fn lemma_line_index_partition(m: MachineFile)
    requires
        m.lines_map_ok(),
        m.file_lines is Some,
    ensures
        fm_contents(m.file_lines.unwrap()) == sections_insns(m.sections@),
{
}

/// Law: whenever the context locates an instruction's address at a
/// known file and line, the built line index lists that instruction in
/// that file's cell for that line.
pub proof fn lemma_find_location_in_index(m: MachineFile, i: int, k: int)
    requires
        m.lines_map_ok(),
        m.file_lines is Some,
        0 <= i < m.sections@.len(),
        0 <= k < section_vec(m.sections@[i]).len(),
        ctx_locs(m.addr2line.unwrap()).dom().contains(section_vec(m.sections@[i])[k].address),
        ctx_locs(m.addr2line.unwrap())[section_vec(m.sections@[i])[k].address].0 is Some,
        ctx_locs(m.addr2line.unwrap())[section_vec(m.sections@[i])[k].address].1 is Some,
    ensures
        fm_has(
            m.file_lines.unwrap(),
            ctx_locs(m.addr2line.unwrap())[section_vec(m.sections@[i])[k].address].0.unwrap(),
            ctx_locs(m.addr2line.unwrap())[section_vec(m.sections@[i])[k].address].1.unwrap(),
            section_vec(m.sections@[i])[k],
        ),
{
    assert(located_one(
        m.file_lines.unwrap(),
        m.addr2line.unwrap(),
        section_vec(m.sections@[i])[k],
    ));
}

} // verus!
