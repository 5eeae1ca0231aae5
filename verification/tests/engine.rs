//! End-to-end checks of the engine on in-memory ELF binaries with real
//! DWARF, built with gimli's writer and a hand-rolled ELF container.

use gimli::write::{Address, AttributeValue, DwarfUnit, EndianVec, LineProgram, LineString, Sections};
use source_viewer::arch::ArchKind;
use source_viewer::disasm::{create_capstone, disasm_parallel, dissasm, plan_regions};
use source_viewer::file_parser::{MachineFile, Section, DISASM_STEP};
use source_viewer::insn::InstructionDetail;
use source_viewer::program_context::{find_func_name, AsmRegistry, CodeRegistry};

fn push_u16(v: &mut Vec<u8>, x: u16) {
    v.extend_from_slice(&x.to_le_bytes());
}

fn push_u32(v: &mut Vec<u8>, x: u32) {
    v.extend_from_slice(&x.to_le_bytes());
}

fn push_u64(v: &mut Vec<u8>, x: u64) {
    v.extend_from_slice(&x.to_le_bytes());
}

/// A minimal ELF64 (x86-64, little-endian) with the given sections:
/// (name, sh_type, sh_flags, address, bytes).
fn build_elf(sections: &[(&str, u32, u64, u64, Vec<u8>)]) -> Vec<u8> {
    let mut shstrtab: Vec<u8> = vec![0];
    let mut name_offsets: Vec<u32> = Vec::new();
    for (name, _, _, _, _) in sections {
        name_offsets.push(shstrtab.len() as u32);
        shstrtab.extend_from_slice(name.as_bytes());
        shstrtab.push(0);
    }
    let shstrtab_name = shstrtab.len() as u32;
    shstrtab.extend_from_slice(b".shstrtab");
    shstrtab.push(0);

    let ehsize = 64u64;
    let mut data_blobs: Vec<&[u8]> = sections.iter().map(|s| s.4.as_slice()).collect();
    data_blobs.push(&shstrtab);
    let mut offsets: Vec<u64> = Vec::new();
    let mut pos = ehsize;
    for blob in &data_blobs {
        offsets.push(pos);
        pos += blob.len() as u64;
    }
    let shoff = pos;
    let shnum = (sections.len() + 2) as u16;

    let mut out = Vec::new();
    out.extend_from_slice(&[0x7f, b'E', b'L', b'F', 2, 1, 1, 0, 0, 0, 0, 0, 0, 0, 0, 0]);
    push_u16(&mut out, 2); // ET_EXEC
    push_u16(&mut out, 62); // EM_X86_64
    push_u32(&mut out, 1);
    push_u64(&mut out, 0); // entry
    push_u64(&mut out, 0); // phoff
    push_u64(&mut out, shoff);
    push_u32(&mut out, 0); // flags
    push_u16(&mut out, 64); // ehsize
    push_u16(&mut out, 0); // phentsize
    push_u16(&mut out, 0); // phnum
    push_u16(&mut out, 64); // shentsize
    push_u16(&mut out, shnum);
    push_u16(&mut out, shnum - 1); // shstrndx
    for blob in &data_blobs {
        out.extend_from_slice(blob);
    }
    // the null section header
    out.extend_from_slice(&[0u8; 64]);
    for (i, (_, sh_type, flags, addr, data)) in sections.iter().enumerate() {
        push_u32(&mut out, name_offsets[i]);
        push_u32(&mut out, *sh_type);
        push_u64(&mut out, *flags);
        push_u64(&mut out, *addr);
        push_u64(&mut out, offsets[i]);
        push_u64(&mut out, data.len() as u64);
        push_u32(&mut out, 0);
        push_u32(&mut out, 0);
        push_u64(&mut out, 1);
        push_u64(&mut out, 0);
    }
    // the .shstrtab header
    push_u32(&mut out, shstrtab_name);
    push_u32(&mut out, 3); // SHT_STRTAB
    push_u64(&mut out, 0);
    push_u64(&mut out, 0);
    push_u64(&mut out, offsets[sections.len()]);
    push_u64(&mut out, shstrtab.len() as u64);
    push_u32(&mut out, 0);
    push_u32(&mut out, 0);
    push_u64(&mut out, 1);
    push_u64(&mut out, 0);
    out
}

/// DWARF sections for one compilation unit of `file` in `/src`, with
/// line rows at the given (offset-from-base, line) pairs over
/// [base, base+size), and one named function covering the whole range.
fn build_dwarf(
    file: &str,
    base: u64,
    size: u64,
    rows: &[(u64, u64)],
    func: &str,
) -> Vec<(String, Vec<u8>)> {
    let encoding = gimli::Encoding { format: gimli::Format::Dwarf32, version: 4, address_size: 8 };
    let mut dwarf = DwarfUnit::new(encoding);
    let comp_dir = LineString::String(b"/src".to_vec());
    let comp_file = LineString::String(file.as_bytes().to_vec());
    let mut program = LineProgram::new(
        encoding,
        gimli::LineEncoding::default(),
        comp_dir,
        None,
        comp_file,
        None,
    );
    let dir_id = program.default_directory();
    let file_id = program.add_file(LineString::String(file.as_bytes().to_vec()), dir_id, None);
    program.begin_sequence(Some(Address::Constant(base)));
    for (off, line) in rows {
        program.row().address_offset = *off;
        program.row().file = file_id;
        program.row().line = *line;
        program.generate_row();
    }
    program.end_sequence(size);
    dwarf.unit.line_program = program;

    let root = dwarf.unit.root();
    {
        let die = dwarf.unit.get_mut(root);
        die.set(gimli::DW_AT_comp_dir, AttributeValue::String(b"/src".to_vec()));
        die.set(gimli::DW_AT_name, AttributeValue::String(file.as_bytes().to_vec()));
        die.set(gimli::DW_AT_low_pc, AttributeValue::Address(Address::Constant(base)));
        die.set(gimli::DW_AT_high_pc, AttributeValue::Udata(size));
    }
    let sub = dwarf.unit.add(root, gimli::DW_TAG_subprogram);
    {
        let die = dwarf.unit.get_mut(sub);
        die.set(gimli::DW_AT_name, AttributeValue::String(func.as_bytes().to_vec()));
        die.set(gimli::DW_AT_low_pc, AttributeValue::Address(Address::Constant(base)));
        die.set(gimli::DW_AT_high_pc, AttributeValue::Udata(size));
    }

    let mut sections = Sections::new(EndianVec::new(gimli::LittleEndian));
    dwarf.write(&mut sections).unwrap();
    let mut out: Vec<(String, Vec<u8>)> = Vec::new();
    sections
        .for_each(|id, data| {
            if !data.slice().is_empty() {
                out.push((id.name().to_string(), data.slice().to_vec()));
            }
            Ok::<(), gimli::Error>(())
        })
        .unwrap();
    out
}

/// An ELF with one code section holding `code` at `base` and DWARF line
/// rows at the given offsets.
fn build_binary(file: &str, base: u64, code: &[u8], rows: &[(u64, u64)], func: &str) -> Vec<u8> {
    let dw = build_dwarf(file, base, code.len() as u64, rows, func);
    let mut sections: Vec<(&str, u32, u64, u64, Vec<u8>)> = Vec::new();
    sections.push((".text", 1, 0x6, base, code.to_vec()));
    for (name, data) in &dw {
        sections.push((name.as_str(), 1, 0, 0, data.clone()));
    }
    build_elf(&sections)
}

const HELLO_CODE: [u8; 8] = [0x48, 0xc7, 0xc0, 0x01, 0x00, 0x00, 0x00, 0xc3];

#[test]
fn elf_hello_two_instructions_by_line() {
    // one code section, two line rows: the mov lands on line 3, the ret on line 4
    let bytes = build_binary("hello.c", 0x1000, &HELLO_CODE, &[(0, 3), (7, 4)], "main");
    let mut m = MachineFile::parse(&bytes, false).unwrap();
    assert_eq!(m.arch, ArchKind::X86_64);
    assert!(m.little_endian);
    let fm = m.get_lines_map().unwrap();
    assert!(fm.extra.is_empty());
    let key = String::from("/src/hello.c");
    let lm = fm.get(&key).expect("the source file is indexed");
    assert!(lm.extra.is_empty());
    let line3 = lm.by_line(3).expect("line 3 has instructions");
    assert_eq!(line3.len(), 1);
    assert_eq!(line3[0].address, 0x1000);
    assert_eq!(line3[0].size, 7);
    assert_eq!(line3[0].mnemonic.as_str(), "mov");
    let line4 = lm.by_line(4).expect("line 4 has instructions");
    assert_eq!(line4.len(), 1);
    assert_eq!(line4[0].address, 0x1007);
    assert_eq!(line4[0].mnemonic.as_str(), "ret");
}

#[test]
fn extra_trailing_byte_lands_in_unknown_file() {
    // an extra byte past the DWARF-described range has no location row:
    // it must land in the unknown-file bucket
    let mut code = HELLO_CODE.to_vec();
    code.push(0xcc);
    // the line table still covers only the first eight bytes
    let dw = build_dwarf("hello.c", 0x1000, 8, &[(0, 3), (7, 4)], "main");
    let mut sections: Vec<(&str, u32, u64, u64, Vec<u8>)> = Vec::new();
    sections.push((".text", 1, 0x6, 0x1000, code.clone()));
    for (name, data) in &dw {
        sections.push((name.as_str(), 1, 0, 0, data.clone()));
    }
    let bytes = build_elf(&sections);
    let mut m = MachineFile::parse(&bytes, false).unwrap();
    let fm = m.get_lines_map().unwrap();
    assert_eq!(fm.extra.len(), 1);
    assert_eq!(fm.extra[0].address, 0x1008);
    assert_eq!(fm.extra[0].size, 1);
}

#[test]
fn line_index_partitions_all_instructions() {
    // the by-line cells plus the buckets hold exactly the decoded instructions
    let mut code = HELLO_CODE.to_vec();
    code.push(0xcc);
    let dw = build_dwarf("hello.c", 0x1000, 8, &[(0, 3), (7, 4)], "main");
    let mut sections: Vec<(&str, u32, u64, u64, Vec<u8>)> = Vec::new();
    sections.push((".text", 1, 0x6, 0x1000, code.clone()));
    for (name, data) in &dw {
        sections.push((name.as_str(), 1, 0, 0, data.clone()));
    }
    let bytes = build_elf(&sections);
    let mut m = MachineFile::parse(&bytes, false).unwrap();
    let total: usize;
    {
        let fm = m.get_lines_map().unwrap();
        let key = String::from("/src/hello.c");
        let lm = fm.get(&key).unwrap();
        let mut cells = 0;
        for (_, v) in lm.iter_maped().iter() {
            cells += v.len();
        }
        total = cells + lm.extra.len() + fm.extra.len();
    }
    let mut decoded = 0;
    for sec in &m.sections {
        if let Section::Code(c) = sec {
            decoded += c.get_existing_asm().len();
        }
    }
    assert_eq!(total, decoded);
    assert_eq!(total, 3);
}

#[test]
fn instructions_stay_inside_their_section_in_order() {
    let bytes = build_binary("hello.c", 0x1000, &HELLO_CODE, &[(0, 3), (7, 4)], "main");
    let mut m = MachineFile::parse(&bytes, true).unwrap();
    let _ = m.get_lines_map().unwrap();
    for sec in &m.sections {
        if let Section::Code(c) = sec {
            let v = c.get_existing_asm();
            let base = c.address;
            let end = c.address + c.data.len() as u64;
            for w in v.windows(2) {
                assert!(w[0].address < w[1].address);
            }
            for i in v.iter() {
                assert!(base <= i.address);
                assert!(i.address + i.size as u64 <= end);
            }
        }
    }
}

#[test]
fn find_location_address_is_listed_under_its_file_and_line() {
    let bytes = build_binary("hello.c", 0x1000, &HELLO_CODE, &[(0, 3), (7, 4)], "main");
    let mut m = MachineFile::parse(&bytes, false).unwrap();
    let _ = m.get_lines_map().unwrap();
    let loc = m
        .addr2line
        .as_ref()
        .unwrap()
        .find_location(0x1007)
        .unwrap()
        .expect("the ret has a location");
    let file = loc.file.expect("a file");
    let line = loc.line.expect("a line");
    let fm = m.file_lines.as_ref().unwrap();
    let lm = fm.get(&file).expect("that file is indexed");
    let cell = lm.by_line(line).expect("that line is indexed");
    assert!(cell.iter().any(|i| i.address == 0x1007));
}

#[test]
fn single_row_section_falls_back_to_sequential() {
    // one row covering [0x1000, 0x1050): region discovery yields a single
    // region, so the eager parse decodes sequentially (no serial numbers)
    let code = vec![0x90u8; 200];
    let bytes = build_binary("one.c", 0x1000, &code, &[(0, 1)], "f");
    let m = MachineFile::parse(&bytes, true).unwrap();
    for sec in &m.sections {
        if let Section::Code(c) = sec {
            let v = c.get_existing_asm();
            assert_eq!(v.len(), 200);
            assert!(v.iter().all(|i| i.serial_number.is_none()));
        }
    }
}

#[test]
fn dense_rows_split_into_regions_and_match_sequential() {
    // a section densely covered by line rows splits into several
    // regions at a small probe stride; the merged region-split output
    // equals the sequential one up to serial numbers, dense from zero
    let size: usize = 16 * 1024;
    let code = vec![0x90u8; size];
    let mut rows: Vec<(u64, u64)> = Vec::new();
    let mut off = 0u64;
    let mut line = 1u64;
    while (off as usize) < size {
        rows.push((off, line));
        off += 256;
        line += 1;
    }
    let base = 0x1000u64;
    let bytes = build_binary("big.c", base, &code, &rows, "f");
    let mut m = MachineFile::parse(&bytes, false).unwrap();
    let _ = m.get_addr2line().unwrap();
    let ctx_rows: Vec<(u64, u64)> = {
        let ctx = m.addr2line.as_ref().unwrap();
        ctx.find_location_range(base, base + size as u64)
            .unwrap()
            .iter()
            .map(|r| (r.start, r.len))
            .collect()
    };
    let regions = plan_regions(base, size as u64, &ctx_rows, 1024);
    assert!(regions.len() >= 4, "expected several regions, got {}", regions.len());

    let cs = create_capstone(&ArchKind::X86_64).unwrap();
    let codev = code.clone();
    let sequential = dissasm(&cs, &codev, base).unwrap();
    let parallel = disasm_parallel(&cs, &codev, base, &regions).unwrap();
    assert_eq!(parallel.len(), sequential.len());
    for (k, (p, s)) in parallel.iter().zip(sequential.iter()).enumerate() {
        assert_eq!(p.address, s.address);
        assert_eq!(p.size, s.size);
        assert_eq!(p.mnemonic, s.mnemonic);
        assert_eq!(p.op_str, s.op_str);
        assert_eq!(p.serial_number, Some(k));
        assert_eq!(s.serial_number, None);
    }
}

#[test]
fn empty_section_plans_no_regions_and_decodes_to_nothing() {
    let rows: Vec<(u64, u64)> = vec![];
    let regions = plan_regions(0x1000, 0, &rows, DISASM_STEP);
    assert!(regions.is_empty());
    let cs = create_capstone(&ArchKind::X86_64).unwrap();
    let empty: Vec<u8> = Vec::new();
    let out = disasm_parallel(&cs, &empty, 0x1000, &regions).unwrap();
    assert!(out.is_empty());
    let seq = dissasm(&cs, &empty, 0x1000).unwrap();
    assert!(seq.is_empty());
}

#[test]
fn registry_memoises_success_and_failure() {
    let bytes = build_binary("hello.c", 0x1000, &HELLO_CODE, &[(0, 3)], "main");
    let mut reg = AsmRegistry::new();
    let good = String::from("/bin/good");
    let bad = String::from("/bin/bad");
    let i1 = reg.get_machine(&good, Ok(bytes.clone())).unwrap();
    // a second lookup of a cached path ignores the new read entirely
    let i2 = reg.get_machine(&good, Err(String::from("unread"))).unwrap();
    assert_eq!(i1, i2);
    assert_eq!(reg.len(), 1);

    let e1 = reg.get_machine(&bad, Err(String::from("no such file"))).unwrap_err();
    let e2 = reg.get_machine(&bad, Ok(bytes)).unwrap_err();
    assert_eq!(e1.kind, e2.kind);
    assert_eq!(e1.message, e2.message);
    assert_eq!(reg.len(), 2);
}

#[test]
fn garbage_bytes_are_an_unsupported_format() {
    match MachineFile::parse(&[1, 2, 3, 4], false) {
        Ok(_) => panic!("garbage parsed"),
        Err(e) => assert_eq!(e.kind, source_viewer::errors::ErrorKind::UnsupportedFormat),
    }
}

#[test]
fn function_name_resolves_without_supplements() {
    let bytes = build_binary("hello.c", 0x1000, &HELLO_CODE, &[(0, 3), (7, 4)], "foo_bar");
    let mut m = MachineFile::parse(&bytes, false).unwrap();
    let _ = m.get_addr2line().unwrap();
    let reqs = {
        let ctx = m.addr2line.as_ref().unwrap();
        source_viewer::dwarf::load_requests(ctx, 0x1000)
    };
    // no split DWARF: the lookup asks for no supplementary file
    assert!(reqs.is_empty());
    let sups = Vec::new();
    let name = find_func_name(&mut m, 0x1000, &sups);
    assert_eq!(name.as_deref(), Some("foo_bar"));
    // an address outside every function yields no name
    let none = find_func_name(&mut m, 0x9999, &sups);
    assert_eq!(none, None);
    // a supplementary file that could not be loaded degrades gracefully:
    // the lookup proceeds with what it has
    let missing: Vec<Option<source_viewer::dwarf::DwarfData>> = vec![None];
    let name = find_func_name(&mut m, 0x1000, &missing);
    assert_eq!(name.as_deref(), Some("foo_bar"));
}

#[test]
fn two_binaries_populate_one_source_file() {
    // two binaries reference shared.c at different lines: the populated
    // source file lists instructions for both, keyed by binary path
    let b1 = build_binary("shared.c", 0x1000, &HELLO_CODE, &[(0, 3), (7, 4)], "f");
    let b2 = build_binary("shared.c", 0x2000, &HELLO_CODE, &[(0, 3), (7, 9)], "g");
    let mut reg = AsmRegistry::new();
    let p1 = String::from("/bin/one");
    let p2 = String::from("/bin/two");
    reg.get_machine(&p1, Ok(b1)).unwrap();
    reg.get_machine(&p2, Ok(b2)).unwrap();
    let mut codes = CodeRegistry::new();
    let src = String::from("/src/shared.c");
    let i = codes
        .get_source_file(&mut reg, &src, Ok(String::from("int x;\n")), true)
        .unwrap();
    let cf = codes.file_at(i).as_ref().unwrap();
    let c1 = cf.get_asm(&3, &p1).expect("line 3 of the first binary");
    assert_eq!(c1.len(), 1);
    assert_eq!(c1[0].address, 0x1000);
    let c2 = cf.get_asm(&3, &p2).expect("line 3 of the second binary");
    assert_eq!(c2[0].address, 0x2000);
    let c9 = cf.get_asm(&9, &p2).expect("line 9 of the second binary");
    assert_eq!(c9[0].address, 0x2007);
    assert!(cf.get_asm(&9, &p1).is_none());
    // memoised: a later lookup returns the same entry without repopulating
    let j = codes
        .get_source_file(&mut reg, &src, Err(String::from("unread")), true)
        .unwrap();
    assert_eq!(i, j);
    let again = codes.get_existing_source_file(&src).unwrap();
    assert_eq!(again.text.as_str(), "int x;
");
}

#[test]
fn function_ranges_cover_the_compilation_unit() {
    let bytes = build_binary("hello.c", 0x1000, &HELLO_CODE, &[(0, 3)], "foo_bar");
    let mut m = MachineFile::parse(&bytes, false).unwrap();
    let dwarf = m.load_dwarf().clone_handle();
    let ranges = source_viewer::skiper::iter_function_ranges(&dwarf).unwrap();
    // the subprogram entry is listed with its bounds
    assert!(ranges.iter().any(|(name, low, high)| {
        name.as_deref() == Some("foo_bar") && *low == 0x1000 && *high == Some(0x1008)
    }));
}

#[test]
fn address_mapping_follows_the_line_table() {
    let bytes = build_binary("hello.c", 0x1000, &HELLO_CODE, &[(0, 3), (7, 4)], "main");
    let mut m = MachineFile::parse(&bytes, false).unwrap();
    let mapping = source_viewer::program_context::map_instructions_to_source(&mut m).unwrap();
    let row = mapping.iter().find(|(a, _)| *a == 0x1000).expect("the mov is mapped");
    assert_eq!(row.1 .0.as_str(), "/src/hello.c");
    assert_eq!(row.1 .1, 3);
}
