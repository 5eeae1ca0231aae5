//! Unit checks of the pure logic: section classification, decoder
//! dispatch, the range-walk fold, the walker's state machine, the
//! command helpers, the line and file maps, and the error envelopes.

use source_viewer::arch::{should_disassemble, ArchKind, RawSectionFlags};
use source_viewer::args::{Cli, ColorMode, Commands, FileSelection, SingleBinOpts};
use source_viewer::config::WalkConfig;
use source_viewer::disasm::{create_capstone, plan_regions};
use source_viewer::errors::{ErrorKind, StackedError, StringError, WrapedError};
use source_viewer::insn::InstructionDetail;
use source_viewer::line_map::{FileMap, LineMap};
use source_viewer::skiper::{function_ranges_from_events, AttrEvent};
use source_viewer::subcommands::{collect_source_files, describe_location, resolve_selection, sort_strings};
use source_viewer::dwarf::{supplementary_path, FoundLocation, LocRow};
use source_viewer::program_context::CodeFile;
use source_viewer::walk::{
    handle_directory_input, handle_file_input, load_dir, load_file, sanitise, DirResult,
    FileResult, GlobalState, InputEvent, KeyInput,
};

fn ins(address: u64, size: usize) -> InstructionDetail {
    InstructionDetail {
        serial_number: None,
        address,
        mnemonic: String::from("nop"),
        op_str: String::new(),
        size,
    }
}

#[test]
fn classification_follows_the_executable_bits() {
    assert_eq!(should_disassemble(&RawSectionFlags::Elf(0x6)), Ok(true));
    assert_eq!(should_disassemble(&RawSectionFlags::Elf(0x3)), Ok(false));
    assert_eq!(should_disassemble(&RawSectionFlags::MachO(0x8000_0000)), Ok(true));
    assert_eq!(should_disassemble(&RawSectionFlags::MachO(0x1)), Ok(false));
    assert_eq!(should_disassemble(&RawSectionFlags::Coff(0x2000_0000)), Ok(true));
    assert_eq!(should_disassemble(&RawSectionFlags::Coff(0x4000_0000)), Ok(false));
    assert_eq!(should_disassemble(&RawSectionFlags::NoFlags), Ok(false));
    assert_eq!(
        should_disassemble(&RawSectionFlags::Other),
        Err(ErrorKind::UnsupportedSectionFlags)
    );
}

#[test]
fn unsupported_architecture_is_refused() {
    match create_capstone(&ArchKind::Unsupported) {
        Ok(_) => panic!("an unsupported tag built a decoder"),
        Err(e) => assert_eq!(e.kind, ErrorKind::UnsupportedArchitecture),
    }
    assert!(create_capstone(&ArchKind::Aarch64).is_ok());
    assert!(create_capstone(&ArchKind::Riscv64).is_ok());
}

#[test]
fn region_plan_partitions_the_section() {
    let rows = vec![(0x1100u64, 0x10u64), (0x2300, 0x20), (0x3400, 0x8)];
    let regions = plan_regions(0x1000, 0x3000, &rows, 0x1000);
    assert!(!regions.is_empty());
    assert_eq!(regions[0].start, 0x1000);
    assert_eq!(regions[regions.len() - 1].end, 0x4000);
    for w in regions.windows(2) {
        assert_eq!(w[0].end, w[1].start);
    }
    for r in &regions {
        assert!(r.start < r.end);
    }
}

#[test]
fn fold_reads_the_address_attributes() {
    let dies = vec![
        vec![
            AttrEvent::Name(String::from("f")),
            AttrEvent::LowPc(0x40),
            AttrEvent::HighPcOffset(0x10),
        ],
        vec![AttrEvent::EntryPc(0x80), AttrEvent::HighPcAddr(0x90)],
        vec![AttrEvent::Declaration, AttrEvent::LowPc(0x99)],
        vec![AttrEvent::Other],
        vec![AttrEvent::LowPc(0x10), AttrEvent::CallOriginName(Some(String::from("g")))],
    ];
    let r = function_ranges_from_events(&dies);
    assert_eq!(r.len(), 3);
    assert_eq!(r[0], (Some(String::from("f")), 0x40, Some(0x50)));
    assert_eq!(r[1], (None, 0x80, Some(0x90)));
    assert_eq!(r[2], (Some(String::from("g")), 0x10, None));
}

#[test]
fn sanitise_strips_control_characters() {
    let s = String::from("a\tb\u{1b}[31mc\r\n");
    assert_eq!(sanitise(s).as_str(), "ab[31mc");
    assert_eq!(sanitise(String::new()).as_str(), "");
}

#[test]
fn loaded_file_numbers_its_lines_from_one() {
    let raw = vec![String::from("first\t"), String::from("second")];
    let st = load_file(String::from("a.c"), &raw);
    assert_eq!(st.file_content.len(), 2);
    assert_eq!(st.file_content[0].content.as_str(), "first");
    assert_eq!(st.file_content[0].line_number, 1);
    assert_eq!(st.file_content[1].line_number, 2);
    assert_eq!(st.cursor, 0);
}

#[test]
fn directory_keys_move_the_cursor_with_wraparound() {
    let entries = vec![String::from("a"), String::from("b"), String::from("c")];
    let mut st = GlobalState::start_from(String::from("/tmp/x"), entries);
    assert_eq!(st.dir_selected, Some(0));
    let r = handle_directory_input(&mut st, &InputEvent::Key(KeyInput::Down, false));
    assert_eq!(r, DirResult::KeepGoing);
    assert_eq!(st.dir_selected, Some(1));
    handle_directory_input(&mut st, &InputEvent::Key(KeyInput::Up, false));
    handle_directory_input(&mut st, &InputEvent::Key(KeyInput::Up, false));
    assert_eq!(st.dir_selected, Some(2));
    handle_directory_input(&mut st, &InputEvent::MouseScrollDown);
    assert_eq!(st.dir_selected, Some(0));
    // a release is ignored
    let r = handle_directory_input(&mut st, &InputEvent::Key(KeyInput::Char('q'), true));
    assert_eq!(r, DirResult::KeepGoing);
    let r = handle_directory_input(&mut st, &InputEvent::Key(KeyInput::Char('q'), false));
    assert_eq!(r, DirResult::Exit);
    let r = handle_directory_input(&mut st, &InputEvent::Key(KeyInput::Enter, false));
    assert_eq!(r, DirResult::Open(0));
}

#[test]
fn directory_escape_asks_for_a_reload_only_away_from_home() {
    let mut st = GlobalState::start_from(String::from("/tmp/x"), vec![String::from("a")]);
    let r = handle_directory_input(&mut st, &InputEvent::Key(KeyInput::Esc, false));
    assert_eq!(r, DirResult::KeepGoing);
    st.enter_directory(String::from("/tmp/x/sub"), vec![String::from("f")]);
    let r = handle_directory_input(&mut st, &InputEvent::Key(KeyInput::Esc, false));
    assert_eq!(r, DirResult::Reload);
    load_dir(&mut st, vec![String::from("g")]);
    assert_eq!(st.dir_entries.len(), 1);
}

#[test]
fn file_keys_move_cursor_and_toggle_selection() {
    let mut cf = CodeFile::read(String::from("int x;\nint y;\n"));
    let bin = String::from("/bin/one");
    let v = vec![ins(0x10, 1), ins(0x11, 2)];
    cf.extend_cell(1, &bin, &v);

    let raw = vec![String::from("int x;"), String::from("int y;")];
    let mut st = load_file(String::from("a.c"), &raw);
    let mut global = GlobalState::start_from(String::from("."), Vec::new());

    let r = handle_file_input(&mut st, &mut global, &cf, &bin, &InputEvent::Key(KeyInput::Down, false));
    assert_eq!(r, FileResult::KeepGoing);
    assert_eq!(st.cursor, 1);
    handle_file_input(&mut st, &mut global, &cf, &bin, &InputEvent::Key(KeyInput::Up, false));
    assert_eq!(st.cursor, 0);

    // enter selects line one and pulls its two instructions in
    handle_file_input(&mut st, &mut global, &cf, &bin, &InputEvent::Key(KeyInput::Enter, false));
    assert!(st.file_content[0].is_selected);
    assert_eq!(global.selected_asm.len(), 2);
    assert_eq!(global.selected_asm[0].0, 0x10);
    // enter again deselects and removes them
    handle_file_input(&mut st, &mut global, &cf, &bin, &InputEvent::Key(KeyInput::Enter, false));
    assert!(!st.file_content[0].is_selected);
    assert!(global.selected_asm.is_empty());

    let r = handle_file_input(&mut st, &mut global, &cf, &bin, &InputEvent::Key(KeyInput::Esc, false));
    assert_eq!(r, FileResult::Dir);
    // with the help open, q leaves
    handle_file_input(&mut st, &mut global, &cf, &bin, &InputEvent::Key(KeyInput::Char('h'), false));
    assert!(global.help_toggle);
    let r = handle_file_input(&mut st, &mut global, &cf, &bin, &InputEvent::Key(KeyInput::Char('q'), false));
    assert_eq!(r, FileResult::Exit);
}

#[test]
fn assembly_cursor_walks_selected_addresses() {
    let mut g = GlobalState::start_from(String::from("."), Vec::new());
    g.add_asm_line(Some(&vec![ins(0x30, 1), ins(0x10, 1), ins(0x20, 1)]), &String::from("x"));
    assert_eq!(g.selected_asm.len(), 3);
    assert_eq!(g.selected_asm[0].0, 0x10);
    assert_eq!(g.selected_asm[2].0, 0x30);
    g.cur_asm = 0x20;
    g.asm_down();
    assert_eq!(g.cur_asm, 0x30);
    g.asm_up();
    g.asm_up();
    assert_eq!(g.cur_asm, 0x10);
    let tail = g.cur_asm_range();
    assert_eq!(tail.len(), 3);
    g.remove_asm_line(Some(&vec![ins(0x30, 1)]));
    assert_eq!(g.selected_asm.len(), 2);
    g.cur_asm = 0x99;
    g.remove_asm_line(Some(&Vec::new()));
    assert_eq!(g.cur_asm, 0x20);
}

#[test]
fn subcommand_names_and_colors() {
    assert!(Cli::is_subcommand_name("walk"));
    assert!(Cli::is_subcommand_name("view_source"));
    assert!(Cli::is_subcommand_name(""));
    assert!(Cli::is_subcommand_name("dwarf-dump"));
    assert!(!Cli::is_subcommand_name("walks"));
    let cli = Cli {
        command: Commands::Walk {
            opts: SingleBinOpts { color: ColorMode::Never, bin: String::from("a") },
        },
    };
    assert_eq!(cli.get_color(), ColorMode::Never);
}

#[test]
fn layout_splits_the_screen_by_the_setting() {
    let c = WalkConfig { asm_precent: None };
    let l = c.get_layout().unwrap();
    assert_eq!((l.left, l.right), (47, 53));
    let c = WalkConfig { asm_precent: Some(30) };
    let l = c.get_layout().unwrap();
    assert_eq!((l.left, l.right), (70, 30));
    let c = WalkConfig { asm_precent: Some(101) };
    assert!(c.get_layout().is_err());
}

#[test]
fn selections_resolve_by_position_and_path() {
    let files = vec![String::from("a.c"), String::from("b.c")];
    let r = resolve_selection(&files, &FileSelection::Index(1)).unwrap();
    assert_eq!(r.as_str(), "b.c");
    assert!(resolve_selection(&files, &FileSelection::Index(2)).is_none());
    let r = resolve_selection(&files, &FileSelection::Path(String::from("a.c"))).unwrap();
    assert_eq!(r.as_str(), "a.c");
    assert!(resolve_selection(&files, &FileSelection::Path(String::from("z.c"))).is_none());
}

#[test]
fn source_files_collect_once_each_and_sort() {
    let row = |f: Option<&str>| LocRow {
        start: 0,
        len: 1,
        file: f.map(String::from),
        line: Some(1),
    };
    let rows = vec![row(Some("b.c")), row(None), row(Some("a.c")), row(Some("b.c"))];
    let files = collect_source_files(&rows);
    assert_eq!(files.len(), 2);
    let sorted = sort_strings(files);
    assert_eq!(sorted[0].as_str(), "a.c");
    assert_eq!(sorted[1].as_str(), "b.c");
}

#[test]
fn location_rows_substitute_unknown_parts() {
    let full = Some(FoundLocation {
        file: Some(String::from("a.c")),
        line: Some(7),
        column: None,
    });
    let d = describe_location(&full, true).unwrap();
    assert_eq!(d.0.as_str(), "a.c");
    assert_eq!(d.1, Some(7));
    let partial = Some(FoundLocation { file: None, line: Some(7), column: None });
    assert!(describe_location(&partial, true).is_none());
    let d = describe_location(&partial, false).unwrap();
    assert_eq!(d.0.as_str(), "<unknown>");
    assert!(describe_location(&None, true).is_none());
    let d = describe_location(&None, false).unwrap();
    assert_eq!(d.0.as_str(), "<unknown>");
    assert_eq!(d.1, None);
}

#[test]
fn line_map_keeps_lines_sorted_and_separate() {
    let mut lm = LineMap::new();
    lm.insert(9, ins(0x30, 1));
    lm.insert(3, ins(0x10, 1));
    lm.insert(9, ins(0x31, 1));
    lm.push_extra(ins(0x40, 1));
    let entries = lm.iter_maped();
    assert_eq!(entries.len(), 2);
    assert_eq!(entries[0].0, 3);
    assert_eq!(entries[1].0, 9);
    assert_eq!(lm.by_line(9).unwrap().len(), 2);
    assert!(lm.by_line(4).is_none());
    assert_eq!(lm.extra.len(), 1);
}

#[test]
fn file_map_buckets_by_file_then_line() {
    let mut fm = FileMap::new();
    let a = String::from("a.c");
    let b = String::from("b.c");
    fm.insert_located(&a, 3, ins(0x10, 1));
    fm.insert_located(&b, 3, ins(0x20, 1));
    fm.insert_unknown_line(&a, ins(0x30, 1));
    fm.push_unknown(ins(0x40, 1));
    let la = fm.get(&a).unwrap();
    assert_eq!(la.by_line(3).unwrap()[0].address, 0x10);
    assert_eq!(la.extra.len(), 1);
    let lb = fm.get(&b).unwrap();
    assert_eq!(lb.by_line(3).unwrap()[0].address, 0x20);
    assert_eq!(fm.extra.len(), 1);
    assert!(fm.get(&String::from("c.c")).is_none());
}

#[test]
fn error_envelopes_keep_kind_and_note() {
    let w = WrapedError::new(ErrorKind::Io, String::from("gone"));
    assert_eq!(w.kind, ErrorKind::Io);
    let s = StackedError::new(w.clone(), "while getting machine");
    assert_eq!(s.source.kind, ErrorKind::Io);
    assert_eq!(s.message, "while getting machine");
    let s2 = StackedError::from_wraped(w, "while making context");
    assert_eq!(s2.message, "while making context");
    let t = StringError::new(String::from("boom"));
    assert_eq!(t.text().as_str(), "boom");
    assert_eq!(ErrorKind::Dwarf.label(), "dwarf error");
}

#[test]
fn supplementary_paths_join_compilation_directory_and_path() {
    let p = supplementary_path(&Some(String::from("/b")), &Some(String::from("foo.dwo")));
    assert_eq!(p.as_deref(), Some("/b/foo.dwo"));
    let p = supplementary_path(&None, &Some(String::from("foo.dwo")));
    assert_eq!(p.as_deref(), Some("foo.dwo"));
    assert_eq!(supplementary_path(&Some(String::from("/b")), &None), None);
}
