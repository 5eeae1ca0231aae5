//! Binary introspection engine: a multi-format object parser, a
//! disassembler with DWARF-guided region splitting, a DWARF-backed
//! address-to-source index, and memoising registries for parsed binaries
//! and source files.

pub mod arch;
pub mod args;
pub mod config;
pub mod disasm;
pub mod dwarf;
pub mod errors;
pub mod file_parser;
pub mod insn;
pub mod line_map;
pub mod program_context;
pub mod skiper;
pub mod subcommands;
pub mod walk;
