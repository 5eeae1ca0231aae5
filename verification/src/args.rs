//! The command-line surface, as data: the subcommands, their shared
//! options, and the colour mode. Parsing the real command line is the
//! caller's part; the types and decisions here are plain values.

use vstd::prelude::*;

verus! {

/// When colourised output should be shown.
#[derive(Clone, Copy, Debug, PartialEq, Eq, Structural)]
pub enum ColorMode {
    /// Always use colour, even when not writing to a terminal.
    Always,
    /// Detect automatically when to use colour.
    Auto,
    /// Never use colour.
    Never,
}

/// Shared options of commands that take one binary.
#[derive(Clone, Debug)]
pub struct SingleBinOpts {
    pub color: ColorMode,
    pub bin: String,
}

/// Shared options of commands that take several binaries.
#[derive(Clone, Debug)]
pub struct MultiBinOpts {
    pub color: ColorMode,
    pub bins: Vec<String>,
}

/// One requested source file: by position in the listing, or by path.
#[derive(Clone, Debug)]
pub enum FileSelection {
    Index(usize),
    Path(String),
}

/// The options of the source-viewing command.
#[derive(Clone, Debug)]
pub struct ViewSource {
    pub opts: SingleBinOpts,
    pub all: bool,
    pub walk: bool,
    pub selections: Vec<FileSelection>,
}

/// The subcommands.
#[derive(Clone, Debug)]
pub enum Commands {
    Walk { opts: SingleBinOpts },
    Sections { opts: MultiBinOpts },
    Lines { opts: MultiBinOpts },
    ViewSource(ViewSource),
    ViewSources { opts: MultiBinOpts },
    DwarfDump { opts: MultiBinOpts },
}

impl Commands {
    /// The colour mode the chosen subcommand carries.
    pub fn get_color(&self) -> (r: ColorMode)
        ensures
            r == self.spec_color(),
    {
        match self {
            Commands::Walk { opts } => opts.color,
            Commands::ViewSource(v) => v.opts.color,
            Commands::Sections { opts } => opts.color,
            Commands::Lines { opts } => opts.color,
            Commands::ViewSources { opts } => opts.color,
            Commands::DwarfDump { opts } => opts.color,
        }
    }

    /// The colour mode of each subcommand's options.
    pub open spec fn spec_color(self) -> ColorMode {
        match self {
            Commands::Walk { opts } => opts.color,
            Commands::ViewSource(v) => v.opts.color,
            Commands::Sections { opts } => opts.color,
            Commands::Lines { opts } => opts.color,
            Commands::ViewSources { opts } => opts.color,
            Commands::DwarfDump { opts } => opts.color,
        }
    }
}

/// The whole command line: one subcommand.
#[derive(Clone, Debug)]
pub struct Cli {
    pub command: Commands,
}

/// A name names a subcommand: its canonical name or one of its
/// aliases, including the empty alias of the source-viewing command.
pub open spec fn spec_is_subcommand_name(name: Seq<char>) -> bool {
    ||| name == "walk"@
    ||| name == "sections"@
    ||| name == "lines"@
    ||| name == "view-source"@
    ||| name == "view_source"@
    ||| name == ""@
    ||| name == "view-sources"@
    ||| name == "view_sources"@
    ||| name == "dwarf-dump"@
    ||| name == "dwarf_dump"@
}

impl Cli {
    /// The colour mode of the chosen subcommand.
    pub fn get_color(&self) -> (r: ColorMode)
        ensures
            r == self.command.spec_color(),
    {
        self.command.get_color()
    }

    /// Whether a name is a subcommand's name or one of its aliases.
    pub fn is_subcommand_name(name: &str) -> (r: bool)
        ensures
            r == spec_is_subcommand_name(name@),
    {
        str_is(name, "walk") || str_is(name, "sections") || str_is(name, "lines") || str_is(
            name,
            "view-source",
        ) || str_is(name, "view_source") || str_is(name, "") || str_is(name, "view-sources")
            || str_is(name, "view_sources") || str_is(name, "dwarf-dump") || str_is(
            name,
            "dwarf_dump",
        )
    }
}

/// Relies on str's PartialEq: two string slices are equal exactly when
/// their character sequences are.
#[verifier::external_body]
fn str_is(a: &str, b: &str) -> (r: bool)
    ensures
        r == (a@ == b@),
{
    a == b
}

} // verus!
