//! The error taxonomy of the engine, and the shareable error envelopes
//! that the registries memoise.

use vstd::prelude::*;

verus! {

/// What went wrong, by kind. Registries cache one of these per failed
/// path, and every later lookup of that path surfaces the same kind.
#[derive(Clone, Copy, Debug, PartialEq, Eq, Structural)]
pub enum ErrorKind {
    /// A filesystem read failed.
    Io,
    /// The object file's container format was not recognised.
    UnsupportedFormat,
    /// The object file's architecture has no decoder.
    UnsupportedArchitecture,
    /// A section's flag encoding is none of ELF, Mach-O or COFF.
    UnsupportedSectionFlags,
    /// The object file was recognised but malformed.
    ObjectParse,
    /// A section's name or bytes could not be read.
    SectionReadFailed,
    /// A DWARF section was malformed or unreadable.
    Dwarf,
    /// A decoder could not be constructed.
    DisassemblerInit,
    /// The decoder rejected a section's bytes.
    DisassemblyFailed,
    /// A disassembly worker terminated without producing a result.
    WorkerDied,
}

impl ErrorKind {
    /// A short fixed label for the kind, for error messages.
    pub fn label(&self) -> (r: &'static str)
        ensures
            r@ == self.spec_label(),
    {
        match self {
            ErrorKind::Io => "io error",
            ErrorKind::UnsupportedFormat => "unsupported format",
            ErrorKind::UnsupportedArchitecture => "unsupported architecture",
            ErrorKind::UnsupportedSectionFlags => "unsupported section flags",
            ErrorKind::ObjectParse => "object parse error",
            ErrorKind::SectionReadFailed => "section read failed",
            ErrorKind::Dwarf => "dwarf error",
            ErrorKind::DisassemblerInit => "disassembler init failed",
            ErrorKind::DisassemblyFailed => "disassembly failed",
            ErrorKind::WorkerDied => "worker died",
        }
    }

    /// The label each kind carries.
    pub open spec fn spec_label(self) -> Seq<char> {
        match self {
            ErrorKind::Io => "io error"@,
            ErrorKind::UnsupportedFormat => "unsupported format"@,
            ErrorKind::UnsupportedArchitecture => "unsupported architecture"@,
            ErrorKind::UnsupportedSectionFlags => "unsupported section flags"@,
            ErrorKind::ObjectParse => "object parse error"@,
            ErrorKind::SectionReadFailed => "section read failed"@,
            ErrorKind::Dwarf => "dwarf error"@,
            ErrorKind::DisassemblerInit => "disassembler init failed"@,
            ErrorKind::DisassemblyFailed => "disassembly failed"@,
            ErrorKind::WorkerDied => "worker died"@,
        }
    }
}

/// A cloneable error envelope: an error kind plus the message the
/// underlying failure produced. Registries store one per failed path so
/// that every later caller receives an equal value.
#[derive(Debug)]
pub struct WrapedError {
    pub kind: ErrorKind,
    pub message: String,
}

impl Clone for WrapedError {
    /// A clone carries the same kind and message.
    fn clone(&self) -> (r: Self)
        ensures
            r == *self,
    {
        WrapedError { kind: self.kind, message: self.message.clone() }
    }
}

impl WrapedError {
    /// Wrap a failure so it can be cached and handed to many callers.
    pub fn new(kind: ErrorKind, message: String) -> (r: WrapedError)
        ensures
            r.kind == kind,
            r.message@ == message@,
    {
        WrapedError { kind, message }
    }
}

/// An error enriched with a fixed note that says during which step the
/// wrapped failure arose.
#[derive(Debug)]
pub struct StackedError {
    pub source: WrapedError,
    pub message: &'static str,
}

impl Clone for StackedError {
    /// A clone carries the same source and note.
    fn clone(&self) -> (r: Self)
        ensures
            r == *self,
    {
        StackedError { source: self.source.clone(), message: self.message }
    }
}

impl StackedError {
    /// Attach a context note to an error.
    pub fn new(source: WrapedError, message: &'static str) -> (r: StackedError)
        ensures
            r.source.kind == source.kind,
            r.source.message@ == source.message@,
            r.message@ == message@,
    {
        StackedError { source, message }
    }

    /// Attach a context note to an already-shared envelope.
    pub fn from_wraped(wraped: WrapedError, message: &'static str) -> (r: StackedError)
        ensures
            r.source.kind == wraped.kind,
            r.source.message@ == wraped.message@,
            r.message@ == message@,
    {
        StackedError { source: wraped, message }
    }
}

/// An error that is nothing but a message.
#[derive(Clone, Debug)]
pub struct StringError {
    text: String,
}

impl StringError {
    /// The stored message, as contracts see it.
    pub closed spec fn spec_text(self) -> Seq<char> {
        self.text@
    }

    /// Keep a rendered message as an error value.
    pub fn new(t: String) -> (r: StringError)
        ensures
            r.spec_text() == t@,
    {
        StringError { text: t }
    }

    /// The stored message.
    pub fn text(&self) -> (r: &String)
        ensures
            r@ == self.spec_text(),
    {
        &self.text
    }
}

/// A failure to write to the output stream, kept as its message.
#[derive(Clone, Debug)]
pub struct PrintError(pub String);

} // verus!
