//! The DWARF surface: parsed DWARF data and the address-to-source
//! context built over it, held behind opaque handles, with the lookups
//! the engine needs. A context is a read-only collection of line-table
//! rows and frame records; its contents are given names that the
//! wrappers' contracts share.

use vstd::prelude::*;
use addr2line::LookupContinuation;
use gimli::AttributeValue;
use gimli::Reader;
use crate::errors::{ErrorKind, WrapedError};
use crate::file_parser::{section_bytes_for, Section};

verus! {

/// The parsed DWARF sections of one binary, shared by handle. Holds a
/// `gimli::Dwarf` over arena-free, reference-counted section bytes.
#[verifier::external_body]
pub struct DwarfData {
    dwarf: std::sync::Arc<gimli::Dwarf<gimli::EndianArcSlice<gimli::RunTimeEndian>>>,
}

/// The address-to-source context over one binary's DWARF: an
/// `addr2line::Context`. Opaque; its contents are described by
/// `ctx_locs`, `ctx_rows` and `ctx_frames`.
#[verifier::external_body]
pub struct LineLookup {
    ctx: addr2line::Context<gimli::EndianArcSlice<gimli::RunTimeEndian>>,
}

/// The location table a context holds: for each address that resolves,
/// the file (if known) and line (if known) of the first matching
/// line-program row.
pub uninterp spec fn ctx_locs(ctx: LineLookup) -> Map<u64, (Option<Seq<char>>, Option<u32>)>;

/// The line-table rows a context holds, each as its start address,
/// length, file and line.
pub uninterp spec fn ctx_rows(ctx: LineLookup) -> Set<(u64, u64, Option<Seq<char>>, Option<u32>)>;

/// The function names a context resolves without loading supplementary
/// files: for each address with a named frame, the demangled name.
pub uninterp spec fn ctx_frames(ctx: LineLookup) -> Map<u64, Seq<char>>;

/// Whether a context can be built over this parsed DWARF: the
/// construction depends on the DWARF contents alone.
pub uninterp spec fn ctx_build_ok(d: DwarfData) -> bool;

/// The addresses whose location lookup fails on this context: the
/// failure depends on the context's contents and the address alone.
pub uninterp spec fn ctx_loc_fails(ctx: LineLookup) -> Set<u64>;

/// A resolved source location: file name, line and column, each absent
/// when the line table does not give it.
#[derive(Debug, Clone)]
pub struct FoundLocation {
    pub file: Option<String>,
    pub line: Option<u32>,
    pub column: Option<u32>,
}

/// The (file, line) part of a location, as the contracts state it.
pub open spec fn loc_view(l: FoundLocation) -> (Option<Seq<char>>, Option<u32>) {
    (
        match l.file {
            Some(f) => Some(f@),
            None => None,
        },
        l.line,
    )
}

/// One line-table row: the address range it covers and its location.
#[derive(Debug, Clone)]
pub struct LocRow {
    pub start: u64,
    pub len: u64,
    pub file: Option<String>,
    pub line: Option<u32>,
}

/// A row as the contracts state it.
pub open spec fn row_view(r: LocRow) -> (u64, u64, Option<Seq<char>>, Option<u32>) {
    (
        r.start,
        r.len,
        match r.file {
            Some(f) => Some(f@),
            None => None,
        },
        r.line,
    )
}

/// Relies on gimli::Dwarf::load: each logical DWARF section is built
/// from the bytes this library hands back for its name, with the
/// object's endianness; absent sections are empty.
#[verifier::external_body]
pub fn load_dwarf_data(sections: &Vec<Section>, little_endian: bool) -> (r: DwarfData) {
    let endian = if little_endian { gimli::RunTimeEndian::Little } else { gimli::RunTimeEndian::Big };
    let loader = |id: gimli::SectionId| -> Result<_, core::convert::Infallible> {
        let bytes: std::sync::Arc<[u8]> = std::sync::Arc::from(section_bytes_for(sections, id.name()));
        Ok(gimli::EndianArcSlice::new(bytes, endian))
    };
    let dwarf = match gimli::Dwarf::load(loader) { Ok(d) => d, Err(e) => match e {} };
    DwarfData { dwarf: std::sync::Arc::new(dwarf) }
}

impl DwarfData {
    /// Relies on Arc::clone: the clone shares the same parsed DWARF.
    #[verifier::external_body]
    pub fn clone_handle(&self) -> (r: DwarfData)
        ensures
            r == *self,
    {
        DwarfData { dwarf: self.dwarf.clone() }
    }
}

/// Relies on addr2line::Context::from_arc_dwarf: builds the
/// address-to-source context over the parsed DWARF; it succeeds
/// exactly when the DWARF's unit headers parse.
#[verifier::external_body]
pub fn make_context(d: &DwarfData) -> (r: Result<LineLookup, WrapedError>)
    ensures
        r is Ok <==> ctx_build_ok(*d),
        r matches Err(e) ==> e.kind == ErrorKind::Dwarf,
{
    match addr2line::Context::from_arc_dwarf(d.dwarf.clone()) {
        Ok(c) => Ok(LineLookup { ctx: c }),
        Err(e) => Err(WrapedError { kind: ErrorKind::Dwarf, message: e.to_string() }),
    }
}

impl LineLookup {
    /// Relies on addr2line::Context::find_location: the first matching
    /// line-program row for the address; deterministic per context, as
    /// `ctx_locs` states it, failing exactly on the addresses of
    /// `ctx_loc_fails`.
    #[verifier::external_body]
    pub fn find_location(&self, addr: u64) -> (r: Result<Option<FoundLocation>, WrapedError>)
        ensures
            r is Err <==> ctx_loc_fails(*self).contains(addr),
            r matches Ok(l) ==> (l is Some <==> ctx_locs(*self).dom().contains(addr)),
            r matches Ok(l) ==> (l matches Some(fl) ==> loc_view(fl) == ctx_locs(*self)[addr]),
            r matches Err(e) ==> e.kind == ErrorKind::Dwarf,
    {
        match self.ctx.find_location(addr) {
            Ok(Some(l)) => Ok(
                Some(
                    FoundLocation {
                        file: l.file.map(|s| s.to_string()),
                        line: l.line,
                        column: l.column,
                    },
                ),
            ),
            Ok(None) => Ok(None),
            Err(e) => Err(WrapedError { kind: ErrorKind::Dwarf, message: e.to_string() }),
        }
    }

    /// Relies on addr2line::Context::find_location_range: every yielded
    /// row is a row of this context's line table and starts below `hi`.
    #[verifier::external_body]
    pub fn find_location_range(&self, lo: u64, hi: u64) -> (r: Result<Vec<LocRow>, WrapedError>)
        ensures
            r matches Ok(v) ==> forall|k: int|
                0 <= k < v@.len() ==> ctx_rows(*self).contains(row_view(#[trigger] v@[k]))
                    && v@[k].start < hi,
            r matches Err(e) ==> e.kind == ErrorKind::Dwarf,
    {
        let de = |e: gimli::Error| WrapedError { kind: ErrorKind::Dwarf, message: e.to_string() };
        let mut it = self.ctx.find_location_range(lo, hi).map_err(de)?;
        let mut out = Vec::new();
        while let Some((start, len, l)) = fallible_iterator::FallibleIterator::next(&mut it)
            .map_err(de)? {
            out.push(
                LocRow { start, len, file: l.file.map(|s| s.to_string()), line: l.line },
            );
        }
        Ok(out)
    }
}

/// Relies on addr2line's find_frames with all loads skipped, walking
/// the frames innermost first: the demangled name of the first named
/// frame, as `ctx_frames` states it; frames whose name cannot be read
/// are skipped.
#[verifier::external_body]
pub fn resolve_func_name(addr2line: &LineLookup, address: u64) -> (r: Option<String>)
    ensures
        r is Some <==> ctx_frames(*addr2line).dom().contains(address),
        r matches Some(s) ==> s@ == ctx_frames(*addr2line)[address],
{
    let mut frames = match addr2line.ctx.find_frames(address).skip_all_loads() {
        Ok(f) => f,
        Err(_) => return None,
    };
    while let Ok(Some(frame)) = frames.next() {
        if let Some(name) = frame.function {
            if let Ok(s) = name.demangle() {
                return Some(s.to_string());
            }
        }
    }
    None
}

/// Relies on addr2line's preload_units: the supplementary files a
/// frame lookup at this address would ask for, each as the compilation
/// directory and relative path of its load request, in request order.
#[verifier::external_body]
pub fn load_requests(ctx: &LineLookup, address: u64) -> Vec<(Option<String>, Option<String>)> {
    let conv = |o: Option<_>| o.and_then(|d: gimli::EndianArcSlice<gimli::RunTimeEndian>| d.to_string_lossy().ok().map(|c| c.into_owned()));
    ctx.ctx.preload_units(address).map(|(l, _)| (conv(l.comp_dir), conv(l.path))).collect()
}

impl LineLookup {
    /// Relies on addr2line's preload_units and its load callbacks: each
    /// request for this address is answered with the supplementary
    /// DWARF at its position in the given list, absorbing that data
    /// into the context; requests past the list are answered with no
    /// data, which records those units as loaded without it.
    #[verifier::external_body]
    pub fn preload(&mut self, address: u64, sups: &Vec<Option<DwarfData>>) {
        for (i, (_, cb)) in self.ctx.preload_units(address).enumerate() {
            let _ = cb(sups.get(i).and_then(|o| o.as_ref().map(|d| d.dwarf.clone())));
        }
    }
}

/// Whether a path stands on its own: it begins with the separator, so
/// joining it to a base directory replaces the base.
pub open spec fn spec_is_absolute(p: Seq<char>) -> bool {
    p.len() > 0 && p[0] == '/'
}

/// The filesystem path of a supplementary file named by a load request:
/// the path itself when it is absolute or no compilation directory is
/// given, else the path under the compilation directory. A request
/// without a path names nothing.
pub fn supplementary_path(comp_dir: &Option<String>, path: &Option<String>) -> (r: Option<String>)
    ensures
        r is Some <==> path is Some,
        path matches Some(p) ==> ((comp_dir is None || spec_is_absolute(p@)) ==> (r matches Some(q)
            && q@ == p@)),
        path matches Some(p) ==> (comp_dir matches Some(d) ==> (!spec_is_absolute(p@) ==> (r
            matches Some(q) && q@ == d@ + "/"@ + p@))),
{
    match (comp_dir, path) {
        (_, None) => None,
        (None, Some(p)) => Some(p.clone()),
        (Some(d), Some(p)) => {
            let n = p.as_str().unicode_len();
            if n > 0 && p.as_str().get_char(0) == '/' {
                return Some(p.clone());
            }
            let mut full = d.clone();
            full.append("/");
            full.append(p.as_str());
            Some(full)
        },
    }
}

} // verus!

verus! {

/// One compilation unit of the parsed DWARF, with the handle it came
/// from, ready for entry lookups.
#[verifier::external_body]
pub struct UnitCtx {
    dwarf: std::sync::Arc<gimli::Dwarf<gimli::EndianArcSlice<gimli::RunTimeEndian>>>,
    unit: gimli::Unit<gimli::EndianArcSlice<gimli::RunTimeEndian>>,
}

/// An attribute's value, reduced to the forms the range walk reads:
/// an address, an unsigned constant, a reference to another entry of
/// the unit, a range-list reference, or resolved text.
#[derive(Debug)]
pub enum RawAttr {
    Addr(u64),
    Udata(u64),
    UnitRef(u64),
    Ranges(u64),
    Text(Option<String>),
    Other,
}

/// Relies on gimli::Dwarf::units and Dwarf::unit: every compilation
/// unit of the DWARF, in order.
#[verifier::external_body]
pub fn unit_list(d: &DwarfData) -> (r: Result<Vec<UnitCtx>, WrapedError>)
    ensures
        r matches Err(e) ==> e.kind == ErrorKind::Dwarf,
{
    let de = |e: gimli::Error| WrapedError { kind: ErrorKind::Dwarf, message: e.to_string() };
    let mut out = Vec::new();
    let mut units = d.dwarf.units();
    while let Some(h) = units.next().map_err(de)? {
        out.push(UnitCtx { dwarf: d.dwarf.clone(), unit: d.dwarf.unit(h).map_err(de)? });
    }
    Ok(out)
}

/// Relies on gimli's entry cursor: the offsets of every entry of the
/// unit after its root, in pre-order.
#[verifier::external_body]
pub fn unit_die_offsets(u: &UnitCtx) -> (r: Result<Vec<u64>, WrapedError>)
    ensures
        r matches Err(e) ==> e.kind == ErrorKind::Dwarf,
{
    let de = |e: gimli::Error| WrapedError { kind: ErrorKind::Dwarf, message: e.to_string() };
    let mut out = Vec::new();
    let mut es = u.unit.entries();
    let _ = es.next_dfs().map_err(de)?;
    while let Some(e) = es.next_dfs().map_err(de)? {
        out.push(e.offset().0 as u64);
    }
    Ok(out)
}

/// Relies on gimli's attribute iterator: the attribute codes of the
/// entry at the given offset, in attribute order.
#[verifier::external_body]
pub fn die_attr_codes(u: &UnitCtx, off: u64) -> (r: Result<Vec<u16>, WrapedError>)
    ensures
        r matches Err(e) ==> e.kind == ErrorKind::Dwarf,
{
    let de = |e: gimli::Error| WrapedError { kind: ErrorKind::Dwarf, message: e.to_string() };
    let entry = u.unit.entry(gimli::UnitOffset(off as usize)).map_err(de)?;
    Ok(entry.attrs().iter().map(|a| a.name().0).collect())
}

/// Relies on gimli's attribute value forms and Dwarf::attr_string: the
/// value of the entry's attribute at one position, moved into this
/// library's reduced form, one arm per form the range walk reads;
/// other forms are resolved as text where possible.
#[verifier::external_body]
pub fn die_attr_value(u: &UnitCtx, off: u64, idx: usize) -> (r: Result<RawAttr, WrapedError>)
    ensures
        r matches Err(e) ==> e.kind == ErrorKind::Dwarf,
{
    let de = |e: gimli::Error| WrapedError { kind: ErrorKind::Dwarf, message: e.to_string() };
    let entry = u.unit.entry(gimli::UnitOffset(off as usize)).map_err(de)?;
    let v = match entry.attrs().get(idx) { Some(a) => a.value(), None => return Ok(RawAttr::Other) };
    Ok(match v {
        AttributeValue::Addr(x) => RawAttr::Addr(x),
        AttributeValue::Udata(x) => RawAttr::Udata(x),
        AttributeValue::UnitRef(o) => RawAttr::UnitRef(o.0 as u64),
        AttributeValue::RangeListsRef(rr) => RawAttr::Ranges(rr.0 as u64),
        _ => RawAttr::Text(die_attr_text(u, off, idx)),
    })
}

/// Relies on gimli's Dwarf::attr_string: the text of the entry's
/// attribute at one position, where its form resolves to text.
#[verifier::external_body]
fn die_attr_text(u: &UnitCtx, off: u64, idx: usize) -> Option<String> {
    let entry = u.unit.entry(gimli::UnitOffset(off as usize)).ok()?;
    let v = entry.attrs().get(idx)?.value();
    u.dwarf.attr_string(&u.unit, v).ok().and_then(|x| x.to_string_lossy().ok().map(|c| c.into_owned()))
}

} // verus!
