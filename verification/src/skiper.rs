//! The function-range walk: every DWARF entry with an address
//! attribute yields a (name, low address, high address) record. The
//! interpretation of the attributes — the high address given as an
//! offset from the low one, the entry address standing in for a
//! missing low one, a declaration cutting the entry short — is decided
//! here, over plain attribute events.

use vstd::prelude::*;
use crate::dwarf::{die_attr_codes, die_attr_value, unit_die_offsets, unit_list, DwarfData, RawAttr, UnitCtx};
use crate::errors::{ErrorKind, WrapedError};

verus! {

/// The DWARF attribute codes the range walk reads.
pub const DW_AT_NAME: u16 = 0x03;

pub const DW_AT_LOW_PC: u16 = 0x11;

pub const DW_AT_HIGH_PC: u16 = 0x12;

pub const DW_AT_DECLARATION: u16 = 0x3c;

pub const DW_AT_ENTRY_PC: u16 = 0x52;

pub const DW_AT_RANGES: u16 = 0x55;

pub const DW_AT_CALL_ORIGIN: u16 = 0x7f;

/// One attribute of an entry, interpreted for the range walk.
#[derive(Debug)]
pub enum AttrEvent {
    /// The function's low address.
    LowPc(u64),
    /// The high address, given absolutely.
    HighPcAddr(u64),
    /// The high address, given as an offset from the low one.
    HighPcOffset(u64),
    /// The entry address, a stand-in for a missing low address.
    EntryPc(u64),
    /// The entry's own name.
    Name(String),
    /// A reference to the called entry, not yet resolved to a name.
    CallOrigin(u64),
    /// The called entry's name, resolved, when it had one.
    CallOriginName(Option<String>),
    /// A range-list reference; the walk records it and moves on.
    Ranges(u64),
    /// The entry is a declaration: nothing after this counts.
    Declaration,
    /// Anything else.
    Other,
}

/// What one raw attribute means to the range walk.
pub open spec fn spec_attr_event(code: u16, val: RawAttr) -> AttrEvent {
    if code == DW_AT_LOW_PC {
        match val {
            RawAttr::Addr(a) => AttrEvent::LowPc(a),
            _ => AttrEvent::Other,
        }
    } else if code == DW_AT_HIGH_PC {
        match val {
            RawAttr::Addr(a) => AttrEvent::HighPcAddr(a),
            RawAttr::Udata(u) => AttrEvent::HighPcOffset(u),
            _ => AttrEvent::Other,
        }
    } else if code == DW_AT_ENTRY_PC {
        match val {
            RawAttr::Addr(a) => AttrEvent::EntryPc(a),
            _ => AttrEvent::Other,
        }
    } else if code == DW_AT_RANGES {
        match val {
            RawAttr::Ranges(r) => AttrEvent::Ranges(r),
            _ => AttrEvent::Other,
        }
    } else if code == DW_AT_NAME {
        match val {
            RawAttr::Text(Some(s)) => AttrEvent::Name(s),
            _ => AttrEvent::Other,
        }
    } else if code == DW_AT_CALL_ORIGIN {
        match val {
            RawAttr::UnitRef(o) => AttrEvent::CallOrigin(o),
            _ => AttrEvent::Other,
        }
    } else if code == DW_AT_DECLARATION {
        AttrEvent::Declaration
    } else {
        AttrEvent::Other
    }
}

} // verus!

verus! {

/// Interpret one raw attribute for the range walk.
pub fn attr_event_of(code: u16, val: &RawAttr) -> (r: AttrEvent)
    ensures
        r == spec_attr_event(code, *val),
{
    let ev = if code == DW_AT_LOW_PC {
        match val {
            RawAttr::Addr(a) => AttrEvent::LowPc(*a),
            _ => AttrEvent::Other,
        }
    } else if code == DW_AT_HIGH_PC {
        match val {
            RawAttr::Addr(a) => AttrEvent::HighPcAddr(*a),
            RawAttr::Udata(u) => AttrEvent::HighPcOffset(*u),
            _ => AttrEvent::Other,
        }
    } else if code == DW_AT_ENTRY_PC {
        match val {
            RawAttr::Addr(a) => AttrEvent::EntryPc(*a),
            _ => AttrEvent::Other,
        }
    } else if code == DW_AT_RANGES {
        match val {
            RawAttr::Ranges(r) => AttrEvent::Ranges(*r),
            _ => AttrEvent::Other,
        }
    } else if code == DW_AT_NAME {
        match val {
            RawAttr::Text(Some(s)) => AttrEvent::Name(s.clone()),
            _ => AttrEvent::Other,
        }
    } else if code == DW_AT_CALL_ORIGIN {
        match val {
            RawAttr::UnitRef(o) => AttrEvent::CallOrigin(*o),
            _ => AttrEvent::Other,
        }
    } else if code == DW_AT_DECLARATION {
        AttrEvent::Declaration
    } else {
        AttrEvent::Other
    };
    ev
}

/// The fold state of one entry: its low address, high address and
/// name, as far as the attributes seen so far give them.
pub open spec fn fold_step(
    st: (Option<u64>, Option<u64>, Option<String>),
    e: AttrEvent,
) -> (Option<u64>, Option<u64>, Option<String>) {
    match e {
        AttrEvent::LowPc(a) => (Some(a), st.1, st.2),
        AttrEvent::HighPcAddr(a) => (st.0, Some(a), st.2),
        AttrEvent::HighPcOffset(o) => match st.0 {
            Some(l) => if l + o <= u64::MAX {
                (st.0, Some((l + o) as u64), st.2)
            } else {
                st
            },
            None => st,
        },
        AttrEvent::EntryPc(a) => match st.0 {
            Some(_) => st,
            None => (Some(a), st.1, st.2),
        },
        AttrEvent::Name(s) => (st.0, st.1, Some(s)),
        AttrEvent::CallOriginName(Some(s)) => (st.0, st.1, Some(s)),
        AttrEvent::CallOriginName(None) => st,
        AttrEvent::CallOrigin(_) => st,
        AttrEvent::Ranges(_) => st,
        AttrEvent::Declaration => st,
        AttrEvent::Other => st,
    }
}

/// Folding an entry's events from position `i` on, stopping at a
/// declaration.
pub open spec fn fold_from(
    evs: Seq<AttrEvent>,
    i: int,
    st: (Option<u64>, Option<u64>, Option<String>),
) -> (Option<u64>, Option<u64>, Option<String>)
    decreases evs.len() - i,
{
    if i < 0 || i >= evs.len() {
        st
    } else if evs[i] is Declaration {
        st
    } else {
        fold_from(evs, i + 1, fold_step(st, evs[i]))
    }
}

/// What one entry's events yield.
pub open spec fn spec_die_range(evs: Seq<AttrEvent>) -> (
    Option<u64>,
    Option<u64>,
    Option<String>,
) {
    fold_from(evs, 0, (None, None, None))
}

/// The records of a run of entries: each entry with a low address
/// contributes (name, low, high).
pub open spec fn spec_function_ranges(dies: Seq<Vec<AttrEvent>>) -> Seq<
    (Option<String>, u64, Option<u64>),
>
    decreases dies.len(),
{
    if dies.len() == 0 {
        Seq::empty()
    } else {
        let st = spec_die_range(dies[0]@);
        (match st.0 {
            Some(low) => seq![(st.2, low, st.1)],
            None => Seq::empty(),
        }) + spec_function_ranges(dies.drop_first())
    }
}

proof fn lemma_function_ranges_take(dies: Seq<Vec<AttrEvent>>, i: int)
    requires
        0 <= i < dies.len(),
    ensures
        spec_function_ranges(dies.take(i + 1)) =~= spec_function_ranges(dies.take(i)) + (
        match spec_die_range(dies[i]@).0 {
            Some(low) => seq![(spec_die_range(dies[i]@).2, low, spec_die_range(dies[i]@).1)],
            None => Seq::empty(),
        }),
    decreases i,
{
    let a = dies.take(i + 1);
    let b = dies.take(i);
    if i == 0 {
        assert(a.drop_first() =~= Seq::<Vec<AttrEvent>>::empty());
        assert(b =~= Seq::<Vec<AttrEvent>>::empty());
        assert(spec_function_ranges(Seq::<Vec<AttrEvent>>::empty()) =~= Seq::<
            (Option<String>, u64, Option<u64>),
        >::empty());
        assert(a[0] == dies[0]);
    } else {
        lemma_function_ranges_take(dies.drop_first(), i - 1);
        assert(a.drop_first() =~= dies.drop_first().take(i));
        assert(b.drop_first() =~= dies.drop_first().take(i - 1));
        assert(a[0] == dies[0] && b[0] == dies[0]);
        assert(dies.drop_first()[i - 1] == dies[i]);
    }
}

/// Apply one event to the fold state.
fn step_exec(
    st: (Option<u64>, Option<u64>, Option<String>),
    e: &AttrEvent,
) -> (r: (Option<u64>, Option<u64>, Option<String>))
    ensures
        r == fold_step(st, *e),
{
    match e {
        AttrEvent::LowPc(a) => (Some(*a), st.1, st.2),
        AttrEvent::HighPcAddr(a) => (st.0, Some(*a), st.2),
        AttrEvent::HighPcOffset(o) => match st.0 {
            Some(l) => {
                if *o <= u64::MAX - l {
                    (Some(l), Some(l + *o), st.2)
                } else {
                    (Some(l), st.1, st.2)
                }
            },
            None => (None, st.1, st.2),
        },
        AttrEvent::EntryPc(a) => match st.0 {
            Some(l) => (Some(l), st.1, st.2),
            None => (Some(*a), st.1, st.2),
        },
        AttrEvent::Name(s) => (st.0, st.1, Some(s.clone())),
        AttrEvent::CallOriginName(Some(s)) => (st.0, st.1, Some(s.clone())),
        AttrEvent::CallOriginName(None) => st,
        AttrEvent::CallOrigin(_) => st,
        AttrEvent::Ranges(_) => st,
        AttrEvent::Declaration => st,
        AttrEvent::Other => st,
    }
}

/// Fold every entry's events into its record: an entry that carries a
/// low address — possibly via its entry address — yields (name, low,
/// high), with the high address taken absolutely or as an offset from
/// the low one, a later name or resolved call origin replacing an
/// earlier one, and a declaration cutting the entry short. Entries
/// without a low address yield nothing.
pub fn function_ranges_from_events(dies: &Vec<Vec<AttrEvent>>) -> (r: Vec<
    (Option<String>, u64, Option<u64>),
>)
    ensures
        r@ == spec_function_ranges(dies@),
{
    let mut out: Vec<(Option<String>, u64, Option<u64>)> = Vec::new();
    let nd = dies.len();
    let mut i: usize = 0;
    proof {
        assert(dies@.take(0) =~= Seq::<Vec<AttrEvent>>::empty());
    }
    while i < nd
        invariant
            nd == dies@.len(),
            i <= nd,
            out@ == spec_function_ranges(dies@.take(i as int)),
        decreases nd - i,
    {
        let evs = &dies[i];
        let n = evs.len();
        let mut st: (Option<u64>, Option<u64>, Option<String>) = (None, None, None);
        let mut j: usize = 0;
        while j < n
            invariant_except_break
                n == evs@.len(),
                j <= n,
                spec_die_range(evs@) == fold_from(evs@, j as int, st),
            ensures
                spec_die_range(evs@) == st,
            decreases n - j,
        {
            if matches!(evs[j], AttrEvent::Declaration) {
                break ;
            }
            st = step_exec(st, &evs[j]);
            j += 1;
        }
        match st.0 {
            Some(low) => {
                out.push((st.2, low, st.1));
            },
            None => {},
        }
        proof {
            lemma_function_ranges_take(dies@, i as int);
        }
        i += 1;
    }
    proof {
        assert(dies@.take(nd as int) =~= dies@);
    }
    out
}

/// The name of the entry a call origin points to: its first name
/// attribute with readable text, if any.
fn origin_name(u: &UnitCtx, off: u64) -> Option<String> {
    let codes = match die_attr_codes(u, off) {
        Ok(a) => a,
        Err(_) => {
            return None;
        },
    };
    let mut i: usize = 0;
    while i < codes.len()
        decreases codes@.len() - i,
    {
        if codes[i] == DW_AT_NAME {
            match die_attr_value(u, off, i) {
                Ok(RawAttr::Text(Some(s))) => {
                    return Some(s);
                },
                _ => {},
            }
        }
        i += 1;
    }
    None
}

/// Walk every compilation unit's entries and return (name, low
/// address, high address) for each entry that has an address
/// attribute. Call origins are resolved to the called entry's name
/// before the fold; a failed resolution leaves the name alone.
pub fn iter_function_ranges(dwarf: &DwarfData) -> (r: Result<
    Vec<(Option<String>, u64, Option<u64>)>,
    WrapedError,
>)
    ensures
        r matches Err(e) ==> e.kind == ErrorKind::Dwarf,
{
    let units = unit_list(dwarf)?;
    let mut dies: Vec<Vec<AttrEvent>> = Vec::new();
    let nu = units.len();
    let mut ui: usize = 0;
    while ui < nu
        invariant
            nu == units@.len(),
            ui <= nu,
        decreases nu - ui,
    {
        let u = &units[ui];
        let offs = unit_die_offsets(u)?;
        let no = offs.len();
        let mut oi: usize = 0;
        while oi < no
            invariant
                no == offs@.len(),
                oi <= no,
            decreases no - oi,
        {
            let off = offs[oi];
            let codes = die_attr_codes(u, off)?;
            let mut evs: Vec<AttrEvent> = Vec::new();
            let na = codes.len();
            let mut ai: usize = 0;
            while ai < na
                invariant
                    na == codes@.len(),
                    ai <= na,
                decreases na - ai,
            {
                let val = die_attr_value(u, off, ai)?;
                let ev = attr_event_of(codes[ai], &val);
                let ev = match ev {
                    AttrEvent::CallOrigin(off) => AttrEvent::CallOriginName(
                        origin_name(u, off),
                    ),
                    other => other,
                };
                evs.push(ev);
                ai += 1;
            }
            dies.push(evs);
            oi += 1;
        }
        ui += 1;
    }
    Ok(function_ranges_from_events(&dies))
}

} // verus!
