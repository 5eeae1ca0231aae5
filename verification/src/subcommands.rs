//! The computing parts of the batch commands: collecting the source
//! files a binary's line table names, resolving the user's file
//! selections against that listing, and describing one instruction's
//! location the way the line-annotating command prints it.

use vstd::prelude::*;
use vstd::string::StringExecFns;
use crate::args::FileSelection;
use crate::dwarf::{FoundLocation, LocRow};

verus! {

/// The row names this source file.
pub open spec fn row_names(row: LocRow, name: Seq<char>) -> bool {
    match row.file {
        Some(f) => f@ == name,
        None => false,
    }
}

/// Some row names this source file.
pub open spec fn from_rows(rows: Seq<LocRow>, name: Seq<char>) -> bool {
    exists|k: int| 0 <= k < rows.len() && row_names(#[trigger] rows[k], name)
}

/// A name is among the views of a run of strings.
pub open spec fn has_view(s: Seq<String>, name: Seq<char>) -> bool {
    exists|i: int| 0 <= i < s.len() && (#[trigger] s[i])@ == name
}

/// Whether a name is among the strings.
fn contains_view(v: &Vec<String>, name: &String) -> (r: bool)
    ensures
        r == has_view(v@, name@),
{
    let mut i: usize = 0;
    while i < v.len()
        invariant
            i <= v@.len(),
            forall|k: int| 0 <= k < i ==> (#[trigger] v@[k])@ != name@,
        decreases v@.len() - i,
    {
        if v[i] == *name {
            return true;
        }
        i += 1;
    }
    false
}

/// The distinct source files the given line-table rows name, in first
/// appearance order: every row's file is listed once, and nothing
/// else.
pub fn collect_source_files(rows: &Vec<LocRow>) -> (r: Vec<String>)
    ensures
        forall|i: int, j: int| 0 <= i < j < r@.len() ==> (#[trigger] r@[i])@ != (#[trigger] r@[j])@,
        forall|k: int|
            0 <= k < rows@.len() ==> ((#[trigger] rows@[k]).file matches Some(f) ==> has_view(
                r@,
                f@,
            )),
        forall|i: int| 0 <= i < r@.len() ==> from_rows(rows@, (#[trigger] r@[i])@),
{
    let mut out: Vec<String> = Vec::new();
    let n = rows.len();
    let mut k: usize = 0;
    while k < n
        invariant
            n == rows@.len(),
            k <= n,
            forall|i: int, j: int|
                0 <= i < j < out@.len() ==> (#[trigger] out@[i])@ != (#[trigger] out@[j])@,
            forall|k2: int|
                0 <= k2 < k ==> ((#[trigger] rows@[k2]).file matches Some(f) ==> has_view(
                    out@,
                    f@,
                )),
            forall|i: int| 0 <= i < out@.len() ==> from_rows(rows@, (#[trigger] out@[i])@),
        decreases n - k,
    {
        match &rows[k].file {
            Some(f) => {
                if !contains_view(&out, f) {
                    let ghost before = out@;
                    out.push(f.clone());
                    proof {
                        assert(out@[before.len() as int]@ == f@);
                        assert(forall|i: int| 0 <= i < before.len() ==> out@[i] == (
                        #[trigger] before[i]));
                        assert forall|i: int|
                            0 <= i < out@.len() implies from_rows(rows@, (#[trigger] out@[i])@) by {
                            if i < before.len() {
                                assert(out@[i] == before[i]);
                            } else {
                                assert(row_names(rows@[k as int], out@[i]@));
                            }
                        }
                    }
                }
            },
            None => {},
        }
        k += 1;
    }
    out
}

/// Relies on the standard sort of string vectors: the result holds
/// exactly the same strings, rearranged.
#[verifier::external_body]
pub fn sort_strings(v: Vec<String>) -> (r: Vec<String>)
    ensures
        r@.to_multiset() == v@.to_multiset(),
{
    let mut v = v;
    v.sort();
    v
}

/// The file a selection picks from the listed source files: the entry
/// at the given position, or the entry equal to the given path; out of
/// range or unknown selections pick nothing.
pub fn resolve_selection<'a>(files: &'a Vec<String>, sel: &FileSelection) -> (r: Option<
    &'a String,
>)
    ensures
        match sel {
            FileSelection::Index(i) => {
                &&& (r is Some <==> *i < files@.len())
                &&& (r matches Some(f) ==> *f == files@[*i as int])
            },
            FileSelection::Path(p) => {
                &&& (r is Some <==> has_view(files@, p@))
                &&& (r matches Some(f) ==> f@ == p@)
            },
        },
{
    match sel {
        FileSelection::Index(i) => {
            if *i < files.len() {
                Some(&files[*i])
            } else {
                None
            }
        },
        FileSelection::Path(p) => {
            let mut k: usize = 0;
            while k < files.len()
                invariant
                    k <= files@.len(),
                    sel matches FileSelection::Path(q) && q@ == p@,
                    forall|j: int| 0 <= j < k ==> (#[trigger] files@[j])@ != p@,
                decreases files@.len() - k,
            {
                if files[k] == *p {
                    proof {
                        assert((files@[k as int])@ == p@);
                    }
                    return Some(&files[k]);
                }
                k += 1;
            }
            None
        },
    }
}

/// How the line-annotating command describes one resolved location:
/// the file and, when known, the line; unknown parts read `<unknown>`,
/// and a location with an unknown part is dropped entirely when asked
/// to ignore such rows. The line number's rendering is left to the
/// caller: a known line comes back as its number.
pub fn describe_location(loc: &Option<FoundLocation>, ignore_unknown: bool) -> (r: Option<
    (String, Option<u32>),
>)
    ensures
        match loc {
            Some(l) => {
                &&& ((ignore_unknown && (l.file is None || l.line is None)) <==> r is None)
                &&& (r matches Some(d) ==> d.1 == l.line)
                &&& (r matches Some(d) ==> (match l.file {
                    Some(f) => d.0@ == f@,
                    None => d.0@ == "<unknown>"@,
                }))
            },
            None => {
                &&& (ignore_unknown <==> r is None)
                &&& (r matches Some(d) ==> d.0@ == "<unknown>"@ && d.1 is None)
            },
        },
{
    match loc {
        Some(l) => {
            if ignore_unknown && (l.file.is_none() || l.line.is_none()) {
                return None;
            }
            let file = match &l.file {
                Some(f) => f.clone(),
                None => String::from_str("<unknown>"),
            };
            Some((file, l.line))
        },
        None => {
            if ignore_unknown {
                return None;
            }
            Some((String::from_str("<unknown>"), None))
        },
    }
}

} // verus!
