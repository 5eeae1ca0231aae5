//! The registries: parsed binaries memoised by path, and source files
//! memoised by path with a reverse index from their lines to every
//! registered binary's instructions.

use vstd::prelude::*;
use crate::dwarf::ctx_locs;
use crate::errors::{ErrorKind, StackedError, WrapedError};
use crate::file_parser::{
    spec_parse_ok, spec_parse_shape, MachineFile, Section,
};
use crate::insn::InstructionDetail;

verus! {

/// A memoised map from binary path to its parse outcome: parsing is
/// attempted at most once per path, and success and failure alike are
/// cached and handed to every later caller.
pub struct AsmRegistry {
    pub map: Vec<(String, Result<MachineFile, WrapedError>)>,
}

impl AsmRegistry {
    /// Paths are distinct and every cached binary is well-formed.
    pub open spec fn wf(self) -> bool {
        &&& forall|i: int, j: int|
            0 <= i < j < self.map@.len() ==> (#[trigger] self.map@[i]).0@ != (
            #[trigger] self.map@[j]).0@
        &&& forall|i: int|
            0 <= i < self.map@.len() ==> ((#[trigger] self.map@[i]).1 matches Ok(m) ==> m.wf()
                && m.lines_map_ok())
    }

    /// The cached outcome for a path.
    pub open spec fn spec_get(self, path: Seq<char>) -> Option<Result<MachineFile, WrapedError>> {
        if exists|i: int| 0 <= i < self.map@.len() && (#[trigger] self.map@[i]).0@ == path {
            let i = choose|i: int| 0 <= i < self.map@.len() && (#[trigger] self.map@[i]).0@ == path;
            Some(self.map@[i].1)
        } else {
            None
        }
    }

    /// An empty registry.
    pub fn new() -> (r: AsmRegistry)
        ensures
            r.wf(),
            r.map@.len() == 0,
    {
        AsmRegistry { map: Vec::new() }
    }

    /// The position a path is cached at, if it is.
    fn find(&self, path: &String) -> (r: Option<usize>)
        requires
            self.wf(),
        ensures
            r matches Some(i) ==> i < self.map@.len() && self.map@[i as int].0@ == path@
                && self.spec_get(path@) == Some(self.map@[i as int].1),
            r is None ==> self.spec_get(path@) is None,
    {
        let mut i: usize = 0;
        while i < self.map.len()
            invariant
                self.wf(),
                i <= self.map@.len(),
                forall|k: int| 0 <= k < i ==> (#[trigger] self.map@[k]).0@ != path@,
            decreases self.map@.len() - i,
        {
            if self.map[i].0 == *path {
                proof {
                    let j = choose|k: int|
                        0 <= k < self.map@.len() && (#[trigger] self.map@[k]).0@ == path@;
                    if j < i as int {
                        assert(self.map@[j].0@ != self.map@[i as int].0@);
                    } else if j > i as int {
                        assert(self.map@[i as int].0@ != self.map@[j].0@);
                    }
                }
                return Some(i);
            }
            i += 1;
        }
        None
    }

    /// The memoised load of one binary. A cached path is answered from
    /// the cache, success or failure alike, and the registry does not
    /// change: lookups of one path are idempotent. On a miss exactly
    /// one entry is appended, holding the given read outcome's parse:
    /// read bytes are parsed lazily and the parsed binary (or the parse
    /// error) cached; a failed read is cached as an `Io` error. The
    /// position of the path's entry is returned.
    pub fn get_machine(&mut self, path: &String, read: Result<Vec<u8>, String>) -> (r: Result<
        usize,
        WrapedError,
    >)
        requires
            old(self).wf(),
        ensures
            final(self).wf(),
            old(self).spec_get(path@) is Some ==> *final(self) == *old(self),
            final(self).spec_get(path@) is Some,
            old(self).spec_get(path@) matches Some(c) ==> (match c {
                Ok(_) => r is Ok,
                Err(e) => r matches Err(e2) && e2 == e,
            }),
            r matches Ok(i) ==> i < final(self).map@.len() && final(self).map@[i as int].0@
                == path@ && final(self).map@[i as int].1 is Ok,
            r matches Err(e) ==> (final(self).spec_get(path@) matches Some(c) && c matches Err(e2)
                && e2 == e),
            (old(self).spec_get(path@) is None && read is Err) ==> (r matches Err(e) && e.kind
                == ErrorKind::Io),
            old(self).spec_get(path@) is None ==> {
                &&& final(self).map@.len() == old(self).map@.len() + 1
                &&& (forall|k: int|
                    0 <= k < old(self).map@.len() ==> final(self).map@[k] == old(self).map@[k])
                &&& final(self).map@[old(self).map@.len() as int].0@ == path@
            },
            read matches Ok(b) ==> (old(self).spec_get(path@) is None ==> {
                &&& (r is Ok <==> spec_parse_ok(b@))
                &&& (final(self).map@[old(self).map@.len() as int].1 matches Ok(m)
                    ==> spec_parse_shape(m, b@, false))
                &&& (spec_parse_ok(b@) ==> final(self).map@[old(self).map@.len() as int].1 is Ok)
            }),
    {
        match self.find(path) {
            Some(i) => {
                match &self.map[i].1 {
                    Ok(_) => Ok(i),
                    Err(e) => Err(e.clone()),
                }
            },
            None => {
                let outcome: Result<MachineFile, WrapedError> = match read {
                    Ok(buffer) => MachineFile::parse(buffer.as_slice(), false),
                    Err(msg) => Err(WrapedError { kind: ErrorKind::Io, message: msg }),
                };
                let ghost m0 = self.map@;
                self.map.push((path.clone(), outcome));
                proof {
                    let n = m0.len() as int;
                    assert(self.map@[n].0@ == path@);
                    assert(forall|k: int| 0 <= k < n ==> self.map@[k] == (#[trigger] m0[k]));
                    assert forall|k: int| 0 <= k < n implies (#[trigger] self.map@[k]).0@
                        != path@ by {
                        assert(m0[k].0@ != path@);
                    }
                    let j = choose|k: int|
                        0 <= k < self.map@.len() && (#[trigger] self.map@[k]).0@ == path@;
                    assert(j == n);
                }
                let i = self.map.len() - 1;
                proof {
                    assert forall|a: int|
                        0 <= a < self.map@.len() implies ((#[trigger] self.map@[a]).1 matches Ok(
                        m,
                    ) ==> m.wf() && m.lines_map_ok()) by {
                        if a < self.map@.len() - 1 {
                            assert(self.map@[a] == m0[a]);
                        }
                    }
                }
                match &self.map[i].1 {
                    Ok(_) => Ok(i),
                    Err(e) => Err(e.clone()),
                }
            },
        }
    }

    /// How many paths are cached.
    pub fn len(&self) -> (r: usize)
        ensures
            r == self.map@.len(),
    {
        self.map.len()
    }

    /// The path of the entry at a position.
    pub fn path_at(&self, i: usize) -> (r: &String)
        requires
            i < self.map@.len(),
        ensures
            r == self.map@[i as int].0,
    {
        &self.map[i].0
    }

    /// The cached outcome at a position.
    pub fn result_at(&self, i: usize) -> (r: &Result<MachineFile, WrapedError>)
        requires
            i < self.map@.len(),
        ensures
            r == self.map@[i as int].1,
    {
        &self.map[i].1
    }

    /// Build (or fetch) the line index of the cached binary at a
    /// position; other entries stay as they are.
    pub fn build_lines_map(&mut self, i: usize) -> (r: Result<(), WrapedError>)
        requires
            old(self).wf(),
            i < old(self).map@.len(),
        ensures
            final(self).wf(),
            final(self).map@.len() == old(self).map@.len(),
            forall|k: int|
                0 <= k < old(self).map@.len() && k != i ==> final(self).map@[k] == old(self).map@[k],
            final(self).map@[i as int].0 == old(self).map@[i as int].0,
            old(self).map@[i as int].1 is Err ==> final(self).map@ == old(self).map@,
            (r matches Ok(()) && old(self).map@[i as int].1 is Ok) ==> (final(self).map@[i as int].1
                matches Ok(m) && m.file_lines is Some),
            r is Err ==> (final(self).map@[i as int].1 matches Ok(m) && m.file_lines is None),
    {
        let ghost m0 = self.map@;
        let mut entry = self.map.remove(i);
        let r = match &mut entry.1 {
            Ok(m) => {
                match m.get_lines_map() {
                    Ok(_) => Ok(()),
                    Err(e) => Err(e),
                }
            },
            Err(_) => Ok(()),
        };
        let ghost entg = entry;
        self.map.insert(i, entry);
        proof {
            assert(self.map@ =~= m0.update(i as int, entg));
            assert(forall|k: int| 0 <= k < m0.len() ==> (#[trigger] self.map@[k]).0 == m0[k].0);
            if m0[i as int].1 is Err {
                assert(self.map@ =~= m0);
            }
        }
        r
    }
}

} // verus!

verus! {

/// One source file: its text and the reverse index that lists, for a
/// line of this file and a binary's path, the instructions that line
/// produced in that binary. Non-fatal errors met while populating are
/// collected, not raised.
pub struct CodeFile {
    pub text: String,
    pub inner: Vec<((u32, String), Vec<InstructionDetail>)>,
    pub errors: Vec<StackedError>,
}

impl CodeFile {
    /// Cells are keyed by distinct (line, binary path) pairs.
    pub open spec fn wf(self) -> bool {
        forall|i: int, j: int|
            0 <= i < j < self.inner@.len() ==> !((#[trigger] self.inner@[i]).0.0 == (
            #[trigger] self.inner@[j]).0.0 && self.inner@[i].0.1@ == self.inner@[j].0.1@)
    }

    /// The instructions a line of this file produced in one binary.
    pub open spec fn spec_get(self, line: u32, bin: Seq<char>) -> Option<Seq<InstructionDetail>> {
        if exists|i: int|
            0 <= i < self.inner@.len() && (#[trigger] self.inner@[i]).0.0 == line
                && self.inner@[i].0.1@ == bin {
            let i = choose|i: int|
                0 <= i < self.inner@.len() && (#[trigger] self.inner@[i]).0.0 == line
                    && self.inner@[i].0.1@ == bin;
            Some(self.inner@[i].1@)
        } else {
            None
        }
    }

    /// Keep a source file's text, with an empty reverse index.
    pub fn read(text: String) -> (r: CodeFile)
        ensures
            r.wf(),
            r.text@ == text@,
            r.inner@.len() == 0,
            r.errors@.len() == 0,
    {
        CodeFile { text, inner: Vec::new(), errors: Vec::new() }
    }

    /// The instructions of one line in one binary, if any are indexed.
    pub fn get_asm(&self, line: &u32, path: &String) -> (r: Option<&Vec<InstructionDetail>>)
        requires
            self.wf(),
        ensures
            match r {
                Some(v) => self.spec_get(*line, path@) == Some(v@),
                None => self.spec_get(*line, path@) is None,
            },
    {
        let mut i: usize = 0;
        while i < self.inner.len()
            invariant
                self.wf(),
                i <= self.inner@.len(),
                forall|k: int|
                    0 <= k < i ==> !((#[trigger] self.inner@[k]).0.0 == line
                        && self.inner@[k].0.1@ == path@),
            decreases self.inner@.len() - i,
        {
            if self.inner[i].0.0 == *line && self.inner[i].0.1 == *path {
                proof {
                    let j = choose|k: int|
                        0 <= k < self.inner@.len() && (#[trigger] self.inner@[k]).0.0 == line
                            && self.inner@[k].0.1@ == path@;
                    if j < i as int {
                        assert(!(self.inner@[j].0.0 == self.inner@[i as int].0.0
                            && self.inner@[j].0.1@ == self.inner@[i as int].0.1@));
                    } else if j > i as int {
                        assert(!(self.inner@[i as int].0.0 == self.inner@[j].0.0
                            && self.inner@[i as int].0.1@ == self.inner@[j].0.1@));
                    }
                }
                return Some(&self.inner[i].1);
            }
            i += 1;
        }
        None
    }

    /// Append a run of instructions to the cell of one line and one
    /// binary, creating the cell when it is new. Every other cell, the
    /// text and the error list stay as they were.
    #[verifier::rlimit(100)]
    pub fn extend_cell(&mut self, line: u32, bin: &String, v: &Vec<InstructionDetail>)
        requires
            old(self).wf(),
        ensures
            final(self).wf(),
            final(self).text == old(self).text,
            final(self).errors == old(self).errors,
            final(self).spec_get(line, bin@) == Some(
                match old(self).spec_get(line, bin@) {
                    Some(s) => s + v@,
                    None => v@,
                },
            ),
            forall|l2: u32, b2: Seq<char>|
                !(l2 == line && b2 == bin@) ==> final(self).spec_get(l2, b2) == old(self).spec_get(l2, b2),
    {
        let ghost s0 = self.inner@;
        let mut idx: usize = 0;
        while idx < self.inner.len() && !(self.inner[idx].0.0 == line && self.inner[idx].0.1
            == *bin)
            invariant
                self.inner@ == s0,
                idx <= s0.len(),
                forall|k: int|
                    0 <= k < idx ==> !((#[trigger] s0[k]).0.0 == line && s0[k].0.1@ == bin@),
            decreases s0.len() - idx,
        {
            idx += 1;
        }
        if idx < self.inner.len() {
            let ghost oldv = self.inner@[idx as int].1@;
            let mut entry = self.inner.remove(idx);
            let mut j: usize = 0;
            while j < v.len()
                invariant
                    j <= v@.len(),
                    entry.1@ == oldv + v@.take(j as int),
                    entry.0 == s0[idx as int].0,
                decreases v@.len() - j,
            {
                entry.1.push(v[j].clone());
                proof {
                    assert(oldv + v@.take(j + 1) =~= (oldv + v@.take(j as int)).push(
                        v@[j as int],
                    ));
                }
                j += 1;
            }
            self.inner.insert(idx, entry);
            proof {
                let i = idx as int;
                assert(v@.take(v@.len() as int) =~= v@);
                assert(self.inner@ =~= s0.update(i, (s0[i].0, self.inner@[i].1)));
                assert(forall|k: int| 0 <= k < s0.len() ==> (#[trigger] self.inner@[k]).0
                    == s0[k].0);
                assert(final(self).wf());
                assert(self.inner@[i].1@ == oldv + v@);
                lemma_cf_get_at(*old(self), i);
                lemma_cf_get_at(*self, i);
                assert forall|l2: u32, b2: Seq<char>|
                    !(l2 == line && b2 == bin@) implies final(self).spec_get(l2, b2) == old(self).spec_get(l2, b2) by {
                    if exists|k: int|
                        0 <= k < s0.len() && (#[trigger] s0[k]).0.0 == l2 && s0[k].0.1@ == b2 {
                        let k = choose|k: int|
                            0 <= k < s0.len() && (#[trigger] s0[k]).0.0 == l2 && s0[k].0.1@ == b2;
                        assert(self.inner@[k] == s0[k]);
                        lemma_cf_get_at(*old(self), k);
                        lemma_cf_get_at(*self, k);
                    }
                }
            }
        } else {
            let mut nv: Vec<InstructionDetail> = Vec::new();
            let mut j: usize = 0;
            while j < v.len()
                invariant
                    j <= v@.len(),
                    nv@ == v@.take(j as int),
                decreases v@.len() - j,
            {
                nv.push(v[j].clone());
                proof {
                    assert(v@.take(j + 1) =~= v@.take(j as int).push(v@[j as int]));
                }
                j += 1;
            }
            let ghost entry = ((line, *bin), nv);
            self.inner.push(((line, bin.clone()), nv));
            proof {
                let i = s0.len() as int;
                assert(v@.take(v@.len() as int) =~= v@);
                assert(self.inner@ =~= s0.push(entry));
                assert(forall|k: int| 0 <= k < s0.len() ==> self.inner@[k] == (#[trigger] s0[k]));
                assert(self.inner@[i] == entry);
                assert(final(self).wf());
                lemma_cf_get_at(*self, i);
                assert(old(self).spec_get(line, bin@) is None);
                assert forall|l2: u32, b2: Seq<char>|
                    !(l2 == line && b2 == bin@) implies final(self).spec_get(l2, b2) == old(self).spec_get(l2, b2) by {
                    if exists|k: int|
                        0 <= k < s0.len() && (#[trigger] s0[k]).0.0 == l2 && s0[k].0.1@ == b2 {
                        let k = choose|k: int|
                            0 <= k < s0.len() && (#[trigger] s0[k]).0.0 == l2 && s0[k].0.1@ == b2;
                        assert(self.inner@[k] == s0[k]);
                        lemma_cf_get_at(*old(self), k);
                        lemma_cf_get_at(*self, k);
                    } else {
                        assert forall|k: int|
                            0 <= k < self.inner@.len() implies !((#[trigger] self.inner@[k]).0.0
                            == l2 && self.inner@[k].0.1@ == b2) by {
                            if k < i {
                                assert(self.inner@[k] == s0[k]);
                            }
                        }
                    }
                }
            }
        }
    }
}

/// In a well-formed reverse index, the cell at any position is what
/// lookup by its key finds.
proof fn lemma_cf_get_at(cf: CodeFile, i: int)
    requires
        cf.wf(),
        0 <= i < cf.inner@.len(),
    ensures
        cf.spec_get(cf.inner@[i].0.0, cf.inner@[i].0.1@) == Some(
            cf.inner@[i].1@,
        ),
{
    let line = cf.inner@[i].0.0;
    let bin = cf.inner@[i].0.1@;
    assert(0 <= i < cf.inner@.len() && cf.inner@[i].0.0 == line
        && cf.inner@[i].0.1@ == bin);
    let j = choose|k: int|
        0 <= k < cf.inner@.len() && (#[trigger] cf.inner@[k]).0.0 == line
            && cf.inner@[k].0.1@ == bin;
    if j < i {
        assert(!(cf.inner@[j].0.0 == cf.inner@[i].0.0 && cf.inner@[j].0.1@
            == cf.inner@[i].0.1@));
    } else if j > i {
        assert(!(cf.inner@[i].0.0 == cf.inner@[j].0.0 && cf.inner@[i].0.1@
            == cf.inner@[j].0.1@));
    }
}

} // verus!

verus! {

/// The line-map run one registry entry contributes to a source file
/// and line: the cell of that entry's built line index, when the entry
/// parsed, was indexed, and lists the file and line.
pub open spec fn machine_run(
    e: (String, Result<MachineFile, WrapedError>),
    path: Seq<char>,
    line: u32,
) -> Option<Seq<InstructionDetail>> {
    match e.1 {
        Ok(m) => match m.file_lines {
            Some(fm) => match fm.spec_get(path) {
                Some(lm) => lm.spec_get(line),
                None => None,
            },
            None => None,
        },
        Err(_) => None,
    }
}

/// The run the registry contributes to the cell of one line and one
/// binary of a source file: the run of the entry whose path is `bin`.
pub open spec fn reg_run(
    entries: Seq<(String, Result<MachineFile, WrapedError>)>,
    bin: Seq<char>,
    path: Seq<char>,
    line: u32,
) -> Option<Seq<InstructionDetail>> {
    if exists|k: int| 0 <= k < entries.len() && (#[trigger] entries[k]).0@ == bin {
        let k = choose|k: int| 0 <= k < entries.len() && (#[trigger] entries[k]).0@ == bin;
        machine_run(entries[k], path, line)
    } else {
        None
    }
}

/// A cell after population: the run the registry contributes appended
/// to whatever the cell held, a fresh cell where it held nothing, and
/// the old cell where the registry contributes nothing.
pub open spec fn populated_cell(
    before: Option<Seq<InstructionDetail>>,
    run: Option<Seq<InstructionDetail>>,
) -> Option<Seq<InstructionDetail>> {
    match run {
        Some(r) => Some(
            match before {
                Some(s) => s + r,
                None => r,
            },
        ),
        None => before,
    }
}

/// The entry failed for population: it never parsed, or its line index
/// could not be built.
pub open spec fn entry_failed(e: (String, Result<MachineFile, WrapedError>)) -> bool {
    match e.1 {
        Ok(m) => m.file_lines is None,
        Err(_) => true,
    }
}

/// How many entries of the run failed for population.
pub open spec fn spec_fail_count(entries: Seq<(String, Result<MachineFile, WrapedError>)>) -> int
    decreases entries.len(),
{
    if entries.len() == 0 {
        0
    } else {
        spec_fail_count(entries.drop_last()) + (if entry_failed(entries.last()) {
            1int
        } else {
            0int
        })
    }
}

proof fn lemma_fail_count_take(entries: Seq<(String, Result<MachineFile, WrapedError>)>, i: int)
    requires
        0 <= i < entries.len(),
    ensures
        spec_fail_count(entries.take(i + 1)) == spec_fail_count(entries.take(i)) + (
        if entry_failed(entries[i]) {
            1int
        } else {
            0int
        }),
{
    let a = entries.take(i + 1);
    assert(a.drop_last() =~= entries.take(i));
    assert(a.last() == entries[i]);
}

/// The registry's paths are distinct.
pub open spec fn entries_unique(entries: Seq<(String, Result<MachineFile, WrapedError>)>) -> bool {
    forall|i: int, j: int|
        0 <= i < j < entries.len() ==> (#[trigger] entries[i]).0@ != (#[trigger] entries[j]).0@
}

/// Taking one more entry changes only the cells of that entry's own
/// binary.
proof fn lemma_reg_run_extend(
    entries: Seq<(String, Result<MachineFile, WrapedError>)>,
    mi: int,
    bin: Seq<char>,
    path: Seq<char>,
    line: u32,
)
    requires
        0 <= mi < entries.len(),
        entries_unique(entries),
    ensures
        reg_run(entries.take(mi + 1), bin, path, line) == (if entries[mi].0@ == bin {
            machine_run(entries[mi], path, line)
        } else {
            reg_run(entries.take(mi), bin, path, line)
        }),
{
    let a = entries.take(mi + 1);
    let b = entries.take(mi);
    if entries[mi].0@ == bin {
        assert(a[mi] == entries[mi]);
        let k = choose|k: int| 0 <= k < a.len() && (#[trigger] a[k]).0@ == bin;
        if k != mi {
            assert(a[k] == entries[k]);
            assert(entries[k].0@ != entries[mi].0@);
        }
    } else {
        if exists|k: int| 0 <= k < b.len() && (#[trigger] b[k]).0@ == bin {
            let k = choose|k: int| 0 <= k < b.len() && (#[trigger] b[k]).0@ == bin;
            assert(b[k] == entries[k]);
            assert(a[k] == entries[k]);
            let k2 = choose|k2: int| 0 <= k2 < a.len() && (#[trigger] a[k2]).0@ == bin;
            assert(a[k2] == entries[k2]);
            if k2 != k {
                assert(entries[k2].0@ != entries[k].0@ || k2 == mi);
            }
            assert(machine_run(a[k2], path, line) == machine_run(b[k], path, line));
        } else {
            if exists|k: int| 0 <= k < a.len() && (#[trigger] a[k]).0@ == bin {
                let k = choose|k: int| 0 <= k < a.len() && (#[trigger] a[k]).0@ == bin;
                assert(k != mi);
                assert(a[k] == entries[k]);
                assert(b[k] == entries[k]);
            }
        }
    }
}

impl CodeFile {
    /// The cell of one line and binary holds at least what it held
    /// before: cells only ever grow.
    pub open spec fn cells_grown(pre: CodeFile, post: CodeFile) -> bool {
        forall|l2: u32, b2: Seq<char>|
            (#[trigger] pre.spec_get(l2, b2)) is Some ==> ((#[trigger] post.spec_get(
                l2,
                b2,
            )) is Some && pre.spec_get(l2, b2).unwrap().is_prefix_of(
                post.spec_get(l2, b2).unwrap(),
            ))
    }

    /// Fill the reverse index from every binary already registered:
    /// the cell of each line and binary gains exactly the run that
    /// binary's line index lists for this source file and line, and
    /// nothing else changes. One error is collected per binary that
    /// failed to parse or to index, and no failure stops the rest.
    #[verifier::rlimit(100)]
    pub fn populate(&mut self, registry: &mut AsmRegistry, path: &String)
        requires
            old(self).wf(),
            old(registry).wf(),
        ensures
            final(self).wf(),
            final(registry).wf(),
            final(self).text == old(self).text,
            final(registry).map@.len() == old(registry).map@.len(),
            forall|k: int|
                0 <= k < old(registry).map@.len() ==> (#[trigger] final(registry).map@[k]).0
                    == old(registry).map@[k].0,
            forall|l2: u32, b2: Seq<char>|
                (#[trigger] final(self).spec_get(l2, b2)) == populated_cell(
                    old(self).spec_get(l2, b2),
                    reg_run(final(registry).map@, b2, path@, l2),
                ),
            final(self).errors@.len() >= old(self).errors@.len(),
            final(self).errors@.len() == old(self).errors@.len() + spec_fail_count(
                final(registry).map@,
            ),
            forall|k: int|
                0 <= k < old(self).errors@.len() ==> (#[trigger] final(self).errors@[k]) == old(self).errors@[k],
    {
        let n = registry.len();
        let mut mi: usize = 0;
        proof {
            assert(registry.map@.take(0) =~= Seq::<
                (String, Result<MachineFile, WrapedError>),
            >::empty());
        }
        while mi < n
            invariant
                self.wf(),
                registry.wf(),
                n == registry.map@.len(),
                n == old(registry).map@.len(),
                mi <= n,
                self.text == old(self).text,
                forall|k: int|
                    0 <= k < n ==> (#[trigger] registry.map@[k]).0 == old(registry).map@[k].0,
                forall|k: int|
                    mi <= k < n ==> (#[trigger] registry.map@[k]) == old(registry).map@[k],
                forall|l2: u32, b2: Seq<char>|
                    (#[trigger] self.spec_get(l2, b2)) == populated_cell(
                        old(self).spec_get(l2, b2),
                        reg_run(registry.map@.take(mi as int), b2, path@, l2),
                    ),
                self.errors@.len() >= old(self).errors@.len(),
                self.errors@.len() == old(self).errors@.len() + spec_fail_count(
                    registry.map@.take(mi as int),
                ),
                forall|k: int|
                    0 <= k < old(self).errors@.len() ==> (#[trigger] self.errors@[k]) == old(self).errors@[k],
            decreases n - mi,
        {
            let ghost reg_before = registry.map@;
            let build = registry.build_lines_map(mi);
            proof {
                assert(registry.map@.take(mi as int) =~= reg_before.take(mi as int));
                assert(entries_unique(registry.map@)) by {
                    assert forall|a: int, b: int|
                        0 <= a < b < registry.map@.len() implies (#[trigger] registry.map@[a]).0@
                        != (#[trigger] registry.map@[b]).0@ by {}
                }
            }
            match build {
                Ok(()) => {},
                Err(e) => {
                    let ghost prev = *self;
                    self.errors.push(StackedError::new(e, "while making context"));
                    proof {
                        assert(forall|k: int|
                            0 <= k < prev.errors@.len() ==> (#[trigger] self.errors@[k])
                                == prev.errors@[k]);
                        lemma_spec_get_same(prev, *self);
                        lemma_fail_count_take(registry.map@, mi as int);
                        assert(forall|l2: u32|
                            machine_run(registry.map@[mi as int], path@, l2) is None);
                        lemma_reg_run_transition(
                            registry.map@,
                            mi as int,
                            path@,
                            *old(self),
                            prev,
                            *self,
                        );
                    }
                    mi += 1;
                    continue ;
                },
            }
            let outcome = registry.result_at(mi);
            match outcome {
                Err(e) => {
                    let ghost prev = *self;
                    let err = StackedError::from_wraped(e.clone(), "while getting machine");
                    self.errors.push(err);
                    proof {
                        assert(forall|k: int|
                            0 <= k < prev.errors@.len() ==> (#[trigger] self.errors@[k])
                                == prev.errors@[k]);
                        lemma_spec_get_same(prev, *self);
                        lemma_fail_count_take(registry.map@, mi as int);
                        assert(forall|l2: u32|
                            machine_run(registry.map@[mi as int], path@, l2) is None);
                        lemma_reg_run_transition(
                            registry.map@,
                            mi as int,
                            path@,
                            *old(self),
                            prev,
                            *self,
                        );
                    }
                },
                Ok(machine) => {
                    match &machine.file_lines {
                        None => {
                            proof {
                                lemma_fail_count_take(registry.map@, mi as int);
                                assert(registry.map@[mi as int].1 matches Ok(m) && m
                                    == *machine);
                                assert(forall|l2: u32|
                                    machine_run(registry.map@[mi as int], path@, l2) is None);
                                lemma_reg_run_transition(
                                    registry.map@,
                                    mi as int,
                                    path@,
                                    *old(self),
                                    *self,
                                    *self,
                                );
                            }
                        },
                        Some(fm) => {
                            match fm.get(path) {
                                None => {
                                    proof {
                                        lemma_fail_count_take(registry.map@, mi as int);
                                        assert(registry.map@[mi as int].1 matches Ok(m) && m
                                            == *machine);
                                        assert(machine.file_lines matches Some(f) && f == *fm);
                                        assert(forall|l2: u32|
                                            machine_run(registry.map@[mi as int], path@, l2)
                                                is None);
                                        lemma_reg_run_transition(
                                            registry.map@,
                                            mi as int,
                                            path@,
                                            *old(self),
                                            *self,
                                            *self,
                                        );
                                    }
                                },
                                Some(lm) => {
                                    proof {
                                        crate::line_map::lemma_fm_member_wf(
                                            machine.file_lines.unwrap(),
                                            path@,
                                        );
                                    }
                                    let entries = lm.iter_maped();
                                    let bin = registry.path_at(mi);
                                    let ghost base = *self;
                                    let ne = entries.len();
                                    let mut k: usize = 0;
                                    proof {
                                        assert(lm.wf());
                                    }
                                    while k < ne
                                        invariant
                                            self.wf(),
                                            lm.wf(),
                                            mi < n,
                                            n == registry.map@.len(),
                                            ne == entries@.len(),
                                            entries@ == lm.inner@,
                                            k <= ne,
                                            self.text == base.text,
                                            self.errors == base.errors,
                                            bin@ == registry.map@[mi as int].0@,
                                            forall|j: int, j2: int|
                                                0 <= j < j2 < entries@.len() ==> (
                                                #[trigger] entries@[j]).0 != (
                                                #[trigger] entries@[j2]).0,
                                            forall|l2: u32, b2: Seq<char>|
                                                b2 != bin@ ==> (#[trigger] self.spec_get(l2, b2))
                                                    == base.spec_get(l2, b2),
                                            forall|l2: u32|
                                                (forall|j: int|
                                                    0 <= j < k ==> (#[trigger] entries@[j]).0
                                                        != l2) ==> (#[trigger] self.spec_get(
                                                    l2,
                                                    bin@,
                                                )) == base.spec_get(l2, bin@),
                                            forall|j: int|
                                                0 <= j < k ==> (#[trigger] self.spec_get(
                                                    entries@[j].0,
                                                    bin@,
                                                )) == populated_cell(
                                                    base.spec_get(entries@[j].0, bin@),
                                                    Some(entries@[j].1@),
                                                ),
                                        decreases ne - k,
                                    {
                                        let line = entries[k].0;
                                        let ghost prev = *self;
                                        self.extend_cell(line, bin, &entries[k].1);
                                        proof {
                                            assert forall|j: int|
                                                0 <= j < k + 1 implies (#[trigger] self.spec_get(
                                                entries@[j].0,
                                                bin@,
                                            )) == populated_cell(
                                                base.spec_get(entries@[j].0, bin@),
                                                Some(entries@[j].1@),
                                            ) by {
                                                if j < k {
                                                    assert(entries@[j].0 != entries@[k as int].0);
                                                }
                                            }
                                        }
                                        k += 1;
                                    }
                                    proof {
                                        lemma_fail_count_take(registry.map@, mi as int);
                                        lemma_reg_run_after_extend(
                                            registry.map@,
                                            mi as int,
                                            path@,
                                            *old(self),
                                            base,
                                            *self,
                                            *lm,
                                        );
                                    }
                                },
                            }
                        },
                    }
                },
            }
            mi += 1;
        }
        proof {
            assert(registry.map@.take(n as int) =~= registry.map@);
        }
    }
}

/// Stepping past an entry that contributes nothing keeps every cell on
/// the populated-cell formula.
proof fn lemma_reg_run_transition(
    entries: Seq<(String, Result<MachineFile, WrapedError>)>,
    mi: int,
    path: Seq<char>,
    orig: CodeFile,
    prev: CodeFile,
    cur: CodeFile,
)
    requires
        0 <= mi < entries.len(),
        entries_unique(entries),
        machine_run(entries[mi], path, 0u32) == None::<Seq<InstructionDetail>> || true,
        forall|l2: u32| machine_run(entries[mi], path, l2) is None,
        forall|l2: u32, b2: Seq<char>|
            (#[trigger] cur.spec_get(l2, b2)) == prev.spec_get(l2, b2),
        forall|l2: u32, b2: Seq<char>|
            (#[trigger] prev.spec_get(l2, b2)) == populated_cell(
                orig.spec_get(l2, b2),
                reg_run(entries.take(mi), b2, path, l2),
            ),
    ensures
        forall|l2: u32, b2: Seq<char>|
            (#[trigger] cur.spec_get(l2, b2)) == populated_cell(
                orig.spec_get(l2, b2),
                reg_run(entries.take(mi + 1), b2, path, l2),
            ),
{
    assert forall|l2: u32, b2: Seq<char>| (#[trigger] cur.spec_get(l2, b2)) == populated_cell(
        orig.spec_get(l2, b2),
        reg_run(entries.take(mi + 1), b2, path, l2),
    ) by {
        lemma_reg_run_extend(entries, mi, b2, path, l2);
    }
}

/// Stepping past an entry whose line map for the file was appended
/// keeps every cell on the populated-cell formula.
proof fn lemma_reg_run_after_extend(
    entries: Seq<(String, Result<MachineFile, WrapedError>)>,
    mi: int,
    path: Seq<char>,
    orig: CodeFile,
    base: CodeFile,
    cur: CodeFile,
    lm: crate::line_map::LineMap,
)
    requires
        0 <= mi < entries.len(),
        entries_unique(entries),
        lm.wf(),
        forall|l2: u32| machine_run(entries[mi], path, l2) == lm.spec_get(l2),
        forall|l2: u32, b2: Seq<char>|
            b2 != entries[mi].0@ ==> (#[trigger] cur.spec_get(l2, b2)) == base.spec_get(l2, b2),
        forall|l2: u32|
            (forall|j: int| 0 <= j < lm.inner@.len() ==> (#[trigger] lm.inner@[j]).0 != l2) ==> (
            #[trigger] cur.spec_get(l2, entries[mi].0@)) == base.spec_get(l2, entries[mi].0@),
        forall|j: int|
            0 <= j < lm.inner@.len() ==> (#[trigger] cur.spec_get(lm.inner@[j].0, entries[mi].0@))
                == populated_cell(
                base.spec_get(lm.inner@[j].0, entries[mi].0@),
                Some(lm.inner@[j].1@),
            ),
        forall|l2: u32, b2: Seq<char>|
            (#[trigger] base.spec_get(l2, b2)) == populated_cell(
                orig.spec_get(l2, b2),
                reg_run(entries.take(mi), b2, path, l2),
            ),
    ensures
        forall|l2: u32, b2: Seq<char>|
            (#[trigger] cur.spec_get(l2, b2)) == populated_cell(
                orig.spec_get(l2, b2),
                reg_run(entries.take(mi + 1), b2, path, l2),
            ),
{
    let bin = entries[mi].0@;
    assert forall|l2: u32, b2: Seq<char>| (#[trigger] cur.spec_get(l2, b2)) == populated_cell(
        orig.spec_get(l2, b2),
        reg_run(entries.take(mi + 1), b2, path, l2),
    ) by {
        lemma_reg_run_extend(entries, mi, b2, path, l2);
        if b2 == bin {
            // a contribution from an earlier entry would repeat the path
            assert(reg_run(entries.take(mi), b2, path, l2) is None) by {
                if exists|k: int|
                    0 <= k < entries.take(mi).len() && (#[trigger] entries.take(mi)[k]).0@ == b2 {
                    let k = choose|k: int|
                        0 <= k < entries.take(mi).len() && (#[trigger] entries.take(mi)[k]).0@
                            == b2;
                    assert(entries.take(mi)[k] == entries[k]);
                    assert(entries[k].0@ != entries[mi].0@);
                }
            }
            assert(base.spec_get(l2, b2) == orig.spec_get(l2, b2));
            match lm.spec_get(l2) {
                Some(run) => {
                    let j = choose|j: int|
                        0 <= j < lm.inner@.len() && (#[trigger] lm.inner@[j]).0 == l2;
                    crate::line_map::lemma_lm_get_at(lm, j);
                    assert(cur.spec_get(l2, b2) == populated_cell(
                        base.spec_get(l2, b2),
                        Some(lm.inner@[j].1@),
                    ));
                },
                None => {
                    assert(forall|j: int|
                        0 <= j < lm.inner@.len() ==> (#[trigger] lm.inner@[j]).0 != l2);
                },
            }
        }
    }
}

/// Every cell is a prefix of itself.
proof fn lemma_cells_grown_refl(c: CodeFile)
    ensures
        CodeFile::cells_grown(c, c),
{
    assert forall|l2: u32, b2: Seq<char>| (#[trigger] c.spec_get(l2, b2)) is Some implies ((
    #[trigger] c.spec_get(l2, b2)) is Some && c.spec_get(l2, b2).unwrap().is_prefix_of(
        c.spec_get(l2, b2).unwrap(),
    )) by {
        let s = c.spec_get(l2, b2).unwrap();
        assert(s.take(s.len() as int) =~= s);
    }
}

/// Two states with the same cells answer every lookup alike.
proof fn lemma_spec_get_same(a: CodeFile, b: CodeFile)
    requires
        a.inner@ == b.inner@,
    ensures
        forall|l2: u32, b2: Seq<char>| (#[trigger] a.spec_get(l2, b2)) == b.spec_get(l2, b2),
{
    assert forall|l2: u32, b2: Seq<char>| (#[trigger] a.spec_get(l2, b2)) == b.spec_get(
        l2,
        b2,
    ) by {
        if exists|i: int|
            0 <= i < a.inner@.len() && (#[trigger] a.inner@[i]).0.0 == l2 && a.inner@[i].0.1@
                == b2 {
            let i = choose|i: int|
                0 <= i < a.inner@.len() && (#[trigger] a.inner@[i]).0.0 == l2 && a.inner@[i].0.1@
                    == b2;
            assert(b.inner@[i].0.0 == l2 && b.inner@[i].0.1@ == b2);
        } else {
            assert(forall|i: int|
                0 <= i < b.inner@.len() ==> !((#[trigger] b.inner@[i]).0.0 == l2
                    && b.inner@[i].0.1@ == b2));
        }
    }
}

/// Growing one cell by an appended run keeps every cell at least as
/// large as it began.
proof fn lemma_cells_grown_step(
    base: CodeFile,
    prev: CodeFile,
    post: CodeFile,
    line: u32,
    bin: Seq<char>,
    v: Seq<InstructionDetail>,
)
    requires
        CodeFile::cells_grown(base, prev),
        post.spec_get(line, bin) == Some(
            match prev.spec_get(line, bin) {
                Some(s) => s + v,
                None => v,
            },
        ),
        forall|l2: u32, b2: Seq<char>|
            !(l2 == line && b2 == bin) ==> post.spec_get(l2, b2) == prev.spec_get(l2, b2),
    ensures
        CodeFile::cells_grown(base, post),
{
    assert forall|l2: u32, b2: Seq<char>| (#[trigger] base.spec_get(l2, b2)) is Some implies ((
    #[trigger] post.spec_get(l2, b2)) is Some && base.spec_get(l2, b2).unwrap().is_prefix_of(
        post.spec_get(l2, b2).unwrap(),
    )) by {
        let s0 = base.spec_get(l2, b2).unwrap();
        let t0 = prev.spec_get(l2, b2).unwrap();
        assert(prev.spec_get(l2, b2) is Some);
        assert(s0.is_prefix_of(t0));
        if l2 == line && b2 == bin {
            assert(post.spec_get(l2, b2) == Some(t0 + v));
            assert((t0 + v).take(s0.len() as int) =~= t0.take(s0.len() as int));
        }
    }
}

/// A memoised map from source path to its loaded, populated file:
/// loading is attempted at most once per path, and success and failure
/// alike are cached.
pub struct CodeRegistry {
    pub source_files: Vec<(String, Result<CodeFile, WrapedError>)>,
}

impl CodeRegistry {
    /// Paths are distinct and every cached file is well-formed.
    pub open spec fn wf(self) -> bool {
        &&& forall|i: int, j: int|
            0 <= i < j < self.source_files@.len() ==> (#[trigger] self.source_files@[i]).0@ != (
            #[trigger] self.source_files@[j]).0@
        &&& forall|i: int|
            0 <= i < self.source_files@.len() ==> ((#[trigger] self.source_files@[i]).1 matches Ok(
                f,
            ) ==> f.wf())
    }

    /// The cached outcome for a path.
    pub open spec fn spec_get(self, path: Seq<char>) -> Option<Result<CodeFile, WrapedError>> {
        if exists|i: int|
            0 <= i < self.source_files@.len() && (#[trigger] self.source_files@[i]).0@ == path {
            let i = choose|i: int|
                0 <= i < self.source_files@.len() && (#[trigger] self.source_files@[i]).0@ == path;
            Some(self.source_files@[i].1)
        } else {
            None
        }
    }

    /// An empty registry.
    pub fn new() -> (r: CodeRegistry)
        ensures
            r.wf(),
            r.source_files@.len() == 0,
    {
        CodeRegistry { source_files: Vec::new() }
    }

    /// The memoised load of a binary, through the binary registry.
    pub fn visit_machine_file(
        &mut self,
        registry: &mut AsmRegistry,
        path: &String,
        read: Result<Vec<u8>, String>,
    ) -> (r: Result<usize, WrapedError>)
        requires
            old(registry).wf(),
        ensures
            final(registry).wf(),
            *final(self) == *old(self),
            r matches Ok(i) ==> i < final(registry).map@.len() && final(registry).map@[i as int].1 is Ok,
    {
        registry.get_machine(path, read)
    }

    /// The position a path is cached at, if it is.
    fn find(&self, path: &String) -> (r: Option<usize>)
        requires
            self.wf(),
        ensures
            r matches Some(i) ==> i < self.source_files@.len() && self.source_files@[i as int].0@
                == path@ && self.spec_get(path@) == Some(self.source_files@[i as int].1),
            r is None ==> self.spec_get(path@) is None,
    {
        let mut i: usize = 0;
        while i < self.source_files.len()
            invariant
                self.wf(),
                i <= self.source_files@.len(),
                forall|k: int| 0 <= k < i ==> (#[trigger] self.source_files@[k]).0@ != path@,
            decreases self.source_files@.len() - i,
        {
            if self.source_files[i].0 == *path {
                proof {
                    let j = choose|k: int|
                        0 <= k < self.source_files@.len() && (#[trigger] self.source_files@[k]).0@
                            == path@;
                    if j < i as int {
                        assert(self.source_files@[j].0@ != self.source_files@[i as int].0@);
                    } else if j > i as int {
                        assert(self.source_files@[i as int].0@ != self.source_files@[j].0@);
                    }
                }
                return Some(i);
            }
            i += 1;
        }
        None
    }

    /// A cached source file, for a path already visited. A cached
    /// failure surfaces as the same error.
    pub fn get_existing_source_file(&self, path: &String) -> (r: Result<&CodeFile, WrapedError>)
        requires
            self.wf(),
            self.spec_get(path@) is Some,
        ensures
            self.spec_get(path@) matches Some(c) ==> (match c {
                Ok(_) => r is Ok,
                Err(e) => r matches Err(e2) && e2 == e,
            }),
    {
        match self.find(path) {
            Some(i) => {
                match &self.source_files[i].1 {
                    Ok(f) => Ok(f),
                    Err(e) => Err(e.clone()),
                }
            },
            None => {
                proof {
                    assert(false);
                }
                Err(WrapedError { kind: ErrorKind::Io, message: String::new() })
            },
        }
    }

    /// The memoised load of one source file. A cached path is answered
    /// from the cache, success or failure alike, and the registry does
    /// not change. On a miss the given text-read outcome is consumed: a
    /// failed read is cached as an `Io` error; otherwise the file is
    /// stored and, when asked, its reverse index is populated from
    /// every binary already registered. The position of the path's
    /// entry is returned.
    pub fn get_source_file(
        &mut self,
        registry: &mut AsmRegistry,
        path: &String,
        text: Result<String, String>,
        populate: bool,
    ) -> (r: Result<usize, WrapedError>)
        requires
            old(self).wf(),
            old(registry).wf(),
        ensures
            final(self).wf(),
            final(registry).wf(),
            old(self).spec_get(path@) is Some ==> (*final(self) == *old(self) && *final(registry)
                == *old(registry)),
            final(self).spec_get(path@) is Some,
            old(self).spec_get(path@) matches Some(c) ==> (match c {
                Ok(_) => r is Ok,
                Err(e) => r matches Err(e2) && e2 == e,
            }),
            r matches Ok(i) ==> i < final(self).source_files@.len() && final(self).source_files@[i as int].0@ == path@ && final(self).source_files@[i as int].1 is Ok,
            (old(self).spec_get(path@) is None && text is Err) ==> (r matches Err(e) && e.kind
                == ErrorKind::Io),
            (old(self).spec_get(path@) is None && text is Ok) ==> r is Ok,
            old(self).spec_get(path@) is None ==> {
                &&& final(self).source_files@.len() == old(self).source_files@.len() + 1
                &&& (forall|k: int|
                    0 <= k < old(self).source_files@.len() ==> final(self).source_files@[k] == old(self).source_files@[k])
            },
            text matches Ok(t) ==> (old(self).spec_get(path@) is None ==> (final(self).source_files@[old(self).source_files@.len() as int].1 matches Ok(f) && {
                &&& f.text@ == t@
                &&& f.wf()
                &&& (populate ==> forall|l2: u32, b2: Seq<char>|
                    (#[trigger] f.spec_get(l2, b2)) == reg_run(
                        final(registry).map@,
                        b2,
                        path@,
                        l2,
                    ))
                &&& (!populate ==> forall|l2: u32, b2: Seq<char>| (#[trigger] f.spec_get(
                    l2,
                    b2,
                )) is None)
                &&& (populate ==> f.errors@.len() == spec_fail_count(final(registry).map@))
            })),
    {
        match self.find(path) {
            Some(i) => {
                match &self.source_files[i].1 {
                    Ok(_) => Ok(i),
                    Err(e) => Err(e.clone()),
                }
            },
            None => {
                let outcome: Result<CodeFile, WrapedError> = match text {
                    Ok(t) => {
                        let mut cf = CodeFile::read(t);
                        let ghost cf0 = cf;
                        proof {
                            assert forall|l2: u32, b2: Seq<char>| (#[trigger] cf0.spec_get(
                                l2,
                                b2,
                            )) is None by {}
                        }
                        if populate {
                            cf.populate(registry, path);
                            proof {
                                assert forall|l2: u32, b2: Seq<char>| (#[trigger] cf.spec_get(
                                    l2,
                                    b2,
                                )) == reg_run(registry.map@, b2, path@, l2) by {
                                    assert(cf.spec_get(l2, b2) == populated_cell(
                                        cf0.spec_get(l2, b2),
                                        reg_run(registry.map@, b2, path@, l2),
                                    ));
                                }
                            }
                        }
                        Ok(cf)
                    },
                    Err(msg) => Err(WrapedError { kind: ErrorKind::Io, message: msg }),
                };
                let ghost m0 = self.source_files@;
                self.source_files.push((path.clone(), outcome));
                proof {
                    let n = m0.len() as int;
                    assert(self.source_files@[n].0@ == path@);
                    assert(forall|k: int| 0 <= k < n ==> self.source_files@[k] == (
                    #[trigger] m0[k]));
                    assert forall|k: int| 0 <= k < n implies (#[trigger] self.source_files@[k]).0@
                        != path@ by {
                        assert(m0[k].0@ != path@);
                    }
                    let j = choose|k: int|
                        0 <= k < self.source_files@.len() && (#[trigger] self.source_files@[k]).0@
                            == path@;
                    assert(j == n);
                    assert forall|a: int|
                        0 <= a < self.source_files@.len() implies ((
                    #[trigger] self.source_files@[a]).1 matches Ok(f) ==> f.wf()) by {
                        if a < self.source_files@.len() - 1 {
                            assert(self.source_files@[a] == m0[a]);
                        }
                    }
                }
                let i = self.source_files.len() - 1;
                match &self.source_files[i].1 {
                    Ok(_) => Ok(i),
                    Err(e) => Err(e.clone()),
                }
            },
        }
    }

    /// The cached file at a position.
    pub fn file_at(&self, i: usize) -> (r: &Result<CodeFile, WrapedError>)
        requires
            i < self.source_files@.len(),
        ensures
            r == self.source_files@[i as int].1,
    {
        &self.source_files[i].1
    }
}

} // verus!

verus! {

/// An address-to-source summary row: the file and line an instruction
/// address resolves to, with unknown parts substituted.
pub type AddressFileMapping = Vec<(u64, (String, u32))>;

/// The mapping lists this address.
pub open spec fn spec_mapping_has(m: Seq<(u64, (String, u32))>, a: u64) -> bool {
    exists|j: int| 0 <= j < m.len() && (#[trigger] m[j]).0 == a
}

/// The address belongs to some decoded instruction of the sections.
pub open spec fn spec_is_insn_addr(ss: Seq<Section>, a: u64) -> bool {
    exists|i: int, k: int|
        0 <= i < ss.len() && 0 <= k < crate::file_parser::section_vec(ss[i]).len() && (
        #[trigger] crate::file_parser::section_vec(ss[i])[k]).address == a
}

/// An address maps to this file and line under the context's location
/// table, with `<unknown>` standing in for a missing file and zero for
/// a missing line.
pub open spec fn mapping_row_ok(
    ctx: crate::dwarf::LineLookup,
    a: u64,
    f: String,
    l: u32,
) -> bool {
    &&& ctx_locs(ctx).dom().contains(a)
    &&& (match ctx_locs(ctx)[a].0 {
        Some(name) => f@ == name,
        None => f@ == "<unknown>"@,
    })
    &&& (match ctx_locs(ctx)[a].1 {
        Some(line) => l == line,
        None => l == 0,
    })
}

/// Map every decoded instruction of the binary to the source file and
/// line its address resolves to. Addresses the location table does not
/// resolve are left out; a missing file reads `<unknown>` and a
/// missing line reads zero. Addresses are listed at most once.
pub fn map_instructions_to_source(machine_file: &mut MachineFile) -> (r: Result<
    AddressFileMapping,
    WrapedError,
>)
    requires
        old(machine_file).wf(),
    ensures
        final(machine_file).wf(),
        r matches Ok(m) ==> {
            &&& final(machine_file).addr2line is Some
            &&& forall|i: int, j: int|
                0 <= i < j < m@.len() ==> (#[trigger] m@[i]).0 != (#[trigger] m@[j]).0
            &&& forall|i: int|
                0 <= i < m@.len() ==> mapping_row_ok(
                    final(machine_file).addr2line.unwrap(),
                    (#[trigger] m@[i]).0,
                    m@[i].1.0,
                    m@[i].1.1,
                )
            &&& forall|i: int| 0 <= i < m@.len() ==> spec_is_insn_addr(
                final(machine_file).sections@,
                (#[trigger] m@[i]).0,
            )
            &&& forall|i: int, k: int|
                0 <= i < final(machine_file).sections@.len() && 0 <= k
                    < crate::file_parser::section_vec(
                    #[trigger] final(machine_file).sections@[i],
                ).len() ==> {
                    let a = (#[trigger] crate::file_parser::section_vec(
                        final(machine_file).sections@[i],
                    )[k]).address;
                    (!crate::dwarf::ctx_loc_fails(final(machine_file).addr2line.unwrap()).contains(
                        a,
                    ) && ctx_locs(final(machine_file).addr2line.unwrap()).dom().contains(a))
                        ==> spec_mapping_has(m@, a)
                }
        },
{
    match machine_file.get_addr2line() {
        Ok(_) => (),
        Err(e) => {
            return Err(e);
        },
    };
    match machine_file.slow_compile() {
        Ok(()) => (),
        Err(e) => {
            return Err(e);
        },
    };
    let ghost ctxg = machine_file.addr2line.unwrap();
    let mut mapping: AddressFileMapping = Vec::new();
    let ns = machine_file.sections.len();
    let mut i: usize = 0;
    while i < ns
        invariant
            ns == machine_file.sections@.len(),
            i <= ns,
            machine_file.wf(),
            machine_file.addr2line == Some(ctxg),
            forall|a: int, b: int|
                0 <= a < b < mapping@.len() ==> (#[trigger] mapping@[a]).0 != (
                #[trigger] mapping@[b]).0,
            forall|a: int|
                0 <= a < mapping@.len() ==> mapping_row_ok(
                    ctxg,
                    (#[trigger] mapping@[a]).0,
                    mapping@[a].1.0,
                    mapping@[a].1.1,
                ),
            forall|a: int|
                0 <= a < mapping@.len() ==> spec_is_insn_addr(
                    machine_file.sections@,
                    (#[trigger] mapping@[a]).0,
                ),
            forall|i2: int, k2: int|
                0 <= i2 < i && 0 <= k2 < crate::file_parser::section_vec(
                    #[trigger] machine_file.sections@[i2],
                ).len() ==> {
                    let a = (#[trigger] crate::file_parser::section_vec(
                        machine_file.sections@[i2],
                    )[k2]).address;
                    (!crate::dwarf::ctx_loc_fails(ctxg).contains(a) && ctx_locs(
                        ctxg,
                    ).dom().contains(a)) ==> spec_mapping_has(mapping@, a)
                },
        decreases ns - i,
    {
        match &machine_file.sections[i] {
            Section::Info(_) => {},
            Section::Code(c) => {
                match &c.instructions {
                    None => {},
                    Some(v) => {
                        let nk = v.len();
                        let mut k: usize = 0;
                        while k < nk
                            invariant
                                nk == v@.len(),
                                k <= nk,
                                i < ns,
                                ns == machine_file.sections@.len(),
                                machine_file.addr2line == Some(ctxg),
                                crate::file_parser::section_vec(machine_file.sections@[i as int])
                                    == v@,
                                forall|a: int, b: int|
                                    0 <= a < b < mapping@.len() ==> (#[trigger] mapping@[a]).0 != (
                                    #[trigger] mapping@[b]).0,
                                forall|a: int|
                                    0 <= a < mapping@.len() ==> mapping_row_ok(
                                        ctxg,
                                        (#[trigger] mapping@[a]).0,
                                        mapping@[a].1.0,
                                        mapping@[a].1.1,
                                    ),
                                forall|a: int|
                                    0 <= a < mapping@.len() ==> spec_is_insn_addr(
                                        machine_file.sections@,
                                        (#[trigger] mapping@[a]).0,
                                    ),
                                forall|i2: int, k2: int|
                                    0 <= i2 < i && 0 <= k2 < crate::file_parser::section_vec(
                                        #[trigger] machine_file.sections@[i2],
                                    ).len() ==> {
                                        let a = (#[trigger] crate::file_parser::section_vec(
                                            machine_file.sections@[i2],
                                        )[k2]).address;
                                        (!crate::dwarf::ctx_loc_fails(ctxg).contains(a)
                                            && ctx_locs(ctxg).dom().contains(a))
                                            ==> spec_mapping_has(mapping@, a)
                                    },
                                forall|k2: int|
                                    0 <= k2 < k ==> {
                                        let a = (#[trigger] v@[k2]).address;
                                        (!crate::dwarf::ctx_loc_fails(ctxg).contains(a)
                                            && ctx_locs(ctxg).dom().contains(a))
                                            ==> spec_mapping_has(mapping@, a)
                                    },
                            decreases nk - k,
                        {
                            let addr = v[k].address;
                            let ghost map_before = mapping@;
                            let ctx = machine_file.addr2line.as_ref().unwrap();
                            match ctx.find_location(addr) {
                                Ok(Some(loc)) => {
                                    let file = match loc.file {
                                        Some(f) => f,
                                        None => String::from_str("<unknown>"),
                                    };
                                    let line = match loc.line {
                                        Some(l) => l,
                                        None => 0,
                                    };
                                    let ghost before = mapping@;
                                    upsert_mapping(&mut mapping, addr, file, line);
                                    proof {
                                        assert forall|a: int|
                                            0 <= a < mapping@.len() implies mapping_row_ok(
                                            ctxg,
                                            (#[trigger] mapping@[a]).0,
                                            mapping@[a].1.0,
                                            mapping@[a].1.1,
                                        ) && spec_is_insn_addr(
                                            machine_file.sections@,
                                            mapping@[a].0,
                                        ) by {
                                            if a < mapping@.len() - 1 {
                                                assert(before.contains(mapping@[a]));
                                                let b = choose|b: int|
                                                    0 <= b < before.len() && before[b] == mapping@[a];
                                                assert(mapping_row_ok(
                                                    ctxg,
                                                    (before[b]).0,
                                                    before[b].1.0,
                                                    before[b].1.1,
                                                ));
                                                assert(spec_is_insn_addr(
                                                    machine_file.sections@,
                                                    before[b].0,
                                                ));
                                            } else {
                                                assert(crate::file_parser::section_vec(
                                                    machine_file.sections@[i as int],
                                                )[k as int].address == addr);
                                            }
                                        }
                                        assert(spec_mapping_has(mapping@, addr)) by {
                                            assert(mapping@[mapping@.len() - 1].0 == addr);
                                        }
                                    }
                                },
                                Ok(None) => {},
                                Err(_) => {},
                            }
                            k += 1;
                        }
                    },
                }
            },
        }
        i += 1;
    }
    Ok(mapping)
}

/// Put one row into the mapping, replacing the row of an address seen
/// before.
fn upsert_mapping(m: &mut AddressFileMapping, addr: u64, file: String, line: u32)
    requires
        forall|a: int, b: int|
            0 <= a < b < old(m)@.len() ==> (#[trigger] old(m)@[a]).0 != (#[trigger] old(m)@[b]).0,
    ensures
        final(m)@.len() > 0,
        final(m)@[final(m)@.len() - 1] == (addr, (file, line)),
        forall|a: int, b: int|
            0 <= a < b < final(m)@.len() ==> (#[trigger] final(m)@[a]).0 != (
            #[trigger] final(m)@[b]).0,
        forall|a: int| 0 <= a < final(m)@.len() - 1 ==> old(m)@.contains(#[trigger] final(m)@[a]),
        forall|a: u64| spec_mapping_has(old(m)@, a) ==> spec_mapping_has(final(m)@, a),
{
    let ghost s0 = m@;
    let mut found: Option<usize> = None;
    let mut idx: usize = 0;
    while idx < m.len()
        invariant
            m@ == s0,
            idx <= s0.len(),
            found is None ==> forall|k: int| 0 <= k < idx ==> (#[trigger] s0[k]).0 != addr,
            found matches Some(j) ==> j < s0.len() && s0[j as int].0 == addr,
        decreases s0.len() - idx,
    {
        if found.is_none() && m[idx].0 == addr {
            found = Some(idx);
        }
        idx += 1;
    }
    let fidx: usize = match found {
        Some(j) => {
            let _ = m.remove(j);
            j
        },
        None => 0,
    };
    let ghost s1 = m@;
    proof {
        assert forall|a: int, b: int|
            0 <= a < b < s1.len() implies (#[trigger] s1[a]).0 != (#[trigger] s1[b]).0 by {
            if s1.len() < s0.len() {
                let i = fidx as int;
                assert(s1 =~= s0.take(i) + s0.skip(i + 1));
                if a < i && b >= i {
                    assert(s1[a] == s0[a]);
                    assert(s1[b] == s0[b + 1]);
                } else if a >= i {
                    assert(s1[a] == s0[a + 1]);
                    assert(s1[b] == s0[b + 1]);
                } else {
                    assert(s1[a] == s0[a]);
                    assert(s1[b] == s0[b]);
                }
            }
        }
        assert forall|k: int| 0 <= k < s1.len() implies (#[trigger] s1[k]).0 != addr by {
            if s1.len() < s0.len() {
                let i = fidx as int;
                assert(s1 =~= s0.take(i) + s0.skip(i + 1));
                if k < i {
                    assert(s1[k] == s0[k]);
                } else {
                    assert(s1[k] == s0[k + 1]);
                }
            }
        }
        assert forall|a: int| 0 <= a < s1.len() implies s0.contains(#[trigger] s1[a]) by {
            if s1.len() < s0.len() {
                let i = fidx as int;
                assert(s1 =~= s0.take(i) + s0.skip(i + 1));
                if a < i {
                    assert(s1[a] == s0[a]);
                } else {
                    assert(s1[a] == s0[a + 1]);
                }
            } else {
                assert(s1[a] == s0[a]);
            }
        }
    }
    m.push((addr, (file, line)));
    proof {
        assert(forall|k: int| 0 <= k < s1.len() ==> m@[k] == (#[trigger] s1[k]));
        assert forall|a: int| 0 <= a < m@.len() - 1 implies s0.contains(#[trigger] m@[a]) by {
            assert(m@[a] == s1[a]);
            assert(s0.contains(s1[a]));
        }
        assert forall|a: u64| spec_mapping_has(s0, a) implies spec_mapping_has(m@, a) by {
            if a == addr {
                assert(m@[m@.len() - 1].0 == a);
            } else {
                let b = choose|b: int| 0 <= b < s0.len() && (#[trigger] s0[b]).0 == a;
                if s1.len() < s0.len() {
                    let i = fidx as int;
                    assert(s1 =~= s0.take(i) + s0.skip(i + 1));
                    assert(s0[i].0 == addr);
                    if b < i {
                        assert(s1[b] == s0[b]);
                        assert(m@[b].0 == a);
                    } else {
                        assert(b != i);
                        assert(s1[b - 1] == s0[b]);
                        assert(m@[b - 1].0 == a);
                    }
                } else {
                    assert(m@[b].0 == a);
                }
            }
        }
    }
}

impl AsmRegistry {
    /// A shared handle to the parsed DWARF of the cached binary at a
    /// position, loading it on first use; a cached failure yields
    /// nothing. Other entries stay as they are.
    pub fn dwarf_handle(&mut self, i: usize) -> (r: Option<crate::dwarf::DwarfData>)
        requires
            old(self).wf(),
            i < old(self).map@.len(),
        ensures
            final(self).wf(),
            final(self).map@.len() == old(self).map@.len(),
            forall|k: int|
                0 <= k < old(self).map@.len() && k != i ==> final(self).map@[k] == old(self).map@[k],
            final(self).map@[i as int].0 == old(self).map@[i as int].0,
    {
        let ghost m0 = self.map@;
        let mut entry = self.map.remove(i);
        let r = match &mut entry.1 {
            Ok(m) => {
                let d = m.load_dwarf();
                Some(d.clone_handle())
            },
            Err(_) => None,
        };
        let ghost entg = entry;
        self.map.insert(i, entry);
        proof {
            assert(self.map@ =~= m0.update(i as int, entg));
            assert(forall|k: int| 0 <= k < m0.len() ==> (#[trigger] self.map@[k]).0 == m0[k].0);
        }
        r
    }
}

} // verus!

verus! {

/// The name of the function covering an address, following split-DWARF
/// load requests: the caller gathers the supplementary files the
/// lookup asks for (see the load-request listing) and hands them in;
/// the lookup absorbs them and resolves. An address with no named
/// frame, and any failure along the way, yields no name. The result is
/// the name the refreshed context resolves for the address.
pub fn find_func_name(
    machine: &mut MachineFile,
    address: u64,
    sups: &Vec<Option<crate::dwarf::DwarfData>>,
) -> (r: Option<String>)
    requires
        old(machine).wf(),
    ensures
        final(machine).wf(),
        final(machine).sections == old(machine).sections,
        r is Some ==> (final(machine).addr2line matches Some(c) && crate::dwarf::ctx_frames(
            c,
        ).dom().contains(address)),
        final(machine).addr2line matches Some(c) ==> ((crate::dwarf::ctx_frames(c).dom().contains(
            address,
        ) ==> (r matches Some(s) && s@ == crate::dwarf::ctx_frames(c)[address]))),
{
    match machine.get_addr2line() {
        Ok(_) => (),
        Err(_) => {
            return None;
        },
    };
    let mut ctx_opt: Option<crate::dwarf::LineLookup> = None;
    core::mem::swap(&mut ctx_opt, &mut machine.addr2line);
    match ctx_opt {
        Some(mut ctx) => {
            ctx.preload(address, sups);
            let name = crate::dwarf::resolve_func_name(&ctx, address);
            machine.addr2line = Some(ctx);
            name
        },
        None => None,
    }
}

} // verus!
