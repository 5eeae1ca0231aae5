//! The per-binary line index: for each source file, its instructions
//! keyed by line, with buckets for instructions whose line or file the
//! DWARF does not give.

use vstd::prelude::*;
use vstd::multiset::Multiset;
use crate::insn::InstructionDetail;

verus! {

/// The instructions of one source file, keyed by line in ascending
/// order, plus the bucket for instructions located in the file but on
/// no known line.
#[derive(Debug)]
pub struct LineMap {
    pub inner: Vec<(u32, Vec<InstructionDetail>)>,
    pub extra: Vec<InstructionDetail>,
}

/// The whole line index of one binary: a line map per source file,
/// plus the bucket for instructions with no known file.
#[derive(Debug)]
pub struct FileMap {
    pub inner: Vec<(String, LineMap)>,
    pub extra: Vec<InstructionDetail>,
}

impl LineMap {
    /// Entries are sorted strictly ascending by line.
    pub open spec fn wf(self) -> bool {
        forall|i: int, j: int|
            0 <= i < j < self.inner@.len() ==> (#[trigger] self.inner@[i]).0 < (
            #[trigger] self.inner@[j]).0
    }

    /// The instructions this map lists for a line.
    pub open spec fn spec_get(self, line: u32) -> Option<Seq<InstructionDetail>> {
        if exists|i: int| 0 <= i < self.inner@.len() && (#[trigger] self.inner@[i]).0 == line {
            let i = choose|i: int|
                0 <= i < self.inner@.len() && (#[trigger] self.inner@[i]).0 == line;
            Some(self.inner@[i].1@)
        } else {
            None
        }
    }

    /// A new, empty line map.
    pub fn new() -> (r: LineMap)
        ensures
            r.wf(),
            r.inner@.len() == 0,
            r.extra@.len() == 0,
    {
        LineMap { inner: Vec::new(), extra: Vec::new() }
    }

    /// The entries, in ascending line order.
    pub fn iter_maped(&self) -> (r: &Vec<(u32, Vec<InstructionDetail>)>)
        ensures
            r == self.inner,
    {
        &self.inner
    }

    /// The instructions of one line.
    pub fn by_line(&self, line: u32) -> (r: Option<&Vec<InstructionDetail>>)
        requires
            self.wf(),
        ensures
            match r {
                Some(v) => self.spec_get(line) == Some(v@),
                None => self.spec_get(line) is None,
            },
    {
        let mut i: usize = 0;
        while i < self.inner.len()
            invariant
                self.wf(),
                i <= self.inner@.len(),
                forall|k: int| 0 <= k < i ==> (#[trigger] self.inner@[k]).0 != line,
            decreases self.inner@.len() - i,
        {
            if self.inner[i].0 == line {
                proof {
                    assert(self.inner@[i as int].0 == line);
                    let j = choose|k: int|
                        0 <= k < self.inner@.len() && (#[trigger] self.inner@[k]).0 == line;
                    if j < i as int {
                        assert(self.inner@[j].0 < self.inner@[i as int].0);
                    } else if j > i as int {
                        assert(self.inner@[i as int].0 < self.inner@[j].0);
                    }
                    assert(j == i as int);
                }
                return Some(&self.inner[i].1);
            }
            i += 1;
        }
        None
    }
}

impl FileMap {
    /// File keys are distinct and every file's line map is well-formed.
    pub open spec fn wf(self) -> bool {
        &&& forall|i: int, j: int|
            0 <= i < j < self.inner@.len() ==> (#[trigger] self.inner@[i]).0@ != (
            #[trigger] self.inner@[j]).0@
        &&& forall|i: int| 0 <= i < self.inner@.len() ==> (#[trigger] self.inner@[i]).1.wf()
    }

    /// The line map this index has for a file name.
    pub open spec fn spec_get(self, file: Seq<char>) -> Option<LineMap> {
        if exists|i: int| 0 <= i < self.inner@.len() && (#[trigger] self.inner@[i]).0@ == file {
            let i = choose|i: int|
                0 <= i < self.inner@.len() && (#[trigger] self.inner@[i]).0@ == file;
            Some(self.inner@[i].1)
        } else {
            None
        }
    }

    /// A new, empty index.
    pub fn new() -> (r: FileMap)
        ensures
            r.wf(),
            r.inner@.len() == 0,
            r.extra@.len() == 0,
    {
        FileMap { inner: Vec::new(), extra: Vec::new() }
    }

    /// The line map of one source file.
    pub fn get(&self, id: &String) -> (r: Option<&LineMap>)
        requires
            self.wf(),
        ensures
            match r {
                Some(lm) => self.spec_get(id@) == Some(*lm),
                None => self.spec_get(id@) is None,
            },
    {
        let mut i: usize = 0;
        while i < self.inner.len()
            invariant
                self.wf(),
                i <= self.inner@.len(),
                forall|k: int| 0 <= k < i ==> (#[trigger] self.inner@[k]).0@ != id@,
            decreases self.inner@.len() - i,
        {
            if self.inner[i].0 == *id {
                proof {
                    assert(self.inner@[i as int].0@ == id@);
                    let j = choose|k: int|
                        0 <= k < self.inner@.len() && (#[trigger] self.inner@[k]).0@ == id@;
                    if j < i as int {
                        assert(self.inner@[j].0@ != self.inner@[i as int].0@);
                    } else if j > i as int {
                        assert(self.inner@[i as int].0@ != self.inner@[j].0@);
                    }
                    assert(j == i as int);
                }
                return Some(&self.inner[i].1);
            }
            i += 1;
        }
        None
    }
}

} // verus!

verus! {

/// The instructions held by a run of line entries, as a multiset.
pub open spec fn lm_entries_contents(s: Seq<(u32, Vec<InstructionDetail>)>) -> Multiset<
    InstructionDetail,
>
    decreases s.len(),
{
    if s.len() == 0 {
        Multiset::empty()
    } else {
        s[0].1@.to_multiset().add(lm_entries_contents(s.drop_first()))
    }
}

/// Everything a line map holds: its by-line cells and its bucket.
pub open spec fn lm_contents(lm: LineMap) -> Multiset<InstructionDetail> {
    lm_entries_contents(lm.inner@).add(lm.extra@.to_multiset())
}

/// The instructions held by a run of file entries, as a multiset.
pub open spec fn fm_entries_contents(s: Seq<(String, LineMap)>) -> Multiset<InstructionDetail>
    decreases s.len(),
{
    if s.len() == 0 {
        Multiset::empty()
    } else {
        lm_contents(s[0].1).add(fm_entries_contents(s.drop_first()))
    }
}

/// Everything a file map holds: every file's line map and the
/// unknown-file bucket.
pub open spec fn fm_contents(fm: FileMap) -> Multiset<InstructionDetail> {
    fm_entries_contents(fm.inner@).add(fm.extra@.to_multiset())
}

/// The index lists `ins` among the instructions of `line` in `file`.
pub open spec fn fm_has(fm: FileMap, file: Seq<char>, line: u32, ins: InstructionDetail) -> bool {
    match fm.spec_get(file) {
        Some(lm) => match lm.spec_get(line) {
            Some(s) => s.contains(ins),
            None => false,
        },
        None => false,
    }
}

proof fn lemma_lm_entries_concat(a: Seq<(u32, Vec<InstructionDetail>)>, b: Seq<(u32, Vec<InstructionDetail>)>)
    ensures
        lm_entries_contents(a + b) =~= lm_entries_contents(a).add(lm_entries_contents(b)),
    decreases a.len(),
{
    if a.len() == 0 {
        assert(a + b =~= b);
    } else {
        lemma_lm_entries_concat(a.drop_first(), b);
        assert((a + b).drop_first() =~= a.drop_first() + b);
        assert((a + b)[0] == a[0]);
    }
}

proof fn lemma_fm_entries_concat(a: Seq<(String, LineMap)>, b: Seq<(String, LineMap)>)
    ensures
        fm_entries_contents(a + b) =~= fm_entries_contents(a).add(fm_entries_contents(b)),
    decreases a.len(),
{
    if a.len() == 0 {
        assert(a + b =~= b);
    } else {
        lemma_fm_entries_concat(a.drop_first(), b);
        assert((a + b).drop_first() =~= a.drop_first() + b);
        assert((a + b)[0] == a[0]);
    }
}

/// A run of line entries splits at any index.
proof fn lemma_lm_entries_split(s: Seq<(u32, Vec<InstructionDetail>)>, i: int)
    requires
        0 <= i < s.len(),
    ensures
        lm_entries_contents(s) =~= lm_entries_contents(s.take(i)).add(
            s[i].1@.to_multiset(),
        ).add(lm_entries_contents(s.skip(i + 1))),
{
    let mid = seq![s[i]];
    assert(s =~= s.take(i) + mid + s.skip(i + 1));
    lemma_lm_entries_concat(s.take(i) + mid, s.skip(i + 1));
    lemma_lm_entries_concat(s.take(i), mid);
    assert(lm_entries_contents(mid) =~= s[i].1@.to_multiset()) by {
        assert(mid.drop_first() =~= Seq::<(u32, Vec<InstructionDetail>)>::empty());
        assert(lm_entries_contents(Seq::<(u32, Vec<InstructionDetail>)>::empty())
            =~= Multiset::empty());
    }
}

/// A run of file entries splits at any index.
proof fn lemma_fm_entries_split(s: Seq<(String, LineMap)>, i: int)
    requires
        0 <= i < s.len(),
    ensures
        fm_entries_contents(s) =~= fm_entries_contents(s.take(i)).add(lm_contents(s[i].1)).add(
            fm_entries_contents(s.skip(i + 1)),
        ),
{
    let mid = seq![s[i]];
    assert(s =~= s.take(i) + mid + s.skip(i + 1));
    lemma_fm_entries_concat(s.take(i) + mid, s.skip(i + 1));
    lemma_fm_entries_concat(s.take(i), mid);
    assert(fm_entries_contents(mid) =~= lm_contents(s[i].1)) by {
        assert(mid.drop_first() =~= Seq::<(String, LineMap)>::empty());
        assert(fm_entries_contents(Seq::<(String, LineMap)>::empty()) =~= Multiset::empty());
    }
}

/// In a well-formed line map, the entry at any index is what lookup by
/// its line finds.
pub proof fn lemma_lm_get_at(lm: LineMap, i: int)
    requires
        lm.wf(),
        0 <= i < lm.inner@.len(),
    ensures
        lm.spec_get(lm.inner@[i].0) == Some(lm.inner@[i].1@),
{
    let line = lm.inner@[i].0;
    assert(0 <= i < lm.inner@.len() && lm.inner@[i].0 == line);
    let j = choose|k: int| 0 <= k < lm.inner@.len() && (#[trigger] lm.inner@[k]).0 == line;
    if j < i {
        assert(lm.inner@[j].0 < lm.inner@[i].0);
    } else if j > i {
        assert(lm.inner@[i].0 < lm.inner@[j].0);
    }
}

/// A line no entry carries finds nothing.
pub proof fn lemma_lm_get_absent(lm: LineMap, line: u32)
    requires
        forall|k: int| 0 <= k < lm.inner@.len() ==> (#[trigger] lm.inner@[k]).0 != line,
    ensures
        lm.spec_get(line) is None,
{
}

/// In a well-formed file map, the entry at any index is what lookup by
/// its file finds.
pub proof fn lemma_fm_get_at(fm: FileMap, i: int)
    requires
        fm.wf(),
        0 <= i < fm.inner@.len(),
    ensures
        fm.spec_get(fm.inner@[i].0@) == Some(fm.inner@[i].1),
{
    let file = fm.inner@[i].0@;
    assert(0 <= i < fm.inner@.len() && fm.inner@[i].0@ == file);
    let j = choose|k: int| 0 <= k < fm.inner@.len() && (#[trigger] fm.inner@[k]).0@ == file;
    if j != i {
        if j < i {
            assert(fm.inner@[j].0@ != fm.inner@[i].0@);
        } else {
            assert(fm.inner@[i].0@ != fm.inner@[j].0@);
        }
    }
}

/// A member of a well-formed file map is itself well-formed.
pub proof fn lemma_fm_member_wf(fm: FileMap, file: Seq<char>)
    requires
        fm.wf(),
        fm.spec_get(file) is Some,
    ensures
        fm.spec_get(file).unwrap().wf(),
{
    let i = choose|i: int| 0 <= i < fm.inner@.len() && (#[trigger] fm.inner@[i]).0@ == file;
    assert(fm.inner@[i].1.wf());
}

/// A file no entry carries finds nothing.
proof fn lemma_fm_get_absent(fm: FileMap, file: Seq<char>)
    requires
        forall|k: int| 0 <= k < fm.inner@.len() ==> (#[trigger] fm.inner@[k]).0@ != file,
    ensures
        fm.spec_get(file) is None,
{
}

impl LineMap {
    /// File an instruction under a line: appended to the line's cell,
    /// which is created in line order if it is new. Every other cell
    /// and the bucket stay as they were; the map gains exactly this
    /// instruction.
    #[verifier::rlimit(100)]
    pub fn insert(&mut self, line: u32, ins: InstructionDetail)
        requires
            old(self).wf(),
        ensures
            final(self).wf(),
            final(self).extra == old(self).extra,
            lm_contents(*final(self)) =~= lm_contents(*old(self)).insert(ins),
            final(self).spec_get(line) == Some(
                match old(self).spec_get(line) {
                    Some(t) => t.push(ins),
                    None => seq![ins],
                },
            ),
            forall|l2: u32| l2 != line ==> final(self).spec_get(l2) == old(self).spec_get(l2),
    {
        proof {
            broadcast use vstd::seq_lib::group_to_multiset_ensures;

        }
        let ghost s0 = self.inner@;
        let mut idx: usize = 0;
        while idx < self.inner.len() && self.inner[idx].0 < line
            invariant
                self.inner@ == s0,
                idx <= s0.len(),
                forall|k: int| 0 <= k < idx ==> (#[trigger] s0[k]).0 < line,
            decreases s0.len() - idx,
        {
            idx += 1;
        }
        if idx < self.inner.len() && self.inner[idx].0 == line {
            let ghost oldvec = self.inner@[idx as int].1@;
            let mut entry = self.inner.remove(idx);
            entry.1.push(ins);
            self.inner.insert(idx, entry);
            proof {
                let i = idx as int;
                assert(self.inner@ =~= s0.update(i, (line, entry.1)));
                assert(entry.1@ == oldvec.push(ins));
                // order is kept: the keys did not change
                assert(forall|k: int| 0 <= k < s0.len() ==> (#[trigger] self.inner@[k]).0
                    == s0[k].0);
                assert(final(self).wf());
                // the changed cell
                lemma_lm_get_at(*old(self), i);
                lemma_lm_get_at(*self, i);
                // every other cell
                assert forall|l2: u32| l2 != line implies final(self).spec_get(l2) == old(
                    self,
                ).spec_get(l2) by {
                    if exists|k: int| 0 <= k < s0.len() && (#[trigger] s0[k]).0 == l2 {
                        let k = choose|k: int| 0 <= k < s0.len() && (#[trigger] s0[k]).0 == l2;
                        assert(self.inner@[k] == s0[k]);
                        lemma_lm_get_at(*old(self), k);
                        lemma_lm_get_at(*self, k);
                    } else {
                        lemma_lm_get_absent(*old(self), l2);
                        lemma_lm_get_absent(*self, l2);
                    }
                }
                // contents grow by exactly this instruction
                lemma_lm_entries_split(s0, i);
                lemma_lm_entries_split(self.inner@, i);
                assert(self.inner@.take(i) =~= s0.take(i));
                assert(self.inner@.skip(i + 1) =~= s0.skip(i + 1));
                assert(entry.1@.to_multiset() =~= oldvec.to_multiset().insert(ins));
            }
        } else {
            let mut v: Vec<InstructionDetail> = Vec::new();
            v.push(ins);
            let ghost entry = (line, v);
            self.inner.insert(idx, (line, v));
            proof {
                let i = idx as int;
                assert(self.inner@ =~= s0.insert(i, entry));
                assert(self.inner@ =~= s0.take(i) + seq![entry] + s0.skip(i));
                // order is kept: smaller keys before, larger after
                assert(forall|k: int| i <= k < s0.len() ==> line < (#[trigger] s0[k]).0);
                assert forall|a: int, b: int|
                    0 <= a < b < self.inner@.len() implies (#[trigger] self.inner@[a]).0 < (
                #[trigger] self.inner@[b]).0 by {
                    if a < i && b > i {
                        assert(self.inner@[a] == s0[a]);
                        assert(self.inner@[b] == s0[b - 1]);
                    } else if a < i && b == i {
                        assert(self.inner@[a] == s0[a]);
                    } else if a == i {
                        assert(self.inner@[b] == s0[b - 1]);
                    } else if b > i {
                        assert(self.inner@[a] == s0[a - 1]);
                        assert(self.inner@[b] == s0[b - 1]);
                    }
                }
                assert(final(self).wf());
                // the new cell
                lemma_lm_get_at(*self, i);
                assert(entry.1@ =~= seq![ins]);
                assert(old(self).spec_get(line) is None) by {
                    lemma_lm_get_absent(*old(self), line);
                }
                // every other cell
                assert forall|l2: u32| l2 != line implies final(self).spec_get(l2) == old(
                    self,
                ).spec_get(l2) by {
                    if exists|k: int| 0 <= k < s0.len() && (#[trigger] s0[k]).0 == l2 {
                        let k = choose|k: int| 0 <= k < s0.len() && (#[trigger] s0[k]).0 == l2;
                        let k2: int = if k < i {
                            k
                        } else {
                            k + 1
                        };
                        assert(self.inner@[k2] == s0[k]);
                        lemma_lm_get_at(*old(self), k);
                        lemma_lm_get_at(*self, k2);
                    } else {
                        assert forall|k: int|
                            0 <= k < self.inner@.len() implies (#[trigger] self.inner@[k]).0
                            != l2 by {
                            if k < i {
                                assert(self.inner@[k] == s0[k]);
                            } else if k > i {
                                assert(self.inner@[k] == s0[k - 1]);
                            }
                        }
                        lemma_lm_get_absent(*old(self), l2);
                        lemma_lm_get_absent(*self, l2);
                    }
                }
                // contents grow by exactly this instruction
                lemma_lm_entries_concat(s0.take(i) + seq![entry], s0.skip(i));
                lemma_lm_entries_concat(s0.take(i), seq![entry]);
                assert(lm_entries_contents(seq![entry]) =~= entry.1@.to_multiset()) by {
                    assert(seq![entry].drop_first() =~= Seq::<(
                        u32,
                        Vec<InstructionDetail>,
                    )>::empty());
                    assert(lm_entries_contents(Seq::<(u32, Vec<InstructionDetail>)>::empty())
                        =~= Multiset::empty());
                }
                assert(entry.1@.to_multiset() =~= Multiset::<InstructionDetail>::empty().insert(
                    ins,
                )) by {
                    assert(entry.1@ =~= Seq::<InstructionDetail>::empty().push(ins));
                }
                assert(s0 =~= s0.take(i) + s0.skip(i));
                lemma_lm_entries_concat(s0.take(i), s0.skip(i));
            }
        }
    }

    /// File an instruction under no known line: appended to the
    /// unknown-line bucket; every cell stays as it was.
    pub fn push_extra(&mut self, ins: InstructionDetail)
        requires
            old(self).wf(),
        ensures
            final(self).wf(),
            final(self).inner == old(self).inner,
            lm_contents(*final(self)) =~= lm_contents(*old(self)).insert(ins),
    {
        proof {
            broadcast use vstd::seq_lib::group_to_multiset_ensures;

        }
        self.extra.push(ins);
    }
}

} // verus!

verus! {

/// A line map with no entries and an empty bucket holds nothing.
proof fn lemma_lm_contents_empty(lm: LineMap)
    requires
        lm.inner@.len() == 0,
        lm.extra@.len() == 0,
    ensures
        lm_contents(lm) =~= Multiset::<InstructionDetail>::empty(),
{
    broadcast use vstd::seq_lib::group_to_multiset_ensures;

    assert(lm.inner@ =~= Seq::<(u32, Vec<InstructionDetail>)>::empty());
    assert(lm.extra@ =~= Seq::<InstructionDetail>::empty());
    assert forall|x: InstructionDetail|
        lm_contents(lm).count(x) == Multiset::<InstructionDetail>::empty().count(x) by {
        assert(!lm.extra@.contains(x));
        assert(lm.extra@.to_multiset().count(x) == 0);
    }
}

impl FileMap {
    /// File an instruction under its source file and line. The file's
    /// line map gains exactly this instruction in that line's cell;
    /// every other file and both buckets stay as they were.
    #[verifier::rlimit(100)]
    pub fn insert_located(&mut self, file: &String, line: u32, ins: InstructionDetail)
        requires
            old(self).wf(),
        ensures
            final(self).wf(),
            final(self).extra == old(self).extra,
            fm_contents(*final(self)) =~= fm_contents(*old(self)).insert(ins),
            fm_has(*final(self), file@, line, ins),
            forall|f2: Seq<char>, l2: u32, i2: InstructionDetail|
                fm_has(*old(self), f2, l2, i2) ==> fm_has(*final(self), f2, l2, i2),
    {
        proof {
            broadcast use vstd::seq_lib::group_to_multiset_ensures;

        }
        let ghost s0 = self.inner@;
        let mut idx: usize = 0;
        while idx < self.inner.len() && !(self.inner[idx].0 == *file)
            invariant
                self.inner@ == s0,
                idx <= s0.len(),
                forall|k: int| 0 <= k < idx ==> (#[trigger] s0[k]).0@ != file@,
            decreases s0.len() - idx,
        {
            idx += 1;
        }
        if idx < self.inner.len() {
            let ghost oldlm = self.inner@[idx as int].1;
            let mut entry = self.inner.remove(idx);
            entry.1.insert(line, ins);
            let ghost newlm = entry.1;
            self.inner.insert(idx, entry);
            proof {
                let i = idx as int;
                assert(self.inner@ =~= s0.update(i, (s0[i].0, newlm)));
                assert(forall|k: int| 0 <= k < s0.len() ==> (#[trigger] self.inner@[k]).0
                    == s0[k].0);
                assert(final(self).wf());
                lemma_fm_get_at(*old(self), i);
                lemma_fm_get_at(*self, i);
                lemma_lm_get_at(newlm, choose|k: int|
                    0 <= k < newlm.inner@.len() && (#[trigger] newlm.inner@[k]).0 == line);
                assert(fm_has(*final(self), file@, line, ins)) by {
                    assert(final(self).spec_get(file@) == Some(newlm));
                    assert(newlm.spec_get(line) matches Some(s) && s.contains(ins)) by {
                        match oldlm.spec_get(line) {
                            Some(t) => {
                                assert(newlm.spec_get(line) == Some(t.push(ins)));
                                assert(t.push(ins)[t.len() as int] == ins);
                            },
                            None => {
                                assert(newlm.spec_get(line) == Some(seq![ins]));
                                assert(seq![ins][0] == ins);
                            },
                        }
                    }
                }
                assert forall|f2: Seq<char>, l2: u32, i2: InstructionDetail|
                    fm_has(*old(self), f2, l2, i2) implies fm_has(*final(self), f2, l2, i2) by {
                    let k = choose|k: int| 0 <= k < s0.len() && (#[trigger] s0[k]).0@ == f2;
                    lemma_fm_get_at(*old(self), k);
                    lemma_fm_get_at(*self, k);
                    if k == i {
                        assert(old(self).spec_get(f2) == Some(oldlm));
                        assert(final(self).spec_get(f2) == Some(newlm));
                        if l2 == line {
                            match oldlm.spec_get(line) {
                                Some(t) => {
                                    assert(newlm.spec_get(line) == Some(t.push(ins)));
                                    assert forall|x: InstructionDetail|
                                        t.contains(x) implies t.push(ins).contains(x) by {
                                        let w = choose|w: int| 0 <= w < t.len() && t[w] == x;
                                        assert(t.push(ins)[w] == x);
                                    }
                                },
                                None => {},
                            }
                        } else {
                            assert(newlm.spec_get(l2) == oldlm.spec_get(l2));
                        }
                    } else {
                        assert(self.inner@[k] == s0[k]);
                    }
                }
                lemma_fm_entries_split(s0, i);
                lemma_fm_entries_split(self.inner@, i);
                assert(self.inner@.take(i) =~= s0.take(i));
                assert(self.inner@.skip(i + 1) =~= s0.skip(i + 1));
                assert(lm_contents(newlm) =~= lm_contents(oldlm).insert(ins));
            }
        } else {
            let mut lm = LineMap::new();
            let ghost lm0 = lm;
            lm.insert(line, ins);
            let ghost newlm = lm;
            let ghost entry = (*file, lm);
            self.inner.push((file.clone(), lm));
            proof {
                let i = s0.len() as int;
                assert(self.inner@ =~= s0.push(entry));
                assert(forall|k: int| 0 <= k < s0.len() ==> self.inner@[k] == (#[trigger] s0[k]));
                assert(self.inner@[i] == entry);
                assert(final(self).wf());
                lemma_fm_get_at(*self, i);
                assert(fm_has(*final(self), file@, line, ins)) by {
                    assert(final(self).spec_get(file@) == Some(newlm));
                    assert(newlm.spec_get(line) == Some(seq![ins]));
                    assert(seq![ins][0] == ins);
                }
                assert forall|f2: Seq<char>, l2: u32, i2: InstructionDetail|
                    fm_has(*old(self), f2, l2, i2) implies fm_has(*final(self), f2, l2, i2) by {
                    let k = choose|k: int| 0 <= k < s0.len() && (#[trigger] s0[k]).0@ == f2;
                    lemma_fm_get_at(*old(self), k);
                    lemma_fm_get_at(*self, k);
                    assert(self.inner@[k] == s0[k]);
                }
                assert(s0.push(entry) =~= s0 + seq![entry]);
                lemma_fm_entries_concat(s0, seq![entry]);
                assert(fm_entries_contents(seq![entry]) =~= lm_contents(newlm)) by {
                    assert(seq![entry].drop_first() =~= Seq::<(String, LineMap)>::empty());
                    assert(fm_entries_contents(Seq::<(String, LineMap)>::empty())
                        =~= Multiset::empty());
                }
                assert(lm_contents(newlm) =~= Multiset::<InstructionDetail>::empty().insert(ins))
                    by {
                    lemma_lm_contents_empty(lm0);
                    assert(lm_contents(newlm) =~= lm_contents(lm0).insert(ins));
                }
            }
        }
    }

    /// File an instruction located in a file but on no known line: it
    /// joins that file's unknown-line bucket.
    #[verifier::rlimit(100)]
    pub fn insert_unknown_line(&mut self, file: &String, ins: InstructionDetail)
        requires
            old(self).wf(),
        ensures
            final(self).wf(),
            final(self).extra == old(self).extra,
            fm_contents(*final(self)) =~= fm_contents(*old(self)).insert(ins),
            forall|f2: Seq<char>, l2: u32, i2: InstructionDetail|
                fm_has(*old(self), f2, l2, i2) ==> fm_has(*final(self), f2, l2, i2),
    {
        proof {
            broadcast use vstd::seq_lib::group_to_multiset_ensures;

        }
        let ghost s0 = self.inner@;
        let mut idx: usize = 0;
        while idx < self.inner.len() && !(self.inner[idx].0 == *file)
            invariant
                self.inner@ == s0,
                idx <= s0.len(),
                forall|k: int| 0 <= k < idx ==> (#[trigger] s0[k]).0@ != file@,
            decreases s0.len() - idx,
        {
            idx += 1;
        }
        if idx < self.inner.len() {
            let ghost oldlm = self.inner@[idx as int].1;
            let mut entry = self.inner.remove(idx);
            entry.1.push_extra(ins);
            let ghost newlm = entry.1;
            self.inner.insert(idx, entry);
            proof {
                let i = idx as int;
                assert(self.inner@ =~= s0.update(i, (s0[i].0, newlm)));
                assert(forall|k: int| 0 <= k < s0.len() ==> (#[trigger] self.inner@[k]).0
                    == s0[k].0);
                assert(final(self).wf());
                assert forall|f2: Seq<char>, l2: u32, i2: InstructionDetail|
                    fm_has(*old(self), f2, l2, i2) implies fm_has(*final(self), f2, l2, i2) by {
                    let k = choose|k: int| 0 <= k < s0.len() && (#[trigger] s0[k]).0@ == f2;
                    lemma_fm_get_at(*old(self), k);
                    lemma_fm_get_at(*self, k);
                    if k == i {
                        assert(newlm.spec_get(l2) == oldlm.spec_get(l2)) by {
                            assert(newlm.inner == oldlm.inner);
                        }
                    } else {
                        assert(self.inner@[k] == s0[k]);
                    }
                }
                lemma_fm_entries_split(s0, i);
                lemma_fm_entries_split(self.inner@, i);
                assert(self.inner@.take(i) =~= s0.take(i));
                assert(self.inner@.skip(i + 1) =~= s0.skip(i + 1));
                assert(lm_contents(newlm) =~= lm_contents(oldlm).insert(ins));
            }
        } else {
            let mut lm = LineMap::new();
            let ghost lm0 = lm;
            lm.push_extra(ins);
            let ghost newlm = lm;
            let ghost entry = (*file, lm);
            self.inner.push((file.clone(), lm));
            proof {
                let i = s0.len() as int;
                assert(self.inner@ =~= s0.push(entry));
                assert(forall|k: int| 0 <= k < s0.len() ==> self.inner@[k] == (#[trigger] s0[k]));
                assert(self.inner@[i] == entry);
                assert(final(self).wf());
                assert forall|f2: Seq<char>, l2: u32, i2: InstructionDetail|
                    fm_has(*old(self), f2, l2, i2) implies fm_has(*final(self), f2, l2, i2) by {
                    let k = choose|k: int| 0 <= k < s0.len() && (#[trigger] s0[k]).0@ == f2;
                    lemma_fm_get_at(*old(self), k);
                    lemma_fm_get_at(*self, k);
                    assert(self.inner@[k] == s0[k]);
                }
                assert(s0.push(entry) =~= s0 + seq![entry]);
                lemma_fm_entries_concat(s0, seq![entry]);
                assert(fm_entries_contents(seq![entry]) =~= lm_contents(newlm)) by {
                    assert(seq![entry].drop_first() =~= Seq::<(String, LineMap)>::empty());
                    assert(fm_entries_contents(Seq::<(String, LineMap)>::empty())
                        =~= Multiset::empty());
                }
                assert(lm_contents(newlm) =~= Multiset::<InstructionDetail>::empty().insert(ins))
                    by {
                    lemma_lm_contents_empty(lm0);
                    assert(lm_contents(newlm) =~= lm_contents(lm0).insert(ins));
                }
            }
        }
    }

    /// File an instruction with no known source file: it joins the
    /// unknown-file bucket.
    pub fn push_unknown(&mut self, ins: InstructionDetail)
        requires
            old(self).wf(),
        ensures
            final(self).wf(),
            final(self).inner == old(self).inner,
            fm_contents(*final(self)) =~= fm_contents(*old(self)).insert(ins),
            forall|f2: Seq<char>, l2: u32, i2: InstructionDetail|
                fm_has(*old(self), f2, l2, i2) ==> fm_has(*final(self), f2, l2, i2),
    {
        proof {
            broadcast use vstd::seq_lib::group_to_multiset_ensures;

        }
        self.extra.push(ins);
    }
}

} // verus!
