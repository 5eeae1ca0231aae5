//! The walker's state and decisions: the directory cursor, the open
//! file's cursor and scroll, the selected-assembly map, and what each
//! input event does to them. Reading the terminal and the filesystem
//! is the caller's part; the decisions here are pure.

use vstd::prelude::*;
use crate::insn::InstructionDetail;
use crate::program_context::CodeFile;

verus! {

/// A control character: the Unicode control category, exactly what
/// terminal rendering cannot show.
pub open spec fn spec_is_control(c: char) -> bool {
    (c as u32) < 0x20 || (0x7f <= (c as u32) && (c as u32) <= 0x9f)
}

/// The text with every control character removed.
pub open spec fn spec_sanitise(s: Seq<char>) -> Seq<char>
    decreases s.len(),
{
    if s.len() == 0 {
        Seq::empty()
    } else {
        let pre = spec_sanitise(s.drop_last());
        if spec_is_control(s.last()) {
            pre
        } else {
            pre.push(s.last())
        }
    }
}

/// Relies on String::push: appends one character.
#[verifier::external_body]
fn push_char(s: &mut String, c: char)
    ensures
        final(s)@ == old(s)@.push(c),
{
    s.push(c);
}

/// Make text consistently renderable: drop every control character.
pub fn sanitise(s: String) -> (r: String)
    ensures
        r@ == spec_sanitise(s@),
{
    let n = s.as_str().unicode_len();
    let mut out = String::new();
    let mut i: usize = 0;
    while i < n
        invariant
            n == s@.len(),
            i <= n,
            out@ == spec_sanitise(s@.take(i as int)),
        decreases n - i,
    {
        let c = s.as_str().get_char(i);
        if !((c as u32) < 0x20 || (0x7f <= c as u32 && c as u32 <= 0x9f)) {
            push_char(&mut out, c);
        }
        proof {
            assert(s@.take(i + 1).drop_last() =~= s@.take(i as int));
            assert(s@.take(i + 1).last() == s@[i as int]);
        }
        i += 1;
    }
    proof {
        assert(s@.take(n as int) =~= s@);
    }
    out
}

/// One line of an open source file: its cleaned text, its one-based
/// number, whether the user selected it, and the once-loaded
/// instructions behind it (absent until first asked; the inner option
/// records a lookup that found nothing).
pub struct Line {
    pub content: String,
    pub is_selected: bool,
    pub line_number: usize,
    pub debug_info: Option<Option<Vec<InstructionDetail>>>,
}

impl Line {
    /// A fresh, unselected line.
    pub fn new(content: String, line_number: usize) -> (r: Line)
        ensures
            r.content@ == content@,
            r.line_number == line_number,
            !r.is_selected,
            r.debug_info is None,
    {
        Line { content, is_selected: false, line_number, debug_info: None }
    }

    /// The instructions this line produced in the given binary,
    /// fetched from the source file's reverse index on first call and
    /// kept thereafter.
    pub fn load_debug(&mut self, code_file: &CodeFile, obj_path: &String) -> (r: &Option<
        Vec<InstructionDetail>,
    >)
        requires
            code_file.wf(),
            old(self).line_number <= u32::MAX,
        ensures
            final(self).debug_info is Some,
            final(self).content == old(self).content,
            final(self).is_selected == old(self).is_selected,
            final(self).line_number == old(self).line_number,
            old(self).debug_info is Some ==> *final(self) == *old(self),
            final(self).debug_info matches Some(d) && r == d,
    {
        if self.debug_info.is_none() {
            let line = self.line_number as u32;
            let fetched: Option<Vec<InstructionDetail>> = match code_file.get_asm(
                &line,
                obj_path,
            ) {
                Some(v) => Some(copy_insns(v)),
                None => None,
            };
            self.debug_info = Some(fetched);
        }
        self.debug_info.as_ref().unwrap()
    }
}

/// An owned copy of an instruction run.
pub fn copy_insns(v: &Vec<InstructionDetail>) -> (r: Vec<InstructionDetail>)
    ensures
        r@ == v@,
{
    let mut out: Vec<InstructionDetail> = Vec::new();
    let mut i: usize = 0;
    while i < v.len()
        invariant
            i <= v@.len(),
            out@ == v@.take(i as int),
        decreases v@.len() - i,
    {
        out.push(v[i].clone());
        proof {
            assert(v@.take(i + 1) =~= v@.take(i as int).push(v@[i as int]));
        }
        i += 1;
    }
    proof {
        assert(v@.take(v@.len() as int) =~= v@);
    }
    out
}

/// Build an open file's lines from its raw text lines: each is
/// sanitised and numbered from one.
pub fn load_file(path: String, raw_lines: &Vec<String>) -> (r: FileState)
    ensures
        r.file_path@ == path@,
        r.file_scroll == 0,
        r.cursor == 0,
        r.file_content@.len() == raw_lines@.len(),
        forall|i: int|
            0 <= i < raw_lines@.len() ==> {
                &&& (#[trigger] r.file_content@[i]).content@ == spec_sanitise(raw_lines@[i]@)
                &&& r.file_content@[i].line_number == i + 1
                &&& !r.file_content@[i].is_selected
                &&& r.file_content@[i].debug_info is None
            },
{
    let mut content: Vec<Line> = Vec::new();
    let n = raw_lines.len();
    let mut i: usize = 0;
    while i < n
        invariant
            n == raw_lines@.len(),
            i <= n,
            content@.len() == i,
            forall|k: int|
                0 <= k < i ==> {
                    &&& (#[trigger] content@[k]).content@ == spec_sanitise(raw_lines@[k]@)
                    &&& content@[k].line_number == k + 1
                    &&& !content@[k].is_selected
                    &&& content@[k].debug_info is None
                },
        decreases n - i,
    {
        let s = raw_lines[i].clone();
        content.push(Line::new(sanitise(s), i + 1));
        i += 1;
    }
    FileState { file_content: content, file_scroll: 0, cursor: 0, file_path: path }
}

/// The walker's state while a file is open: its lines, the scroll
/// offset, the cursor, and the file's path.
pub struct FileState {
    pub file_content: Vec<Line>,
    pub file_scroll: usize,
    pub cursor: usize,
    pub file_path: String,
}

} // verus!

verus! {

/// Which key an input event carries, reduced to the keys the walker
/// reacts to.
#[derive(Clone, Copy, Debug, PartialEq, Eq, Structural)]
pub enum KeyInput {
    Char(char),
    Up,
    Down,
    Enter,
    Esc,
    Other,
}

/// One input event: a key press or release, a scroll, or anything
/// else.
#[derive(Clone, Copy, Debug, PartialEq, Eq, Structural)]
pub enum InputEvent {
    /// A key event; true means the key was released, not pressed.
    Key(KeyInput, bool),
    MouseScrollUp,
    MouseScrollDown,
    Other,
}

/// What the directory screen decides for one event: keep going, leave
/// the walker, open the selected entry, or reload the listing after a
/// directory change.
#[derive(Clone, Copy, Debug, PartialEq, Eq, Structural)]
pub enum DirResult {
    KeepGoing,
    Exit,
    Open(usize),
    Reload,
}

/// What the file screen decides for one event: keep going, go back to
/// the directory, or leave the walker.
#[derive(Clone, Copy, Debug, PartialEq, Eq, Structural)]
pub enum FileResult {
    Dir,
    KeepGoing,
    Exit,
}

/// The walker's global state: where it is in the filesystem, the
/// directory cursor, and the selected-assembly map keyed by address in
/// ascending order.
pub struct GlobalState {
    pub current_dir: String,
    pub original_dir: String,
    pub dir_selected: Option<usize>,
    pub dir_entries: Vec<String>,
    pub show_lines: bool,
    pub selected_asm: Vec<(u64, (InstructionDetail, String))>,
    pub cur_asm: u64,
    pub help_toggle: bool,
}

/// The next cursor position when moving down: wraps past the end, and
/// an empty listing keeps no cursor.
pub open spec fn sel_next(s: Option<usize>, len: nat) -> Option<usize> {
    if len == 0 {
        s
    } else {
        match s {
            Some(i) => Some((((i as int + 1) % (len as int)) as usize)),
            None => Some(0usize),
        }
    }
}

/// The next cursor position when moving up: wraps past the start.
pub open spec fn sel_prev(s: Option<usize>, len: nat) -> Option<usize> {
    if len == 0 {
        s
    } else {
        match s {
            Some(i) => Some(
                (if i == 0 {
                    (len - 1) as usize
                } else {
                    (i - 1) as usize
                }),
            ),
            None => Some(0usize),
        }
    }
}

/// Some selected address lies strictly below the cursor.
pub open spec fn sa_has_below(s: Seq<(u64, (InstructionDetail, String))>, cur: u64) -> bool {
    exists|j: int| 0 <= j < s.len() && (#[trigger] s[j]).0 < cur
}

/// Some selected address lies strictly above the cursor.
pub open spec fn sa_has_above(s: Seq<(u64, (InstructionDetail, String))>, cur: u64) -> bool {
    exists|j: int| 0 <= j < s.len() && (#[trigger] s[j]).0 > cur
}

/// The greatest selected address, or zero with nothing selected.
pub open spec fn sa_last(s: Seq<(u64, (InstructionDetail, String))>) -> u64 {
    if s.len() > 0 {
        s[s.len() - 1].0
    } else {
        0u64
    }
}

/// A selected address is listed.
pub open spec fn sa_has(s: Seq<(u64, (InstructionDetail, String))>, a: u64) -> bool {
    exists|j: int| 0 <= j < s.len() && (#[trigger] s[j]).0 == a
}

impl GlobalState {
    /// The selected-assembly map is sorted strictly ascending by
    /// address.
    pub open spec fn wf(self) -> bool {
        forall|i: int, j: int|
            0 <= i < j < self.selected_asm@.len() ==> (#[trigger] self.selected_asm@[i]).0 < (
            #[trigger] self.selected_asm@[j]).0
    }

    /// Start the walker in a directory with its listed entries.
    pub fn start_from(path: String, entries: Vec<String>) -> (r: GlobalState)
        ensures
            r.wf(),
            r.current_dir@ == path@,
            r.original_dir@ == path@,
            r.dir_selected == Some(0usize),
            r.dir_entries == entries,
            !r.show_lines,
            r.selected_asm@.len() == 0,
            r.cur_asm == 0,
            !r.help_toggle,
    {
        let original = path.clone();
        GlobalState {
            current_dir: path,
            original_dir: original,
            dir_selected: Some(0),
            dir_entries: entries,
            show_lines: false,
            selected_asm: Vec::new(),
            cur_asm: 0,
            help_toggle: false,
        }
    }

    /// Start the walker in the current directory.
    pub fn start(entries: Vec<String>) -> (r: GlobalState)
        ensures
            r.wf(),
            r.current_dir@ == "."@,
            r.original_dir@ == "."@,
            r.dir_selected == Some(0usize),
            r.dir_entries == entries,
    {
        GlobalState::start_from(String::from_str("."), entries)
    }

    /// Step into a directory: remember it and show its entries from
    /// the top.
    pub fn enter_directory(&mut self, dir: String, entries: Vec<String>)
        requires
            old(self).wf(),
        ensures
            final(self).wf(),
            final(self).current_dir@ == dir@,
            final(self).dir_entries == entries,
            final(self).dir_selected == Some(0usize),
            final(self).original_dir == old(self).original_dir,
            final(self).selected_asm == old(self).selected_asm,
            final(self).cur_asm == old(self).cur_asm,
            final(self).show_lines == old(self).show_lines,
            final(self).help_toggle == old(self).help_toggle,
    {
        self.current_dir = dir;
        self.dir_entries = entries;
        self.dir_selected = Some(0);
    }

    /// Put a run of instructions into the selected-assembly map, each
    /// under its address with the selected line's text; addresses
    /// already present are replaced.
    pub fn add_asm_line(&mut self, debug: Option<&Vec<InstructionDetail>>, text: &String)
        requires
            old(self).wf(),
        ensures
            final(self).wf(),
            final(self).current_dir == old(self).current_dir,
            final(self).original_dir == old(self).original_dir,
            final(self).dir_selected == old(self).dir_selected,
            final(self).dir_entries == old(self).dir_entries,
            final(self).show_lines == old(self).show_lines,
            final(self).cur_asm == old(self).cur_asm,
            final(self).help_toggle == old(self).help_toggle,
            debug is None ==> final(self).selected_asm == old(self).selected_asm,
            debug matches Some(d) ==> forall|a: u64|
                !(exists|j: int| 0 <= j < d@.len() && (#[trigger] d@[j]).address == a) ==> ((
                #[trigger] sa_has(final(self).selected_asm@, a)) <==> sa_has(
                    old(self).selected_asm@,
                    a,
                )),
            debug matches Some(d) ==> forall|j: int|
                0 <= j < d@.len() ==> sa_has(
                    final(self).selected_asm@,
                    (#[trigger] d@[j]).address,
                ),
    {
        match debug {
            None => {},
            Some(data) => {
                let n = data.len();
                let mut i: usize = 0;
                while i < n
                    invariant
                        self.wf(),
                        n == data@.len(),
                        i <= n,
                        forall|a: u64|
                            !(exists|j: int|
                                0 <= j < i && (#[trigger] data@[j]).address == a) ==> ((
                            #[trigger] sa_has(self.selected_asm@, a)) <==> sa_has(
                                old(self).selected_asm@,
                                a,
                            )),
                        forall|j: int|
                            0 <= j < i ==> sa_has(
                                self.selected_asm@,
                                (#[trigger] data@[j]).address,
                            ),
                        self.current_dir == old(self).current_dir,
                        self.original_dir == old(self).original_dir,
                        self.dir_selected == old(self).dir_selected,
                        self.dir_entries == old(self).dir_entries,
                        self.show_lines == old(self).show_lines,
                        self.cur_asm == old(self).cur_asm,
                        self.help_toggle == old(self).help_toggle,
                    decreases n - i,
                {
                    let ins = data[i].clone();
                    let addr = ins.address;
                    self.sa_insert(addr, ins, text.clone());
                    i += 1;
                }
            },
        }
    }

    /// Insert one entry into the selected-assembly map, replacing any
    /// entry at the same address and keeping the order.
    fn sa_insert(&mut self, addr: u64, ins: InstructionDetail, text: String)
        requires
            old(self).wf(),
        ensures
            final(self).wf(),
            forall|a: u64|
                #![trigger sa_has(final(self).selected_asm@, a)]
                sa_has(final(self).selected_asm@, a) <==> (sa_has(old(self).selected_asm@, a) || a
                    == addr),
            final(self).current_dir == old(self).current_dir,
            final(self).original_dir == old(self).original_dir,
            final(self).dir_selected == old(self).dir_selected,
            final(self).dir_entries == old(self).dir_entries,
            final(self).show_lines == old(self).show_lines,
            final(self).cur_asm == old(self).cur_asm,
            final(self).help_toggle == old(self).help_toggle,
    {
        let ghost s0 = self.selected_asm@;
        let mut idx: usize = 0;
        while idx < self.selected_asm.len() && self.selected_asm[idx].0 < addr
            invariant
                self.selected_asm@ == s0,
                idx <= s0.len(),
                forall|k: int| 0 <= k < idx ==> (#[trigger] s0[k]).0 < addr,
            decreases s0.len() - idx,
        {
            idx += 1;
        }
        if idx < self.selected_asm.len() && self.selected_asm[idx].0 == addr {
            let _ = self.selected_asm.remove(idx);
            self.selected_asm.insert(idx, (addr, (ins, text)));
            proof {
                assert(self.selected_asm@ =~= s0.update(idx as int, (addr, self.selected_asm@[idx as int].1)));
                assert(forall|k: int| 0 <= k < s0.len() ==> (#[trigger] self.selected_asm@[k]).0
                    == s0[k].0);
                assert forall|a: u64|
                    #![trigger sa_has(self.selected_asm@, a)]
                    sa_has(self.selected_asm@, a) <==> (sa_has(s0, a) || a == addr) by {
                    if sa_has(self.selected_asm@, a) {
                        let j = choose|j: int|
                            0 <= j < self.selected_asm@.len() && (
                            #[trigger] self.selected_asm@[j]).0 == a;
                        assert(s0[j].0 == a);
                    }
                    if sa_has(s0, a) {
                        let j = choose|j: int| 0 <= j < s0.len() && (#[trigger] s0[j]).0 == a;
                        assert(self.selected_asm@[j].0 == a);
                    }
                    if a == addr {
                        assert(self.selected_asm@[idx as int].0 == a);
                    }
                }
            }
        } else {
            self.selected_asm.insert(idx, (addr, (ins, text)));
            proof {
                let i = idx as int;
                assert(self.selected_asm@ =~= s0.take(i) + seq![(addr, self.selected_asm@[i].1)]
                    + s0.skip(i));
                assert(forall|k: int| i <= k < s0.len() ==> addr < (#[trigger] s0[k]).0);
                assert forall|a: int, b: int|
                    0 <= a < b < self.selected_asm@.len() implies (
                #[trigger] self.selected_asm@[a]).0 < (#[trigger] self.selected_asm@[b]).0 by {
                    if a < i && b > i {
                        assert(self.selected_asm@[a] == s0[a]);
                        assert(self.selected_asm@[b] == s0[b - 1]);
                    } else if a < i && b == i {
                        assert(self.selected_asm@[a] == s0[a]);
                    } else if a == i {
                        assert(self.selected_asm@[b] == s0[b - 1]);
                    } else if b > i {
                        assert(self.selected_asm@[a] == s0[a - 1]);
                        assert(self.selected_asm@[b] == s0[b - 1]);
                    }
                }
                assert forall|a: u64|
                    #![trigger sa_has(self.selected_asm@, a)]
                    sa_has(self.selected_asm@, a) <==> (sa_has(s0, a) || a == addr) by {
                    if sa_has(self.selected_asm@, a) {
                        let j = choose|j: int|
                            0 <= j < self.selected_asm@.len() && (
                            #[trigger] self.selected_asm@[j]).0 == a;
                        if j < i {
                            assert(s0[j].0 == a);
                        } else if j > i {
                            assert(s0[j - 1].0 == a);
                        }
                    }
                    if sa_has(s0, a) {
                        let j = choose|j: int| 0 <= j < s0.len() && (#[trigger] s0[j]).0 == a;
                        if j < i {
                            assert(self.selected_asm@[j].0 == a);
                        } else {
                            assert(self.selected_asm@[j + 1].0 == a);
                        }
                    }
                    if a == addr {
                        assert(self.selected_asm@[i].0 == a);
                    }
                }
            }
        }
    }

    /// Take a run of instructions out of the selected-assembly map by
    /// address, and pull the assembly cursor back onto the largest
    /// remaining address if it ran past it.
    pub fn remove_asm_line(&mut self, debug: Option<&Vec<InstructionDetail>>)
        requires
            old(self).wf(),
        ensures
            final(self).wf(),
            final(self).current_dir == old(self).current_dir,
            final(self).original_dir == old(self).original_dir,
            final(self).dir_selected == old(self).dir_selected,
            final(self).dir_entries == old(self).dir_entries,
            final(self).show_lines == old(self).show_lines,
            final(self).help_toggle == old(self).help_toggle,
    {
        match debug {
            None => {},
            Some(data) => {
                let n = data.len();
                let mut i: usize = 0;
                while i < n
                    invariant
                        self.wf(),
                        n == data@.len(),
                        i <= n,
                        self.current_dir == old(self).current_dir,
                        self.original_dir == old(self).original_dir,
                        self.dir_selected == old(self).dir_selected,
                        self.dir_entries == old(self).dir_entries,
                        self.show_lines == old(self).show_lines,
                        self.cur_asm == old(self).cur_asm,
                        self.help_toggle == old(self).help_toggle,
                    decreases n - i,
                {
                    let addr = data[i].address;
                    self.sa_remove(addr);
                    i += 1;
                }
            },
        }
        let last = if self.selected_asm.len() > 0 {
            self.selected_asm[self.selected_asm.len() - 1].0
        } else {
            0
        };
        if self.cur_asm > last {
            self.cur_asm = last;
        }
    }

    /// Remove the entry at one address, if it is there.
    fn sa_remove(&mut self, addr: u64)
        requires
            old(self).wf(),
        ensures
            final(self).wf(),
            forall|a: u64|
                #![trigger sa_has(final(self).selected_asm@, a)]
                sa_has(final(self).selected_asm@, a) <==> (sa_has(old(self).selected_asm@, a) && a
                    != addr),
            final(self).current_dir == old(self).current_dir,
            final(self).original_dir == old(self).original_dir,
            final(self).dir_selected == old(self).dir_selected,
            final(self).dir_entries == old(self).dir_entries,
            final(self).show_lines == old(self).show_lines,
            final(self).cur_asm == old(self).cur_asm,
            final(self).help_toggle == old(self).help_toggle,
    {
        let ghost s0 = self.selected_asm@;
        let mut idx: usize = 0;
        while idx < self.selected_asm.len()
            invariant
                self.wf(),
                self.selected_asm@ == s0,
                s0 == old(self).selected_asm@,
                idx <= s0.len(),
                forall|k: int| 0 <= k < idx ==> (#[trigger] s0[k]).0 != addr,
                self.current_dir == old(self).current_dir,
                self.original_dir == old(self).original_dir,
                self.dir_selected == old(self).dir_selected,
                self.dir_entries == old(self).dir_entries,
                self.show_lines == old(self).show_lines,
                self.cur_asm == old(self).cur_asm,
                self.help_toggle == old(self).help_toggle,
            decreases s0.len() - idx,
        {
            if self.selected_asm[idx].0 == addr {
                let _ = self.selected_asm.remove(idx);
                proof {
                    let i = idx as int;
                    assert(self.selected_asm@ =~= s0.take(i) + s0.skip(i + 1));
                    assert forall|a: u64|
                        #![trigger sa_has(self.selected_asm@, a)]
                        sa_has(self.selected_asm@, a) <==> (sa_has(s0, a) && a != addr) by {
                        if sa_has(self.selected_asm@, a) {
                            let j = choose|j: int|
                                0 <= j < self.selected_asm@.len() && (
                                #[trigger] self.selected_asm@[j]).0 == a;
                            if j < i {
                                assert(s0[j].0 == a);
                                if a == addr {
                                    assert(s0[j].0 < s0[i].0);
                                }
                            } else {
                                assert(s0[j + 1].0 == a);
                                if a == addr {
                                    assert(s0[i].0 < s0[j + 1].0);
                                }
                            }
                        }
                        if sa_has(s0, a) && a != addr {
                            let j = choose|j: int| 0 <= j < s0.len() && (#[trigger] s0[j]).0 == a;
                            assert(j != i);
                            if j < i {
                                assert(self.selected_asm@[j].0 == a);
                            } else {
                                assert(self.selected_asm@[j - 1].0 == a);
                            }
                        }
                    }
                    assert forall|a: int, b: int|
                        0 <= a < b < self.selected_asm@.len() implies (
                    #[trigger] self.selected_asm@[a]).0 < (#[trigger] self.selected_asm@[b]).0 by {
                        if a < i && b >= i {
                            assert(self.selected_asm@[a] == s0[a]);
                            assert(self.selected_asm@[b] == s0[b + 1]);
                        } else if a >= i {
                            assert(self.selected_asm@[a] == s0[a + 1]);
                            assert(self.selected_asm@[b] == s0[b + 1]);
                        } else {
                            assert(self.selected_asm@[a] == s0[a]);
                            assert(self.selected_asm@[b] == s0[b]);
                        }
                    }
                }
                return ;
            }
            idx += 1;
        }
        proof {
            assert(forall|k: int| 0 <= k < s0.len() ==> (#[trigger] s0[k]).0 != addr);
        }
    }

    /// Move the assembly cursor to the greatest selected address below
    /// it; with none below, the cursor stays.
    pub fn asm_up(&mut self)
        requires
            old(self).wf(),
        ensures
            final(self).wf(),
            final(self).selected_asm == old(self).selected_asm,
            final(self).current_dir == old(self).current_dir,
            final(self).original_dir == old(self).original_dir,
            final(self).dir_entries == old(self).dir_entries,
            final(self).dir_selected == old(self).dir_selected,
            final(self).show_lines == old(self).show_lines,
            final(self).help_toggle == old(self).help_toggle,
            sa_has_below(old(self).selected_asm@, old(self).cur_asm) ==> {
                &&& final(self).cur_asm < old(self).cur_asm
                &&& (exists|j: int|
                    0 <= j < old(self).selected_asm@.len() && (#[trigger] old(
                        self,
                    ).selected_asm@[j]).0 == final(self).cur_asm)
                &&& forall|j: int|
                    0 <= j < old(self).selected_asm@.len() && (#[trigger] old(
                        self,
                    ).selected_asm@[j]).0 < old(self).cur_asm ==> old(self).selected_asm@[j].0
                        <= final(self).cur_asm
            },
            !sa_has_below(old(self).selected_asm@, old(self).cur_asm) ==> final(self).cur_asm
                == old(self).cur_asm,
    {
        let n = self.selected_asm.len();
        let mut best: Option<u64> = None;
        let mut i: usize = 0;
        while i < n
            invariant
                self.wf(),
                *self == *old(self),
                n == self.selected_asm@.len(),
                i <= n,
                best matches Some(b) ==> b < self.cur_asm && (exists|j: int|
                    0 <= j < n && (#[trigger] self.selected_asm@[j]).0 == b),
                best matches Some(b) ==> forall|j: int|
                    0 <= j < i && (#[trigger] self.selected_asm@[j]).0 < self.cur_asm
                        ==> self.selected_asm@[j].0 <= b,
                best is None ==> forall|j: int|
                    0 <= j < i ==> !((#[trigger] self.selected_asm@[j]).0 < self.cur_asm),
            decreases n - i,
        {
            let k = self.selected_asm[i].0;
            if k < self.cur_asm {
                proof {
                    assert(self.selected_asm@[i as int].0 == k);
                }
                best = Some(k);
            }
            i += 1;
        }
        match best {
            Some(b) => {
                self.cur_asm = b;
            },
            None => {},
        }
    }

    /// Move the assembly cursor to the least selected address above
    /// it; with none above, the cursor stays.
    pub fn asm_down(&mut self)
        requires
            old(self).wf(),
        ensures
            final(self).wf(),
            final(self).selected_asm == old(self).selected_asm,
            final(self).current_dir == old(self).current_dir,
            final(self).original_dir == old(self).original_dir,
            final(self).dir_entries == old(self).dir_entries,
            final(self).dir_selected == old(self).dir_selected,
            final(self).show_lines == old(self).show_lines,
            final(self).help_toggle == old(self).help_toggle,
            sa_has_above(old(self).selected_asm@, old(self).cur_asm) ==> {
                &&& final(self).cur_asm > old(self).cur_asm
                &&& (exists|j: int|
                    0 <= j < old(self).selected_asm@.len() && (#[trigger] old(
                        self,
                    ).selected_asm@[j]).0 == final(self).cur_asm)
                &&& forall|j: int|
                    0 <= j < old(self).selected_asm@.len() && (#[trigger] old(
                        self,
                    ).selected_asm@[j]).0 > old(self).cur_asm ==> old(self).selected_asm@[j].0
                        >= final(self).cur_asm
            },
            !sa_has_above(old(self).selected_asm@, old(self).cur_asm) ==> final(self).cur_asm
                == old(self).cur_asm,
    {
        let n = self.selected_asm.len();
        let mut best: Option<u64> = None;
        let mut i: usize = 0;
        while i < n
            invariant
                self.wf(),
                *self == *old(self),
                n == self.selected_asm@.len(),
                i <= n,
                best matches Some(b) ==> b > self.cur_asm && (exists|j: int|
                    0 <= j < n && (#[trigger] self.selected_asm@[j]).0 == b),
                best matches Some(b) ==> forall|j: int|
                    0 <= j < i && (#[trigger] self.selected_asm@[j]).0 > self.cur_asm
                        ==> self.selected_asm@[j].0 >= b,
                best is None ==> forall|j: int|
                    0 <= j < i ==> !((#[trigger] self.selected_asm@[j]).0 > self.cur_asm),
            decreases n - i,
        {
            let k = self.selected_asm[i].0;
            if k > self.cur_asm {
                proof {
                    assert(self.selected_asm@[i as int].0 == k);
                }
                match best {
                    Some(b) => {
                        if k < b {
                            best = Some(k);
                        } else {
                            best = Some(b);
                        }
                    },
                    None => {
                        best = Some(k);
                    },
                }
            }
            i += 1;
        }
        match best {
            Some(b) => {
                self.cur_asm = b;
            },
            None => {},
        }
    }

    /// The selected entries from the assembly cursor onward, in
    /// ascending address order.
    pub fn cur_asm_range(&self) -> (r: &[(u64, (InstructionDetail, String))])
        requires
            self.wf(),
        ensures
            forall|k: int| 0 <= k < r@.len() ==> (#[trigger] r@[k]).0 >= self.cur_asm,
    {
        let n = self.selected_asm.len();
        let mut idx: usize = 0;
        while idx < n && self.selected_asm[idx].0 < self.cur_asm
            invariant
                self.wf(),
                n == self.selected_asm@.len(),
                idx <= n,
                forall|k: int| 0 <= k < idx ==> (#[trigger] self.selected_asm@[k]).0
                    < self.cur_asm,
            decreases n - idx,
        {
            idx += 1;
        }
        proof {
            assert forall|k: int|
                0 <= k < self.selected_asm@.len() - idx implies (#[trigger] self.selected_asm@.subrange(
                idx as int,
                self.selected_asm@.len() as int,
            )[k]).0 >= self.cur_asm by {
                assert(self.selected_asm@.subrange(idx as int, self.selected_asm@.len() as int)[k]
                    == self.selected_asm@[idx + k]);
                if idx + k >= idx && !(self.selected_asm@[idx as int].0 < self.cur_asm) {
                    if k > 0 {
                        assert(self.selected_asm@[idx as int].0 < self.selected_asm@[idx + k].0);
                    }
                }
            }
        }
        &self.selected_asm.as_slice()[idx..n]
    }
}

/// Refresh the directory listing with freshly read entries.
pub fn load_dir(state: &mut GlobalState, entries: Vec<String>)
    requires
        old(state).wf(),
    ensures
        final(state).wf(),
        final(state).dir_entries == entries,
        final(state).current_dir == old(state).current_dir,
        final(state).original_dir == old(state).original_dir,
        final(state).selected_asm == old(state).selected_asm,
{
    state.dir_entries = entries;
}

} // verus!

verus! {

/// The directory screen's reaction to one input event: releases are
/// ignored; `q` leaves; `h` opens the help; up, down and the scroll
/// wheel move the cursor with wrap-around; `w` and `s` move the
/// assembly cursor; enter asks to open the selected entry; escape
/// steps back towards the starting directory and asks for a reload.
pub fn handle_directory_input(state: &mut GlobalState, event: &InputEvent) -> (r: DirResult)
    requires
        old(state).wf(),
    ensures
        final(state).wf(),
        final(state).original_dir == old(state).original_dir,
        r == DirResult::Exit <==> *event == InputEvent::Key(KeyInput::Char('q'), false),
        *event == InputEvent::Key(KeyInput::Char('h'), false) ==> final(state).help_toggle,
        (*event == InputEvent::Key(KeyInput::Down, false) || *event == InputEvent::MouseScrollDown)
            ==> final(state).dir_selected == sel_next(
            old(state).dir_selected,
            old(state).dir_entries@.len(),
        ),
        (*event == InputEvent::Key(KeyInput::Up, false) || *event == InputEvent::MouseScrollUp)
            ==> final(state).dir_selected == sel_prev(
            old(state).dir_selected,
            old(state).dir_entries@.len(),
        ),
        r matches DirResult::Open(i) ==> old(state).dir_selected == Some(i) && i < old(
            state,
        ).dir_entries@.len(),
{
    match event {
        InputEvent::Key(code, released) => {
            if *released {
                // key releases are ignored
                return DirResult::KeepGoing;
            }
            match code {
                KeyInput::Char(c) => {
                    if *c == 'q' {
                        return DirResult::Exit;
                    } else if *c == 'h' {
                        state.help_toggle = true;
                    } else if *c == 'w' {
                        state.asm_up();
                    } else if *c == 's' {
                        state.asm_down();
                    }
                    DirResult::KeepGoing
                },
                KeyInput::Down => {
                    state.select_next();
                    DirResult::KeepGoing
                },
                KeyInput::Up => {
                    state.select_prev();
                    DirResult::KeepGoing
                },
                KeyInput::Enter => {
                    match state.dir_selected {
                        Some(i) => {
                            if i < state.dir_entries.len() {
                                return DirResult::Open(i);
                            }
                            DirResult::KeepGoing
                        },
                        None => DirResult::KeepGoing,
                    }
                },
                KeyInput::Esc => {
                    if !(state.current_dir == state.original_dir) {
                        state.dir_selected = Some(0);
                        return DirResult::Reload;
                    }
                    DirResult::KeepGoing
                },
                KeyInput::Other => DirResult::KeepGoing,
            }
        },
        InputEvent::MouseScrollDown => {
            state.select_next();
            DirResult::KeepGoing
        },
        InputEvent::MouseScrollUp => {
            state.select_prev();
            DirResult::KeepGoing
        },
        InputEvent::Other => DirResult::KeepGoing,
    }
}

impl GlobalState {
    /// Move the directory cursor one entry down, wrapping.
    fn select_next(&mut self)
        requires
            old(self).wf(),
        ensures
            final(self).wf(),
            *final(self) == (GlobalState {
                dir_selected: sel_next(old(self).dir_selected, old(self).dir_entries@.len()),
                ..*old(self)
            }),
    {
        let len = self.dir_entries.len();
        if len > 0 {
            self.dir_selected = match self.dir_selected {
                Some(i) => {
                    let next = ((i % len) + 1) % len;
                    proof {
                        if len == 1 {
                            assert(next == (i as int + 1) % (len as int));
                        } else {
                            vstd::arithmetic::div_mod::lemma_add_mod_noop(
                                i as int,
                                1,
                                len as int,
                            );
                            vstd::arithmetic::div_mod::lemma_small_mod(1nat, len as nat);
                            assert(next == (i as int + 1) % (len as int));
                        }
                    }
                    Some(next)
                },
                None => Some(0),
            };
        }
    }

    /// Move the directory cursor one entry up, wrapping.
    fn select_prev(&mut self)
        requires
            old(self).wf(),
        ensures
            final(self).wf(),
            *final(self) == (GlobalState {
                dir_selected: sel_prev(old(self).dir_selected, old(self).dir_entries@.len()),
                ..*old(self)
            }),
    {
        let len = self.dir_entries.len();
        if len > 0 {
            self.dir_selected = match self.dir_selected {
                Some(i) => if i == 0 {
                    Some(len - 1)
                } else {
                    Some(i - 1)
                },
                None => Some(0),
            };
        }
    }
}

/// The file screen's reaction to one input event: releases are
/// ignored; with the help open, `h` closes it and `q` leaves; `q`
/// leaves; `h` opens the help; `w` and `s` move the assembly cursor;
/// up, down and the scroll wheel move the line cursor, dragging the
/// scroll window along; enter toggles the selection of the line under
/// the cursor and adds its instructions to, or removes them from, the
/// selected-assembly map; `l` toggles line numbers; escape goes back
/// to the directory.
pub fn handle_file_input(
    state: &mut FileState,
    global: &mut GlobalState,
    code_file: &CodeFile,
    obj_path: &String,
    event: &InputEvent,
) -> (r: FileResult)
    requires
        old(global).wf(),
        code_file.wf(),
    ensures
        final(global).wf(),
        final(state).file_path == old(state).file_path,
        final(state).file_content@.len() == old(state).file_content@.len(),
        old(global).help_toggle ==> (r == FileResult::Exit <==> *event == InputEvent::Key(
            KeyInput::Char('q'),
            false,
        )),
        r == FileResult::Dir ==> *event == InputEvent::Key(KeyInput::Esc, false),
{
    match event {
        InputEvent::Key(code, released) => {
            if *released {
                // key releases are ignored
                return FileResult::KeepGoing;
            }
            if global.help_toggle {
                if *code == KeyInput::Char('h') {
                    global.help_toggle = false;
                } else if *code == KeyInput::Char('q') {
                    return FileResult::Exit;
                }
                return FileResult::KeepGoing;
            }
            match code {
                KeyInput::Char(c) => {
                    if *c == 'q' {
                        return FileResult::Exit;
                    } else if *c == 'h' {
                        global.help_toggle = true;
                    } else if *c == 'w' {
                        global.asm_up();
                    } else if *c == 's' {
                        global.asm_down();
                    } else if *c == 'l' {
                        global.show_lines = !global.show_lines;
                    }
                    FileResult::KeepGoing
                },
                KeyInput::Up => {
                    cursor_up(state);
                    FileResult::KeepGoing
                },
                KeyInput::Down => {
                    cursor_down(state);
                    FileResult::KeepGoing
                },
                KeyInput::Enter => {
                    toggle_selected(state, global, code_file, obj_path);
                    FileResult::KeepGoing
                },
                KeyInput::Esc => FileResult::Dir,
                KeyInput::Other => FileResult::KeepGoing,
            }
        },
        InputEvent::MouseScrollDown => {
            cursor_down(state);
            FileResult::KeepGoing
        },
        InputEvent::MouseScrollUp => {
            cursor_up(state);
            FileResult::KeepGoing
        },
        InputEvent::Other => FileResult::KeepGoing,
    }
}

/// Move the line cursor up one line, scrolling the window up when the
/// cursor would leave it.
fn cursor_up(state: &mut FileState)
    ensures
        final(state).file_path == old(state).file_path,
        final(state).file_content == old(state).file_content,
        old(state).cursor > 0 ==> final(state).cursor == old(state).cursor - 1,
        old(state).cursor == 0 ==> final(state).cursor == 0 && final(state).file_scroll == old(
            state,
        ).file_scroll,
{
    if state.cursor > 0 {
        state.cursor = state.cursor - 1;
        if state.cursor < state.file_scroll {
            state.file_scroll = state.cursor;
        }
    }
}

/// Move the line cursor down one line, scrolling the window down when
/// the cursor would leave it.
fn cursor_down(state: &mut FileState)
    ensures
        final(state).file_path == old(state).file_path,
        final(state).file_content == old(state).file_content,
        old(state).cursor + 1 < old(state).file_content@.len() ==> final(state).cursor == old(
            state,
        ).cursor + 1,
{
    let len = state.file_content.len();
    if len > 0 && state.cursor < len - 1 {
        state.cursor = state.cursor + 1;
        let max_visible = if len > 0 {
            len - 1
        } else {
            0
        };
        if max_visible > 0 && state.cursor >= max_visible && state.file_scroll <= state.cursor
            - max_visible {
            state.file_scroll = state.cursor - max_visible + 1;
        }
    }
}

/// Toggle the selection of the line under the cursor: a newly selected
/// line's instructions join the selected-assembly map under the line's
/// text, a deselected line's leave it.
fn toggle_selected(
    state: &mut FileState,
    global: &mut GlobalState,
    code_file: &CodeFile,
    obj_path: &String,
)
    requires
        old(global).wf(),
        code_file.wf(),
    ensures
        final(global).wf(),
        final(state).file_path == old(state).file_path,
        final(state).file_content@.len() == old(state).file_content@.len(),
        final(state).cursor == old(state).cursor,
        final(state).file_scroll == old(state).file_scroll,
{
    let cursor = state.cursor;
    if cursor >= state.file_content.len() {
        return ;
    }
    let mut line = state.file_content.remove(cursor);
    line.is_selected = !line.is_selected;
    if line.line_number <= u32::MAX as usize {
        let selected = line.is_selected;
        let content = line.content.clone();
        let info_owned: Option<Vec<InstructionDetail>> = {
            let info = line.load_debug(code_file, obj_path);
            match info {
                Some(v) => Some(copy_insns(v)),
                None => None,
            }
        };
        match &info_owned {
            Some(v) => {
                if selected {
                    global.add_asm_line(Some(v), &content);
                } else {
                    global.remove_asm_line(Some(v));
                }
            },
            None => {},
        }
    }
    state.file_content.insert(cursor, line);
}

} // verus!
