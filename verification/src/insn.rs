//! One decoded machine instruction, and the shape every decoded
//! instruction vector has: it starts at the section's base address, its
//! records are contiguous, and every record stays inside the section.

use vstd::prelude::*;

verus! {

/// One decoded instruction: its address, its byte length, and the
/// decoder's rendering of mnemonic and operands. The serial number is
/// assigned only when a merged vector is renumbered.
#[derive(Debug, PartialEq)]
pub struct InstructionDetail {
    pub serial_number: Option<usize>,
    pub address: u64,
    pub mnemonic: String,
    pub op_str: String,
    pub size: usize,
}

impl Clone for InstructionDetail {
    /// A clone carries the same fields as the original.
    fn clone(&self) -> (r: Self)
        ensures
            r == *self,
    {
        InstructionDetail {
            serial_number: self.serial_number,
            address: self.address,
            mnemonic: self.mnemonic.clone(),
            op_str: self.op_str.clone(),
            size: self.size,
        }
    }
}

impl InstructionDetail {
    /// The first address after this instruction.
    pub fn get_end(&self) -> (r: u64)
        requires
            self.address + self.size <= u64::MAX,
        ensures
            r == self.address + self.size,
    {
        self.address + self.size as u64
    }
}

/// Two instructions that differ at most in their serial numbers.
pub open spec fn eq_mod_serial(a: InstructionDetail, b: InstructionDetail) -> bool {
    &&& a.address == b.address
    &&& a.mnemonic@ == b.mnemonic@
    &&& a.op_str@ == b.op_str@
    &&& a.size == b.size
}

/// Two instruction sequences that differ at most in serial numbers.
pub open spec fn seq_eq_mod_serial(a: Seq<InstructionDetail>, b: Seq<InstructionDetail>) -> bool {
    &&& a.len() == b.len()
    &&& forall|k: int| 0 <= k < a.len() ==> eq_mod_serial(#[trigger] a[k], b[k])
}

/// The shape of a decoded vector for `len` bytes at address `base`:
/// empty input decodes to nothing, the first record sits at `base`,
/// each record is at least one byte long and ends inside the input,
/// each record begins where the previous one ended, and no record
/// carries a serial number yet.
pub open spec fn wf_decode(s: Seq<InstructionDetail>, base: int, len: int) -> bool {
    &&& len == 0 ==> s.len() == 0
    &&& s.len() > 0 ==> s[0].address == base
    &&& forall|k: int| 0 <= k < s.len() ==> 1 <= #[trigger] s[k].size
    &&& forall|k: int| 0 <= k < s.len() ==> (#[trigger] s[k].address) + s[k].size <= base + len
    &&& forall|k: int|
        0 <= k && k + 1 < s.len() ==> (#[trigger] s[k + 1].address) == s[k].address + s[k].size
    &&& forall|k: int| 0 <= k < s.len() ==> (#[trigger] s[k].serial_number) is None
}

/// In a well-shaped decoded vector, each address is at least `base`
/// plus the index, so addresses are strictly increasing.
pub proof fn lemma_wf_decode_addresses(s: Seq<InstructionDetail>, base: int, len: int)
    requires
        wf_decode(s, base, len),
    ensures
        forall|k: int| 0 <= k < s.len() ==> base + k <= (#[trigger] s[k].address),
        forall|i: int, j: int|
            0 <= i < j < s.len() ==> (#[trigger] s[i].address) < (#[trigger] s[j].address),
    decreases s.len(),
{
    if s.len() > 0 {
        let t = s.drop_first();
        if t.len() > 0 {
            assert(t[0].address == s[1].address);
            assert(wf_decode(t, s[1].address as int, base + len - s[1].address)) by {
                assert forall|k: int| 0 <= k && k + 1 < t.len() implies (#[trigger] t[k
                    + 1].address) == t[k].address + t[k].size by {
                    assert(t[k + 1] == s[k + 2]);
                    assert(t[k] == s[k + 1]);
                }
            }
            lemma_wf_decode_addresses(t, s[1].address as int, base + len - s[1].address);
            assert forall|k: int| 0 <= k < s.len() implies base + k <= (#[trigger] s[k].address) by {
                if k > 0 {
                    assert(t[k - 1] == s[k]);
                    assert(s[1].address + (k - 1) <= s[k].address);
                    assert(base + 1 <= s[1].address);
                }
            }
            assert forall|i: int, j: int| 0 <= i < j < s.len() implies (#[trigger] s[i].address) < (
            #[trigger] s[j].address) by {
                if i > 0 {
                    assert(t[i - 1] == s[i]);
                    assert(t[j - 1] == s[j]);
                } else {
                    assert(t[j - 1] == s[j]);
                    assert(s[1].address + (j - 1) <= s[j].address);
                }
            }
        }
    }
}

/// The whole of the universal bound on a decoded vector: every record
/// lies inside `[base, base + len)`, is at least one byte long, and
/// ends at or before the next record begins — the records are strictly
/// ordered by address and never overlap.
pub open spec fn wf_section_asm(s: Seq<InstructionDetail>, base: int, len: int) -> bool {
    &&& forall|k: int| 0 <= k < s.len() ==> base <= (#[trigger] s[k].address)
    &&& forall|k: int| 0 <= k < s.len() ==> (#[trigger] s[k].address) + s[k].size <= base + len
    &&& forall|k: int| 0 <= k < s.len() ==> 1 <= (#[trigger] s[k].size)
    &&& forall|k: int|
        0 <= k && k + 1 < s.len() ==> (#[trigger] s[k].address) + s[k].size <= s[k + 1].address
    &&& forall|i: int, j: int|
        0 <= i < j < s.len() ==> (#[trigger] s[i].address) < (#[trigger] s[j].address)
}

/// A well-bounded vector over an empty range holds nothing.
pub proof fn lemma_wf_section_asm_empty(s: Seq<InstructionDetail>, base: int)
    requires
        wf_section_asm(s, base, 0),
    ensures
        s.len() == 0,
{
    if s.len() > 0 {
        assert(base <= s[0].address);
        assert(s[0].address + s[0].size <= base);
        assert(1 <= s[0].size);
    }
}

/// Every vector of the decoded shape meets the universal bound: all its
/// records lie in `[base, base + len)` and are strictly ordered by
/// address.
pub proof fn lemma_wf_decode_section_asm(s: Seq<InstructionDetail>, base: int, len: int)
    requires
        wf_decode(s, base, len),
    ensures
        wf_section_asm(s, base, len),
{
    lemma_wf_decode_addresses(s, base, len);
}

} // verus!
