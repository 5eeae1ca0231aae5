//! The disassembler: one decoder per architecture, a sequential
//! strategy that decodes a whole section, and a region-split strategy
//! that decodes DWARF-delimited regions separately and merges them in
//! address order.

use vstd::prelude::*;
use crate::arch::ArchKind;
use crate::errors::{ErrorKind, WrapedError};
use crate::insn::{wf_decode, wf_section_asm, InstructionDetail};
use crate::insn::{lemma_wf_decode_addresses, lemma_wf_decode_section_asm, seq_eq_mod_serial};
use capstone::prelude::BuildsCapstone;

verus! {

#[verifier::external_type_specification]
#[verifier::external_body]
pub struct ExCapstone(capstone::Capstone);

/// What the decoder configured for `arch` produces for `data` placed at
/// address `base`: skip-data decoding is deterministic in these three
/// alone.
pub uninterp spec fn decoded(arch: ArchKind, data: Seq<u8>, base: int) -> Seq<InstructionDetail>;

/// Relies on capstone::Capstone::new().x86() with Mode64, detail off.
#[verifier::external_body]
fn cs_x86_64() -> (r: Result<capstone::Capstone, WrapedError>)
    ensures
        r matches Err(e) ==> e.kind == ErrorKind::DisassemblerInit,
{
    let mut cs = capstone::Capstone::new().x86().mode(capstone::arch::x86::ArchMode::Mode64).detail(
        false,
    ).build().map_err(
        |e| WrapedError { kind: ErrorKind::DisassemblerInit, message: e.to_string() },
    )?;
    cs.set_skipdata(true).map_err(
        |e| WrapedError { kind: ErrorKind::DisassemblerInit, message: e.to_string() },
    )?;
    Ok(cs)
}

/// Relies on capstone::Capstone::new().x86() with Mode32, detail off.
#[verifier::external_body]
fn cs_x86_32() -> (r: Result<capstone::Capstone, WrapedError>)
    ensures
        r matches Err(e) ==> e.kind == ErrorKind::DisassemblerInit,
{
    let mut cs = capstone::Capstone::new().x86().mode(capstone::arch::x86::ArchMode::Mode32).detail(
        false,
    ).build().map_err(
        |e| WrapedError { kind: ErrorKind::DisassemblerInit, message: e.to_string() },
    )?;
    cs.set_skipdata(true).map_err(
        |e| WrapedError { kind: ErrorKind::DisassemblerInit, message: e.to_string() },
    )?;
    Ok(cs)
}

/// Relies on capstone::Capstone::new().arm() in ARM mode, detail off.
#[verifier::external_body]
fn cs_arm() -> (r: Result<capstone::Capstone, WrapedError>)
    ensures
        r matches Err(e) ==> e.kind == ErrorKind::DisassemblerInit,
{
    let mut cs = capstone::Capstone::new().arm().mode(capstone::arch::arm::ArchMode::Arm).detail(
        false,
    ).build().map_err(
        |e| WrapedError { kind: ErrorKind::DisassemblerInit, message: e.to_string() },
    )?;
    cs.set_skipdata(true).map_err(
        |e| WrapedError { kind: ErrorKind::DisassemblerInit, message: e.to_string() },
    )?;
    Ok(cs)
}

/// Relies on capstone::Capstone::new().arm64() in ARM mode, detail off.
#[verifier::external_body]
fn cs_aarch64() -> (r: Result<capstone::Capstone, WrapedError>)
    ensures
        r matches Err(e) ==> e.kind == ErrorKind::DisassemblerInit,
{
    let mut cs = capstone::Capstone::new().arm64().mode(
        capstone::arch::arm64::ArchMode::Arm,
    ).detail(false).build().map_err(
        |e| WrapedError { kind: ErrorKind::DisassemblerInit, message: e.to_string() },
    )?;
    cs.set_skipdata(true).map_err(
        |e| WrapedError { kind: ErrorKind::DisassemblerInit, message: e.to_string() },
    )?;
    Ok(cs)
}

/// Relies on capstone::Capstone::new().riscv() with RiscV32, detail off.
#[verifier::external_body]
fn cs_riscv32() -> (r: Result<capstone::Capstone, WrapedError>)
    ensures
        r matches Err(e) ==> e.kind == ErrorKind::DisassemblerInit,
{
    let mut cs = capstone::Capstone::new().riscv().mode(
        capstone::arch::riscv::ArchMode::RiscV32,
    ).detail(false).build().map_err(
        |e| WrapedError { kind: ErrorKind::DisassemblerInit, message: e.to_string() },
    )?;
    cs.set_skipdata(true).map_err(
        |e| WrapedError { kind: ErrorKind::DisassemblerInit, message: e.to_string() },
    )?;
    Ok(cs)
}

/// Relies on capstone::Capstone::new().riscv() with RiscV64, detail off.
#[verifier::external_body]
fn cs_riscv64() -> (r: Result<capstone::Capstone, WrapedError>)
    ensures
        r matches Err(e) ==> e.kind == ErrorKind::DisassemblerInit,
{
    let mut cs = capstone::Capstone::new().riscv().mode(
        capstone::arch::riscv::ArchMode::RiscV64,
    ).detail(false).build().map_err(
        |e| WrapedError { kind: ErrorKind::DisassemblerInit, message: e.to_string() },
    )?;
    cs.set_skipdata(true).map_err(
        |e| WrapedError { kind: ErrorKind::DisassemblerInit, message: e.to_string() },
    )?;
    Ok(cs)
}

/// Relies on capstone::Capstone::new().mips() with Mips64, detail off.
#[verifier::external_body]
fn cs_mips64() -> (r: Result<capstone::Capstone, WrapedError>)
    ensures
        r matches Err(e) ==> e.kind == ErrorKind::DisassemblerInit,
{
    let mut cs = capstone::Capstone::new().mips().mode(
        capstone::arch::mips::ArchMode::Mips64,
    ).detail(false).build().map_err(
        |e| WrapedError { kind: ErrorKind::DisassemblerInit, message: e.to_string() },
    )?;
    cs.set_skipdata(true).map_err(
        |e| WrapedError { kind: ErrorKind::DisassemblerInit, message: e.to_string() },
    )?;
    Ok(cs)
}

/// Relies on capstone::Capstone::new().ppc() with Mode32, detail off.
#[verifier::external_body]
fn cs_ppc32() -> (r: Result<capstone::Capstone, WrapedError>)
    ensures
        r matches Err(e) ==> e.kind == ErrorKind::DisassemblerInit,
{
    let mut cs = capstone::Capstone::new().ppc().mode(capstone::arch::ppc::ArchMode::Mode32).detail(
        false,
    ).build().map_err(
        |e| WrapedError { kind: ErrorKind::DisassemblerInit, message: e.to_string() },
    )?;
    cs.set_skipdata(true).map_err(
        |e| WrapedError { kind: ErrorKind::DisassemblerInit, message: e.to_string() },
    )?;
    Ok(cs)
}

/// Relies on capstone::Capstone::new().ppc() with Mode64, detail off.
#[verifier::external_body]
fn cs_ppc64() -> (r: Result<capstone::Capstone, WrapedError>)
    ensures
        r matches Err(e) ==> e.kind == ErrorKind::DisassemblerInit,
{
    let mut cs = capstone::Capstone::new().ppc().mode(capstone::arch::ppc::ArchMode::Mode64).detail(
        false,
    ).build().map_err(
        |e| WrapedError { kind: ErrorKind::DisassemblerInit, message: e.to_string() },
    )?;
    cs.set_skipdata(true).map_err(
        |e| WrapedError { kind: ErrorKind::DisassemblerInit, message: e.to_string() },
    )?;
    Ok(cs)
}

/// Relies on capstone::Capstone::new().sparc() in Default mode, detail off.
#[verifier::external_body]
fn cs_sparc() -> (r: Result<capstone::Capstone, WrapedError>)
    ensures
        r matches Err(e) ==> e.kind == ErrorKind::DisassemblerInit,
{
    let mut cs = capstone::Capstone::new().sparc().mode(
        capstone::arch::sparc::ArchMode::Default,
    ).detail(false).build().map_err(
        |e| WrapedError { kind: ErrorKind::DisassemblerInit, message: e.to_string() },
    )?;
    cs.set_skipdata(true).map_err(
        |e| WrapedError { kind: ErrorKind::DisassemblerInit, message: e.to_string() },
    )?;
    Ok(cs)
}

/// A decoder bound to the architecture it was configured for.
pub struct Decoder {
    cs: capstone::Capstone,
    arch: Ghost<ArchKind>,
}

impl Decoder {
    /// The architecture this decoder was configured for.
    pub closed spec fn spec_arch(self) -> ArchKind {
        self.arch@
    }
}

/// A decoder for the given architecture, in skip-data mode with detail
/// disabled. Fails with `UnsupportedArchitecture` exactly on the
/// unsupported tag; a decoder the engine could not build fails with
/// `DisassemblerInit`.
pub fn create_capstone(arch: &ArchKind) -> (r: Result<Decoder, WrapedError>)
    ensures
        r matches Ok(d) ==> d.spec_arch() == *arch && *arch != ArchKind::Unsupported,
        r matches Err(e) ==> (e.kind == ErrorKind::DisassemblerInit || e.kind
            == ErrorKind::UnsupportedArchitecture),
        *arch == ArchKind::Unsupported ==> (r matches Err(e) && e.kind
            == ErrorKind::UnsupportedArchitecture),
        (r matches Err(e) && e.kind == ErrorKind::UnsupportedArchitecture) ==> *arch
            == ArchKind::Unsupported,
{
    let cs = match arch {
        ArchKind::X86_64 => cs_x86_64(),
        ArchKind::I386 => cs_x86_32(),
        ArchKind::Arm => cs_arm(),
        ArchKind::Aarch64 => cs_aarch64(),
        ArchKind::Riscv32 => cs_riscv32(),
        ArchKind::Riscv64 => cs_riscv64(),
        ArchKind::Mips64 => cs_mips64(),
        ArchKind::PowerPc => cs_ppc32(),
        ArchKind::PowerPc64 => cs_ppc64(),
        ArchKind::Sparc => cs_sparc(),
        ArchKind::Unsupported => {
            return Err(
                WrapedError {
                    kind: ErrorKind::UnsupportedArchitecture,
                    message: String::new(),
                },
            );
        },
    };
    match cs {
        Ok(cs) => Ok(Decoder { cs, arch: Ghost(*arch) }),
        Err(e) => Err(e),
    }
}

impl Decoder {
    /// Relies on capstone::Capstone::disasm_all with skip-data on: it
    /// accepts any byte content — undecodable bytes become placeholder
    /// records — and decodes the buffer from its start into contiguous
    /// records, at least one byte each, never past the end of the
    /// buffer.
    #[verifier::external_body]
    pub fn decode(&self, data: &[u8], address: u64) -> (r: Result<
        Vec<InstructionDetail>,
        WrapedError,
    >)
        requires
            address + data@.len() <= u64::MAX,
        ensures
            r is Ok,
            r matches Ok(v) ==> v@ == decoded(self.spec_arch(), data@, address as int),
            r matches Ok(v) ==> wf_decode(v@, address as int, data@.len() as int),
    {
        let de = |e: capstone::Error| WrapedError { kind: ErrorKind::DisassemblyFailed, message: e.to_string() };
        let insns = self.cs.disasm_all(data, address).map_err(de)?;
        let mut out = Vec::with_capacity(insns.len());
        for i in insns.iter() {
            out.push(InstructionDetail { serial_number: None, address: i.address(), size: i.len(),
                mnemonic: i.mnemonic().unwrap_or("unknown").to_string(),
                op_str: i.op_str().unwrap_or("unknown").to_string() });
        }
        Ok(out)
    }
}

/// One decoder decodes a whole byte buffer starting at its base
/// address: the sequential strategy.
pub fn dissasm(cs: &Decoder, data: &Vec<u8>, address: u64) -> (r: Result<
    Vec<InstructionDetail>,
    WrapedError,
>)
    requires
        address + data@.len() <= u64::MAX,
    ensures
        r is Ok,
        r matches Ok(v) ==> v@ == decoded(cs.spec_arch(), data@, address as int),
        r matches Ok(v) ==> wf_decode(v@, address as int, data@.len() as int),
{
    cs.decode(data.as_slice(), address)
}

} // verus!

verus! {

/// One half-open slice `[start, end)` of a section, handed to one
/// decoding task of the region-split strategy.
#[derive(Clone, Copy, Debug, PartialEq, Eq, Structural)]
pub struct Region {
    pub start: u64,
    pub end: u64,
}

/// The regions cover `[base, end)` exactly: the first starts at `base`,
/// the last ends at `end`, each is non-empty, and each begins where the
/// one before it ended. An empty list covers only an empty range.
pub open spec fn regions_partition(rs: Seq<Region>, base: int, end: int) -> bool {
    &&& rs.len() == 0 ==> base == end
    &&& rs.len() > 0 ==> rs[0].start == base
    &&& rs.len() > 0 ==> rs[rs.len() - 1].end == end
    &&& forall|i: int| 0 <= i < rs.len() ==> (#[trigger] rs[i].start) < rs[i].end
    &&& forall|i: int| 0 <= i && i + 1 < rs.len() ==> (#[trigger] rs[i].end) == rs[i + 1].start
}

/// In a partition of `[base, end)` every region lies inside the range.
pub proof fn lemma_partition_bounds(rs: Seq<Region>, base: int, end: int)
    requires
        regions_partition(rs, base, end),
    ensures
        forall|i: int| 0 <= i < rs.len() ==> base <= (#[trigger] rs[i].start),
        forall|i: int| 0 <= i < rs.len() ==> (#[trigger] rs[i].end) <= end,
    decreases rs.len(),
{
    if rs.len() > 0 {
        let t = rs.drop_first();
        if t.len() > 0 {
            assert(regions_partition(t, rs[1].start as int, end)) by {
                assert forall|i: int| 0 <= i && i + 1 < t.len() implies (#[trigger] t[i].end)
                    == t[i + 1].start by {
                    assert(t[i] == rs[i + 1]);
                    assert(t[i + 1] == rs[i + 2]);
                }
                assert(t[t.len() - 1] == rs[rs.len() - 1]);
            }
            lemma_partition_bounds(t, rs[1].start as int, end);
            assert forall|i: int| 0 <= i < rs.len() implies base <= (#[trigger] rs[i].start) by {
                if i > 0 {
                    assert(t[i - 1] == rs[i]);
                }
            }
            assert forall|i: int| 0 <= i < rs.len() implies (#[trigger] rs[i].end) <= end by {
                if i > 0 {
                    assert(t[i - 1] == rs[i]);
                }
            }
        }
    }
}

/// The first location row at or after `p` and before `hi`: the row with
/// the smallest such start, if any row qualifies; nothing exactly when
/// no row starts in `[p, hi)`.
fn first_row_at(rows: &Vec<(u64, u64)>, p: u64, hi: u64) -> (r: Option<(u64, u64)>)
    ensures
        r matches Some(q) ==> p <= q.0 < hi && rows@.contains(q),
        r matches Some(q) ==> forall|k: int|
            0 <= k < rows@.len() && p <= (#[trigger] rows@[k]).0 < hi ==> q.0 <= rows@[k].0,
        r is None ==> forall|k: int| 0 <= k < rows@.len() ==> !(p <= (#[trigger] rows@[k]).0 < hi),
{
    let mut best: Option<(u64, u64)> = None;
    let mut i: usize = 0;
    while i < rows.len()
        invariant
            best matches Some(q) ==> p <= q.0 < hi && rows@.contains(q),
            best matches Some(q) ==> forall|k: int|
                0 <= k < i && p <= (#[trigger] rows@[k]).0 < hi ==> q.0 <= rows@[k].0,
            best is None ==> forall|k: int|
                0 <= k < i ==> !(p <= (#[trigger] rows@[k]).0 < hi),
            i <= rows@.len(),
        decreases rows@.len() - i,
    {
        let (s, n) = rows[i];
        if s >= p && s < hi {
            proof {
                assert(rows@[i as int] == (s, n));
            }
            match best {
                Some((bs, bn)) => {
                    if s < bs {
                        best = Some((s, n));
                    } else {
                        best = Some((bs, bn));
                    }
                },
                None => {
                    best = Some((s, n));
                },
            }
        }
        i += 1;
    }
    best
}

/// Region discovery of the region-split strategy: starting at `base`,
/// probe forward at stride `step`; each probe snaps to the end of the
/// next DWARF-described row, which closes a region; the last region is
/// closed at `base + len`. An empty section yields no region at all, so
/// no decoding task is ever started for one.
pub fn plan_regions(base: u64, len: u64, rows: &Vec<(u64, u64)>, step: u64) -> (r: Vec<Region>)
    requires
        1 <= step,
        base + len <= u64::MAX,
    ensures
        regions_partition(r@, base as int, base + len),
        len == 0 ==> r@.len() == 0,
        forall|i: int|
            0 <= i < r@.len() - 1 ==> exists|k: int|
                0 <= k < rows@.len() && (#[trigger] r@[i].end) == (#[trigger] rows@[k]).0
                    + rows@[k].1,
{
    let end = base + len;
    let mut out: Vec<Region> = Vec::new();
    if len == 0 {
        return out;
    }
    let mut prev: u64 = base;
    let mut p: u64 = base;
    while p < end
        invariant
            base <= prev <= p <= end,
            base + len == end,
            prev < end,
            regions_partition(out@, base as int, prev as int),
            out@.len() > 0 ==> out@[out@.len() - 1].end == prev,
            out@.len() == 0 ==> prev == base,
            forall|i: int|
                0 <= i < out@.len() ==> exists|k: int|
                    0 <= k < rows@.len() && (#[trigger] out@[i].end) == (#[trigger] rows@[k]).0
                        + rows@[k].1,
            1 <= step,
        decreases end - p,
    {
        // advance the probe by one stride, clamped to the section end
        let next_p: u64 = if end - p > step {
            p + step
        } else {
            end
        };
        let cut: Option<u64> = match first_row_at(rows, p, end) {
            Some((s, n)) => {
                if end - s > n {
                    Some(s + n)
                } else {
                    Some(end)
                }
            },
            None => None,
        };
        match cut {
            Some(c) => {
                if c > prev && c < end {
                    out.push(Region { start: prev, end: c });
                    prev = c;
                }
                p = if c > next_p {
                    c
                } else {
                    next_p
                };
            },
            None => {
                // no DWARF row remains: the final region closes at the end
                p = end;
            },
        }
    }
    out.push(Region { start: prev, end });
    out
}

/// What one region decodes to: the decoder runs on the region's bytes,
/// based at the region's start.
pub open spec fn region_decode(arch: ArchKind, data: Seq<u8>, base: int, r: Region) -> Seq<
    InstructionDetail,
> {
    decoded(arch, data.subrange(r.start - base, r.end - base), r.start as int)
}

/// The region outputs joined in region order.
pub open spec fn concat_dec(arch: ArchKind, data: Seq<u8>, base: int, rs: Seq<Region>) -> Seq<
    InstructionDetail,
>
    decreases rs.len(),
{
    if rs.len() == 0 {
        Seq::empty()
    } else {
        region_decode(arch, data, base, rs[0]) + concat_dec(arch, data, base, rs.drop_first())
    }
}

/// An instruction with its serial number set.
pub open spec fn with_serial(i: InstructionDetail, k: int) -> InstructionDetail {
    InstructionDetail { serial_number: Some(k as usize), ..i }
}

/// The sequence with serial numbers assigned densely from zero.
pub open spec fn renumber(s: Seq<InstructionDetail>) -> Seq<InstructionDetail> {
    Seq::new(s.len(), |k: int| with_serial(s[k], k))
}

/// Renumbering changes nothing but the serial numbers.
pub proof fn lemma_renumber_eq_mod_serial(s: Seq<InstructionDetail>)
    ensures
        seq_eq_mod_serial(renumber(s), s),
{
}

/// Joining one more region's output onto the front regions' outputs.
proof fn lemma_concat_dec_take(arch: ArchKind, data: Seq<u8>, base: int, rs: Seq<Region>, i: int)
    requires
        0 <= i < rs.len(),
    ensures
        concat_dec(arch, data, base, rs.take(i + 1)) == concat_dec(arch, data, base, rs.take(i))
            + region_decode(arch, data, base, rs[i]),
    decreases i,
{
    let a = rs.take(i + 1);
    let b = rs.take(i);
    if i == 0 {
        assert(a.drop_first() =~= Seq::<Region>::empty());
        assert(concat_dec(arch, data, base, b) == Seq::<InstructionDetail>::empty());
        assert(concat_dec(arch, data, base, a) == region_decode(arch, data, base, a[0])
            + concat_dec(arch, data, base, a.drop_first()));
        assert(concat_dec(arch, data, base, a) =~= concat_dec(arch, data, base, b)
            + region_decode(arch, data, base, rs[i]));
    } else {
        lemma_concat_dec_take(arch, data, base, rs.drop_first(), i - 1);
        assert(a.drop_first() =~= rs.drop_first().take(i));
        assert(b.drop_first() =~= rs.drop_first().take(i - 1));
        assert(a[0] == rs[0] && b[0] == rs[0]);
        assert(rs.drop_first()[i - 1] == rs[i]);
        assert(concat_dec(arch, data, base, a) == region_decode(arch, data, base, rs[0])
            + concat_dec(arch, data, base, rs.drop_first().take(i)));
        assert(concat_dec(arch, data, base, b) == region_decode(arch, data, base, rs[0])
            + concat_dec(arch, data, base, rs.drop_first().take(i - 1)));
        assert(concat_dec(arch, data, base, a) =~= concat_dec(arch, data, base, b)
            + region_decode(arch, data, base, rs[i]));
    }
}

/// The range the first `i` regions have covered: its one-past end.
pub open spec fn covered_to(rs: Seq<Region>, base: int, i: int) -> int {
    if i <= 0 {
        base
    } else {
        rs[i - 1].end as int
    }
}

/// Appending a region's renumbered output onto a merged prefix keeps
/// every record in range, at least one byte long, and strictly ordered.
proof fn lemma_merge_append(
    out: Seq<InstructionDetail>,
    out0: Seq<InstructionDetail>,
    done: Seq<InstructionDetail>,
    chunk: Seq<InstructionDetail>,
    address: int,
    c0: int,
    rg: Region,
)
    requires
        out == renumber(done + chunk),
        out0 == renumber(done),
        wf_decode(chunk, rg.start as int, rg.end - rg.start),
        address <= c0,
        c0 <= rg.start < rg.end,
        forall|k: int| 0 <= k < out0.len() ==> address <= (#[trigger] out0[k].address),
        forall|k: int| 0 <= k < out0.len() ==> (#[trigger] out0[k].address) + out0[k].size <= c0,
        forall|k: int| 0 <= k < out0.len() ==> 1 <= (#[trigger] out0[k].size),
        forall|k: int|
            0 <= k && k + 1 < out0.len() ==> (#[trigger] out0[k].address) + out0[k].size <= out0[k
                + 1].address,
        forall|k: int, l: int|
            0 <= k < l < out0.len() ==> (#[trigger] out0[k].address) < (#[trigger] out0[l].address),
    ensures
        forall|k: int| 0 <= k < out.len() ==> address <= (#[trigger] out[k].address),
        forall|k: int| 0 <= k < out.len() ==> (#[trigger] out[k].address) + out[k].size <= rg.end
            as int,
        forall|k: int| 0 <= k < out.len() ==> 1 <= (#[trigger] out[k].size),
        forall|k: int|
            0 <= k && k + 1 < out.len() ==> (#[trigger] out[k].address) + out[k].size <= out[k
                + 1].address,
        forall|k: int, l: int|
            0 <= k < l < out.len() ==> (#[trigger] out[k].address) < (#[trigger] out[l].address),
{
    let w = done + chunk;
    lemma_wf_decode_addresses(chunk, rg.start as int, rg.end - rg.start);
    assert forall|k: int| 0 <= k < out.len() implies address <= (#[trigger] out[k].address) && out[k].address
        + out[k].size <= rg.end as int && 1 <= out[k].size by {
        assert(out[k] == with_serial(w[k], k));
        if k < done.len() {
            assert(out0[k] == with_serial(done[k], k));
            assert(w[k] == done[k]);
            assert(address <= out0[k].address);
            assert(out0[k].address + out0[k].size <= c0);
            assert(1 <= out0[k].size);
        } else {
            assert(w[k] == chunk[k - done.len()]);
            assert(rg.start + (k - done.len()) <= chunk[k - done.len()].address);
            assert(chunk[k - done.len()].address + chunk[k - done.len()].size <= rg.start + (rg.end
                - rg.start));
            assert(1 <= chunk[k - done.len()].size);
        }
    }
    assert forall|k: int| 0 <= k < out.len() implies 1 <= (#[trigger] out[k].size) by {
        assert(address <= out[k].address);
    }
    assert forall|k: int|
        0 <= k && k + 1 < out.len() implies (#[trigger] out[k].address) + out[k].size <= out[k
        + 1].address by {
        assert(out[k] == with_serial(w[k], k));
        assert(out[k + 1] == with_serial(w[k + 1], k + 1));
        if k + 1 < done.len() {
            assert(out0[k] == with_serial(done[k], k));
            assert(out0[k + 1] == with_serial(done[k + 1], k + 1));
            assert(out0[k].address + out0[k].size <= out0[k + 1].address);
        } else if k < done.len() {
            assert(out0[k] == with_serial(done[k], k));
            assert(out0[k].address + out0[k].size <= c0);
            assert(w[k + 1] == chunk[0]);
            assert(chunk[0].address == rg.start);
        } else {
            let kk = k - done.len();
            assert(w[k] == chunk[kk]);
            assert(w[k + 1] == chunk[kk + 1]);
            assert(chunk[kk + 1].address == chunk[kk].address + chunk[kk].size);
        }
    }
    assert forall|k: int, l: int| 0 <= k < l < out.len() implies (#[trigger] out[k].address) < (
    #[trigger] out[l].address) by {
        assert(out[k] == with_serial(w[k], k));
        assert(out[l] == with_serial(w[l], l));
        if l < done.len() {
            assert(out0[k] == with_serial(done[k], k));
            assert(out0[l] == with_serial(done[l], l));
            assert(out0[k].address < out0[l].address);
        } else if k < done.len() {
            assert(out0[k] == with_serial(done[k], k));
            assert(1 <= out0[k].size);
            assert(out0[k].address + out0[k].size <= c0);
            assert(w[l] == chunk[l - done.len()]);
            assert(rg.start + (l - done.len()) <= chunk[l - done.len()].address);
        } else {
            assert(w[k] == chunk[k - done.len()]);
            assert(w[l] == chunk[l - done.len()]);
            assert(chunk[k - done.len()].address < chunk[l - done.len()].address);
        }
    }
}

/// The region-split strategy: decode every region separately, join the
/// outputs in region order, and assign serial numbers densely from
/// zero. The regions must partition the section.
#[verifier::rlimit(60)]
pub fn disasm_parallel(
    cs: &Decoder,
    data: &Vec<u8>,
    address: u64,
    regions: &Vec<Region>,
) -> (r: Result<Vec<InstructionDetail>, WrapedError>)
    requires
        regions_partition(regions@, address as int, address + data@.len()),
        address + data@.len() <= u64::MAX,
    ensures
        r is Ok,
        r matches Ok(v) ==> v@ == renumber(
            concat_dec(cs.spec_arch(), data@, address as int, regions@),
        ),
        r matches Ok(v) ==> wf_section_asm(v@, address as int, data@.len() as int),
{
    let ghost arch = cs.spec_arch();
    let ghost all = regions@;
    let end = address + data.len() as u64;
    proof {
        lemma_partition_bounds(all, address as int, address + data@.len());
    }
    let mut out: Vec<InstructionDetail> = Vec::new();
    let mut i: usize = 0;
    while i < regions.len()
        invariant
            i <= all.len(),
            all == regions@,
            arch == cs.spec_arch(),
            regions_partition(all, address as int, address + data@.len()),
            address + data@.len() <= u64::MAX,
            forall|k: int| 0 <= k < all.len() ==> address <= (#[trigger] all[k].start),
            forall|k: int| 0 <= k < all.len() ==> (#[trigger] all[k].end) <= address
                + data@.len(),
            out@ == renumber(concat_dec(arch, data@, address as int, all.take(i as int))),
            covered_to(all, address as int, i as int) <= address + data@.len(),
            address <= covered_to(all, address as int, i as int),
            forall|k: int| 0 <= k < out@.len() ==> address <= (#[trigger] out@[k].address),
            forall|k: int| 0 <= k < out@.len() ==> (#[trigger] out@[k].address) + out@[k].size
                <= covered_to(all, address as int, i as int),
            forall|k: int| 0 <= k < out@.len() ==> 1 <= (#[trigger] out@[k].size),
            forall|k: int|
                0 <= k && k + 1 < out@.len() ==> (#[trigger] out@[k].address) + out@[k].size
                    <= out@[k + 1].address,
            forall|k: int, l: int|
                0 <= k < l < out@.len() ==> (#[trigger] out@[k].address) < (
                #[trigger] out@[l].address),
        decreases all.len() - i,
    {
        let reg = regions[i];
        let dlen: usize = data.len();
        proof {
            assert(address <= all[i as int].start);
            assert(all[i as int].start < all[i as int].end);
            assert(all[i as int].end <= address + data@.len());
            assert(reg.end - address <= dlen);
        }
        let lo = (reg.start - address) as usize;
        let hi = (reg.end - address) as usize;
        proof {
            assert(lo == reg.start - address);
            assert(hi == reg.end - address);
        }
        let chunk = match cs.decode(&data.as_slice()[lo..hi], reg.start) {
            Ok(c) => c,
            Err(e) => {
                return Err(e);
            },
        };
        assert(chunk@ == region_decode(arch, data@, address as int, all[i as int]));
        let ghost done = concat_dec(arch, data@, address as int, all.take(i as int));
        let ghost out0 = out@;
        proof {
            assert(covered_to(all, address as int, i as int) <= all[i as int].start) by {
                if i > 0 {
                    assert(all[i as int - 1].end == all[i as int].start);
                }
            }
            lemma_wf_decode_addresses(chunk@, reg.start as int, reg.end - reg.start);
        }
        let mut j: usize = 0;
        while j < chunk.len()
            invariant
                j <= chunk@.len(),
                out@ == renumber(done + chunk@.take(j as int)),
            decreases chunk@.len() - j,
        {
            let mut ins = chunk[j].clone();
            ins.serial_number = Some(out.len());
            proof {
                assert(out@.len() == done.len() + j);
                assert(ins == with_serial(chunk@[j as int], done.len() + j));
            }
            out.push(ins);
            proof {
                let w = done + chunk@.take(j + 1);
                assert(w.len() == done.len() + j + 1);
                assert forall|k: int| 0 <= k < w.len() implies out@[k] == renumber(w)[k] by {
                    if k < done.len() + j {
                        assert(out@[k] == renumber(done + chunk@.take(j as int))[k]);
                        assert((done + chunk@.take(j as int))[k] == w[k]);
                    } else {
                        assert(w[k] == chunk@[j as int]);
                    }
                }
                assert(out@ =~= renumber(w));
            }
            j += 1;
        }
        proof {
            assert(chunk@.take(chunk@.len() as int) =~= chunk@);
            lemma_concat_dec_take(arch, data@, address as int, all, i as int);
            assert(done + chunk@ == concat_dec(arch, data@, address as int, all.take(i + 1)));
            let w = done + chunk@;
            let rg = all[i as int];
            assert(out@ == renumber(w));
            let c0 = covered_to(all, address as int, i as int);
            assert(c0 <= rg.start < rg.end);
            lemma_merge_append(out@, out0, done, chunk@, address as int, c0, rg);
        }
        i += 1;
    }
    proof {
        assert(all.take(all.len() as int) =~= all);
    }
    Ok(out)
}

/// What decoding the tail of the section from `from` onward yields.
pub open spec fn suffix_decode(arch: ArchKind, data: Seq<u8>, base: int, from: int) -> Seq<
    InstructionDetail,
> {
    decoded(arch, data.subrange(from - base, data.len() as int), from)
}

/// A region boundary is an instruction boundary: decoding the tail from
/// the region's start yields the region's own output followed by the
/// tail from the region's end.
pub open spec fn splits_at(arch: ArchKind, data: Seq<u8>, base: int, r: Region) -> bool {
    suffix_decode(arch, data, base, r.start as int) == region_decode(arch, data, base, r)
        + suffix_decode(arch, data, base, r.end as int)
}

proof fn lemma_concat_is_suffix(arch: ArchKind, data: Seq<u8>, base: int, rs: Seq<Region>)
    requires
        rs.len() > 0,
        regions_partition(rs, rs[0].start as int, base + data.len()),
        rs[0].start >= base,
        forall|i: int| 0 <= i < rs.len() - 1 ==> splits_at(arch, data, base, #[trigger] rs[i]),
    ensures
        concat_dec(arch, data, base, rs) == suffix_decode(arch, data, base, rs[0].start as int),
    decreases rs.len(),
{
    let t = rs.drop_first();
    if t.len() == 0 {
        // one region covering the whole remaining range
        assert(rs[0].end == base + data.len());
        assert(data.subrange(rs[0].start - base, rs[0].end - base) =~= data.subrange(
            rs[0].start - base,
            data.len() as int,
        ));
        assert(region_decode(arch, data, base, rs[0]) == suffix_decode(
            arch,
            data,
            base,
            rs[0].start as int,
        ));
        assert(concat_dec(arch, data, base, t) == Seq::<InstructionDetail>::empty());
        assert(concat_dec(arch, data, base, rs) =~= region_decode(arch, data, base, rs[0]));
    } else {
        assert(regions_partition(t, t[0].start as int, base + data.len())) by {
            assert forall|i: int| 0 <= i && i + 1 < t.len() implies (#[trigger] t[i].end) == t[i
                + 1].start by {
                assert(t[i] == rs[i + 1]);
                assert(t[i + 1] == rs[i + 2]);
            }
            assert(t[t.len() - 1] == rs[rs.len() - 1]);
            assert forall|i: int| 0 <= i < t.len() implies (#[trigger] t[i].start) < t[i].end by {
                assert(t[i] == rs[i + 1]);
            }
        }
        assert(t[0] == rs[1]);
        assert(rs[0].end == rs[1].start);
        assert(t[0].start >= base) by {
            lemma_partition_bounds(rs, rs[0].start as int, base + data.len());
        }
        assert(forall|i: int| 0 <= i < t.len() - 1 ==> splits_at(arch, data, base, #[trigger] t[i]))
            by {
            assert forall|i: int| 0 <= i < t.len() - 1 implies splits_at(
                arch,
                data,
                base,
                #[trigger] t[i],
            ) by {
                assert(t[i] == rs[i + 1]);
            }
        }
        lemma_concat_is_suffix(arch, data, base, t);
        assert(splits_at(arch, data, base, rs[0]));
    }
}

/// Sequential and region-split decoding agree up to serial numbers,
/// provided every internal region boundary is an instruction boundary
/// of the decoder's output for the remaining input. Inputs whose DWARF
/// rows do not delimit instruction boundaries give no such promise, and
/// the builder must fall back to the sequential strategy for them.
pub proof fn lemma_parallel_matches_sequential(
    arch: ArchKind,
    data: Seq<u8>,
    base: int,
    rs: Seq<Region>,
)
    requires
        rs.len() > 0,
        regions_partition(rs, base, base + data.len()),
        forall|i: int| 0 <= i < rs.len() - 1 ==> splits_at(arch, data, base, #[trigger] rs[i]),
    ensures
        seq_eq_mod_serial(
            renumber(concat_dec(arch, data, base, rs)),
            decoded(arch, data, base),
        ),
{
    lemma_concat_is_suffix(arch, data, base, rs);
    assert(data.subrange(0, data.len() as int) =~= data);
    assert(suffix_decode(arch, data, base, base) == decoded(arch, data, base));
    lemma_renumber_eq_mod_serial(concat_dec(arch, data, base, rs));
}

} // verus!

verus! {

/// Law: an empty section has no region at all — region discovery hands
/// nothing to any decoding task — and the region-split strategy's
/// output for it is empty.
pub proof fn lemma_empty_section_no_regions(
    arch: ArchKind,
    data: Seq<u8>,
    base: int,
    rs: Seq<Region>,
)
    requires
        data.len() == 0,
        regions_partition(rs, base, base + data.len()),
    ensures
        rs.len() == 0,
        renumber(concat_dec(arch, data, base, rs)) =~= Seq::<InstructionDetail>::empty(),
{
    if rs.len() > 0 {
        lemma_partition_bounds(rs, base, base);
        assert(rs[0].start == base);
        assert(rs[0].start < rs[0].end);
        assert(rs[0].end <= base);
    }
}

} // verus!
