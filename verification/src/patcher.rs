//! The thin-slice patcher: walks the load commands of one Mach-O image inside
//! the file buffer, optionally strips a trailing code signature, and appends a
//! dylib load command into the slack of the command region.
//!
//! The command table is modelled by `cmd_off`, the file offset of each load
//! command: command `i + 1` starts `cmdsize` bytes after command `i`. All
//! contracts are stated over this model and the byte primitives.

use vstd::prelude::*;

use crate::bytes::{enc32, enc64, le32, le64, norm32, norm64, splice, zeros};
use crate::consts::{is_known_magic, is_swapped_magic, is_thin_magic, LC_CODE_SIGNATURE, LC_LOAD_DYLIB, LC_LOAD_WEAK_DYLIB, LC_SEGMENT, LC_SEGMENT_64, LC_SYMTAB};
use crate::macho::{dylib_command_bytes, spec_mach_header_len, linkedit_data_of, mach_header_bytes, mach_header_of, symtab_of, Dylib, DylibCommand, MachHeader};
use crate::utils::{first_zero, spec_round_up};

verus! {

/// Why a run on a slice could not go on: a needed byte range lies outside the
/// buffer, or a structural field contradicts itself.
#[derive(Debug, Clone, Copy, PartialEq, Eq)]
pub enum PatchError {
    OutOfBounds,
    Malformed,
}

/// What the walk over the load commands decided: append the new command, or
/// leave the slice as it is because the dylib is already there or because a
/// code signature must not be broken.
#[derive(Debug, Clone, Copy, PartialEq, Eq)]
pub enum ScanOutcome {
    Append,
    AlreadyContains,
    KeptSignature,
}

/// A structural oddity worth reporting; none of them aborts the run.
#[derive(Debug, Clone, Copy, PartialEq, Eq)]
pub enum Warning {
    UnknownInnerMagic,
    SignatureNotLast,
    NoLinkedit,
    LinkeditNotAtEnd,
    SignatureNotAtLinkeditEnd,
    NoSymtab,
    StringTableNotBeforeSignature,
    NotEnoughSlack,
}

/// The tag of the load command stored at `off`.
pub open spec fn cmd_at(s: Seq<u8>, off: int, swap: bool) -> u32 {
    norm32(le32(s, off), swap)
}

/// The size of the load command stored at `off`.
pub open spec fn cmdsize_at(s: Seq<u8>, off: int, swap: bool) -> u32 {
    norm32(le32(s, off + 4), swap)
}

/// The offset of the `i`-th load command of a table that starts at `co`.
pub open spec fn cmd_off(s: Seq<u8>, co: int, swap: bool, i: nat) -> int
    decreases i,
{
    if i == 0 {
        co
    } else {
        cmd_off(s, co, swap, (i - 1) as nat) + cmdsize_at(
            s,
            cmd_off(s, co, swap, (i - 1) as nat),
            swap,
        )
    }
}

/// A well-formed command table: the `n` commands fill exactly `so` bytes, and
/// every command is at least as large as its generic prefix.
pub open spec fn cmds_wf(s: Seq<u8>, co: int, swap: bool, n: nat, so: int) -> bool {
    &&& cmd_off(s, co, swap, n) == co + so
    &&& forall|i: int|
        0 <= i < n ==> cmdsize_at(s, #[trigger] cmd_off(s, co, swap, i as nat), swap) >= 8
}

/// The command at `off` loads a dylib, weak or not.
pub open spec fn is_dylib_load_at(s: Seq<u8>, off: int, swap: bool) -> bool {
    cmd_at(s, off, swap) == LC_LOAD_DYLIB || cmd_at(s, off, swap) == LC_LOAD_WEAK_DYLIB
}

/// The dylib command at `off` names exactly the path `path`: the bytes from
/// its `name_offset` to the first NUL inside the command equal `path`.
pub open spec fn dylib_matches_at(s: Seq<u8>, off: int, swap: bool, path: Seq<u8>) -> bool {
    let cs = cmdsize_at(s, off, swap) as int;
    let no = norm32(le32(s, off + 8), swap) as int;
    let cmdb = s.subrange(off, off + cs);
    &&& no <= cs
    &&& cmdb.subrange(no, first_zero(cmdb, no)) == path
}

/// Some load command among the first `n` already loads `path`.
pub open spec fn has_dylib_match(s: Seq<u8>, co: int, swap: bool, n: nat, path: Seq<u8>) -> bool {
    exists|i: nat|
        i < n && is_dylib_load_at(s, #[trigger] cmd_off(s, co, swap, i), swap) && dylib_matches_at(
            s,
            cmd_off(s, co, swap, i),
            swap,
            path,
        )
}

/// The sixteen bytes `b` spell `__LINKEDIT` padded with NUL.
pub open spec fn is_linkedit_name(b: Seq<u8>) -> bool {
    &&& b.len() == 16
    &&& b[0] == 0x5fu8
    &&& b[1] == 0x5fu8
    &&& b[2] == 0x4cu8
    &&& b[3] == 0x49u8
    &&& b[4] == 0x4eu8
    &&& b[5] == 0x4bu8
    &&& b[6] == 0x45u8
    &&& b[7] == 0x44u8
    &&& b[8] == 0x49u8
    &&& b[9] == 0x54u8
    &&& b[10] == 0u8
}

/// The command at `off` is a 32-bit `__LINKEDIT` segment.
pub open spec fn is_seg32_linkedit_at(s: Seq<u8>, off: int, swap: bool) -> bool {
    cmd_at(s, off, swap) == LC_SEGMENT && is_linkedit_name(s.subrange(off + 8, off + 24))
}

/// The command at `off` is a 64-bit `__LINKEDIT` segment.
pub open spec fn is_seg64_linkedit_at(s: Seq<u8>, off: int, swap: bool) -> bool {
    cmd_at(s, off, swap) == LC_SEGMENT_64 && is_linkedit_name(s.subrange(off + 8, off + 24))
}

/// The command at `off` is the symbol-table command.
pub open spec fn is_symtab_at(s: Seq<u8>, off: int, swap: bool) -> bool {
    cmd_at(s, off, swap) == LC_SYMTAB
}

/// The last index among the first `n` commands whose offset satisfies `p`.
pub open spec fn last_matching(
    s: Seq<u8>,
    co: int,
    swap: bool,
    n: nat,
    p: spec_fn(int) -> bool,
) -> Option<nat>
    decreases n,
{
    if n == 0 {
        None
    } else if p(cmd_off(s, co, swap, (n - 1) as nat)) {
        Some((n - 1) as nat)
    } else {
        last_matching(s, co, swap, (n - 1) as nat, p)
    }
}

/// The last 32-bit `__LINKEDIT` segment among the first `m` commands.
pub open spec fn sel_linkedit32(s: Seq<u8>, co: int, swap: bool, m: nat) -> Option<nat> {
    last_matching(s, co, swap, m, |off: int| is_seg32_linkedit_at(s, off, swap))
}

/// The last 64-bit `__LINKEDIT` segment among the first `m` commands.
pub open spec fn sel_linkedit64(s: Seq<u8>, co: int, swap: bool, m: nat) -> Option<nat> {
    last_matching(s, co, swap, m, |off: int| is_seg64_linkedit_at(s, off, swap))
}

/// The last symtab command among the first `m` commands.
pub open spec fn symtab_idx(s: Seq<u8>, co: int, swap: bool, m: nat) -> Option<nat> {
    last_matching(s, co, swap, m, |off: int| is_symtab_at(s, off, swap))
}

/// Whether some `__LINKEDIT` segment was seen; the 32-bit record is read in
/// preference to the 64-bit one.
pub open spec fn has_linkedit(s: Seq<u8>, co: int, swap: bool, m: nat) -> bool {
    sel_linkedit32(s, co, swap, m) is Some || sel_linkedit64(s, co, swap, m) is Some
}

/// Whether the `__LINKEDIT` record that the strip procedure reads is 32-bit.
pub open spec fn linkedit_is32(s: Seq<u8>, co: int, swap: bool, m: nat) -> bool {
    sel_linkedit32(s, co, swap, m) is Some
}

/// Offset of the `__LINKEDIT` segment command the strip procedure reads.
pub open spec fn linkedit_pos(s: Seq<u8>, co: int, swap: bool, m: nat) -> int {
    if linkedit_is32(s, co, swap, m) {
        cmd_off(s, co, swap, sel_linkedit32(s, co, swap, m).unwrap())
    } else {
        cmd_off(s, co, swap, sel_linkedit64(s, co, swap, m).unwrap())
    }
}

/// The `fileoff` field of that `__LINKEDIT` segment.
pub open spec fn linkedit_fileoff(s: Seq<u8>, co: int, swap: bool, m: nat) -> u64 {
    let pos = linkedit_pos(s, co, swap, m);
    if linkedit_is32(s, co, swap, m) {
        norm32(le32(s, pos + 32), swap) as u64
    } else {
        norm64(le64(s, pos + 40), swap)
    }
}

/// The `filesize` field of that `__LINKEDIT` segment.
pub open spec fn linkedit_filesize(s: Seq<u8>, co: int, swap: bool, m: nat) -> u64 {
    let pos = linkedit_pos(s, co, swap, m);
    if linkedit_is32(s, co, swap, m) {
        norm32(le32(s, pos + 36), swap) as u64
    } else {
        norm64(le64(s, pos + 48), swap)
    }
}

/// Offset of the final load command, where the code signature sits.
pub open spec fn sig_pos(s: Seq<u8>, co: int, swap: bool, n: nat) -> int {
    cmd_off(s, co, swap, (n - 1) as nat)
}

/// The linkedit-data record of the final load command.
pub open spec fn sig_ld(s: Seq<u8>, co: int, swap: bool, n: nat) -> crate::macho::LinkeditDataCommand {
    linkedit_data_of(s.subrange(sig_pos(s, co, swap, n), sig_pos(s, co, swap, n) + 16), swap)
}

/// The strip procedure can truncate the slice: a `__LINKEDIT` segment was
/// seen, it ends exactly at the end of the slice, the signature blob ends
/// there too, and the blob fits inside the segment.
pub open spec fn strip_happy(s: Seq<u8>, co: int, swap: bool, n: nat, ss: u64) -> bool {
    let m = (n - 1) as nat;
    let ld = sig_ld(s, co, swap, n);
    &&& has_linkedit(s, co, swap, m)
    &&& linkedit_fileoff(s, co, swap, m) + linkedit_filesize(s, co, swap, m) == ss
    &&& ld.dataoff + ld.datasize == ss
    &&& ld.datasize <= linkedit_filesize(s, co, swap, m)
}

/// The slice size after the strip procedure: shortened by the blob exactly
/// when the blob could be truncated away.
pub open spec fn strip_new_size(s: Seq<u8>, co: int, swap: bool, n: nat, ss: u64) -> u64 {
    if strip_happy(s, co, swap, n, ss) {
        (ss - sig_ld(s, co, swap, n).datasize) as u64
    } else {
        ss
    }
}

/// The symtab rewrite of the strip procedure: if a symtab command was seen
/// and its string table ends within sixteen bytes of the new slice end, its
/// `strsize` grows to reach that end.
pub open spec fn symtab_slot_patch(t: Seq<u8>, spos: int, swap: bool, ssnew: u64) -> Seq<u8> {
    let st = symtab_of(t.subrange(spos, spos + 24), swap);
    if st.stroff + st.strsize <= ssnew && ssnew <= st.stroff + st.strsize + 16 {
        splice(t, spos + 20, enc32(norm32((ssnew - st.stroff) as u32, swap)))
    } else {
        t
    }
}

pub open spec fn symtab_patch(t: Seq<u8>, s: Seq<u8>, co: int, swap: bool, m: nat, ssnew: u64) -> Seq<u8> {
    match symtab_idx(s, co, swap, m) {
        Option::None => t,
        Option::Some(si) => symtab_slot_patch(t, cmd_off(s, co, swap, si), swap, ssnew),
    }
}

/// The `__LINKEDIT` rewrite of the strip procedure: `filesize` shrinks by the
/// blob, `vmsize` becomes that rounded up to a page.
pub open spec fn linkedit_patch(t: Seq<u8>, s: Seq<u8>, co: int, swap: bool, m: nat, datasize: u32) -> Seq<u8> {
    let pos = linkedit_pos(s, co, swap, m);
    let fsz = (linkedit_filesize(s, co, swap, m) - datasize) as u64;
    let vmz = spec_round_up(fsz as int, 0x1000);
    if linkedit_is32(s, co, swap, m) {
        let slot = s.subrange(pos, pos + 56);
        splice(
            t,
            pos,
            splice(splice(slot, 28, enc32(norm32(vmz as u32, swap))), 36, enc32(norm32(fsz as u32, swap))),
        )
    } else {
        let slot = s.subrange(pos, pos + 72);
        splice(
            t,
            pos,
            splice(splice(slot, 32, enc64(norm64(vmz as u64, swap))), 48, enc64(norm64(fsz, swap))),
        )
    }
}

/// The whole buffer after the strip procedure. The final command's record is
/// zeroed; then either the slice is truncated from the tail (symtab and
/// `__LINKEDIT` adjusted), or the blob is zeroed in place.
pub open spec fn strip_bytes(s: Seq<u8>, ho: int, co: int, swap: bool, n: nat, ss: u64) -> Seq<u8> {
    let m = (n - 1) as nat;
    let sp = sig_pos(s, co, swap, n);
    let scs = cmdsize_at(s, sp, swap);
    let ld = sig_ld(s, co, swap, n);
    let t1 = splice(s, sp, zeros(scs as nat));
    if strip_happy(s, co, swap, n, ss) {
        let ssnew = (ss - ld.datasize) as u64;
        let t2 = symtab_patch(t1, s, co, swap, m, ssnew);
        linkedit_patch(t2, s, co, swap, m, ld.datasize)
    } else {
        splice(t1, ho + ld.dataoff, zeros(ld.datasize as nat))
    }
}

/// Every load command is large enough for the record the walk decodes at it.
pub open spec fn cmd_min_size_ok(s: Seq<u8>, off: int, swap: bool) -> bool {
    let c = cmd_at(s, off, swap);
    let cs = cmdsize_at(s, off, swap);
    &&& (c == LC_SEGMENT ==> cs >= 56)
    &&& (c == LC_SEGMENT_64 ==> cs >= 72)
    &&& (c == LC_LOAD_DYLIB || c == LC_LOAD_WEAK_DYLIB ==> cs >= 24)
    &&& (c == LC_CODE_SIGNATURE ==> cs >= 16)
    &&& (c == LC_SYMTAB ==> cs >= 24)
}

/// What the strip procedure additionally needs of a sound input: the
/// signature blob lies inside the buffer and the slice size leaves room for
/// the page rounding.
pub open spec fn strip_input_ok(s: Seq<u8>, ho: int, co: int, swap: bool, n: nat, ss: u64) -> bool {
    let ld = sig_ld(s, co, swap, n);
    &&& 0 <= ho
    &&& ho + ld.dataoff + ld.datasize <= s.len()
    &&& ss <= u64::MAX - 0xfff
}

/// A structurally sound input to the walk: a well-formed command table that
/// lies inside the buffer, every command large enough for its record, and,
/// where the strip procedure will run, its own conditions. On such an input
/// the walk is owed a non-error result.
pub open spec fn scan_input_ok(
    s: Seq<u8>,
    ho: int,
    co: int,
    swap: bool,
    n: nat,
    so: int,
    ss: u64,
    strip: bool,
) -> bool {
    &&& cmds_wf(s, co, swap, n, so)
    &&& 0 <= co
    &&& co + so <= s.len()
    &&& forall|i: int| 0 <= i < n ==> cmd_min_size_ok(s, #[trigger] cmd_off(s, co, swap, i as nat), swap)
    &&& ((strip && n >= 1 && cmd_at(s, sig_pos(s, co, swap, n), swap) == LC_CODE_SIGNATURE)
        ==> strip_input_ok(s, ho, co, swap, n, ss))
}

/// A found symtab index lies in range and points at a symtab command.
pub proof fn lemma_symtab_idx_props(s: Seq<u8>, co: int, swap: bool, m: nat)
    requires
        symtab_idx(s, co, swap, m) is Some,
    ensures
        symtab_idx(s, co, swap, m).unwrap() < m,
        is_symtab_at(s, cmd_off(s, co, swap, symtab_idx(s, co, swap, m).unwrap()), swap),
    decreases m,
{
    if m > 0 && !is_symtab_at(s, cmd_off(s, co, swap, (m - 1) as nat), swap) {
        lemma_symtab_idx_props(s, co, swap, (m - 1) as nat);
    }
}

/// Command offsets never decrease along the table.
pub proof fn lemma_cmd_off_monotonic(s: Seq<u8>, co: int, swap: bool, i: nat, j: nat)
    requires
        i <= j,
    ensures
        cmd_off(s, co, swap, i) <= cmd_off(s, co, swap, j),
    decreases j,
{
    if i < j {
        lemma_cmd_off_monotonic(s, co, swap, i, (j - 1) as nat);
    }
}

/// In a well-formed table each command's slot lies inside the command region.
pub proof fn lemma_cmd_slot_in_region(
    s: Seq<u8>,
    co: int,
    swap: bool,
    n: nat,
    so: int,
    i: nat,
)
    requires
        cmds_wf(s, co, swap, n, so),
        i < n,
    ensures
        co <= cmd_off(s, co, swap, i),
        cmd_off(s, co, swap, i) + cmdsize_at(s, cmd_off(s, co, swap, i), swap) <= co + so,
        cmd_off(s, co, swap, i) + 8 <= co + so,
    decreases n,
{
    lemma_cmd_off_monotonic(s, co, swap, 0, i);
    lemma_cmd_off_monotonic(s, co, swap, (i + 1) as nat, n);
    assert(cmd_off(s, co, swap, (i + 1) as nat) == cmd_off(s, co, swap, i) + cmdsize_at(
        s,
        cmd_off(s, co, swap, i),
        swap,
    ));
    assert(cmdsize_at(s, cmd_off(s, co, swap, i as nat), swap) >= 8);
}

/// Two buffers that agree on the command region have the same command
/// offsets, tags and sizes, as far as a well-formed table reaches.
pub proof fn lemma_cmd_off_frame(
    s1: Seq<u8>,
    s2: Seq<u8>,
    co: int,
    swap: bool,
    n: nat,
    so: int,
    i: nat,
)
    requires
        cmds_wf(s1, co, swap, n, so),
        forall|j: int| co <= j < co + so ==> s1[j] == s2[j],
        i <= n,
    ensures
        cmd_off(s2, co, swap, i) == cmd_off(s1, co, swap, i),
        i < n ==> cmdsize_at(s2, cmd_off(s2, co, swap, i), swap) == cmdsize_at(
            s1,
            cmd_off(s1, co, swap, i),
            swap,
        ),
        i < n ==> cmd_at(s2, cmd_off(s2, co, swap, i), swap) == cmd_at(
            s1,
            cmd_off(s1, co, swap, i),
            swap,
        ),
    decreases i,
{
    if i > 0 {
        lemma_cmd_off_frame(s1, s2, co, swap, n, so, (i - 1) as nat);
        lemma_cmd_slot_in_region(s1, co, swap, n, so, (i - 1) as nat);
    }
    if i < n {
        lemma_cmd_slot_in_region(s1, co, swap, n, so, i);
    }
}

/// Whether the sixteen name bytes spell `__LINKEDIT`.
fn segname_is_linkedit(name: &[u8; 16]) -> (r: bool)
    ensures
        r == is_linkedit_name(name@),
{
    name[0] == 0x5f && name[1] == 0x5f && name[2] == 0x4c && name[3] == 0x49 && name[4] == 0x4e
        && name[5] == 0x4b && name[6] == 0x45 && name[7] == 0x44 && name[8] == 0x49 && name[9]
        == 0x54 && name[10] == 0
}

/// Whether the dylib command at `off` (its size and name offset already
/// decoded into `cmdsize` and `name_off`) names exactly the bytes of `path`.
fn dylib_name_match(
    buf: &Vec<u8>,
    off: usize,
    cmdsize: u32,
    name_off: u32,
    path: &Vec<u8>,
) -> (r: bool)
    requires
        off + cmdsize <= buf.len(),
    ensures
        r == ({
            let cmdb = buf@.subrange(off as int, off + cmdsize);
            &&& name_off <= cmdsize
            &&& cmdb.subrange(name_off as int, first_zero(cmdb, name_off as int)) == path@
        }),
{
    let ghost cmdb = buf@.subrange(off as int, off + cmdsize);
    if name_off > cmdsize {
        return false;
    }
    let cs = cmdsize as usize;
    let start = name_off as usize;
    let mut j: usize = start;
    while j < cs && buf[off + j] != 0
        invariant
            off + cs <= buf.len(),
            start <= j <= cs,
            start == name_off as usize,
            cs == cmdsize as usize,
            name_off <= cmdsize,
            cmdb == buf@.subrange(off as int, off + cs),
            forall|k: int| start <= k < j ==> cmdb[k] != 0,
        decreases cs - j,
    {
        j = j + 1;
    }
    proof {
        if j < cs {
            assert(cmdb[j as int] == buf@[off + j]);
        }
        crate::utils::lemma_first_zero_step(cmdb, start as int, j as int);
    }
    if j - start != path.len() {
        proof {
            assert(cmdb.subrange(start as int, j as int).len() == j - start);
        }
        return false;
    }
    let mut k: usize = 0;
    while k < path.len()
        invariant
            off + cs <= buf.len(),
            start + path@.len() == j,
            j <= cs,
            k <= path@.len(),
            start == name_off as usize,
            cs == cmdsize as usize,
            first_zero(cmdb, start as int) == j,
            cmdb == buf@.subrange(off as int, off + cs),
            forall|t: int| 0 <= t < k ==> cmdb[start + t] == path@[t],
        decreases path@.len() - k,
    {
        if buf[off + start + k] != path[k] {
            proof {
                assert(cmdb[start + k] == buf@[off + start + k]);
                assert(cmdb.subrange(start as int, j as int)[k as int] == cmdb[start + k]);
            }
            return false;
        }
        k = k + 1;
    }
    proof {
        assert(cmdb.subrange(start as int, j as int) =~= path@);
    }
    true
}

/// Rewrites the command count and command-region size of an in-memory header.
pub fn fix_header(mach_header: &mut MachHeader, ncmds: u32, sizeofcmds: u32)
    ensures
        *final(mach_header) == (MachHeader { ncmds, sizeofcmds, ..*old(mach_header) }),
{
    mach_header.ncmds = ncmds;
    mach_header.sizeofcmds = sizeofcmds;
}


/// Re-encoding a 64-bit segment record with new `vmsize` and `filesize`
/// touches exactly those two fields of its old bytes.
#[verifier::rlimit(100)]
pub proof fn lemma_seg64_update_bytes(c: crate::macho::SegmentCommand64, fsz: u64, vmz: u64, b: Seq<u8>, swap: bool)
    requires
        b.len() == 72,
        crate::macho::seg64_matches(c, b, swap),
    ensures
        crate::macho::seg64_bytes(
            (crate::macho::SegmentCommand64 { filesize: fsz, vmsize: vmz, ..c }),
            swap,
        ) == splice(splice(b, 32, enc64(norm64(vmz, swap))), 48, enc64(norm64(fsz, swap))),
{
    crate::macho::lemma_seg64_round_trip(c, b, swap);
    assert(crate::macho::seg64_bytes(
        (crate::macho::SegmentCommand64 { filesize: fsz, vmsize: vmz, ..c }),
        swap,
    ) =~= splice(splice(b, 32, enc64(norm64(vmz, swap))), 48, enc64(norm64(fsz, swap))));
}

/// Re-encoding a 32-bit segment record with new `vmsize` and `filesize`
/// touches exactly those two fields of its old bytes.
#[verifier::rlimit(100)]
pub proof fn lemma_seg32_update_bytes(c: crate::macho::SegmentCommand, fsz: u32, vmz: u32, b: Seq<u8>, swap: bool)
    requires
        b.len() == 56,
        crate::macho::seg32_matches(c, b, swap),
    ensures
        crate::macho::seg32_bytes(
            (crate::macho::SegmentCommand { filesize: fsz, vmsize: vmz, ..c }),
            swap,
        ) == splice(splice(b, 28, enc32(norm32(vmz, swap))), 36, enc32(norm32(fsz, swap))),
{
    crate::macho::lemma_seg32_round_trip(c, b, swap);
    assert(crate::macho::seg32_bytes(
        (crate::macho::SegmentCommand { filesize: fsz, vmsize: vmz, ..c }),
        swap,
    ) =~= splice(splice(b, 28, enc32(norm32(vmz, swap))), 36, enc32(norm32(fsz, swap))));
}

/// The symtab rewrite of the strip procedure, on the record stored at
/// `spos`: grow `strsize` to reach the new slice end `ssnew` if the string
/// table ends within sixteen bytes of it, else only warn.
#[verifier::rlimit(100)]
fn strip_fix_symtab(
    buf: &mut Vec<u8>,
    spos: u64,
    swap: bool,
    ssnew: u64,
    warnings: &mut Vec<Warning>,
)
    requires
        spos + 24 <= old(buf).len(),
    ensures
        final(buf)@.len() == old(buf)@.len(),
        final(buf)@ == symtab_slot_patch(old(buf)@, spos as int, swap, ssnew),
        final(warnings)@.len() >= old(warnings)@.len(),
        forall|j: int|
            0 <= j < old(warnings)@.len() ==> final(warnings)@[j] == old(warnings)@[j],
{
    let ghost t1 = buf@;
    let stbuf: [u8; 24] = crate::bytes::read_arr::<24>(buf, spos as usize);
    let symtab = crate::macho::SymtabCommand::from(stbuf, swap);
    proof {
        assert(stbuf@ =~= t1.subrange(spos as int, spos + 24));
        assert(symtab == symtab_of(t1.subrange(spos as int, spos + 24), swap));
    }
    let sum: u64 = symtab.stroff as u64 + symtab.strsize as u64;
    if sum <= ssnew && ssnew <= sum + 16 {
        #[verifier::truncate]
        let new_strsize: u32 = (ssnew - symtab.stroff as u64) as u32;
        let symtab2 = crate::macho::SymtabCommand { strsize: new_strsize, ..symtab };
        let mut stw = symtab2;
        if swap {
            crate::macho::FixMachOStructEndian::fix_endian(&mut stw);
        }
        let outb: [u8; 24] = stw.to_u8();
        proof {
            assert(outb@ =~= crate::macho::symtab_bytes(symtab2, swap));
            crate::macho::lemma_symtab_round_trip(t1.subrange(spos as int, spos + 24), swap);
            assert(crate::macho::symtab_bytes(symtab2, swap) =~= splice(
                t1.subrange(spos as int, spos + 24),
                20,
                crate::bytes::enc32(norm32(new_strsize, swap)),
            ));
        }
        crate::bytes::write_arr::<24>(buf, spos as usize, &outb);
        proof {
            crate::bytes::lemma_splice(t1, spos as int, outb@);
            crate::bytes::lemma_splice(
                t1,
                spos + 20,
                crate::bytes::enc32(norm32(new_strsize, swap)),
            );
            assert(buf@ =~= splice(t1, spos + 20, crate::bytes::enc32(norm32(new_strsize, swap))));
        }
    } else {
        warnings.push(Warning::StringTableNotBeforeSignature);
    }
}

/// The `__LINKEDIT` rewrite of the strip procedure for a 32-bit segment
/// record `rec` captured from the slot bytes `slot0` at `lpos`.
#[verifier::rlimit(100)]
fn strip_fix_linkedit32(
    buf: &mut Vec<u8>,
    lpos: u64,
    rec: crate::macho::SegmentCommand,
    datasize: u32,
    swap: bool,
    Ghost(slot0): Ghost<Seq<u8>>,
)
    requires
        lpos + 56 <= old(buf).len(),
        slot0.len() == 56,
        crate::macho::seg32_matches(rec, slot0, swap),
        datasize <= rec.filesize,
    ensures
        final(buf)@.len() == old(buf)@.len(),
        final(buf)@ == splice(
            old(buf)@,
            lpos as int,
            splice(
                splice(
                    slot0,
                    28,
                    enc32(
                        norm32(
                            (spec_round_up((rec.filesize - datasize) as int, 0x1000) as u32),
                            swap,
                        ),
                    ),
                ),
                36,
                enc32(norm32((rec.filesize - datasize) as u32, swap)),
            ),
        ),
{
    let lfs2: u32 = rec.filesize - datasize;
    let vm = crate::utils::round_up_u64(lfs2 as u64, 0x1000);
    #[verifier::truncate]
    let vm32: u32 = vm as u32;
    let rec2 = crate::macho::SegmentCommand { filesize: lfs2, vmsize: vm32, ..rec };
    let mut w = rec2;
    if swap {
        crate::macho::FixMachOStructEndian::fix_endian(&mut w);
    }
    let outb: [u8; 56] = w.to_u8();
    proof {
        assert(outb@ =~= crate::macho::seg32_bytes(rec2, swap));
        lemma_seg32_update_bytes(rec, rec2.filesize, rec2.vmsize, slot0, swap);
    }
    crate::bytes::write_arr::<56>(buf, lpos as usize, &outb);
}

/// The `__LINKEDIT` rewrite of the strip procedure for a 64-bit segment
/// record `rec` captured from the slot bytes `slot0` at `lpos`.
#[verifier::rlimit(100)]
fn strip_fix_linkedit64(
    buf: &mut Vec<u8>,
    lpos: u64,
    rec: crate::macho::SegmentCommand64,
    datasize: u32,
    swap: bool,
    Ghost(slot0): Ghost<Seq<u8>>,
) -> (r: Result<(), PatchError>)
    requires
        lpos + 72 <= old(buf).len(),
        slot0.len() == 72,
        crate::macho::seg64_matches(rec, slot0, swap),
        datasize <= rec.filesize,
    ensures
        final(buf)@.len() == old(buf)@.len(),
        r is Err ==> final(buf)@ == old(buf)@,
        rec.filesize as int - datasize as int <= u64::MAX - 0xfff ==> r is Ok,
        r is Ok ==> final(buf)@ == splice(
            old(buf)@,
            lpos as int,
            splice(
                splice(
                    slot0,
                    32,
                    enc64(
                        norm64(
                            (spec_round_up((rec.filesize - datasize) as int, 0x1000) as u64),
                            swap,
                        ),
                    ),
                ),
                48,
                enc64(norm64((rec.filesize - datasize) as u64, swap)),
            ),
        ),
{
    let lfs2: u64 = rec.filesize - datasize as u64;
    if lfs2 > u64::MAX - 0xfff {
        return Err(PatchError::Malformed);
    }
    let vm = crate::utils::round_up_u64(lfs2, 0x1000);
    let rec2 = crate::macho::SegmentCommand64 { filesize: lfs2, vmsize: vm, ..rec };
    let mut w = rec2;
    if swap {
        crate::macho::FixMachOStructEndian::fix_endian(&mut w);
    }
    let outb: [u8; 72] = w.to_u8();
    proof {
        assert(outb@ =~= crate::macho::seg64_bytes(rec2, swap));
        lemma_seg64_update_bytes(rec, rec2.filesize, rec2.vmsize, slot0, swap);
    }
    crate::bytes::write_arr::<72>(buf, lpos as usize, &outb);
    Ok(())
}

/// What the walk has seen so far: the last `__LINKEDIT` segment of each
/// width and the last symtab command, with their file positions.
struct ScanState {
    linkedit_32: crate::macho::SegmentCommand,
    linkedit_64: crate::macho::SegmentCommand64,
    l32_found: bool,
    l64_found: bool,
    linkedit_32_pos: u64,
    linkedit_64_pos: u64,
    symtab_found: bool,
    symtab_pos: u64,
}

/// Handles one load command at `off`: decodes its prefix, records a
/// `__LINKEDIT` segment or symtab command into `st`, and reports whether the
/// command is a dylib load naming exactly `options.dylib_path`. `last` says
/// whether this is the final command, which silences the out-of-place
/// signature warning.
#[verifier::rlimit(100)]
fn scan_step(
    buf: &Vec<u8>,
    off: u64,
    swap: bool,
    last: bool,
    options: &crate::opts::Opts,
    st: &mut ScanState,
    warnings: &mut Vec<Warning>,
) -> (r: Result<(crate::macho::LoadCommand, bool), PatchError>)
    requires
        off <= buf.len() as u64,
    ensures
        r is Ok ==> ({
            let lc = r.unwrap().0;
            let matched = r.unwrap().1;
            &&& lc.cmd == cmd_at(buf@, off as int, swap)
            &&& lc.cmdsize == cmdsize_at(buf@, off as int, swap)
            &&& off + lc.cmdsize <= buf@.len()
            &&& matched == (is_dylib_load_at(buf@, off as int, swap) && dylib_matches_at(
                buf@,
                off as int,
                swap,
                options.dylib_path@,
            ))
            &&& if is_seg32_linkedit_at(buf@, off as int, swap) {
                final(st).l32_found && final(st).linkedit_32_pos == off && off + 56 <= buf@.len()
                    && crate::macho::seg32_matches(
                    final(st).linkedit_32,
                    buf@.subrange(off as int, off + 56),
                    swap,
                )
            } else {
                final(st).l32_found == old(st).l32_found && final(st).linkedit_32_pos == old(
                    st,
                ).linkedit_32_pos && final(st).linkedit_32 == old(st).linkedit_32
            }
            &&& if is_seg64_linkedit_at(buf@, off as int, swap) {
                final(st).l64_found && final(st).linkedit_64_pos == off && off + 72 <= buf@.len()
                    && crate::macho::seg64_matches(
                    final(st).linkedit_64,
                    buf@.subrange(off as int, off + 72),
                    swap,
                )
            } else {
                final(st).l64_found == old(st).l64_found && final(st).linkedit_64_pos == old(
                    st,
                ).linkedit_64_pos && final(st).linkedit_64 == old(st).linkedit_64
            }
            &&& if is_symtab_at(buf@, off as int, swap) {
                final(st).symtab_found && final(st).symtab_pos == off
            } else {
                final(st).symtab_found == old(st).symtab_found && final(st).symtab_pos == old(
                    st,
                ).symtab_pos
            }
        }),
        (off + 8 <= buf@.len() && off + cmdsize_at(buf@, off as int, swap) <= buf@.len()
            && cmd_min_size_ok(buf@, off as int, swap)) ==> r is Ok,
        final(warnings)@.len() >= old(warnings)@.len(),
        forall|j: int|
            0 <= j < old(warnings)@.len() ==> final(warnings)@[j] == old(warnings)@[j],
{
    let len64: u64 = buf.len() as u64;
    if len64 - off < 8 {
        return Err(PatchError::OutOfBounds);
    }
    let prefix: [u8; 8] = crate::bytes::read_arr::<8>(buf, off as usize);
    let lc = crate::macho::LoadCommand::from(prefix, swap);
    proof {
        assert(prefix@ =~= buf@.subrange(off as int, off + 8));
        assert(le32(prefix@, 0) == le32(buf@, off as int));
        assert(le32(prefix@, 4) == le32(buf@, off + 4));
        assert(lc.cmd == cmd_at(buf@, off as int, swap));
        assert(lc.cmdsize == cmdsize_at(buf@, off as int, swap));
    }
    if len64 - off < lc.cmdsize as u64 {
        return Err(PatchError::OutOfBounds);
    }

    match lc.cmd {
        LC_CODE_SIGNATURE => {
            if !last {
                warnings.push(Warning::SignatureNotLast);
            }
            return Ok((lc, false));
        },
        LC_LOAD_DYLIB | LC_LOAD_WEAK_DYLIB => {
            if len64 - off < 24 {
                return Err(PatchError::OutOfBounds);
            }
            let dcbuf: [u8; 24] = crate::bytes::read_arr::<24>(buf, off as usize);
            let dylib_command = crate::macho::DylibCommand::from(dcbuf, swap);
            proof {
                assert(dcbuf@ =~= buf@.subrange(off as int, off + 24));
                assert(le32(dcbuf@, 8) == le32(buf@, off + 8));
                assert(dylib_command.dylib.name_offset == norm32(le32(buf@, off + 8), swap));
            }
            let matched = dylib_name_match(
                buf,
                off as usize,
                lc.cmdsize,
                dylib_command.dylib.name_offset,
                &options.dylib_path,
            );
            proof {
                assert(matched == dylib_matches_at(buf@, off as int, swap, options.dylib_path@));
            }
            return Ok((lc, matched));
        },
        LC_SEGMENT => {
            if len64 - off < 56 {
                return Err(PatchError::OutOfBounds);
            }
            let scbuf: [u8; 56] = crate::bytes::read_arr::<56>(buf, off as usize);
            let cmd = crate::macho::SegmentCommand::from(scbuf, swap);
            proof {
                assert(scbuf@ =~= buf@.subrange(off as int, off + 56));
                assert(cmd.segname@ =~= buf@.subrange(off + 8, off + 24));
            }
            if segname_is_linkedit(&cmd.segname) {
                st.linkedit_32_pos = off;
                st.l32_found = true;
                st.linkedit_32 = cmd;
            }
            return Ok((lc, false));
        },
        LC_SEGMENT_64 => {
            if len64 - off < 72 {
                return Err(PatchError::OutOfBounds);
            }
            let scbuf: [u8; 72] = crate::bytes::read_arr::<72>(buf, off as usize);
            let cmd = crate::macho::SegmentCommand64::from(scbuf, swap);
            proof {
                assert(scbuf@ =~= buf@.subrange(off as int, off + 72));
                assert(cmd.segname@ =~= buf@.subrange(off + 8, off + 24));
            }
            if segname_is_linkedit(&cmd.segname) {
                st.linkedit_64_pos = off;
                st.l64_found = true;
                st.linkedit_64 = cmd;
            }
            return Ok((lc, false));
        },
        LC_SYMTAB => {
            st.symtab_found = true;
            st.symtab_pos = off;
            return Ok((lc, false));
        },
        _ => {
            return Ok((lc, false));
        },
    }
}

/// Walks the `ncmds` load commands of the slice whose header is
/// `mach_header` and whose command table starts at `commands_offset`. If a
/// load command for `options.dylib_path` is already there, nothing changes
/// and the walk says so; if the final command is a code signature it is
/// either left alone (no appending then) or, when stripping is requested,
/// removed by the strip procedure, which may shorten `slice_size`. Otherwise
/// the slice is left as it stood and the caller may append.
#[verifier::rlimit(100)]
pub fn check_load_commands(
    buf: &mut Vec<u8>,
    mach_header: &mut MachHeader,
    header_offset: u64,
    commands_offset: u64,
    options: &crate::opts::Opts,
    slice_size: &mut u64,
    warnings: &mut Vec<Warning>,
) -> (r: Result<ScanOutcome, PatchError>)
    requires
        crate::consts::is_known_magic(old(mach_header).magic),
    ensures
        final(buf)@.len() == old(buf)@.len(),
        ({
            let s0 = old(buf)@;
            let swap = crate::consts::is_swapped_magic(old(mach_header).magic);
            let co = commands_offset as int;
            let n = old(mach_header).ncmds as nat;
            let path = options.dylib_path@;
            let sig_last = n >= 1 && cmd_at(s0, sig_pos(s0, co, swap, n), swap)
                == LC_CODE_SIGNATURE;
            let unchanged = final(buf)@ == s0 && *final(mach_header) == *old(mach_header)
                && *final(slice_size) == *old(slice_size);
            &&& (r == Ok::<ScanOutcome, PatchError>(ScanOutcome::AlreadyContains) <==> (r is Ok
                && has_dylib_match(s0, co, swap, n, path)))
            &&& r == Ok::<ScanOutcome, PatchError>(ScanOutcome::KeptSignature) ==> sig_last
                && !options.strip_codesign
            &&& r == Ok::<ScanOutcome, PatchError>(ScanOutcome::Append) ==> !has_dylib_match(
                s0,
                co,
                swap,
                n,
                path,
            ) && !(sig_last && !options.strip_codesign)
            &&& (r == Ok::<ScanOutcome, PatchError>(ScanOutcome::AlreadyContains) || r
                == Ok::<ScanOutcome, PatchError>(ScanOutcome::KeptSignature)) ==> unchanged
            &&& (r == Ok::<ScanOutcome, PatchError>(ScanOutcome::Append) && !(sig_last
                && options.strip_codesign)) ==> unchanged
            &&& (r == Ok::<ScanOutcome, PatchError>(ScanOutcome::Append) && sig_last
                && options.strip_codesign) ==> ({
                let scs = cmdsize_at(s0, sig_pos(s0, co, swap, n), swap);
                &&& old(mach_header).sizeofcmds >= scs
                &&& final(buf)@ == strip_bytes(s0, header_offset as int, co, swap, n, *old(
                    slice_size,
                ))
                &&& *final(slice_size) == strip_new_size(s0, co, swap, n, *old(slice_size))
                &&& *final(mach_header) == (MachHeader {
                    ncmds: (n - 1) as u32,
                    sizeofcmds: (old(mach_header).sizeofcmds - scs) as u32,
                    ..*old(mach_header)
                })
            })
        }),
        r is Err ==> final(buf)@ == old(buf)@ && *final(mach_header) == *old(mach_header)
            && *final(slice_size) == *old(slice_size),
        scan_input_ok(
            old(buf)@,
            header_offset as int,
            commands_offset as int,
            crate::consts::is_swapped_magic(old(mach_header).magic),
            old(mach_header).ncmds as nat,
            old(mach_header).sizeofcmds as int,
            *old(slice_size),
            options.strip_codesign,
        ) ==> r is Ok,
        final(warnings)@.len() >= old(warnings)@.len(),
        forall|j: int|
            0 <= j < old(warnings)@.len() ==> final(warnings)@[j] == old(warnings)@[j],
        ({
            let s0 = old(buf)@;
            let swap = crate::consts::is_swapped_magic(old(mach_header).magic);
            let co = commands_offset as int;
            let n = old(mach_header).ncmds as nat;
            let ss = *old(slice_size);
            let m = (n - 1) as nat;
            let stripped = r == Ok::<ScanOutcome, PatchError>(ScanOutcome::Append) && n >= 1
                && cmd_at(s0, sig_pos(s0, co, swap, n), swap) == LC_CODE_SIGNATURE
                && options.strip_codesign;
            &&& (stripped && !has_linkedit(s0, co, swap, m)) ==> final(warnings)@.contains(
                Warning::NoLinkedit,
            )
            &&& (stripped && has_linkedit(s0, co, swap, m) && linkedit_fileoff(s0, co, swap, m)
                + linkedit_filesize(s0, co, swap, m) != ss) ==> final(warnings)@.contains(
                Warning::LinkeditNotAtEnd,
            )
            &&& (stripped && has_linkedit(s0, co, swap, m) && linkedit_fileoff(s0, co, swap, m)
                + linkedit_filesize(s0, co, swap, m) == ss && !strip_happy(s0, co, swap, n, ss))
                ==> final(warnings)@.contains(Warning::SignatureNotAtLinkeditEnd)
            &&& (stripped && strip_happy(s0, co, swap, n, ss) && symtab_idx(s0, co, swap, m)
                is None) ==> final(warnings)@.contains(Warning::NoSymtab)
        }),
{
    let ghost s0 = buf@;
    let ghost co_g: int = commands_offset as int;
    let ghost path_g = options.dylib_path@;
    let swap = MachHeader::is_little_endian(mach_header.magic);
    let n: u32 = mach_header.ncmds;
    let ghost ng: nat = n as nat;
    let len64: u64 = buf.len() as u64;
    proof {
        assert(buf@.len() == buf.len());
    }
    if commands_offset > len64 {
        return Err(PatchError::OutOfBounds);
    }
    let mut off: u64 = commands_offset;

    let mut st = ScanState {
        linkedit_32: crate::macho::SegmentCommand::default(),
        linkedit_64: crate::macho::SegmentCommand64::default(),
        l32_found: false,
        l64_found: false,
        linkedit_32_pos: 0,
        linkedit_64_pos: 0,
        symtab_found: false,
        symtab_pos: 0,
    };
    let mut last_lc = crate::macho::LoadCommand { cmd: 0, cmdsize: 0 };
    let mut last_off: u64 = 0;

    let mut i: u32 = 0;
    while i < n
        invariant
            buf@ == s0,
            *mach_header == *old(mach_header),
            *slice_size == *old(slice_size),
            crate::consts::is_known_magic(old(mach_header).magic),
            swap == crate::consts::is_swapped_magic(old(mach_header).magic),
            n == old(mach_header).ncmds,
            co_g == commands_offset as int,
            path_g == options.dylib_path@,
            len64 == buf.len() as u64,
            i <= n,
            off <= len64,
            off as int == cmd_off(s0, co_g, swap, i as nat),
            !has_dylib_match(s0, co_g, swap, i as nat, path_g),
            st.l32_found == (sel_linkedit32(s0, co_g, swap, i as nat) is Some),
            st.l32_found ==> st.linkedit_32_pos as int == cmd_off(
                s0,
                co_g,
                swap,
                sel_linkedit32(s0, co_g, swap, i as nat).unwrap(),
            ) && st.linkedit_32_pos + 56 <= len64 && crate::macho::seg32_matches(
                st.linkedit_32,
                s0.subrange(st.linkedit_32_pos as int, st.linkedit_32_pos + 56),
                swap,
            ),
            st.l64_found == (sel_linkedit64(s0, co_g, swap, i as nat) is Some),
            st.l64_found ==> st.linkedit_64_pos as int == cmd_off(
                s0,
                co_g,
                swap,
                sel_linkedit64(s0, co_g, swap, i as nat).unwrap(),
            ) && st.linkedit_64_pos + 72 <= len64 && crate::macho::seg64_matches(
                st.linkedit_64,
                s0.subrange(st.linkedit_64_pos as int, st.linkedit_64_pos + 72),
                swap,
            ),
            st.symtab_found == (symtab_idx(s0, co_g, swap, i as nat) is Some),
            st.symtab_found ==> st.symtab_pos as int == cmd_off(
                s0,
                co_g,
                swap,
                symtab_idx(s0, co_g, swap, i as nat).unwrap(),
            ) && st.symtab_pos <= len64,
            i > 0 ==> last_off as int == cmd_off(s0, co_g, swap, (i - 1) as nat) && last_lc.cmd
                == cmd_at(s0, last_off as int, swap) && last_lc.cmdsize == cmdsize_at(
                s0,
                last_off as int,
                swap,
            ),
            warnings@.len() >= old(warnings)@.len(),
            forall|j: int|
                0 <= j < old(warnings)@.len() ==> warnings@[j] == old(warnings)@[j],
        decreases n - i,
    {
        let step = scan_step(buf, off, swap, i == n - 1, options, &mut st, warnings);
        let pair = match step {
            Ok(pair) => pair,
            Err(e) => {
                proof {
                    if scan_input_ok(
                        s0,
                        header_offset as int,
                        co_g,
                        swap,
                        n as nat,
                        old(mach_header).sizeofcmds as int,
                        *old(slice_size),
                        options.strip_codesign,
                    ) {
                        lemma_cmd_slot_in_region(
                            s0,
                            co_g,
                            swap,
                            n as nat,
                            old(mach_header).sizeofcmds as int,
                            i as nat,
                        );
                        let ii: int = i as int;
                        assert(cmd_min_size_ok(s0, cmd_off(s0, co_g, swap, ii as nat), swap));
                        assert(cmd_off(s0, co_g, swap, ii as nat) == cmd_off(
                            s0,
                            co_g,
                            swap,
                            i as nat,
                        ));
                        assert(false);
                    }
                }
                return Err(e);
            },
        };
        let lc = pair.0;
        if pair.1 {
            proof {
                assert(is_dylib_load_at(s0, cmd_off(s0, co_g, swap, i as nat), swap));
                assert(dylib_matches_at(s0, cmd_off(s0, co_g, swap, i as nat), swap, path_g));
                assert(has_dylib_match(s0, co_g, swap, n as nat, path_g));
            }
            return Ok(ScanOutcome::AlreadyContains);
        }
        proof {
            let ii = i as nat;
            assert(sel_linkedit32(s0, co_g, swap, (ii + 1) as nat) == (if is_seg32_linkedit_at(
                s0,
                cmd_off(s0, co_g, swap, ii),
                swap,
            ) {
                Some(ii)
            } else {
                sel_linkedit32(s0, co_g, swap, ii)
            }));
            assert(sel_linkedit64(s0, co_g, swap, (ii + 1) as nat) == (if is_seg64_linkedit_at(
                s0,
                cmd_off(s0, co_g, swap, ii),
                swap,
            ) {
                Some(ii)
            } else {
                sel_linkedit64(s0, co_g, swap, ii)
            }));
            assert(symtab_idx(s0, co_g, swap, (ii + 1) as nat) == (if is_symtab_at(
                s0,
                cmd_off(s0, co_g, swap, ii),
                swap,
            ) {
                Some(ii)
            } else {
                symtab_idx(s0, co_g, swap, ii)
            }));
            assert forall|k: nat|
                k < ii + 1 && is_dylib_load_at(s0, #[trigger] cmd_off(s0, co_g, swap, k), swap)
                    implies !dylib_matches_at(s0, cmd_off(s0, co_g, swap, k), swap, path_g) by {
                if k < ii {
                    assert(!has_dylib_match(s0, co_g, swap, ii, path_g));
                } else {
                    assert(cmd_off(s0, co_g, swap, k) == off as int);
                }
            }
            assert(!has_dylib_match(s0, co_g, swap, (ii + 1) as nat, path_g));
        }
        last_lc = lc;
        last_off = off;
        off = off + lc.cmdsize as u64;
        i = i + 1;
    }

    let ghost m: nat = (ng - 1) as nat;
    if n > 0 && last_lc.cmd == LC_CODE_SIGNATURE {
        proof {
            assert(last_off as int == sig_pos(s0, co_g, swap, ng));
            assert(cmd_at(s0, sig_pos(s0, co_g, swap, ng), swap) == LC_CODE_SIGNATURE);
        }
        if !options.strip_codesign {
            return Ok(ScanOutcome::KeptSignature);
        }
        proof {
            assert(!is_seg32_linkedit_at(s0, cmd_off(s0, co_g, swap, m), swap));
            assert(!is_seg64_linkedit_at(s0, cmd_off(s0, co_g, swap, m), swap));
            assert(!is_symtab_at(s0, cmd_off(s0, co_g, swap, m), swap));
            assert(sel_linkedit32(s0, co_g, swap, ng) == sel_linkedit32(s0, co_g, swap, m));
            assert(sel_linkedit64(s0, co_g, swap, ng) == sel_linkedit64(s0, co_g, swap, m));
            assert(symtab_idx(s0, co_g, swap, ng) == symtab_idx(s0, co_g, swap, m));
        }
        let sp = last_off;
        let scs = last_lc.cmdsize;
        if mach_header.sizeofcmds < scs {
            proof {
                if scan_input_ok(s0, header_offset as int, co_g, swap, ng, old(mach_header).sizeofcmds as int, *old(slice_size), options.strip_codesign) {
                    lemma_cmd_slot_in_region(s0, co_g, swap, ng, old(mach_header).sizeofcmds as int, m);
                    assert(false);
                }
            }
            return Err(PatchError::Malformed);
        }
        proof {
            assert(s0.len() == len64);
        }
        if len64 - sp < 16 {
            proof {
                if scan_input_ok(s0, header_offset as int, co_g, swap, ng, old(mach_header).sizeofcmds as int, *old(slice_size), options.strip_codesign) {
                    lemma_cmd_slot_in_region(s0, co_g, swap, ng, old(mach_header).sizeofcmds as int, m);
                    assert(cmd_min_size_ok(s0, cmd_off(s0, co_g, swap, m), swap));
                    assert(false);
                }
            }
            return Err(PatchError::OutOfBounds);
        }
        let ldbuf: [u8; 16] = crate::bytes::read_arr::<16>(buf, sp as usize);
        let cmd_ld = crate::macho::LinkeditDataCommand::from(ldbuf, swap);
        proof {
            assert(ldbuf@ =~= s0.subrange(sp as int, sp + 16));
            assert(le32(ldbuf@, 0) == le32(s0, sp as int));
            assert(le32(ldbuf@, 4) == le32(s0, sp + 4));
            assert(le32(ldbuf@, 8) == le32(s0, sp + 8));
            assert(le32(ldbuf@, 12) == le32(s0, sp + 12));
            assert(cmd_ld == sig_ld(s0, co_g, swap, ng));
        }

        let mut linkedit_fileoff: u64 = 0;
        let mut linkedit_filesize: u64 = 0;
        if st.l32_found {
            linkedit_fileoff = st.linkedit_32.fileoff as u64;
            linkedit_filesize = st.linkedit_32.filesize as u64;
            proof {
                let lpos = st.linkedit_32_pos as int;
                assert(le32(s0.subrange(lpos, lpos + 56), 32) == le32(s0, lpos + 32));
                assert(le32(s0.subrange(lpos, lpos + 56), 36) == le32(s0, lpos + 36));
                assert(linkedit_fileoff == crate::patcher::linkedit_fileoff(s0, co_g, swap, m));
                assert(linkedit_filesize == crate::patcher::linkedit_filesize(s0, co_g, swap, m));
            }
        } else if st.l64_found {
            linkedit_fileoff = st.linkedit_64.fileoff;
            linkedit_filesize = st.linkedit_64.filesize;
            proof {
                let lpos = st.linkedit_64_pos as int;
                assert(le64(s0.subrange(lpos, lpos + 72), 40) == le64(s0, lpos + 40));
                assert(le64(s0.subrange(lpos, lpos + 72), 48) == le64(s0, lpos + 48));
                assert(linkedit_fileoff == crate::patcher::linkedit_fileoff(s0, co_g, swap, m));
                assert(linkedit_filesize == crate::patcher::linkedit_filesize(s0, co_g, swap, m));
            }
        } else {
            warnings.push(Warning::NoLinkedit);
            proof {
                assert(warnings@[warnings@.len() - 1] == Warning::NoLinkedit);
                assert(warnings@.contains(Warning::NoLinkedit));
            }
        }

        let mut happy = false;
        if st.l32_found || st.l64_found {
            if !(linkedit_fileoff <= *slice_size && *slice_size - linkedit_fileoff
                == linkedit_filesize) {
                warnings.push(Warning::LinkeditNotAtEnd);
                proof {
                    assert(warnings@[warnings@.len() - 1] == Warning::LinkeditNotAtEnd);
                    assert(warnings@.contains(Warning::LinkeditNotAtEnd));
                }
            } else if !(cmd_ld.dataoff as u64 + cmd_ld.datasize as u64 == *slice_size) {
                warnings.push(Warning::SignatureNotAtLinkeditEnd);
                proof {
                    assert(warnings@[warnings@.len() - 1] == Warning::SignatureNotAtLinkeditEnd);
                    assert(warnings@.contains(Warning::SignatureNotAtLinkeditEnd));
                }
            } else if !(cmd_ld.datasize as u64 <= linkedit_filesize) {
                warnings.push(Warning::SignatureNotAtLinkeditEnd);
                proof {
                    assert(warnings@[warnings@.len() - 1] == Warning::SignatureNotAtLinkeditEnd);
                    assert(warnings@.contains(Warning::SignatureNotAtLinkeditEnd));
                }
            } else {
                happy = true;
            }
        }
        proof {
            assert(happy == strip_happy(s0, co_g, swap, ng, *old(slice_size)));
        }

        if happy {
            if st.symtab_found && len64 - st.symtab_pos < 24 {
                proof {
                    if scan_input_ok(s0, header_offset as int, co_g, swap, ng, old(mach_header).sizeofcmds as int, *old(slice_size), options.strip_codesign) {
                        lemma_symtab_idx_props(s0, co_g, swap, m);
                        let si = symtab_idx(s0, co_g, swap, m).unwrap();
                        let sii: int = si as int;
                        assert(cmd_min_size_ok(s0, cmd_off(s0, co_g, swap, sii as nat), swap));
                        assert(cmd_off(s0, co_g, swap, sii as nat) == cmd_off(s0, co_g, swap, si));
                        lemma_cmd_slot_in_region(s0, co_g, swap, ng, old(mach_header).sizeofcmds as int, si);
                        assert(false);
                    }
                }
                return Err(PatchError::OutOfBounds);
            }
            if !st.l32_found && linkedit_filesize - cmd_ld.datasize as u64 > u64::MAX - 0xfff {
                proof {
                    if scan_input_ok(s0, header_offset as int, co_g, swap, ng, old(mach_header).sizeofcmds as int, *old(slice_size), options.strip_codesign) {
                        assert(false);
                    }
                }
                return Err(PatchError::Malformed);
            }
        } else {
            if header_offset > len64 {
                proof {
                    if scan_input_ok(s0, header_offset as int, co_g, swap, ng, old(mach_header).sizeofcmds as int, *old(slice_size), options.strip_codesign) {
                        assert(false);
                    }
                }
                return Err(PatchError::OutOfBounds);
            }
            if cmd_ld.dataoff as u64 + cmd_ld.datasize as u64 > len64 - header_offset {
                proof {
                    if scan_input_ok(s0, header_offset as int, co_g, swap, ng, old(mach_header).sizeofcmds as int, *old(slice_size), options.strip_codesign) {
                        assert(false);
                    }
                }
                return Err(PatchError::OutOfBounds);
            }
        }

        crate::extensions::InsertDylibFileExt::fbzero(buf, sp, scs as u64);
        let ghost t1 = buf@;
        proof {
            assert(t1 == splice(s0, sp as int, zeros(scs as nat)));
        }

        if happy {
            *slice_size = *slice_size - cmd_ld.datasize as u64;
            let ghost ssnew: u64 = *slice_size;

            if !st.symtab_found {
                warnings.push(Warning::NoSymtab);
                proof {
                    assert(warnings@[warnings@.len() - 1] == Warning::NoSymtab);
                    assert(warnings@.contains(Warning::NoSymtab));
                }
            } else {
                strip_fix_symtab(buf, st.symtab_pos, swap, *slice_size, warnings);
            }
            proof {
                assert(buf@ == symtab_patch(t1, s0, co_g, swap, m, ssnew));
            }
            let ghost t2 = buf@;

            if st.l32_found {
                strip_fix_linkedit32(
                    buf,
                    st.linkedit_32_pos,
                    st.linkedit_32,
                    cmd_ld.datasize,
                    swap,
                    Ghost(s0.subrange(st.linkedit_32_pos as int, st.linkedit_32_pos + 56)),
                );
                proof {
                    assert(buf@ == linkedit_patch(t2, s0, co_g, swap, m, cmd_ld.datasize));
                    assert(buf@ == strip_bytes(
                        s0,
                        header_offset as int,
                        co_g,
                        swap,
                        ng,
                        *old(slice_size),
                    ));
                }
            } else {
                match strip_fix_linkedit64(
                    buf,
                    st.linkedit_64_pos,
                    st.linkedit_64,
                    cmd_ld.datasize,
                    swap,
                    Ghost(s0.subrange(st.linkedit_64_pos as int, st.linkedit_64_pos + 72)),
                ) {
                    Ok(()) => {},
                    Err(_) => {
                        return vstd::pervasive::unreached();
                    },
                }
                proof {
                    assert(buf@ == linkedit_patch(t2, s0, co_g, swap, m, cmd_ld.datasize));
                    assert(buf@ == strip_bytes(
                        s0,
                        header_offset as int,
                        co_g,
                        swap,
                        ng,
                        *old(slice_size),
                    ));
                }
            }
        } else {
            crate::extensions::InsertDylibFileExt::fbzero(
                buf,
                header_offset + cmd_ld.dataoff as u64,
                cmd_ld.datasize as u64,
            );
            proof {
                assert(buf@ == strip_bytes(
                    s0,
                    header_offset as int,
                    co_g,
                    swap,
                    ng,
                    *old(slice_size),
                ));
            }
        }
        let new_sizeofcmds = mach_header.sizeofcmds - scs;
        fix_header(mach_header, n - 1, new_sizeofcmds);
    }

    Ok(ScanOutcome::Append)
}

/// Two buffers that agree on the command region carry the same well-formed
/// command table.
pub proof fn lemma_cmds_wf_frame(
    s1: Seq<u8>,
    s2: Seq<u8>,
    co: int,
    swap: bool,
    n: nat,
    so: int,
)
    requires
        cmds_wf(s1, co, swap, n, so),
        forall|j: int| co <= j < co + so ==> s1[j] == s2[j],
    ensures
        cmds_wf(s2, co, swap, n, so),
{
    lemma_cmd_off_frame(s1, s2, co, swap, n, so, n);
    assert forall|i: int|
        0 <= i < n implies cmdsize_at(s2, #[trigger] cmd_off(s2, co, swap, i as nat), swap)
        >= 8 by {
        lemma_cmd_off_frame(s1, s2, co, swap, n, so, i as nat);
    }
}


/// The size of the appended dylib command: the generic prefix and dylib
/// record, then the path padded with NUL to the next multiple of eight
/// strictly above its length, so at least one NUL always follows the path.
pub open spec fn append_cmdsize(l: int) -> int {
    24 + (l / 8) * 8 + 8
}

/// The header record stored at `ho` of the slice.
pub open spec fn slice_header(s: Seq<u8>, ho: int) -> MachHeader {
    mach_header_of(s.subrange(ho, ho + 32))
}

/// The dylib command the patcher appends for `path`.
pub open spec fn new_dylib_command(path: Seq<u8>, weak: bool) -> DylibCommand {
    DylibCommand {
        cmd: if weak {
            LC_LOAD_WEAK_DYLIB
        } else {
            LC_LOAD_DYLIB
        },
        cmdsize: append_cmdsize(path.len() as int) as u32,
        dylib: Dylib { name_offset: 24, timestamp: 0, current_version: 0, compatibility_version: 0 },
    }
}

/// The whole buffer after the append step on `t`, whose header (already
/// strip-adjusted) is `h1`: the new command and the path bytes at the end of
/// the command region, the padding left as it was, and the header rewritten
/// with both counters raised.
pub open spec fn appended_bytes(
    t: Seq<u8>,
    ho: int,
    h1: MachHeader,
    swap: bool,
    path: Seq<u8>,
    weak: bool,
) -> Seq<u8> {
    let hlen = spec_mach_header_len(h1.magic) as int;
    let co = ho + hlen;
    let cs = append_cmdsize(path.len() as int);
    let h2 = MachHeader {
        ncmds: (h1.ncmds + 1) as u32,
        sizeofcmds: (h1.sizeofcmds + cs) as u32,
        ..h1
    };
    splice(
        splice(t, co + h1.sizeofcmds, dylib_command_bytes(new_dylib_command(path, weak), swap) + path),
        ho,
        mach_header_bytes(h2, swap).take(hlen),
    )
}

/// A structurally sound input to the whole-slice entry point: a thin header,
/// a sound command walk, room for the new command in the slack, and counters
/// that cannot overflow. On such an input the entry point is owed a
/// non-error result.
pub open spec fn slice_input_ok(s: Seq<u8>, ho: int, ss: u64, path: Seq<u8>, strip: bool) -> bool {
    let h = slice_header(s, ho);
    let swap = is_swapped_magic(h.magic);
    let hlen = spec_mach_header_len(h.magic) as int;
    let co = ho + hlen;
    let cs = append_cmdsize(path.len() as int);
    &&& 0 <= ho
    &&& ho + 32 <= s.len()
    &&& is_thin_magic(le32(s, ho))
    &&& scan_input_ok(s, ho, co, swap, h.ncmds as nat, h.sizeofcmds as int, ss, strip)
    &&& co + h.sizeofcmds + cs <= s.len()
    &&& h.ncmds < 0xffffffff
    &&& h.sizeofcmds + cs <= 0xffffffff
}

/// The whole-slice entry point: reads the slice's header, walks its load
/// commands (stripping a trailing code signature when asked to), and appends
/// a load command for `options.dylib_path` into the slack of the command
/// region, raising `ncmds` and `sizeofcmds`. Nothing changes when the dylib
/// is already there or when a trailing signature must be kept.
#[verifier::rlimit(100)]
pub fn patch_slice(
    buf: &mut Vec<u8>,
    header_offset: u64,
    options: &crate::opts::Opts,
    slice_size: &mut u64,
    warnings: &mut Vec<Warning>,
) -> (r: Result<ScanOutcome, PatchError>)
    requires
        header_offset + 32 <= old(buf).len(),
        is_thin_magic(le32(old(buf)@, header_offset as int)),
        options.dylib_path@.len() <= 0x1000000,
    ensures
        final(buf)@.len() == old(buf)@.len(),
        ({
            let s0 = old(buf)@;
            let ho = header_offset as int;
            let h = slice_header(s0, ho);
            let swap = is_swapped_magic(h.magic);
            let co = ho + spec_mach_header_len(h.magic) as int;
            let n = h.ncmds as nat;
            let path = options.dylib_path@;
            let sig_last = n >= 1 && cmd_at(s0, sig_pos(s0, co, swap, n), swap)
                == LC_CODE_SIGNATURE;
            let strip_case = sig_last && options.strip_codesign;
            &&& (r == Ok::<ScanOutcome, PatchError>(ScanOutcome::AlreadyContains) <==> (r is Ok
                && has_dylib_match(s0, co, swap, n, path)))
            &&& r == Ok::<ScanOutcome, PatchError>(ScanOutcome::KeptSignature) ==> sig_last
                && !options.strip_codesign
            &&& (r == Ok::<ScanOutcome, PatchError>(ScanOutcome::AlreadyContains) || r
                == Ok::<ScanOutcome, PatchError>(ScanOutcome::KeptSignature)) ==> final(buf)@
                == s0 && *final(slice_size) == *old(slice_size)
            &&& r == Ok::<ScanOutcome, PatchError>(ScanOutcome::Append) ==> !has_dylib_match(
                s0,
                co,
                swap,
                n,
                path,
            ) && !(sig_last && !options.strip_codesign)
            &&& (r == Ok::<ScanOutcome, PatchError>(ScanOutcome::Append) && !strip_case)
                ==> final(buf)@ == appended_bytes(s0, ho, h, swap, path, options.weak)
                && *final(slice_size) == *old(slice_size)
            &&& (r == Ok::<ScanOutcome, PatchError>(ScanOutcome::Append) && strip_case) ==> ({
                let scs = cmdsize_at(s0, sig_pos(s0, co, swap, n), swap);
                let h1 = MachHeader {
                    ncmds: (n - 1) as u32,
                    sizeofcmds: (h.sizeofcmds - scs) as u32,
                    ..h
                };
                &&& final(buf)@ == appended_bytes(
                    strip_bytes(s0, ho, co, swap, n, *old(slice_size)),
                    ho,
                    h1,
                    swap,
                    path,
                    options.weak,
                )
                &&& *final(slice_size) == strip_new_size(s0, co, swap, n, *old(slice_size))
            })
        }),
        r is Err ==> final(buf)@ == old(buf)@ && *final(slice_size) == *old(slice_size),
        slice_input_ok(
            old(buf)@,
            header_offset as int,
            *old(slice_size),
            options.dylib_path@,
            options.strip_codesign,
        ) ==> r is Ok,
        final(warnings)@.len() >= old(warnings)@.len(),
        forall|j: int|
            0 <= j < old(warnings)@.len() ==> final(warnings)@[j] == old(warnings)@[j],
{
    let ghost s0 = buf@;
    let ghost ho_g: int = header_offset as int;
    proof {
        assert(buf@.len() == buf.len());
    }
    let len64: u64 = buf.len() as u64;
    let hb: [u8; 32] = crate::bytes::read_arr::<32>(buf, header_offset as usize);
    proof {
        assert(hb@ =~= s0.subrange(ho_g, ho_g + 32));
        assert(le32(hb@, 0) == le32(s0, ho_g));
    }
    let mut mach_header = MachHeader::from(hb);
    proof {
        assert(mach_header == slice_header(s0, ho_g));
    }
    let swap = MachHeader::is_little_endian(mach_header.magic);
    let hlen = mach_header.len();
    let commands_offset = header_offset + hlen;
    let ghost co_g: int = commands_offset as int;

    let path_len = options.dylib_path.len();
    let dylib_path_size: u32 = ((path_len as u32) / 8) * 8 + 8;
    let cmdsize: u32 = dylib_path_size + 24;
    proof {
        assert(cmdsize as int == append_cmdsize(options.dylib_path@.len() as int));
    }
    if mach_header.ncmds == u32::MAX {
        return Err(PatchError::Malformed);
    }
    if mach_header.sizeofcmds as u64 + cmdsize as u64 > 0xffffffffu64 {
        return Err(PatchError::Malformed);
    }
    proof {
        assert(commands_offset <= len64);
    }
    if mach_header.sizeofcmds as u64 + cmdsize as u64 > len64 - commands_offset {
        return Err(PatchError::OutOfBounds);
    }
    let ghost n0: u32 = mach_header.ncmds;
    let ghost so0: u32 = mach_header.sizeofcmds;

    let cont = match check_load_commands(
        buf,
        &mut mach_header,
        header_offset,
        commands_offset,
        options,
        slice_size,
        warnings,
    ) {
        Ok(c) => c,
        Err(e) => {
            return Err(e);
        },
    };
    match cont {
        ScanOutcome::AlreadyContains => {
            return Ok(ScanOutcome::AlreadyContains);
        },
        ScanOutcome::KeptSignature => {
            return Ok(ScanOutcome::KeptSignature);
        },
        ScanOutcome::Append => {},
    }

    let ghost t = buf@;
    let ghost h1 = mach_header;
    let so = mach_header.sizeofcmds;
    let pos64 = commands_offset + so as u64;
    proof {
        assert(pos64 + cmdsize as u64 <= len64);
        assert(buf@.len() == s0.len());
    }
    let pos = pos64 as usize;

    let mut empty = true;
    let mut k: usize = 0;
    while k < cmdsize as usize
        invariant
            pos + cmdsize as usize <= buf.len(),
            k <= cmdsize as usize,
            buf@ == t,
        decreases cmdsize as usize - k,
    {
        if buf[pos + k] != 0 {
            empty = false;
        }
        k = k + 1;
    }
    if !empty {
        warnings.push(Warning::NotEnoughSlack);
    }

    let mut dylib_command = DylibCommand::default();
    dylib_command.cmd = if options.weak {
        LC_LOAD_WEAK_DYLIB
    } else {
        LC_LOAD_DYLIB
    };
    dylib_command.cmdsize = cmdsize;
    dylib_command.dylib.name_offset = 24;
    let ghost dc = dylib_command;
    proof {
        assert(dc == new_dylib_command(options.dylib_path@, options.weak));
    }
    let mut dcw = dylib_command;
    if swap {
        crate::macho::FixMachOStructEndian::fix_endian(&mut dcw);
    }
    let dcb: [u8; 24] = dcw.to_u8();
    proof {
        assert(dcb@ =~= dylib_command_bytes(dc, swap));
    }
    crate::bytes::write_arr::<24>(buf, pos, &dcb);
    let ghost tc = buf@;

    let mut j: usize = 0;
    while j < path_len
        invariant
            pos + 24 + path_len <= buf.len(),
            path_len == options.dylib_path@.len(),
            j <= path_len,
            buf@.len() == tc.len(),
            forall|q: int|
                pos + 24 <= q < pos + 24 + j ==> buf@[q] == options.dylib_path@[q - pos - 24],
            forall|q: int|
                0 <= q < buf@.len() && !(pos + 24 <= q < pos + 24 + j) ==> buf@[q] == tc[q],
        decreases path_len - j,
    {
        buf[pos + 24 + j] = options.dylib_path[j];
        j = j + 1;
    }
    proof {
        assert(pos as int == pos64 as int);
        assert(tc == splice(t, pos64 as int, dcb@));
        assert(dylib_command_bytes(dc, swap).len() == 24);
        crate::bytes::lemma_splice(t, pos64 as int, dcb@);
        crate::bytes::lemma_splice(
            t,
            pos64 as int,
            dylib_command_bytes(dc, swap) + options.dylib_path@,
        );
        let pd = dylib_command_bytes(dc, swap) + options.dylib_path@;
        let pi = pos64 as int;
        assert forall|q: int| 0 <= q < buf@.len() implies buf@[q] == splice(t, pi, pd)[q] by {
            if pi <= q < pi + 24 {
                assert(pd[q - pi] == dylib_command_bytes(dc, swap)[q - pi]);
                assert(buf@[q] == tc[q]);
            } else if pi + 24 <= q < pi + pd.len() {
                assert(pd[q - pi] == options.dylib_path@[q - pi - 24]);
            } else {
                assert(buf@[q] == tc[q]);
                assert(tc[q] == t[q]);
            }
        }
        assert(buf@ =~= splice(t, pi, pd));
    }
    let ghost tp = buf@;

    let new_ncmds = mach_header.ncmds + 1;
    let new_sizeofcmds = mach_header.sizeofcmds + cmdsize;
    fix_header(&mut mach_header, new_ncmds, new_sizeofcmds);
    let ghost h2 = mach_header;

    let mut hw = mach_header;
    if swap {
        hw.cputype = crate::bytes::swap_u32(hw.cputype);
        hw.cpusubtype = crate::bytes::swap_u32(hw.cpusubtype);
        hw.filetype = crate::bytes::swap_u32(hw.filetype);
        hw.ncmds = crate::bytes::swap_u32(hw.ncmds);
        hw.sizeofcmds = crate::bytes::swap_u32(hw.sizeofcmds);
        hw.flags = crate::bytes::swap_u32(hw.flags);
        hw.reserved = crate::bytes::swap_u32(hw.reserved);
    }
    let harr: [u8; 32] = hw.to_u8();
    proof {
        assert(harr@ =~= mach_header_bytes(h2, swap));
    }
    let hl = hlen as usize;
    let hoff = header_offset as usize;
    let mut j2: usize = 0;
    while j2 < hl
        invariant
            hoff + hl <= buf.len(),
            hl <= 32,
            j2 <= hl,
            harr@.len() == 32,
            buf@.len() == tp.len(),
            forall|q: int| hoff <= q < hoff + j2 ==> buf@[q] == harr@[q - hoff],
            forall|q: int|
                0 <= q < buf@.len() && !(hoff <= q < hoff + j2) ==> buf@[q] == tp[q],
        decreases hl - j2,
    {
        buf[hoff + j2] = harr[j2];
        j2 = j2 + 1;
    }
    proof {
        crate::bytes::lemma_splice(tp, ho_g, mach_header_bytes(h2, swap).take(hlen as int));
        assert(buf@ =~= splice(tp, ho_g, mach_header_bytes(h2, swap).take(hlen as int)));
        assert(buf@ == appended_bytes(t, ho_g, h1, swap, options.dylib_path@, options.weak));
    }
    Ok(ScanOutcome::Append)
}

} // verus!
