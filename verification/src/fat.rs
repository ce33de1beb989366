//! The fat-binary driver and the top-level coordinator: a universal binary
//! is re-packed slice by slice, each slice re-aligned after its predecessors
//! may have changed size, patched in place, and the fat header and arch
//! table rewritten; the coordinator dispatches on the leading magic word.

use vstd::prelude::*;

use crate::bytes::{le32, read_u32, write_arr};
use crate::consts::{is_thin_magic, FAT_CIGAM, FAT_MAGIC, MH_CIGAM, MH_CIGAM_64, MH_MAGIC, MH_MAGIC_64};
use crate::extensions::InsertDylibFileExt;
use crate::macho::{fat_arch_bytes, fat_header_bytes, lemma_fat_header_round_trip, FatArch, FatHeader, FixMachOStructEndian};
use crate::opts::Opts;
use crate::patcher::{patch_slice, PatchError, Warning};
use crate::utils::round_up_u64;

verus! {

/// What a run over a fat binary produced: the final file length, how many
/// arches could not be patched, and the rewritten arch table.
pub struct FatOutcome {
    pub filesize: u64,
    pub fails: u32,
    pub archs: Vec<FatArch>,
}

/// Re-packs and patches every slice of a fat binary, then rewrites the fat
/// header and arch table and cuts the buffer to the new length. Each arch is
/// moved forward to the next multiple of its alignment when its predecessors
/// changed size; a slice whose magic is not a thin Mach-O is reported and
/// left unpatched. On success every arch of the rewritten table is aligned,
/// the arches are ordered and non-overlapping, the table and fat header
/// stand encoded in the buffer, and the buffer ends exactly after the last
/// arch.
#[verifier::rlimit(100)]
pub fn patch_fat(buf: &mut Vec<u8>, options: &Opts, warnings: &mut Vec<Warning>) -> (r: Result<
    FatOutcome,
    PatchError,
>)
    requires
        options.dylib_path@.len() <= 0x1000000,
    ensures
        r matches Ok(o) ==> ({
            let swap = (le32(old(buf)@, 0) == FAT_CIGAM);
            &&& final(buf)@.len() == o.filesize
            &&& final(buf)@.subrange(0, 8) == old(buf)@.subrange(0, 8)
            &&& forall|k: int|
                0 <= k < o.archs@.len() ==> (#[trigger] o.archs@[k]).align < 64 && (
                o.archs@[k].offset as u64) % (1u64 << (o.archs@[k].align as u64)) == 0 && (k + 1
                    < o.archs@.len() ==> o.archs@[k].offset as u64 + o.archs@[k].size as u64
                    <= o.archs@[k + 1].offset as u64)
            &&& forall|k: int|
                0 <= k < o.archs@.len() ==> final(buf)@.subrange(8 + 20 * k, 28 + 20 * k)
                    == fat_arch_bytes(#[trigger] o.archs@[k], swap)
            &&& o.archs@.len() > 0 ==> o.filesize == o.archs@[o.archs@.len() - 1].offset as u64
                + o.archs@[o.archs@.len() - 1].size as u64
        }),
{
    let ghost s0 = buf@;
    proof {
        assert(buf@.len() == buf.len());
    }
    if buf.len() < 8 {
        return Err(PatchError::OutOfBounds);
    }
    let magic0 = read_u32(buf, 0);
    let is_little_endian = magic0 == FAT_CIGAM;
    let fh = FatHeader::from(crate::bytes::read_arr::<8>(buf, 0), is_little_endian);
    proof {
        assert(crate::bytes::enc32(le32(s0, 0)).len() == 4);
    }
    let nfat = fh.nfat_arch;
    let len0: u64 = buf.len() as u64;
    if (len0 - 8) / 20 < nfat as u64 {
        return Err(PatchError::OutOfBounds);
    }
    let table_end: u64 = 8 + 20 * nfat as u64;
    proof {
        assert(table_end <= len0) by (nonlinear_arith)
            requires
                (len0 - 8) / 20 >= nfat as u64,
                len0 >= 8,
                table_end == 8 + 20 * nfat as u64,
        ;
    }

    let mut archs: Vec<FatArch> = Vec::new();
    let mut idx: u32 = 0;
    while idx < nfat
        invariant
            buf@ == s0,
            len0 == buf.len() as u64,
            table_end == 8 + 20 * nfat as u64,
            table_end <= len0,
            idx <= nfat,
            archs@.len() == idx as int,
        decreases nfat - idx,
    {
        let pos: u64 = 8 + 20 * idx as u64;
        proof {
            assert(pos + 20 <= table_end);
        }
        let ab: [u8; 20] = crate::bytes::read_arr::<20>(buf, pos as usize);
        archs.push(FatArch::from(ab, is_little_endian));
        idx = idx + 1;
    }

    let mut v: u32 = 0;
    while v < nfat
        invariant
            buf@ == s0,
            len0 == buf.len() as u64,
            table_end <= len0,
            v <= nfat,
            archs@.len() == nfat as int,
            forall|q: int|
                0 <= q < v ==> (#[trigger] archs@[q]).align < 64 && archs@[q].offset as u64
                    + archs@[q].size as u64 <= len0 && archs@[q].offset as u64 >= table_end,
        decreases nfat - v,
    {
        let a = archs[v as usize];
        if a.align >= 64 {
            return Err(PatchError::Malformed);
        }
        if a.offset as u64 + a.size as u64 > len0 {
            return Err(PatchError::OutOfBounds);
        }
        if (a.offset as u64) < table_end {
            return Err(PatchError::Malformed);
        }
        v = v + 1;
    }

    let mut fails: u32 = 0;
    let mut offset: u64 = 0;
    if nfat > 0 {
        offset = archs[0].offset as u64;
    }
    let mut filesize: u64 = len0;
    let mut k: u32 = 0;
    while k < nfat
        invariant
            options.dylib_path@.len() <= 0x1000000,
            buf.len() as u64 >= len0,
            table_end <= len0,
            k <= nfat,
            archs@.len() == nfat as int,
            forall|q: int|
                k <= q < nfat ==> (#[trigger] archs@[q]).align < 64 && archs@[q].offset as u64
                    + archs@[q].size as u64 <= len0 && archs@[q].offset as u64 >= table_end,
            forall|q: int|
                0 <= q < k ==> (#[trigger] archs@[q]).align < 64 && (archs@[q].offset as u64) % (
                1u64 << (archs@[q].align as u64)) == 0 && archs@[q].offset as u64 >= table_end
                    && archs@[q].offset as u64 + archs@[q].size as u64 <= buf.len() as u64,
            forall|q: int|
                0 <= q < k - 1 ==> (#[trigger] archs@[q]).offset as u64 + archs@[q].size as u64
                    <= archs@[q + 1].offset as u64,
            k > 0 ==> offset == archs@[k - 1].offset as u64 + archs@[k - 1].size as u64
                && filesize == offset,
            k == 0 && nfat > 0 ==> offset == archs@[0].offset as u64,
            filesize <= buf.len() as u64,
            k == 0 ==> filesize == len0,
        decreases nfat - k,
    {
        let a = archs[k as usize];
        proof {
            let av: u32 = a.align;
            assert(av < 64 ==> 1u64 << (av as u64) >= 1) by (bit_vector);
        }
        let align: u64 = 1u64 << (a.align as u64);
        if offset > u64::MAX - (align - 1) {
            return Err(PatchError::Malformed);
        }
        offset = round_up_u64(offset, align);
        if offset > 0xffffffffu64 {
            return Err(PatchError::Malformed);
        }
        let orig_offset = a.offset as u64;
        let orig_size = a.size as u64;
        if orig_offset != offset {
            let needed = offset + orig_size;
            if needed > usize::MAX as u64 {
                return Err(PatchError::Malformed);
            }
            if needed > buf.len() as u64 {
                buf.resize(needed as usize, 0u8);
            }
            buf.fmemmove(offset, orig_offset, orig_size);
            let diff = if offset > orig_offset {
                offset - orig_offset
            } else {
                orig_offset - offset
            };
            let lower = if offset < orig_offset {
                offset
            } else {
                orig_offset
            };
            buf.fbzero(lower + orig_size, diff);
        }

        let mut slice_size: u64 = orig_size;
        if buf.len() as u64 - offset < 32 {
            return Err(PatchError::OutOfBounds);
        }
        let m32 = read_u32(buf, offset as usize);
        if m32 == MH_MAGIC || m32 == MH_CIGAM || m32 == MH_MAGIC_64 || m32 == MH_CIGAM_64 {
            match patch_slice(buf, offset, options, &mut slice_size, warnings) {
                Ok(_) => {},
                Err(e) => {
                    return Err(e);
                },
            }
        } else {
            warnings.push(Warning::UnknownInnerMagic);
            if fails < u32::MAX {
                fails = fails + 1;
            }
        }
        if slice_size > 0xffffffffu64 {
            return Err(PatchError::Malformed);
        }
        if offset > buf.len() as u64 || slice_size > buf.len() as u64 - offset {
            return Err(PatchError::Malformed);
        }
        if slice_size < orig_size && k + 1 < nfat {
            buf.fbzero(offset + slice_size, orig_size - slice_size);
        }

        filesize = offset + slice_size;
        let mut a2 = a;
        a2.offset = offset as u32;
        a2.size = slice_size as u32;
        archs[k as usize] = a2;
        offset = offset + slice_size;
        k = k + 1;
    }

    let mut fhw = fh;
    if is_little_endian {
        fhw.fix_endian();
    }
    let hb: [u8; 8] = fhw.to_u8();
    proof {
        assert(hb@ =~= fat_header_bytes(fh, is_little_endian));
        lemma_fat_header_round_trip(s0.subrange(0, 8), is_little_endian);
        assert(fat_header_bytes(fh, is_little_endian) == s0.subrange(0, 8));
    }
    write_arr::<8>(buf, 0, &hb);
    let ghost th = buf@;

    let mut w: u32 = 0;
    while w < nfat
        invariant
            table_end == 8 + 20 * nfat as u64,
            table_end <= len0,
            filesize <= buf.len() as u64,
            buf@.len() == th.len(),
            th.len() >= len0,
            w <= nfat,
            archs@.len() == nfat as int,
            th.subrange(0, 8) == s0.subrange(0, 8),
            forall|q: int|
                0 <= q < w ==> buf@.subrange(8 + 20 * q, 28 + 20 * q) == fat_arch_bytes(
                    #[trigger] archs@[q],
                    is_little_endian,
                ),
            forall|j: int| 0 <= j < buf@.len() && !(8 <= j < 8 + 20 * w) ==> buf@[j] == th[j],
        decreases nfat - w,
    {
        let mut aw = archs[w as usize];
        let ghost a_plain = aw;
        if is_little_endian {
            aw.fix_endian();
        }
        let ab: [u8; 20] = aw.to_u8();
        proof {
            assert(ab@ =~= fat_arch_bytes(a_plain, is_little_endian));
        }
        let pos: u64 = 8 + 20 * w as u64;
        proof {
            assert(pos + 20 <= table_end);
        }
        write_arr::<20>(buf, pos as usize, &ab);
        w = w + 1;
    }

    if filesize > buf.len() as u64 {
        return Err(PatchError::Malformed);
    }
    let ghost tt = buf@;
    buf.truncate(filesize as usize);
    proof {
        assert(buf@ == tt.subrange(0, filesize as int));
        assert(nfat > 0 ==> filesize >= table_end);
        assert(nfat == 0 ==> filesize == len0 >= 8);
        assert(buf@.subrange(0, 8) =~= s0.subrange(0, 8));
        assert forall|q: int| 0 <= q < nfat implies buf@.subrange(8 + 20 * q, 28 + 20 * q)
            == fat_arch_bytes(#[trigger] archs@[q], is_little_endian) by {
            assert(28 + 20 * q <= table_end);
            assert(tt.subrange(8 + 20 * q, 28 + 20 * q) == fat_arch_bytes(
                archs@[q],
                is_little_endian,
            ));
            assert(buf@.subrange(8 + 20 * q, 28 + 20 * q) =~= tt.subrange(
                8 + 20 * q,
                28 + 20 * q,
            ));
        }
    }
    Ok(FatOutcome { filesize, fails, archs })
}

/// The coordinator: reads the leading magic word and dispatches. A thin
/// Mach-O is patched at offset zero and the buffer cut to the slice's final
/// size; a fat binary goes through the fat driver; anything else is reported
/// as not a Mach-O binary and left untouched.
pub fn patch_binary(buf: &mut Vec<u8>, options: &Opts, warnings: &mut Vec<Warning>) -> (r: Result<
    Option<u64>,
    PatchError,
>)
    requires
        options.dylib_path@.len() <= 0x1000000,
    ensures
        r matches Ok(o) ==> ({
            &&& (o is None <==> !(old(buf)@.len() >= 4 && (is_thin_magic(le32(old(buf)@, 0))
                || le32(old(buf)@, 0) == FAT_MAGIC || le32(old(buf)@, 0) == FAT_CIGAM)))
            &&& o is None ==> final(buf)@ == old(buf)@
            &&& o matches Some(fs) ==> final(buf)@.len() == fs
        }),
{
    proof {
        assert(buf@.len() == buf.len());
    }
    if buf.len() < 4 {
        return Ok(None);
    }
    let magic = read_u32(buf, 0);
    match magic {
        MH_CIGAM_64 | MH_MAGIC_64 | MH_CIGAM | MH_MAGIC => {
            if buf.len() < 32 {
                return Err(PatchError::OutOfBounds);
            }
            let mut filesize: u64 = buf.len() as u64;
            match patch_slice(buf, 0, options, &mut filesize, warnings) {
                Ok(_) => {},
                Err(e) => {
                    return Err(e);
                },
            }
            if filesize > buf.len() as u64 {
                return Err(PatchError::Malformed);
            }
            buf.truncate(filesize as usize);
            Ok(Some(filesize))
        },
        FAT_MAGIC | FAT_CIGAM => {
            match patch_fat(buf, options, warnings) {
                Ok(o) => Ok(Some(o.filesize)),
                Err(e) => Err(e),
            }
        },
        _ => Ok(None),
    }
}

} // verus!
