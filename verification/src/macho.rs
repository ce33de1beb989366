//! On-disk records of the Mach-O format: fat header and arch entries, Mach-O
//! header, segment commands (32- and 64-bit), generic load-command prefix,
//! linkedit-data command, dylib command and symtab command.
//!
//! Every record decodes from its exact byte layout with `from` and encodes
//! back with `to_u8`. Fields are read as little-endian words and byte-swapped
//! iff the container's magic is a `_CIGAM` variant; `segname` is opaque bytes.
//! Encoding writes the in-memory fields back as little-endian words, so a
//! swapped container is re-encoded by swapping the record first (`fix_endian`).

use vstd::prelude::*;

use crate::bytes::{
    arr_read_u32, arr_read_u64, arr_write_u32, arr_write_u64, enc32, enc64, le32, le64,
    lemma_enc32_le32, lemma_enc64_le64, lemma_le32_enc32, lemma_norm32_involution,
    lemma_norm64_involution, lemma_splice, norm32, norm64, splice, swap32, swap64, swap_u32,
    swap_u64,
};
use crate::consts::{
    is_known_magic, is_swapped_magic, FAT_CIGAM, FAT_MAGIC, MH_CIGAM, MH_CIGAM_64, MH_MAGIC,
    MH_MAGIC_64,
};

verus! {

broadcast use lemma_splice;

/// Byte-swapping of every integer field of a record, as decode applies it to a
/// swapped container and encode applies it again before writing back.
pub trait FixMachOStructEndian: Sized {
    /// The record with every integer field byte-swapped.
    spec fn swapped(&self) -> Self;

    fn fix_endian(&mut self)
        ensures
            *final(self) == old(self).swapped(),
    ;
}

#[derive(Debug, Clone, Copy, PartialEq, Eq)]
pub struct FatHeader {
    pub magic: u32,
    pub nfat_arch: u32,
}

/// The fat header stored in the eight bytes `b`, with fields byte-swapped iff
/// `swap`.
pub open spec fn fat_header_of(b: Seq<u8>, swap: bool) -> FatHeader {
    FatHeader { magic: norm32(le32(b, 0), swap), nfat_arch: norm32(le32(b, 4), swap) }
}

/// The eight bytes that encode `h`, with fields byte-swapped iff `swap`.
pub open spec fn fat_header_bytes(h: FatHeader, swap: bool) -> Seq<u8> {
    enc32(norm32(h.magic, swap)) + enc32(norm32(h.nfat_arch, swap))
}

impl FatHeader {
    pub fn from(buffer: [u8; 8], is_little_endian: bool) -> (r: FatHeader)
        ensures
            r == fat_header_of(buffer@, is_little_endian),
    {
        let mut fat_header = FatHeader {
            magic: arr_read_u32(&buffer, 0),
            nfat_arch: arr_read_u32(&buffer, 4),
        };
        if is_little_endian {
            fat_header.fix_endian();
        }
        fat_header
    }

    pub fn to_u8(&self) -> (r: [u8; 8])
        ensures
            r@ == fat_header_bytes(*self, false),
    {
        let mut data: [u8; 8] = [0u8; 8];
        arr_write_u32(&mut data, 0, self.magic);
        arr_write_u32(&mut data, 4, self.nfat_arch);
        proof {
            assert(data@ =~= fat_header_bytes(*self, false));
        }
        data
    }
}

impl FixMachOStructEndian for FatHeader {
    open spec fn swapped(&self) -> FatHeader {
        FatHeader { magic: swap32(self.magic), nfat_arch: swap32(self.nfat_arch) }
    }

    fn fix_endian(&mut self) {
        self.magic = swap_u32(self.magic);
        self.nfat_arch = swap_u32(self.nfat_arch);
    }
}

/// Re-encoding a decoded fat header restores the original bytes.
pub proof fn lemma_fat_header_round_trip(b: Seq<u8>, swap: bool)
    requires
        b.len() == 8,
    ensures
        fat_header_bytes(fat_header_of(b, swap), swap) == b,
{
    lemma_norm32_involution(le32(b, 0), swap);
    lemma_norm32_involution(le32(b, 4), swap);
    lemma_enc32_le32(b, 0);
    lemma_enc32_le32(b, 4);
    assert(fat_header_bytes(fat_header_of(b, swap), swap) =~= b);
}

#[derive(Debug, Clone, Copy, PartialEq, Eq)]
pub struct FatArch {
    pub cputype: u32,
    pub cpusubtype: u32,
    pub offset: u32,
    pub size: u32,
    pub align: u32,
}

/// The fat arch entry stored in the twenty bytes `b`, with fields byte-swapped
/// iff `swap`.
pub open spec fn fat_arch_of(b: Seq<u8>, swap: bool) -> FatArch {
    FatArch {
        cputype: norm32(le32(b, 0), swap),
        cpusubtype: norm32(le32(b, 4), swap),
        offset: norm32(le32(b, 8), swap),
        size: norm32(le32(b, 12), swap),
        align: norm32(le32(b, 16), swap),
    }
}

/// The twenty bytes that encode `a`, with fields byte-swapped iff `swap`.
pub open spec fn fat_arch_bytes(a: FatArch, swap: bool) -> Seq<u8> {
    enc32(norm32(a.cputype, swap)) + enc32(norm32(a.cpusubtype, swap)) + enc32(
        norm32(a.offset, swap),
    ) + enc32(norm32(a.size, swap)) + enc32(norm32(a.align, swap))
}

impl FatArch {
    pub fn from(buffer: [u8; 20], is_little_endian: bool) -> (r: FatArch)
        ensures
            r == fat_arch_of(buffer@, is_little_endian),
    {
        let mut fat_arch = FatArch {
            cputype: arr_read_u32(&buffer, 0),
            cpusubtype: arr_read_u32(&buffer, 4),
            offset: arr_read_u32(&buffer, 8),
            size: arr_read_u32(&buffer, 12),
            align: arr_read_u32(&buffer, 16),
        };
        if is_little_endian {
            fat_arch.fix_endian();
        }
        fat_arch
    }

    pub fn to_u8(&self) -> (r: [u8; 20])
        ensures
            r@ == fat_arch_bytes(*self, false),
    {
        let mut data: [u8; 20] = [0u8; 20];
        arr_write_u32(&mut data, 0, self.cputype);
        arr_write_u32(&mut data, 4, self.cpusubtype);
        arr_write_u32(&mut data, 8, self.offset);
        arr_write_u32(&mut data, 12, self.size);
        arr_write_u32(&mut data, 16, self.align);
        proof {
            assert(data@ =~= fat_arch_bytes(*self, false));
        }
        data
    }
}

impl FixMachOStructEndian for FatArch {
    open spec fn swapped(&self) -> FatArch {
        FatArch {
            cputype: swap32(self.cputype),
            cpusubtype: swap32(self.cpusubtype),
            offset: swap32(self.offset),
            size: swap32(self.size),
            align: swap32(self.align),
        }
    }

    fn fix_endian(&mut self) {
        self.cputype = swap_u32(self.cputype);
        self.cpusubtype = swap_u32(self.cpusubtype);
        self.offset = swap_u32(self.offset);
        self.size = swap_u32(self.size);
        self.align = swap_u32(self.align);
    }
}

/// Re-encoding a decoded fat arch entry restores the original bytes.
pub proof fn lemma_fat_arch_round_trip(b: Seq<u8>, swap: bool)
    requires
        b.len() == 20,
    ensures
        fat_arch_bytes(fat_arch_of(b, swap), swap) == b,
{
    lemma_norm32_involution(le32(b, 0), swap);
    lemma_norm32_involution(le32(b, 4), swap);
    lemma_norm32_involution(le32(b, 8), swap);
    lemma_norm32_involution(le32(b, 12), swap);
    lemma_norm32_involution(le32(b, 16), swap);
    lemma_enc32_le32(b, 0);
    lemma_enc32_le32(b, 4);
    lemma_enc32_le32(b, 8);
    lemma_enc32_le32(b, 12);
    lemma_enc32_le32(b, 16);
    assert(fat_arch_bytes(fat_arch_of(b, swap), swap) =~= b);
}

#[derive(Debug, Clone, Copy, PartialEq, Eq)]
pub struct MachHeader {
    pub magic: u32,
    pub cputype: u32,
    pub cpusubtype: u32,
    pub filetype: u32,
    pub ncmds: u32,
    pub sizeofcmds: u32,
    pub flags: u32,
    pub reserved: u32,
}

/// The Mach-O header stored in the thirty-two bytes `b`. The magic keeps its
/// raw little-endian reading, so that it still tells whether the slice is
/// swapped; every other field is brought to host order.
pub open spec fn mach_header_of(b: Seq<u8>) -> MachHeader {
    let swap = is_swapped_magic(le32(b, 0));
    MachHeader {
        magic: le32(b, 0),
        cputype: norm32(le32(b, 4), swap),
        cpusubtype: norm32(le32(b, 8), swap),
        filetype: norm32(le32(b, 12), swap),
        ncmds: norm32(le32(b, 16), swap),
        sizeofcmds: norm32(le32(b, 20), swap),
        flags: norm32(le32(b, 24), swap),
        reserved: norm32(le32(b, 28), swap),
    }
}

/// The thirty-two bytes that encode `h`: the magic as it stands, every other
/// field byte-swapped iff `swap`.
pub open spec fn mach_header_bytes(h: MachHeader, swap: bool) -> Seq<u8> {
    enc32(h.magic) + enc32(norm32(h.cputype, swap)) + enc32(norm32(h.cpusubtype, swap)) + enc32(
        norm32(h.filetype, swap),
    ) + enc32(norm32(h.ncmds, swap)) + enc32(norm32(h.sizeofcmds, swap)) + enc32(
        norm32(h.flags, swap),
    ) + enc32(norm32(h.reserved, swap))
}

/// The size of the Mach-O header for a given magic: twenty-eight bytes for a
/// 32-bit slice, thirty-two for a 64-bit one.
pub open spec fn spec_mach_header_len(magic: u32) -> u64 {
    if magic == MH_MAGIC || magic == MH_CIGAM {
        28u64
    } else {
        32u64
    }
}

impl MachHeader {
    pub fn from(buffer: [u8; 32]) -> (r: MachHeader)
        requires
            is_known_magic(le32(buffer@, 0)),
        ensures
            r == mach_header_of(buffer@),
    {
        let magic = arr_read_u32(&buffer, 0);
        let mut mach_header = MachHeader {
            magic,
            cputype: arr_read_u32(&buffer, 4),
            cpusubtype: arr_read_u32(&buffer, 8),
            filetype: arr_read_u32(&buffer, 12),
            ncmds: arr_read_u32(&buffer, 16),
            sizeofcmds: arr_read_u32(&buffer, 20),
            flags: arr_read_u32(&buffer, 24),
            reserved: arr_read_u32(&buffer, 28),
        };

        if MachHeader::is_little_endian(magic) {
            mach_header.cputype = swap_u32(mach_header.cputype);
            mach_header.cpusubtype = swap_u32(mach_header.cpusubtype);
            mach_header.filetype = swap_u32(mach_header.filetype);
            mach_header.ncmds = swap_u32(mach_header.ncmds);
            mach_header.sizeofcmds = swap_u32(mach_header.sizeofcmds);
            mach_header.flags = swap_u32(mach_header.flags);
            mach_header.reserved = swap_u32(mach_header.reserved);
        }

        mach_header
    }

    /// Whether `magic` is a `_CIGAM` variant, i.e. the container's fields must
    /// be byte-swapped relative to their little-endian reading.
    pub fn is_little_endian(magic: u32) -> (r: bool)
        requires
            is_known_magic(magic),
        ensures
            r == is_swapped_magic(magic),
    {
        match magic {
            FAT_CIGAM | MH_CIGAM_64 | MH_CIGAM => true,
            _ => false,
        }
    }

    pub fn to_u8(&self) -> (r: [u8; 32])
        ensures
            r@ == mach_header_bytes(*self, false),
    {
        let mut data: [u8; 32] = [0u8; 32];
        arr_write_u32(&mut data, 0, self.magic);
        arr_write_u32(&mut data, 4, self.cputype);
        arr_write_u32(&mut data, 8, self.cpusubtype);
        arr_write_u32(&mut data, 12, self.filetype);
        arr_write_u32(&mut data, 16, self.ncmds);
        arr_write_u32(&mut data, 20, self.sizeofcmds);
        arr_write_u32(&mut data, 24, self.flags);
        arr_write_u32(&mut data, 28, self.reserved);
        proof {
            assert(data@ =~= mach_header_bytes(*self, false));
        }
        data
    }

    pub fn len(&self) -> (r: u64)
        requires
            self.magic == MH_MAGIC || self.magic == MH_CIGAM || self.magic == MH_MAGIC_64
                || self.magic == MH_CIGAM_64,
        ensures
            r == spec_mach_header_len(self.magic),
    {
        match self.magic {
            MH_MAGIC | MH_CIGAM => 28,
            _ => 32,
        }
    }
}

impl FixMachOStructEndian for MachHeader {
    open spec fn swapped(&self) -> MachHeader {
        MachHeader {
            magic: swap32(self.magic),
            cputype: swap32(self.cputype),
            cpusubtype: swap32(self.cpusubtype),
            filetype: swap32(self.filetype),
            ncmds: swap32(self.ncmds),
            sizeofcmds: swap32(self.sizeofcmds),
            flags: swap32(self.flags),
            reserved: swap32(self.reserved),
        }
    }

    fn fix_endian(&mut self) {
        self.magic = swap_u32(self.magic);
        self.cputype = swap_u32(self.cputype);
        self.cpusubtype = swap_u32(self.cpusubtype);
        self.filetype = swap_u32(self.filetype);
        self.ncmds = swap_u32(self.ncmds);
        self.sizeofcmds = swap_u32(self.sizeofcmds);
        self.flags = swap_u32(self.flags);
        self.reserved = swap_u32(self.reserved);
    }
}

/// Re-encoding a decoded Mach-O header restores the original bytes.
pub proof fn lemma_mach_header_round_trip(b: Seq<u8>)
    requires
        b.len() == 32,
    ensures
        mach_header_bytes(mach_header_of(b), is_swapped_magic(le32(b, 0))) == b,
{
    let swap = is_swapped_magic(le32(b, 0));
    lemma_norm32_involution(le32(b, 4), swap);
    lemma_norm32_involution(le32(b, 8), swap);
    lemma_norm32_involution(le32(b, 12), swap);
    lemma_norm32_involution(le32(b, 16), swap);
    lemma_norm32_involution(le32(b, 20), swap);
    lemma_norm32_involution(le32(b, 24), swap);
    lemma_norm32_involution(le32(b, 28), swap);
    lemma_enc32_le32(b, 0);
    lemma_enc32_le32(b, 4);
    lemma_enc32_le32(b, 8);
    lemma_enc32_le32(b, 12);
    lemma_enc32_le32(b, 16);
    lemma_enc32_le32(b, 20);
    lemma_enc32_le32(b, 24);
    lemma_enc32_le32(b, 28);
    assert(mach_header_bytes(mach_header_of(b), is_swapped_magic(le32(b, 0))) =~= b);
}

#[derive(Debug, Clone, Copy, PartialEq, Eq)]
pub struct SegmentCommand {
    pub cmd: u32,
    pub cmdsize: u32,
    pub segname: [u8; 16],
    pub vmaddr: u32,
    pub vmsize: u32,
    pub fileoff: u32,
    pub filesize: u32,
    pub maxprot: u32,
    pub initprot: u32,
    pub nsects: u32,
    pub flags: u32,
}

/// `c` is the 32-bit segment command stored in the fifty-six bytes `b`, with
/// integer fields byte-swapped iff `swap`; `segname` is opaque bytes.
pub open spec fn seg32_matches(c: SegmentCommand, b: Seq<u8>, swap: bool) -> bool {
    &&& c.cmd == norm32(le32(b, 0), swap)
    &&& c.cmdsize == norm32(le32(b, 4), swap)
    &&& c.segname@ == b.subrange(8, 24)
    &&& c.vmaddr == norm32(le32(b, 24), swap)
    &&& c.vmsize == norm32(le32(b, 28), swap)
    &&& c.fileoff == norm32(le32(b, 32), swap)
    &&& c.filesize == norm32(le32(b, 36), swap)
    &&& c.maxprot == norm32(le32(b, 40), swap)
    &&& c.initprot == norm32(le32(b, 44), swap)
    &&& c.nsects == norm32(le32(b, 48), swap)
    &&& c.flags == norm32(le32(b, 52), swap)
}

/// The fifty-six bytes that encode `c`, with integer fields byte-swapped iff
/// `swap`.
pub open spec fn seg32_bytes(c: SegmentCommand, swap: bool) -> Seq<u8> {
    enc32(norm32(c.cmd, swap)) + enc32(norm32(c.cmdsize, swap)) + c.segname@ + enc32(
        norm32(c.vmaddr, swap),
    ) + enc32(norm32(c.vmsize, swap)) + enc32(norm32(c.fileoff, swap)) + enc32(
        norm32(c.filesize, swap),
    ) + enc32(norm32(c.maxprot, swap)) + enc32(norm32(c.initprot, swap)) + enc32(
        norm32(c.nsects, swap),
    ) + enc32(norm32(c.flags, swap))
}

impl SegmentCommand {
    pub fn default() -> (r: SegmentCommand)
        ensures
            r.cmd == 0 && r.cmdsize == 0 && r.segname@ == crate::bytes::zeros(16) && r.vmaddr == 0
                && r.vmsize == 0 && r.fileoff == 0 && r.filesize == 0 && r.maxprot == 0
                && r.initprot == 0 && r.nsects == 0 && r.flags == 0,
    {
        let r = SegmentCommand {
            cmd: 0,
            cmdsize: 0,
            segname: [0u8; 16],
            vmaddr: 0,
            vmsize: 0,
            fileoff: 0,
            filesize: 0,
            maxprot: 0,
            initprot: 0,
            nsects: 0,
            flags: 0,
        };
        proof {
            assert(r.segname@ =~= crate::bytes::zeros(16));
        }
        r
    }

    pub fn from(buffer: [u8; 56], is_little_endian: bool) -> (r: SegmentCommand)
        ensures
            seg32_matches(r, buffer@, is_little_endian),
    {
        let mut segname: [u8; 16] = [0u8; 16];
        for j in 0..16usize
            invariant
                segname@.len() == 16,
                forall|k: int| 0 <= k < j ==> segname@[k] == buffer@[8 + k],
        {
            segname[j] = buffer[8 + j];
        }
        let mut segment_command = SegmentCommand {
            cmd: arr_read_u32(&buffer, 0),
            cmdsize: arr_read_u32(&buffer, 4),
            segname,
            vmaddr: arr_read_u32(&buffer, 24),
            vmsize: arr_read_u32(&buffer, 28),
            fileoff: arr_read_u32(&buffer, 32),
            filesize: arr_read_u32(&buffer, 36),
            maxprot: arr_read_u32(&buffer, 40),
            initprot: arr_read_u32(&buffer, 44),
            nsects: arr_read_u32(&buffer, 48),
            flags: arr_read_u32(&buffer, 52),
        };

        if is_little_endian {
            segment_command.cmd = swap_u32(segment_command.cmd);
            segment_command.cmdsize = swap_u32(segment_command.cmdsize);
            segment_command.vmaddr = swap_u32(segment_command.vmaddr);
            segment_command.vmsize = swap_u32(segment_command.vmsize);
            segment_command.fileoff = swap_u32(segment_command.fileoff);
            segment_command.filesize = swap_u32(segment_command.filesize);
            segment_command.maxprot = swap_u32(segment_command.maxprot);
            segment_command.initprot = swap_u32(segment_command.initprot);
            segment_command.nsects = swap_u32(segment_command.nsects);
            segment_command.flags = swap_u32(segment_command.flags);
        }

        proof {
            assert(segment_command.segname@ =~= buffer@.subrange(8, 24));
        }
        segment_command
    }

    pub fn to_u8(&self) -> (r: [u8; 56])
        ensures
            r@ == seg32_bytes(*self, false),
    {
        let mut data: [u8; 56] = [0u8; 56];
        arr_write_u32(&mut data, 0, self.cmd);
        arr_write_u32(&mut data, 4, self.cmdsize);
        for j in 0..16usize
            invariant
                data@.len() == 56,
                forall|k: int| 0 <= k < 8 ==> data@[k] == seg32_bytes(*self, false)[k],
                forall|k: int| 0 <= k < j ==> data@[8 + k] == self.segname@[k],
        {
            data[8 + j] = self.segname[j];
        }
        arr_write_u32(&mut data, 24, self.vmaddr);
        arr_write_u32(&mut data, 28, self.vmsize);
        arr_write_u32(&mut data, 32, self.fileoff);
        arr_write_u32(&mut data, 36, self.filesize);
        arr_write_u32(&mut data, 40, self.maxprot);
        arr_write_u32(&mut data, 44, self.initprot);
        arr_write_u32(&mut data, 48, self.nsects);
        arr_write_u32(&mut data, 52, self.flags);
        proof {
            assert(data@ =~= seg32_bytes(*self, false));
        }
        data
    }
}

impl FixMachOStructEndian for SegmentCommand {
    open spec fn swapped(&self) -> SegmentCommand {
        SegmentCommand {
            cmd: swap32(self.cmd),
            cmdsize: swap32(self.cmdsize),
            segname: self.segname,
            vmaddr: swap32(self.vmaddr),
            vmsize: swap32(self.vmsize),
            fileoff: swap32(self.fileoff),
            filesize: swap32(self.filesize),
            maxprot: swap32(self.maxprot),
            initprot: swap32(self.initprot),
            nsects: swap32(self.nsects),
            flags: swap32(self.flags),
        }
    }

    fn fix_endian(&mut self) {
        self.cmd = swap_u32(self.cmd);
        self.cmdsize = swap_u32(self.cmdsize);
        self.vmaddr = swap_u32(self.vmaddr);
        self.vmsize = swap_u32(self.vmsize);
        self.fileoff = swap_u32(self.fileoff);
        self.filesize = swap_u32(self.filesize);
        self.maxprot = swap_u32(self.maxprot);
        self.initprot = swap_u32(self.initprot);
        self.nsects = swap_u32(self.nsects);
        self.flags = swap_u32(self.flags);
    }
}

/// Re-encoding a decoded 32-bit segment command restores the original bytes.
pub proof fn lemma_seg32_round_trip(c: SegmentCommand, b: Seq<u8>, swap: bool)
    requires
        b.len() == 56,
        seg32_matches(c, b, swap),
    ensures
        seg32_bytes(c, swap) == b,
{
    lemma_norm32_involution(le32(b, 0), swap);
    lemma_norm32_involution(le32(b, 4), swap);
    lemma_norm32_involution(le32(b, 24), swap);
    lemma_norm32_involution(le32(b, 28), swap);
    lemma_norm32_involution(le32(b, 32), swap);
    lemma_norm32_involution(le32(b, 36), swap);
    lemma_norm32_involution(le32(b, 40), swap);
    lemma_norm32_involution(le32(b, 44), swap);
    lemma_norm32_involution(le32(b, 48), swap);
    lemma_norm32_involution(le32(b, 52), swap);
    lemma_enc32_le32(b, 0);
    lemma_enc32_le32(b, 4);
    lemma_enc32_le32(b, 24);
    lemma_enc32_le32(b, 28);
    lemma_enc32_le32(b, 32);
    lemma_enc32_le32(b, 36);
    lemma_enc32_le32(b, 40);
    lemma_enc32_le32(b, 44);
    lemma_enc32_le32(b, 48);
    lemma_enc32_le32(b, 52);
    assert(seg32_bytes(c, swap) =~= b);
}

#[derive(Debug, Clone, Copy, PartialEq, Eq)]
pub struct SegmentCommand64 {
    pub cmd: u32,
    pub cmdsize: u32,
    pub segname: [u8; 16],
    pub vmaddr: u64,
    pub vmsize: u64,
    pub fileoff: u64,
    pub filesize: u64,
    pub maxprot: u32,
    pub initprot: u32,
    pub nsects: u32,
    pub flags: u32,
}

/// `c` is the 64-bit segment command stored in the seventy-two bytes `b`, with
/// integer fields byte-swapped iff `swap`; `segname` is opaque bytes.
pub open spec fn seg64_matches(c: SegmentCommand64, b: Seq<u8>, swap: bool) -> bool {
    &&& c.cmd == norm32(le32(b, 0), swap)
    &&& c.cmdsize == norm32(le32(b, 4), swap)
    &&& c.segname@ == b.subrange(8, 24)
    &&& c.vmaddr == norm64(le64(b, 24), swap)
    &&& c.vmsize == norm64(le64(b, 32), swap)
    &&& c.fileoff == norm64(le64(b, 40), swap)
    &&& c.filesize == norm64(le64(b, 48), swap)
    &&& c.maxprot == norm32(le32(b, 56), swap)
    &&& c.initprot == norm32(le32(b, 60), swap)
    &&& c.nsects == norm32(le32(b, 64), swap)
    &&& c.flags == norm32(le32(b, 68), swap)
}

/// The seventy-two bytes that encode `c`, with integer fields byte-swapped iff
/// `swap`.
pub open spec fn seg64_bytes(c: SegmentCommand64, swap: bool) -> Seq<u8> {
    enc32(norm32(c.cmd, swap)) + enc32(norm32(c.cmdsize, swap)) + c.segname@ + enc64(
        norm64(c.vmaddr, swap),
    ) + enc64(norm64(c.vmsize, swap)) + enc64(norm64(c.fileoff, swap)) + enc64(
        norm64(c.filesize, swap),
    ) + enc32(norm32(c.maxprot, swap)) + enc32(norm32(c.initprot, swap)) + enc32(
        norm32(c.nsects, swap),
    ) + enc32(norm32(c.flags, swap))
}

impl SegmentCommand64 {
    pub fn default() -> (r: SegmentCommand64)
        ensures
            r.cmd == 0 && r.cmdsize == 0 && r.segname@ == crate::bytes::zeros(16) && r.vmaddr == 0
                && r.vmsize == 0 && r.fileoff == 0 && r.filesize == 0 && r.maxprot == 0
                && r.initprot == 0 && r.nsects == 0 && r.flags == 0,
    {
        let r = SegmentCommand64 {
            cmd: 0,
            cmdsize: 0,
            segname: [0u8; 16],
            vmaddr: 0,
            vmsize: 0,
            fileoff: 0,
            filesize: 0,
            maxprot: 0,
            initprot: 0,
            nsects: 0,
            flags: 0,
        };
        proof {
            assert(r.segname@ =~= crate::bytes::zeros(16));
        }
        r
    }

    pub fn from(buffer: [u8; 72], is_little_endian: bool) -> (r: SegmentCommand64)
        ensures
            seg64_matches(r, buffer@, is_little_endian),
    {
        let mut segname: [u8; 16] = [0u8; 16];
        for j in 0..16usize
            invariant
                segname@.len() == 16,
                forall|k: int| 0 <= k < j ==> segname@[k] == buffer@[8 + k],
        {
            segname[j] = buffer[8 + j];
        }
        let mut segment_command = SegmentCommand64 {
            cmd: arr_read_u32(&buffer, 0),
            cmdsize: arr_read_u32(&buffer, 4),
            segname,
            vmaddr: arr_read_u64(&buffer, 24),
            vmsize: arr_read_u64(&buffer, 32),
            fileoff: arr_read_u64(&buffer, 40),
            filesize: arr_read_u64(&buffer, 48),
            maxprot: arr_read_u32(&buffer, 56),
            initprot: arr_read_u32(&buffer, 60),
            nsects: arr_read_u32(&buffer, 64),
            flags: arr_read_u32(&buffer, 68),
        };

        if is_little_endian {
            segment_command.cmd = swap_u32(segment_command.cmd);
            segment_command.cmdsize = swap_u32(segment_command.cmdsize);
            segment_command.vmaddr = swap_u64(segment_command.vmaddr);
            segment_command.vmsize = swap_u64(segment_command.vmsize);
            segment_command.fileoff = swap_u64(segment_command.fileoff);
            segment_command.filesize = swap_u64(segment_command.filesize);
            segment_command.maxprot = swap_u32(segment_command.maxprot);
            segment_command.initprot = swap_u32(segment_command.initprot);
            segment_command.nsects = swap_u32(segment_command.nsects);
            segment_command.flags = swap_u32(segment_command.flags);
        }

        proof {
            assert(segment_command.segname@ =~= buffer@.subrange(8, 24));
        }
        segment_command
    }

    pub fn to_u8(&self) -> (r: [u8; 72])
        ensures
            r@ == seg64_bytes(*self, false),
    {
        let mut data: [u8; 72] = [0u8; 72];
        arr_write_u32(&mut data, 0, self.cmd);
        arr_write_u32(&mut data, 4, self.cmdsize);
        for j in 0..16usize
            invariant
                data@.len() == 72,
                forall|k: int| 0 <= k < 8 ==> data@[k] == seg64_bytes(*self, false)[k],
                forall|k: int| 0 <= k < j ==> data@[8 + k] == self.segname@[k],
        {
            data[8 + j] = self.segname[j];
        }
        arr_write_u64(&mut data, 24, self.vmaddr);
        arr_write_u64(&mut data, 32, self.vmsize);
        arr_write_u64(&mut data, 40, self.fileoff);
        arr_write_u64(&mut data, 48, self.filesize);
        arr_write_u32(&mut data, 56, self.maxprot);
        arr_write_u32(&mut data, 60, self.initprot);
        arr_write_u32(&mut data, 64, self.nsects);
        arr_write_u32(&mut data, 68, self.flags);
        proof {
            assert(data@ =~= seg64_bytes(*self, false));
        }
        data
    }
}

impl FixMachOStructEndian for SegmentCommand64 {
    open spec fn swapped(&self) -> SegmentCommand64 {
        SegmentCommand64 {
            cmd: swap32(self.cmd),
            cmdsize: swap32(self.cmdsize),
            segname: self.segname,
            vmaddr: swap64(self.vmaddr),
            vmsize: swap64(self.vmsize),
            fileoff: swap64(self.fileoff),
            filesize: swap64(self.filesize),
            maxprot: swap32(self.maxprot),
            initprot: swap32(self.initprot),
            nsects: swap32(self.nsects),
            flags: swap32(self.flags),
        }
    }

    fn fix_endian(&mut self) {
        self.cmd = swap_u32(self.cmd);
        self.cmdsize = swap_u32(self.cmdsize);
        self.vmaddr = swap_u64(self.vmaddr);
        self.vmsize = swap_u64(self.vmsize);
        self.fileoff = swap_u64(self.fileoff);
        self.filesize = swap_u64(self.filesize);
        self.maxprot = swap_u32(self.maxprot);
        self.initprot = swap_u32(self.initprot);
        self.nsects = swap_u32(self.nsects);
        self.flags = swap_u32(self.flags);
    }
}

/// Re-encoding a decoded 64-bit segment command restores the original bytes.
pub proof fn lemma_seg64_round_trip(c: SegmentCommand64, b: Seq<u8>, swap: bool)
    requires
        b.len() == 72,
        seg64_matches(c, b, swap),
    ensures
        seg64_bytes(c, swap) == b,
{
    lemma_norm32_involution(le32(b, 0), swap);
    lemma_norm32_involution(le32(b, 4), swap);
    lemma_norm64_involution(le64(b, 24), swap);
    lemma_norm64_involution(le64(b, 32), swap);
    lemma_norm64_involution(le64(b, 40), swap);
    lemma_norm64_involution(le64(b, 48), swap);
    lemma_norm32_involution(le32(b, 56), swap);
    lemma_norm32_involution(le32(b, 60), swap);
    lemma_norm32_involution(le32(b, 64), swap);
    lemma_norm32_involution(le32(b, 68), swap);
    lemma_enc32_le32(b, 0);
    lemma_enc32_le32(b, 4);
    lemma_enc64_le64(b, 24);
    lemma_enc64_le64(b, 32);
    lemma_enc64_le64(b, 40);
    lemma_enc64_le64(b, 48);
    lemma_enc32_le32(b, 56);
    lemma_enc32_le32(b, 60);
    lemma_enc32_le32(b, 64);
    lemma_enc32_le32(b, 68);
    assert(seg64_bytes(c, swap) =~= b);
}

#[derive(Debug, Clone, Copy, PartialEq, Eq)]
pub struct LoadCommand {
    pub cmd: u32,
    pub cmdsize: u32,
}

/// The generic load-command prefix stored in the eight bytes `b`, with fields
/// byte-swapped iff `swap`.
pub open spec fn load_command_of(b: Seq<u8>, swap: bool) -> LoadCommand {
    LoadCommand { cmd: norm32(le32(b, 0), swap), cmdsize: norm32(le32(b, 4), swap) }
}

impl LoadCommand {
    pub fn from(buffer: [u8; 8], is_little_endian: bool) -> (r: LoadCommand)
        ensures
            r == load_command_of(buffer@, is_little_endian),
    {
        let mut load_command = LoadCommand {
            cmd: arr_read_u32(&buffer, 0),
            cmdsize: arr_read_u32(&buffer, 4),
        };
        if is_little_endian {
            load_command.fix_endian();
        }
        load_command
    }
}

impl FixMachOStructEndian for LoadCommand {
    open spec fn swapped(&self) -> LoadCommand {
        LoadCommand { cmd: swap32(self.cmd), cmdsize: swap32(self.cmdsize) }
    }

    fn fix_endian(&mut self) {
        self.cmd = swap_u32(self.cmd);
        self.cmdsize = swap_u32(self.cmdsize);
    }
}

#[derive(Debug, Clone, Copy, PartialEq, Eq)]
pub struct LinkeditDataCommand {
    pub cmd: u32,
    pub cmdsize: u32,
    pub dataoff: u32,
    pub datasize: u32,
}

/// The linkedit-data command stored in the sixteen bytes `b`, with fields
/// byte-swapped iff `swap`.
pub open spec fn linkedit_data_of(b: Seq<u8>, swap: bool) -> LinkeditDataCommand {
    LinkeditDataCommand {
        cmd: norm32(le32(b, 0), swap),
        cmdsize: norm32(le32(b, 4), swap),
        dataoff: norm32(le32(b, 8), swap),
        datasize: norm32(le32(b, 12), swap),
    }
}

impl LinkeditDataCommand {
    pub fn from(buffer: [u8; 16], is_little_endian: bool) -> (r: LinkeditDataCommand)
        ensures
            r == linkedit_data_of(buffer@, is_little_endian),
    {
        let mut linkedit_data_command = LinkeditDataCommand {
            cmd: arr_read_u32(&buffer, 0),
            cmdsize: arr_read_u32(&buffer, 4),
            dataoff: arr_read_u32(&buffer, 8),
            datasize: arr_read_u32(&buffer, 12),
        };
        if is_little_endian {
            linkedit_data_command.fix_endian();
        }
        linkedit_data_command
    }
}

impl FixMachOStructEndian for LinkeditDataCommand {
    open spec fn swapped(&self) -> LinkeditDataCommand {
        LinkeditDataCommand {
            cmd: swap32(self.cmd),
            cmdsize: swap32(self.cmdsize),
            dataoff: swap32(self.dataoff),
            datasize: swap32(self.datasize),
        }
    }

    fn fix_endian(&mut self) {
        self.cmd = swap_u32(self.cmd);
        self.cmdsize = swap_u32(self.cmdsize);
        self.dataoff = swap_u32(self.dataoff);
        self.datasize = swap_u32(self.datasize);
    }
}

#[derive(Debug, Clone, Copy, PartialEq, Eq)]
pub struct Dylib {
    pub name_offset: u32,
    pub timestamp: u32,
    pub current_version: u32,
    pub compatibility_version: u32,
}

impl FixMachOStructEndian for Dylib {
    open spec fn swapped(&self) -> Dylib {
        Dylib {
            name_offset: swap32(self.name_offset),
            timestamp: swap32(self.timestamp),
            current_version: swap32(self.current_version),
            compatibility_version: swap32(self.compatibility_version),
        }
    }

    fn fix_endian(&mut self) {
        self.name_offset = swap_u32(self.name_offset);
        self.timestamp = swap_u32(self.timestamp);
        self.current_version = swap_u32(self.current_version);
        self.compatibility_version = swap_u32(self.compatibility_version);
    }
}

#[derive(Debug, Clone, Copy, PartialEq, Eq)]
pub struct DylibCommand {
    pub cmd: u32,
    pub cmdsize: u32,
    pub dylib: Dylib,
}

/// The dylib command stored in the twenty-four bytes `b`, with fields
/// byte-swapped iff `swap`.
pub open spec fn dylib_command_of(b: Seq<u8>, swap: bool) -> DylibCommand {
    DylibCommand {
        cmd: norm32(le32(b, 0), swap),
        cmdsize: norm32(le32(b, 4), swap),
        dylib: Dylib {
            name_offset: norm32(le32(b, 8), swap),
            timestamp: norm32(le32(b, 12), swap),
            current_version: norm32(le32(b, 16), swap),
            compatibility_version: norm32(le32(b, 20), swap),
        },
    }
}

/// The twenty-four bytes that encode `c`, with fields byte-swapped iff `swap`.
pub open spec fn dylib_command_bytes(c: DylibCommand, swap: bool) -> Seq<u8> {
    enc32(norm32(c.cmd, swap)) + enc32(norm32(c.cmdsize, swap)) + enc32(
        norm32(c.dylib.name_offset, swap),
    ) + enc32(norm32(c.dylib.timestamp, swap)) + enc32(norm32(c.dylib.current_version, swap))
        + enc32(norm32(c.dylib.compatibility_version, swap))
}

impl DylibCommand {
    pub fn default() -> (r: DylibCommand)
        ensures
            r == (DylibCommand {
                cmd: 0,
                cmdsize: 0,
                dylib: Dylib {
                    name_offset: 0,
                    timestamp: 0,
                    current_version: 0,
                    compatibility_version: 0,
                },
            }),
    {
        DylibCommand {
            cmd: 0,
            cmdsize: 0,
            dylib: Dylib {
                name_offset: 0,
                timestamp: 0,
                current_version: 0,
                compatibility_version: 0,
            },
        }
    }

    pub fn from(buffer: [u8; 24], is_little_endian: bool) -> (r: DylibCommand)
        ensures
            r == dylib_command_of(buffer@, is_little_endian),
    {
        let mut dylib_command = DylibCommand {
            cmd: arr_read_u32(&buffer, 0),
            cmdsize: arr_read_u32(&buffer, 4),
            dylib: Dylib {
                name_offset: arr_read_u32(&buffer, 8),
                timestamp: arr_read_u32(&buffer, 12),
                current_version: arr_read_u32(&buffer, 16),
                compatibility_version: arr_read_u32(&buffer, 20),
            },
        };
        if is_little_endian {
            dylib_command.fix_endian();
        }
        dylib_command
    }

    pub fn to_u8(&self) -> (r: [u8; 24])
        ensures
            r@ == dylib_command_bytes(*self, false),
    {
        let mut data: [u8; 24] = [0u8; 24];
        arr_write_u32(&mut data, 0, self.cmd);
        arr_write_u32(&mut data, 4, self.cmdsize);
        arr_write_u32(&mut data, 8, self.dylib.name_offset);
        arr_write_u32(&mut data, 12, self.dylib.timestamp);
        arr_write_u32(&mut data, 16, self.dylib.current_version);
        arr_write_u32(&mut data, 20, self.dylib.compatibility_version);
        proof {
            assert(data@ =~= dylib_command_bytes(*self, false));
        }
        data
    }

    pub fn len() -> (r: u64)
        ensures
            r == 24,
    {
        24
    }
}

impl FixMachOStructEndian for DylibCommand {
    open spec fn swapped(&self) -> DylibCommand {
        DylibCommand {
            cmd: swap32(self.cmd),
            cmdsize: swap32(self.cmdsize),
            dylib: self.dylib.swapped(),
        }
    }

    fn fix_endian(&mut self) {
        self.cmd = swap_u32(self.cmd);
        self.cmdsize = swap_u32(self.cmdsize);
        self.dylib.fix_endian();
    }
}

/// Re-encoding a decoded dylib command restores the original bytes.
pub proof fn lemma_dylib_command_round_trip(b: Seq<u8>, swap: bool)
    requires
        b.len() == 24,
    ensures
        dylib_command_bytes(dylib_command_of(b, swap), swap) == b,
{
    lemma_norm32_involution(le32(b, 0), swap);
    lemma_norm32_involution(le32(b, 4), swap);
    lemma_norm32_involution(le32(b, 8), swap);
    lemma_norm32_involution(le32(b, 12), swap);
    lemma_norm32_involution(le32(b, 16), swap);
    lemma_norm32_involution(le32(b, 20), swap);
    lemma_enc32_le32(b, 0);
    lemma_enc32_le32(b, 4);
    lemma_enc32_le32(b, 8);
    lemma_enc32_le32(b, 12);
    lemma_enc32_le32(b, 16);
    lemma_enc32_le32(b, 20);
    assert(dylib_command_bytes(dylib_command_of(b, swap), swap) =~= b);
}

/// Decoding the encoding of a dylib command restores the record.
pub proof fn lemma_dylib_command_decode_encode(c: DylibCommand, swap: bool)
    ensures
        dylib_command_of(dylib_command_bytes(c, swap), swap) == c,
{
    let b = dylib_command_bytes(c, swap);
    lemma_le32_enc32(norm32(c.cmd, swap));
    lemma_le32_enc32(norm32(c.cmdsize, swap));
    lemma_le32_enc32(norm32(c.dylib.name_offset, swap));
    lemma_le32_enc32(norm32(c.dylib.timestamp, swap));
    lemma_le32_enc32(norm32(c.dylib.current_version, swap));
    lemma_le32_enc32(norm32(c.dylib.compatibility_version, swap));
    assert(b.subrange(0, 4) =~= enc32(norm32(c.cmd, swap)));
    assert(b.subrange(4, 8) =~= enc32(norm32(c.cmdsize, swap)));
    assert(b.subrange(8, 12) =~= enc32(norm32(c.dylib.name_offset, swap)));
    assert(b.subrange(12, 16) =~= enc32(norm32(c.dylib.timestamp, swap)));
    assert(b.subrange(16, 20) =~= enc32(norm32(c.dylib.current_version, swap)));
    assert(b.subrange(20, 24) =~= enc32(norm32(c.dylib.compatibility_version, swap)));
    lemma_le32_of_subrange(b, 0);
    lemma_le32_of_subrange(b, 4);
    lemma_le32_of_subrange(b, 8);
    lemma_le32_of_subrange(b, 12);
    lemma_le32_of_subrange(b, 16);
    lemma_le32_of_subrange(b, 20);
    lemma_norm32_involution(c.cmd, swap);
    lemma_norm32_involution(c.cmdsize, swap);
    lemma_norm32_involution(c.dylib.name_offset, swap);
    lemma_norm32_involution(c.dylib.timestamp, swap);
    lemma_norm32_involution(c.dylib.current_version, swap);
    lemma_norm32_involution(c.dylib.compatibility_version, swap);
}

/// Reading a 32-bit word inside `s` is reading it at the front of the
/// four-byte subrange.
pub proof fn lemma_le32_of_subrange(s: Seq<u8>, i: int)
    requires
        0 <= i,
        i + 4 <= s.len(),
    ensures
        le32(s, i) == le32(s.subrange(i, i + 4), 0),
{
}

#[derive(Debug, Clone, Copy, PartialEq, Eq)]
pub struct SymtabCommand {
    pub cmd: u32,
    pub cmdsize: u32,
    pub symoff: u32,
    pub nsyms: u32,
    pub stroff: u32,
    pub strsize: u32,
}

/// The symtab command stored in the twenty-four bytes `b`, with fields
/// byte-swapped iff `swap`.
pub open spec fn symtab_of(b: Seq<u8>, swap: bool) -> SymtabCommand {
    SymtabCommand {
        cmd: norm32(le32(b, 0), swap),
        cmdsize: norm32(le32(b, 4), swap),
        symoff: norm32(le32(b, 8), swap),
        nsyms: norm32(le32(b, 12), swap),
        stroff: norm32(le32(b, 16), swap),
        strsize: norm32(le32(b, 20), swap),
    }
}

/// The twenty-four bytes that encode `c`, with fields byte-swapped iff `swap`.
pub open spec fn symtab_bytes(c: SymtabCommand, swap: bool) -> Seq<u8> {
    enc32(norm32(c.cmd, swap)) + enc32(norm32(c.cmdsize, swap)) + enc32(norm32(c.symoff, swap))
        + enc32(norm32(c.nsyms, swap)) + enc32(norm32(c.stroff, swap)) + enc32(
        norm32(c.strsize, swap),
    )
}

impl SymtabCommand {
    pub fn from(buffer: [u8; 24], is_little_endian: bool) -> (r: SymtabCommand)
        ensures
            r == symtab_of(buffer@, is_little_endian),
    {
        let mut symtab_command = SymtabCommand {
            cmd: arr_read_u32(&buffer, 0),
            cmdsize: arr_read_u32(&buffer, 4),
            symoff: arr_read_u32(&buffer, 8),
            nsyms: arr_read_u32(&buffer, 12),
            stroff: arr_read_u32(&buffer, 16),
            strsize: arr_read_u32(&buffer, 20),
        };
        if is_little_endian {
            symtab_command.fix_endian();
        }
        symtab_command
    }

    pub fn to_u8(&self) -> (r: [u8; 24])
        ensures
            r@ == symtab_bytes(*self, false),
    {
        let mut data: [u8; 24] = [0u8; 24];
        arr_write_u32(&mut data, 0, self.cmd);
        arr_write_u32(&mut data, 4, self.cmdsize);
        arr_write_u32(&mut data, 8, self.symoff);
        arr_write_u32(&mut data, 12, self.nsyms);
        arr_write_u32(&mut data, 16, self.stroff);
        arr_write_u32(&mut data, 20, self.strsize);
        proof {
            assert(data@ =~= symtab_bytes(*self, false));
        }
        data
    }
}

impl FixMachOStructEndian for SymtabCommand {
    open spec fn swapped(&self) -> SymtabCommand {
        SymtabCommand {
            cmd: swap32(self.cmd),
            cmdsize: swap32(self.cmdsize),
            symoff: swap32(self.symoff),
            nsyms: swap32(self.nsyms),
            stroff: swap32(self.stroff),
            strsize: swap32(self.strsize),
        }
    }

    fn fix_endian(&mut self) {
        self.cmd = swap_u32(self.cmd);
        self.cmdsize = swap_u32(self.cmdsize);
        self.symoff = swap_u32(self.symoff);
        self.nsyms = swap_u32(self.nsyms);
        self.stroff = swap_u32(self.stroff);
        self.strsize = swap_u32(self.strsize);
    }
}

/// Re-encoding a decoded symtab command restores the original bytes.
pub proof fn lemma_symtab_round_trip(b: Seq<u8>, swap: bool)
    requires
        b.len() == 24,
    ensures
        symtab_bytes(symtab_of(b, swap), swap) == b,
{
    lemma_norm32_involution(le32(b, 0), swap);
    lemma_norm32_involution(le32(b, 4), swap);
    lemma_norm32_involution(le32(b, 8), swap);
    lemma_norm32_involution(le32(b, 12), swap);
    lemma_norm32_involution(le32(b, 16), swap);
    lemma_norm32_involution(le32(b, 20), swap);
    lemma_enc32_le32(b, 0);
    lemma_enc32_le32(b, 4);
    lemma_enc32_le32(b, 8);
    lemma_enc32_le32(b, 12);
    lemma_enc32_le32(b, 16);
    lemma_enc32_le32(b, 20);
    assert(symtab_bytes(symtab_of(b, swap), swap) =~= b);
}

} // verus!
