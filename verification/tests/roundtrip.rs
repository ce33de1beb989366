use insert_dylib::extensions::InsertDylibFileExt;
use insert_dylib::macho::FixMachOStructEndian;
use insert_dylib::macho::{
    DylibCommand, FatArch, FatHeader, LinkeditDataCommand, LoadCommand, MachHeader,
    SegmentCommand, SegmentCommand64, SymtabCommand,
};
use insert_dylib::opts::Opts;
use insert_dylib::patcher::{check_load_commands, ScanOutcome};
use insert_dylib::utils::{get_segname, round_up_u64};

fn le(words: &[u32]) -> Vec<u8> {
    let mut v = Vec::new();
    for w in words {
        v.extend_from_slice(&w.to_le_bytes());
    }
    v
}

#[test]
fn fat_header_decode_and_encode() {
    let bytes: [u8; 8] = [0xca, 0xfe, 0xba, 0xbe, 0x00, 0x00, 0x00, 0x02];
    // fat data is big-endian on disk, so a little-endian reading needs the swap
    let h = FatHeader::from(bytes, true);
    assert_eq!(h.magic, 0xcafebabe);
    assert_eq!(h.nfat_arch, 2);
    let mut back = h;
    back.fix_endian();
    assert_eq!(back.to_u8(), bytes);
}

#[test]
fn fat_arch_round_trip() {
    let bytes: [u8; 20] = [
        0x00, 0x00, 0x00, 0x07, 0x00, 0x00, 0x00, 0x03, 0x00, 0x00, 0x10, 0x00, 0x00, 0x00,
        0x20, 0x00, 0x00, 0x00, 0x00, 0x0c,
    ];
    let a = FatArch::from(bytes, true);
    assert_eq!(a.cputype, 7);
    assert_eq!(a.offset, 0x1000);
    assert_eq!(a.size, 0x2000);
    assert_eq!(a.align, 12);
    let mut back = a;
    back.fix_endian();
    assert_eq!(back.to_u8(), bytes);
}

#[test]
fn mach_header_decode() {
    let mut buf = [0u8; 32];
    buf[..4].copy_from_slice(&0xfeedfacfu32.to_le_bytes());
    buf[16..20].copy_from_slice(&3u32.to_le_bytes());
    buf[20..24].copy_from_slice(&0x100u32.to_le_bytes());
    let h = MachHeader::from(buf);
    assert_eq!(h.magic, 0xfeedfacf);
    assert_eq!(h.ncmds, 3);
    assert_eq!(h.sizeofcmds, 0x100);
    assert_eq!(h.len(), 32);
    assert!(!MachHeader::is_little_endian(0xfeedfacf));
    assert!(MachHeader::is_little_endian(0xcffaedfe));
    assert_eq!(h.to_u8(), buf);
}

#[test]
fn segment_command_64_round_trip() {
    let mut bytes = [0u8; 72];
    bytes[..4].copy_from_slice(&0x19u32.to_le_bytes());
    bytes[4..8].copy_from_slice(&72u32.to_le_bytes());
    bytes[8..18].copy_from_slice(b"__LINKEDIT");
    bytes[40..48].copy_from_slice(&0x4000u64.to_le_bytes());
    bytes[48..56].copy_from_slice(&0x800u64.to_le_bytes());
    let c = SegmentCommand64::from(bytes, false);
    assert_eq!(c.cmd, 0x19);
    assert_eq!(c.cmdsize, 72);
    assert_eq!(c.fileoff, 0x4000);
    assert_eq!(c.filesize, 0x800);
    assert_eq!(c.to_u8(), bytes);
    assert_eq!(get_segname(&c.segname), "__LINKEDIT");
}

#[test]
fn segment_command_32_round_trip() {
    let mut bytes = [0u8; 56];
    bytes[..4].copy_from_slice(&0x01u32.to_le_bytes());
    bytes[4..8].copy_from_slice(&56u32.to_le_bytes());
    bytes[8..14].copy_from_slice(b"__TEXT");
    bytes[32..36].copy_from_slice(&0x1000u32.to_le_bytes());
    let c = SegmentCommand::from(bytes, false);
    assert_eq!(c.cmd, 1);
    assert_eq!(c.fileoff, 0x1000);
    assert_eq!(c.to_u8(), bytes);
    assert_eq!(get_segname(&c.segname), "__TEXT");
}

#[test]
fn small_records_round_trip() {
    let lcb: [u8; 8] = [0x0c, 0, 0, 0, 40, 0, 0, 0];
    let lc = LoadCommand::from(lcb, false);
    assert_eq!(lc.cmd, 0x0c);
    assert_eq!(lc.cmdsize, 40);

    let ldb: [u8; 16] = [
        0x1d, 0, 0, 0, 16, 0, 0, 0, 0x00, 0x40, 0, 0, 0x00, 0x08, 0, 0,
    ];
    let ld = LinkeditDataCommand::from(ldb, false);
    assert_eq!(ld.cmd, 0x1d);
    assert_eq!(ld.dataoff, 0x4000);
    assert_eq!(ld.datasize, 0x800);

    let dc = DylibCommand::from(
        [
            0x0c, 0, 0, 0, 40, 0, 0, 0, 24, 0, 0, 0, 0, 0, 0, 0, 0, 0, 0, 0, 0, 0, 0, 0,
        ],
        false,
    );
    assert_eq!(dc.dylib.name_offset, 24);
    assert_eq!(DylibCommand::len(), 24);
    assert_eq!(dc.to_u8()[4], 40);

    let st = SymtabCommand::from(
        [
            0x02, 0, 0, 0, 24, 0, 0, 0, 1, 0, 0, 0, 2, 0, 0, 0, 3, 0, 0, 0, 4, 0, 0, 0,
        ],
        false,
    );
    assert_eq!(st.stroff, 3);
    assert_eq!(st.strsize, 4);
    assert_eq!(st.to_u8()[0], 2);
}

#[test]
fn round_up_works() {
    assert_eq!(round_up_u64(0x801, 0x1000), 0x1000);
    assert_eq!(round_up_u64(0x1000, 0x1000), 0x1000);
    assert_eq!(round_up_u64(9, 8), 16);
    assert_eq!(round_up_u64(0, 8), 0);
}

#[test]
fn buffer_ops() {
    let mut v: Vec<u8> = (0u8..16).collect();
    v.fbzero(4, 4);
    assert_eq!(&v[..8], &[0, 1, 2, 3, 0, 0, 0, 0]);
    let mut w: Vec<u8> = (0u8..16).collect();
    w.fmemmove(2, 0, 6);
    assert_eq!(&w[..8], &[0, 1, 0, 1, 2, 3, 4, 5]);
}

fn opts_with_path(path: &str) -> Opts {
    let mut o = Opts::default();
    o.dylib_path = path.as_bytes().to_vec();
    o
}

fn thin64(with_dylib: bool) -> (Vec<u8>, MachHeader) {
    // header + __TEXT + __LINKEDIT (+ optionally a dylib command), slack, data
    let ncmds: u32 = if with_dylib { 3 } else { 2 };
    let sizeofcmds: u32 = 72 * 2 + if with_dylib { 40 } else { 0 };
    let mut buf = le(&[0xfeedfacf, 7, 0, 2, ncmds, sizeofcmds, 0, 0]);
    let mut text = [0u8; 72];
    text[..4].copy_from_slice(&0x19u32.to_le_bytes());
    text[4..8].copy_from_slice(&72u32.to_le_bytes());
    text[8..14].copy_from_slice(b"__TEXT");
    buf.extend_from_slice(&text);
    let mut link = [0u8; 72];
    link[..4].copy_from_slice(&0x19u32.to_le_bytes());
    link[4..8].copy_from_slice(&72u32.to_le_bytes());
    link[8..18].copy_from_slice(b"__LINKEDIT");
    link[40..48].copy_from_slice(&0x200u64.to_le_bytes());
    link[48..56].copy_from_slice(&0x100u64.to_le_bytes());
    buf.extend_from_slice(&link);
    if with_dylib {
        buf.extend_from_slice(&le(&[0x0c, 40, 24, 0, 0, 0]));
        buf.extend_from_slice(b"/foo/bar");
        buf.extend_from_slice(&[0u8; 8]);
    }
    buf.resize(0x300, 0);
    let mut hb = [0u8; 32];
    hb.copy_from_slice(&buf[..32]);
    (buf, MachHeader::from(hb))
}

#[test]
fn scan_plain_slice_wants_append() {
    let (mut buf, mut h) = thin64(false);
    let before = buf.clone();
    let opts = opts_with_path("/foo/bar");
    let mut slice_size: u64 = 0x300;
    let mut warnings = Vec::new();
    let r = check_load_commands(&mut buf, &mut h, 0, 32, &opts, &mut slice_size, &mut warnings);
    assert_eq!(r, Ok(ScanOutcome::Append));
    assert_eq!(buf, before);
    assert_eq!(slice_size, 0x300);
}

#[test]
fn scan_detects_existing_dylib() {
    let (mut buf, mut h) = thin64(true);
    let before = buf.clone();
    let opts = opts_with_path("/foo/bar");
    let mut slice_size: u64 = 0x300;
    let mut warnings = Vec::new();
    let r = check_load_commands(&mut buf, &mut h, 0, 32, &opts, &mut slice_size, &mut warnings);
    assert_eq!(r, Ok(ScanOutcome::AlreadyContains));
    assert_eq!(buf, before);
}

#[test]
fn scan_other_path_is_no_match() {
    let (mut buf, mut h) = thin64(true);
    let opts = opts_with_path("/other/lib");
    let mut slice_size: u64 = 0x300;
    let mut warnings = Vec::new();
    let r = check_load_commands(&mut buf, &mut h, 0, 32, &opts, &mut slice_size, &mut warnings);
    assert_eq!(r, Ok(ScanOutcome::Append));
}

#[test]
fn strip_happy_path_adjusts_linkedit_and_symtab() {
    // 64-bit slice: __LINKEDIT ending at slice end, symtab, final signature
    let ncmds: u32 = 3;
    let sizeofcmds: u32 = 72 + 24 + 16;
    let slice: u64 = 0x400;
    let datasize: u32 = 0x80;
    let dataoff: u32 = (slice as u32) - datasize;
    let mut buf = le(&[0xfeedfacf, 7, 0, 2, ncmds, sizeofcmds, 0, 0]);
    let mut link = [0u8; 72];
    link[..4].copy_from_slice(&0x19u32.to_le_bytes());
    link[4..8].copy_from_slice(&72u32.to_le_bytes());
    link[8..18].copy_from_slice(b"__LINKEDIT");
    link[40..48].copy_from_slice(&0x200u64.to_le_bytes());
    link[48..56].copy_from_slice(&0x200u64.to_le_bytes());
    buf.extend_from_slice(&link);
    // string table ends 8 bytes before the signature blob
    let stroff: u32 = 0x300;
    let strsize: u32 = dataoff - 8 - stroff;
    buf.extend_from_slice(&le(&[0x02, 24, 0, 0, stroff, strsize]));
    buf.extend_from_slice(&le(&[0x1d, 16, dataoff, datasize]));
    buf.resize(slice as usize, 0xaa);
    let mut hb = [0u8; 32];
    hb.copy_from_slice(&buf[..32]);
    let mut h = MachHeader::from(hb);

    let mut opts = opts_with_path("/x");
    opts.strip_codesign = true;
    let mut slice_size: u64 = slice;
    let mut warnings = Vec::new();
    let r = check_load_commands(&mut buf, &mut h, 0, 32, &opts, &mut slice_size, &mut warnings);
    assert_eq!(r, Ok(ScanOutcome::Append));
    assert_eq!(slice_size, slice - datasize as u64);
    assert_eq!(h.ncmds, 2);
    assert_eq!(h.sizeofcmds, sizeofcmds - 16);
    // signature command slot zeroed
    assert!(buf[32 + 72 + 24..32 + 72 + 24 + 16].iter().all(|b| *b == 0));
    // symtab strsize grew by 8 to reach the new slice end
    let st = SymtabCommand::from(buf[32 + 72..32 + 72 + 24].try_into().unwrap(), false);
    assert_eq!(st.strsize, strsize + 8);
    // __LINKEDIT filesize shrank by the blob, vmsize rounded to a page
    let lk = SegmentCommand64::from(buf[32..32 + 72].try_into().unwrap(), false);
    assert_eq!(lk.filesize, 0x200 - datasize as u64);
    assert_eq!(lk.vmsize, 0x1000);
}

#[test]
fn signature_not_at_tail_zeroes_blob_in_place() {
    // trailing zero padding between the signature blob and the slice end
    let ncmds: u32 = 2;
    let sizeofcmds: u32 = 72 + 16;
    let slice: u64 = 0x400;
    let datasize: u32 = 0x40;
    let dataoff: u32 = 0x300;
    let mut buf = le(&[0xfeedfacf, 7, 0, 2, ncmds, sizeofcmds, 0, 0]);
    let mut link = [0u8; 72];
    link[..4].copy_from_slice(&0x19u32.to_le_bytes());
    link[4..8].copy_from_slice(&72u32.to_le_bytes());
    link[8..18].copy_from_slice(b"__LINKEDIT");
    link[40..48].copy_from_slice(&0x200u64.to_le_bytes());
    link[48..56].copy_from_slice(&0x200u64.to_le_bytes());
    buf.extend_from_slice(&link);
    buf.extend_from_slice(&le(&[0x1d, 16, dataoff, datasize]));
    buf.resize(slice as usize, 0xbb);
    let mut hb = [0u8; 32];
    hb.copy_from_slice(&buf[..32]);
    let mut h = MachHeader::from(hb);

    let mut opts = opts_with_path("/x");
    opts.strip_codesign = true;
    let mut slice_size: u64 = slice;
    let mut warnings = Vec::new();
    let r = check_load_commands(&mut buf, &mut h, 0, 32, &opts, &mut slice_size, &mut warnings);
    assert_eq!(r, Ok(ScanOutcome::Append));
    // slice size unchanged, blob zeroed in place, a warning was recorded
    assert_eq!(slice_size, slice);
    assert!(buf[dataoff as usize..(dataoff + datasize) as usize].iter().all(|b| *b == 0));
    assert!(!warnings.is_empty());
}

#[test]
fn signature_kept_without_strip_flag() {
    let ncmds: u32 = 1;
    let sizeofcmds: u32 = 16;
    let mut buf = le(&[0xfeedfacf, 7, 0, 2, ncmds, sizeofcmds, 0, 0]);
    buf.extend_from_slice(&le(&[0x1d, 16, 0x100, 0x40]));
    buf.resize(0x200, 0);
    let before = buf.clone();
    let mut hb = [0u8; 32];
    hb.copy_from_slice(&buf[..32]);
    let mut h = MachHeader::from(hb);
    let opts = opts_with_path("/x");
    let mut slice_size: u64 = 0x200;
    let mut warnings = Vec::new();
    let r = check_load_commands(&mut buf, &mut h, 0, 32, &opts, &mut slice_size, &mut warnings);
    assert_eq!(r, Ok(ScanOutcome::KeptSignature));
    assert_eq!(buf, before);
}
