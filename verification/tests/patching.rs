use insert_dylib::fat::{patch_binary, patch_fat};
use insert_dylib::opts::Opts;
use insert_dylib::patcher::{patch_slice, ScanOutcome, Warning};

fn le(words: &[u32]) -> Vec<u8> {
    let mut v = Vec::new();
    for w in words {
        v.extend_from_slice(&w.to_le_bytes());
    }
    v
}

fn be(words: &[u32]) -> Vec<u8> {
    let mut v = Vec::new();
    for w in words {
        v.extend_from_slice(&w.to_be_bytes());
    }
    v
}

fn opts_with_path(path: &str) -> Opts {
    let mut o = Opts::default();
    o.dylib_path = path.as_bytes().to_vec();
    o
}

fn seg64(name: &[u8], fileoff: u64, filesize: u64) -> Vec<u8> {
    let mut s = vec![0u8; 72];
    s[..4].copy_from_slice(&0x19u32.to_le_bytes());
    s[4..8].copy_from_slice(&72u32.to_le_bytes());
    s[8..8 + name.len()].copy_from_slice(name);
    s[40..48].copy_from_slice(&fileoff.to_le_bytes());
    s[48..56].copy_from_slice(&filesize.to_le_bytes());
    s
}

// a thin 64-bit slice with three segments, clean slack, data up to `size`
fn thin64_three_segments(size: usize) -> Vec<u8> {
    let sizeofcmds: u32 = 72 * 3;
    let mut buf = le(&[0xfeedfacf, 7, 0, 2, 3, sizeofcmds, 0, 0]);
    buf.extend_from_slice(&seg64(b"__PAGEZERO", 0, 0));
    buf.extend_from_slice(&seg64(b"__TEXT", 0, 0x100));
    buf.extend_from_slice(&seg64(b"__LINKEDIT", 0x200, 0x100));
    buf.resize(size, 0);
    buf
}

#[test]
fn thin_append_adds_command_and_path() {
    // three load commands, path of eight bytes: cmdsize == 24 + 16 == 40
    let mut buf = thin64_three_segments(0x300);
    let before = buf.clone();
    let opts = opts_with_path("/foo/bar");
    let mut slice_size: u64 = 0x300;
    let mut warnings = Vec::new();
    let r = patch_slice(&mut buf, 0, &opts, &mut slice_size, &mut warnings);
    assert_eq!(r, Ok(ScanOutcome::Append));
    assert_eq!(slice_size, 0x300);
    assert!(warnings.is_empty());

    // header counters raised
    assert_eq!(u32::from_le_bytes(buf[16..20].try_into().unwrap()), 4);
    assert_eq!(u32::from_le_bytes(buf[20..24].try_into().unwrap()), 72 * 3 + 40);
    // the new command sits at the old end of the command region
    let pos = 32 + 72 * 3;
    assert_eq!(u32::from_le_bytes(buf[pos..pos + 4].try_into().unwrap()), 0x0c);
    assert_eq!(u32::from_le_bytes(buf[pos + 4..pos + 8].try_into().unwrap()), 40);
    assert_eq!(u32::from_le_bytes(buf[pos + 8..pos + 12].try_into().unwrap()), 24);
    assert_eq!(&buf[pos + 24..pos + 40], b"/foo/bar\0\0\0\0\0\0\0\0");
    // no byte outside header and command region changed
    assert_eq!(&buf[pos + 40..], &before[pos + 40..]);
    assert_eq!(&buf[32..pos], &before[32..pos]);
}

#[test]
fn thin_append_is_idempotent() {
    let mut buf = thin64_three_segments(0x300);
    let opts = opts_with_path("/foo/bar");
    let mut slice_size: u64 = 0x300;
    let mut warnings = Vec::new();
    let r1 = patch_slice(&mut buf, 0, &opts, &mut slice_size, &mut warnings);
    assert_eq!(r1, Ok(ScanOutcome::Append));
    let once = buf.clone();
    let r2 = patch_slice(&mut buf, 0, &opts, &mut slice_size, &mut warnings);
    assert_eq!(r2, Ok(ScanOutcome::AlreadyContains));
    assert_eq!(buf, once);
    assert_eq!(slice_size, 0x300);
}

#[test]
fn weak_variant_sets_weak_tag() {
    let mut buf = thin64_three_segments(0x300);
    let mut opts = opts_with_path("/foo/bar");
    opts.weak = true;
    let mut slice_size: u64 = 0x300;
    let mut warnings = Vec::new();
    let r = patch_slice(&mut buf, 0, &opts, &mut slice_size, &mut warnings);
    assert_eq!(r, Ok(ScanOutcome::Append));
    let pos = 32 + 72 * 3;
    assert_eq!(
        u32::from_le_bytes(buf[pos..pos + 4].try_into().unwrap()),
        0x80000018
    );
}

#[test]
fn dirty_slack_warns_but_appends() {
    let mut buf = thin64_three_segments(0x300);
    buf[32 + 72 * 3 + 4] = 0x7f;
    let opts = opts_with_path("/foo/bar");
    let mut slice_size: u64 = 0x300;
    let mut warnings = Vec::new();
    let r = patch_slice(&mut buf, 0, &opts, &mut slice_size, &mut warnings);
    assert_eq!(r, Ok(ScanOutcome::Append));
    assert!(warnings.contains(&Warning::NotEnoughSlack));
}

#[test]
fn fat_binary_patches_both_arches() {
    // FAT_MAGIC container: header and table big-endian; two thin 64-bit slices
    let s0: u32 = 0x300;
    let s1: u32 = 0x300;
    let mut buf = be(&[0xcafebabe, 2]);
    buf.extend_from_slice(&be(&[7, 3, 0x1000, s0, 12]));
    buf.extend_from_slice(&be(&[0x0100_0007, 3, 0x5000, s1, 12]));
    buf.resize(0x1000, 0);
    buf.extend_from_slice(&thin64_three_segments(s0 as usize));
    buf.resize(0x5000, 0);
    buf.extend_from_slice(&thin64_three_segments(s1 as usize));

    let opts = opts_with_path("/foo/bar");
    let mut warnings = Vec::new();
    let r = patch_fat(&mut buf, &opts, &mut warnings);
    let o = r.expect("fat patch");
    assert_eq!(o.fails, 0);
    assert_eq!(o.archs.len(), 2);
    // arch table rewritten big-endian; nfat unchanged
    assert_eq!(u32::from_be_bytes(buf[4..8].try_into().unwrap()), 2);
    for k in 0..2 {
        let a = &o.archs[k];
        assert_eq!(a.offset as u64 % (1u64 << a.align), 0);
        let row = 8 + 20 * k;
        assert_eq!(
            u32::from_be_bytes(buf[row + 8..row + 12].try_into().unwrap()),
            a.offset
        );
        assert_eq!(
            u32::from_be_bytes(buf[row + 12..row + 16].try_into().unwrap()),
            a.size
        );
    }
    assert!(o.archs[0].offset as u64 + o.archs[0].size as u64 <= o.archs[1].offset as u64);
    assert_eq!(
        o.filesize,
        o.archs[1].offset as u64 + o.archs[1].size as u64
    );
    assert_eq!(buf.len() as u64, o.filesize);
    // both slices contain the new load command
    for k in 0..2 {
        let off = o.archs[k].offset as usize;
        assert_eq!(u32::from_le_bytes(buf[off + 16..off + 20].try_into().unwrap()), 4);
        let pos = off + 32 + 72 * 3;
        assert_eq!(u32::from_le_bytes(buf[pos..pos + 4].try_into().unwrap()), 0x0c);
        assert_eq!(&buf[pos + 24..pos + 32], b"/foo/bar");
    }
}

#[test]
fn coordinator_dispatches_and_truncates() {
    // thin path through the coordinator
    let mut buf = thin64_three_segments(0x300);
    let opts = opts_with_path("/x");
    let mut warnings = Vec::new();
    let r = patch_binary(&mut buf, &opts, &mut warnings);
    assert_eq!(r, Ok(Some(0x300)));
    assert_eq!(buf.len(), 0x300);

    // something else entirely is reported as not a Mach-O and untouched
    let mut other = vec![1u8, 2, 3, 4, 5, 6, 7, 8];
    let before = other.clone();
    let r2 = patch_binary(&mut other, &opts, &mut warnings);
    assert_eq!(r2, Ok(None));
    assert_eq!(other, before);
}

#[test]
fn strip_through_whole_slice_shortens_file() {
    // thin 64-bit slice: __LINKEDIT at tail, symtab, trailing signature
    let slice: u64 = 0x400;
    let datasize: u32 = 0x80;
    let dataoff: u32 = slice as u32 - datasize;
    let sizeofcmds: u32 = 72 + 24 + 16;
    let mut buf = le(&[0xfeedfacf, 7, 0, 2, 3, sizeofcmds, 0, 0]);
    buf.extend_from_slice(&seg64(b"__LINKEDIT", 0x200, 0x200));
    let stroff: u32 = 0x300;
    let strsize: u32 = dataoff - 8 - stroff;
    buf.extend_from_slice(&le(&[0x02, 24, 0, 0, stroff, strsize]));
    buf.extend_from_slice(&le(&[0x1d, 16, dataoff, datasize]));
    buf.resize(slice as usize, 0);

    let mut opts = opts_with_path("/x");
    opts.strip_codesign = true;
    let mut warnings = Vec::new();
    let r = patch_binary(&mut buf, &opts, &mut warnings);
    assert_eq!(r, Ok(Some(slice - datasize as u64)));
    assert_eq!(buf.len() as u64, slice - datasize as u64);
    // net ncmds: -1 for the signature, +1 for the new dylib command
    assert_eq!(u32::from_le_bytes(buf[16..20].try_into().unwrap()), 3);
    // __LINKEDIT shrank by the blob; vmsize page-rounded
    assert_eq!(
        u64::from_le_bytes(buf[32 + 48..32 + 56].try_into().unwrap()),
        0x200 - datasize as u64
    );
    assert_eq!(
        u64::from_le_bytes(buf[32 + 32..32 + 40].try_into().unwrap()),
        0x1000
    );
}
