use elf2uf2::cli::{parse_int, resolve_family_id, ParseIntError};
use elf2uf2::deploy::{
    deploy_plan, needs_volume_scan, resolve_deploy_dir, uf2_sentinel_file_name, DeployCommand,
    MountPoint,
};
use elf2uf2::elf::{
    base_addr_of_segments, elf2bin, extract_image, get_base_addr_of_elf, Segment, PT_LOAD,
};
use elf2uf2::error::Uf2Error;
use elf2uf2::uf2::{bin_to_uf2, elf2uf2};

struct Seg {
    p_type: u32,
    p_offset: u64,
    p_vaddr: u64,
    p_paddr: u64,
    p_filesz: u64,
}

fn put_u16(f: &mut [u8], off: usize, v: u16) {
    f[off..off + 2].copy_from_slice(&v.to_le_bytes());
}

fn put_u32(f: &mut [u8], off: usize, v: u32) {
    f[off..off + 4].copy_from_slice(&v.to_le_bytes());
}

fn put_u64(f: &mut [u8], off: usize, v: u64) {
    f[off..off + 8].copy_from_slice(&v.to_le_bytes());
}

/// Builds a little-endian ELF64 file: the 64-byte header, then
/// `data_after_header`, then the program-header table.
fn build_elf(data_after_header: &[u8], segs: &[Seg]) -> Vec<u8> {
    let mut f = vec![0u8; 64];
    f.extend_from_slice(data_after_header);
    while f.len() % 8 != 0 {
        f.push(0);
    }
    let phoff = f.len() as u64;
    for s in segs {
        let mut ph = vec![0u8; 56];
        put_u32(&mut ph, 0, s.p_type);
        put_u32(&mut ph, 4, 0); // p_flags
        put_u64(&mut ph, 8, s.p_offset);
        put_u64(&mut ph, 16, s.p_vaddr);
        put_u64(&mut ph, 24, s.p_paddr);
        put_u64(&mut ph, 32, s.p_filesz);
        put_u64(&mut ph, 40, s.p_filesz); // p_memsz
        put_u64(&mut ph, 48, 8); // p_align
        f.extend_from_slice(&ph);
    }
    f[0] = 0x7f;
    f[1] = b'E';
    f[2] = b'L';
    f[3] = b'F';
    f[4] = 2; // ELFCLASS64
    f[5] = 1; // little endian
    f[6] = 1; // EV_CURRENT
    put_u16(&mut f, 0x10, 2); // ET_EXEC
    put_u16(&mut f, 0x12, 183); // EM_AARCH64
    put_u32(&mut f, 0x14, 1); // e_version
    put_u64(&mut f, 0x20, phoff);
    put_u16(&mut f, 0x34, 64); // e_ehsize
    put_u16(&mut f, 0x36, 56); // e_phentsize
    put_u16(&mut f, 0x38, segs.len() as u16);
    put_u16(&mut f, 0x3a, 64); // e_shentsize
    f
}

fn le32(bytes: &[u8], off: usize) -> u32 {
    u32::from_le_bytes([bytes[off], bytes[off + 1], bytes[off + 2], bytes[off + 3]])
}

#[test]
fn single_segment_example_conversion() {
    // One loadable segment at p_paddr 0x1000, 4 file bytes DE AD BE EF at
    // file offset 0x40.
    let mut data = vec![0u8; 4];
    data.copy_from_slice(&[0xDE, 0xAD, 0xBE, 0xEF]);
    let elf = build_elf(
        &data,
        &[Seg { p_type: PT_LOAD, p_offset: 0x40, p_vaddr: 0x1000, p_paddr: 0x1000, p_filesz: 4 }],
    );
    assert_eq!(&elf[0x40..0x44], &[0xDE, 0xAD, 0xBE, 0xEF]);

    let bin = elf2bin(&elf).expect("extraction must succeed");
    assert_eq!(bin, vec![0xDE, 0xAD, 0xBE, 0xEF]);

    let base = get_base_addr_of_elf(&elf).expect("base address must resolve");
    assert_eq!(base, 0x1000);

    let out = elf2uf2(&elf, 0xe48bff56, None).expect("conversion must succeed");
    assert_eq!(out.bin, vec![0xDE, 0xAD, 0xBE, 0xEF]);
    assert_eq!(out.base_addr, 0x1000);
    let uf2 = &out.uf2;
    assert_eq!(uf2.len(), 512);
    assert_eq!(le32(uf2, 0), 0x0A324655); // magic0
    assert_eq!(le32(uf2, 4), 0x9E5D5157); // magic1
    assert_eq!(le32(uf2, 8), 0x00002000); // flags: family id present
    assert_eq!(le32(uf2, 12), 0x1000); // target_addr
    assert_eq!(le32(uf2, 16), 4); // payload_size
    assert_eq!(le32(uf2, 20), 0); // block_no
    assert_eq!(le32(uf2, 24), 1); // num_blocks
    assert_eq!(le32(uf2, 28), 0xe48bff56); // family id
    assert_eq!(&uf2[32..36], &[0xDE, 0xAD, 0xBE, 0xEF]);
    assert!(uf2[36..508].iter().all(|&b| b == 0));
    assert_eq!(le32(uf2, 508), 0x0AB16F30); // magic_end
}

#[test]
fn encode_then_decode_round_trips() {
    let image: Vec<u8> = (0..300u32).map(|i| (i % 251) as u8).collect();
    let uf2 = bin_to_uf2(&image, 0x1234, 0x2000_0000);
    assert_eq!(uf2.len(), 1024);
    let num_blocks = uf2.len() / 512;
    let mut decoded = Vec::new();
    for i in 0..num_blocks {
        let blk = &uf2[i * 512..(i + 1) * 512];
        assert_eq!(le32(blk, 20) as usize, i); // contiguous 0-based block_no
        assert_eq!(le32(blk, 24) as usize, num_blocks); // ceil(300 / 256) == 2
        let payload = le32(blk, 16) as usize;
        decoded.extend_from_slice(&blk[32..32 + payload]);
    }
    assert_eq!(decoded, image);
}

#[test]
fn encode_pads_short_last_chunk_with_zeros() {
    let image: Vec<u8> = vec![7u8; 10];
    let uf2 = bin_to_uf2(&image, 1, 0);
    assert_eq!(uf2.len(), 512);
    assert_eq!(le32(&uf2, 16), 10); // payload_size is the pre-padding count
    assert_eq!(&uf2[32..42], &[7u8; 10][..]);
    assert!(uf2[42..508].iter().all(|&b| b == 0));
}

#[test]
fn encode_targets_ascend_by_256() {
    let image: Vec<u8> = vec![1u8; 600];
    let uf2 = bin_to_uf2(&image, 1, 0x1000_0000);
    assert_eq!(uf2.len(), 3 * 512);
    assert_eq!(le32(&uf2, 12), 0x1000_0000);
    assert_eq!(le32(&uf2, 512 + 12), 0x1000_0100);
    assert_eq!(le32(&uf2, 1024 + 12), 0x1000_0200);
    assert_eq!(le32(&uf2, 16), 256);
    assert_eq!(le32(&uf2, 512 + 16), 256);
    assert_eq!(le32(&uf2, 1024 + 16), 600 - 512);
}

#[test]
fn encode_empty_image_yields_empty_stream() {
    let uf2 = bin_to_uf2(&Vec::new(), 1, 0);
    assert!(uf2.is_empty());
}

#[test]
fn no_program_headers_is_no_loadable_segments() {
    let elf = build_elf(&[], &[]);
    assert_eq!(elf2bin(&elf), Err(Uf2Error::NoLoadableSegments));
}

#[test]
fn non_load_segments_are_no_loadable_segments() {
    let elf = build_elf(
        &[0u8; 8],
        &[Seg { p_type: 2, p_offset: 0x40, p_vaddr: 0, p_paddr: 0, p_filesz: 4 }],
    );
    assert_eq!(elf2bin(&elf), Err(Uf2Error::NoLoadableSegments));
}

#[test]
fn zero_filesz_segments_are_no_loadable_segments() {
    let elf = build_elf(
        &[0u8; 8],
        &[Seg { p_type: PT_LOAD, p_offset: 0x40, p_vaddr: 0x100, p_paddr: 0x100, p_filesz: 0 }],
    );
    assert_eq!(elf2bin(&elf), Err(Uf2Error::NoLoadableSegments));
}

#[test]
fn garbage_input_is_format_error() {
    let junk = b"this is not an elf file at all".to_vec();
    assert_eq!(elf2bin(&junk), Err(Uf2Error::FormatError));
    assert_eq!(get_base_addr_of_elf(&junk), Err(Uf2Error::FormatError));
    assert!(matches!(elf2uf2(&junk, 1, None), Err(Uf2Error::FormatError)));
}

#[test]
fn out_of_file_segment_is_segment_range_error() {
    let elf = build_elf(
        &[0u8; 8],
        &[Seg {
            p_type: PT_LOAD,
            p_offset: 0x10000,
            p_vaddr: 0x100,
            p_paddr: 0x100,
            p_filesz: 4,
        }],
    );
    assert_eq!(
        elf2bin(&elf),
        Err(Uf2Error::SegmentRangeError { p_offset: 0x10000, p_filesz: 4, p_paddr: 0x100 })
    );
}

#[test]
fn saturated_address_is_empty_image() {
    // p_paddr + p_filesz saturates at u64::MAX == min_lma, so the image
    // spans no byte.
    let elf = build_elf(
        &[0u8; 8],
        &[Seg {
            p_type: PT_LOAD,
            p_offset: 0x40,
            p_vaddr: 0,
            p_paddr: u64::MAX,
            p_filesz: 4,
        }],
    );
    assert_eq!(elf2bin(&elf), Err(Uf2Error::EmptyImage));
}

#[test]
fn image_merges_segments_with_zero_filled_gap() {
    // Two segments: bytes AA BB at 0x100 and CC DD at 0x104.
    let mut data = vec![0u8; 8];
    data[0] = 0xAA;
    data[1] = 0xBB;
    data[2] = 0xCC;
    data[3] = 0xDD;
    let elf = build_elf(
        &data,
        &[
            Seg { p_type: PT_LOAD, p_offset: 0x40, p_vaddr: 0x100, p_paddr: 0x100, p_filesz: 2 },
            Seg { p_type: PT_LOAD, p_offset: 0x42, p_vaddr: 0x104, p_paddr: 0x104, p_filesz: 2 },
        ],
    );
    let bin = elf2bin(&elf).expect("extraction must succeed");
    assert_eq!(bin, vec![0xAA, 0xBB, 0x00, 0x00, 0xCC, 0xDD]);
}

#[test]
fn later_segment_overwrites_earlier_on_overlap() {
    let mut data = vec![0u8; 8];
    data[0] = 0x11;
    data[1] = 0x22;
    data[2] = 0x33;
    data[3] = 0x44;
    let elf = build_elf(
        &data,
        &[
            Seg { p_type: PT_LOAD, p_offset: 0x40, p_vaddr: 0x200, p_paddr: 0x200, p_filesz: 2 },
            Seg { p_type: PT_LOAD, p_offset: 0x42, p_vaddr: 0x201, p_paddr: 0x201, p_filesz: 2 },
        ],
    );
    let bin = elf2bin(&elf).expect("extraction must succeed");
    assert_eq!(bin, vec![0x11, 0x33, 0x44]);
}

#[test]
fn extract_image_length_spans_selected_segments() {
    // Directly over crafted program headers: length is
    // max(p_paddr + p_filesz) - min(p_paddr) over the selected segments.
    let elf_bytes: Vec<u8> = (0u32..64).map(|i| i as u8).collect();
    let segs = vec![
        Segment { p_type: PT_LOAD, p_offset: 0, p_vaddr: 0x30, p_paddr: 0x30, p_filesz: 8 },
        Segment { p_type: PT_LOAD, p_offset: 8, p_vaddr: 0x10, p_paddr: 0x10, p_filesz: 4 },
        Segment { p_type: 2, p_offset: 0, p_vaddr: 0, p_paddr: 0, p_filesz: 64 },
    ];
    let image = extract_image(&elf_bytes, &segs).expect("extraction must succeed");
    assert_eq!(image.len(), (0x30 + 8) - 0x10);
    assert_eq!(&image[0..4], &[8, 9, 10, 11]); // second segment at offset 0
    assert_eq!(&image[0x20..0x28], &[0, 1, 2, 3, 4, 5, 6, 7]);
}

#[test]
fn base_addr_is_least_load_vaddr() {
    let elf = build_elf(
        &[0u8; 8],
        &[
            Seg { p_type: PT_LOAD, p_offset: 0x40, p_vaddr: 0x2000, p_paddr: 0x2000, p_filesz: 2 },
            Seg { p_type: PT_LOAD, p_offset: 0x42, p_vaddr: 0x1000, p_paddr: 0x1000, p_filesz: 2 },
        ],
    );
    assert_eq!(get_base_addr_of_elf(&elf), Ok(0x1000));
}

#[test]
fn base_addr_defaults_to_zero_without_load_segments() {
    let segs = vec![Segment { p_type: 2, p_offset: 0, p_vaddr: 0x99, p_paddr: 0x99, p_filesz: 1 }];
    assert_eq!(base_addr_of_segments(&segs), 0);
}

#[test]
fn base_addr_override_is_used() {
    let elf = build_elf(
        &[0xAB, 0xCD, 0, 0],
        &[Seg { p_type: PT_LOAD, p_offset: 0x40, p_vaddr: 0x5000, p_paddr: 0x5000, p_filesz: 2 }],
    );
    let out = elf2uf2(&elf, 7, Some(0x9000)).expect("conversion must succeed");
    assert_eq!(out.base_addr, 0x9000);
    assert_eq!(le32(&out.uf2, 12), 0x9000);
}

#[test]
fn parse_int_reads_all_radixes() {
    assert_eq!(parse_int("123"), Ok(123));
    assert_eq!(parse_int("0x2e8a"), Ok(0x2e8a));
    assert_eq!(parse_int("0x2E8A"), Ok(0x2e8a));
    assert_eq!(parse_int("0o17"), Ok(15));
    assert_eq!(parse_int("0b101"), Ok(5));
    assert_eq!(parse_int("+7"), Ok(7));
    assert_eq!(parse_int("0"), Ok(0));
    assert_eq!(parse_int("4294967295"), Ok(u32::MAX));
}

#[test]
fn parse_int_rejects_bad_input() {
    assert_eq!(parse_int(""), Err(ParseIntError::Empty));
    assert_eq!(parse_int("+"), Err(ParseIntError::InvalidDigit));
    assert_eq!(parse_int("0xzz"), Err(ParseIntError::InvalidDigit));
    assert_eq!(parse_int("12 3"), Err(ParseIntError::InvalidDigit));
    assert_eq!(parse_int("-5"), Err(ParseIntError::InvalidDigit));
    assert_eq!(parse_int("4294967296"), Err(ParseIntError::PosOverflow));
    assert_eq!(parse_int("0x100000000"), Err(ParseIntError::PosOverflow));
}

#[test]
fn family_preset_wins_over_literal() {
    assert_eq!(resolve_family_id(Some(0xe48bff56), "rp2040"), Ok(0xe48bff56));
    assert_eq!(resolve_family_id(None, "0x1234"), Ok(0x1234));
    assert_eq!(resolve_family_id(None, "nope"), Err(ParseIntError::InvalidDigit));
}

#[test]
fn deploy_exhausts_exactly_three_attempts() {
    // With a retry budget of 3 and no sentinel-marked volume, the planner
    // schedules exactly 3 resolve-and-copy attempts, pausing 500 ms before
    // the second and third, then gives up.
    let mounts = vec![
        MountPoint { path: String::from("/mnt/disk1"), has_sentinel: false },
        MountPoint { path: String::from("/mnt/disk2"), has_sentinel: false },
    ];
    let auto = String::from("auto");
    let mut attempts = 0u32;
    let mut pauses = Vec::new();
    let outcome: Result<(), Uf2Error> = loop {
        match deploy_plan(attempts, 3) {
            DeployCommand::GiveUp => break Err(Uf2Error::DeployFailed { attempts }),
            DeployCommand::Attempt { pause_ms } => {
                pauses.push(pause_ms);
                let resolved = resolve_deploy_dir(&auto, &mounts);
                assert_eq!(resolved, Err(Uf2Error::VolumeNotFound));
                attempts += 1;
            }
        }
    };
    assert_eq!(attempts, 3);
    assert_eq!(pauses, vec![0, 500, 500]);
    assert_eq!(outcome, Err(Uf2Error::DeployFailed { attempts: 3 }));
}

#[test]
fn explicit_path_resolves_on_first_attempt_without_scan() {
    let path = String::from("/media/device");
    assert!(!needs_volume_scan(&path));
    // No mount information is needed at all for an explicit path.
    let resolved = resolve_deploy_dir(&path, &Vec::new());
    assert_eq!(resolved, Ok(String::from("/media/device")));
    assert!(matches!(deploy_plan(0, 40), DeployCommand::Attempt { pause_ms: 0 }));
}

#[test]
fn auto_discovery_picks_first_sentinel_volume() {
    let auto = String::from("auto");
    assert!(needs_volume_scan(&auto));
    let mounts = vec![
        MountPoint { path: String::from("/mnt/plain"), has_sentinel: false },
        MountPoint { path: String::from("/media/RPI-RP2"), has_sentinel: true },
        MountPoint { path: String::from("/media/OTHER-BOOT"), has_sentinel: true },
    ];
    assert_eq!(resolve_deploy_dir(&auto, &mounts), Ok(String::from("/media/RPI-RP2")));
}

#[test]
fn sentinel_file_name_is_fixed() {
    assert_eq!(uf2_sentinel_file_name(), "INFO_UF2.TXT");
}
