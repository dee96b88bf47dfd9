use dump_redact::address_index::AddressIndex;
use dump_redact::consistency::verify_stacks;
use dump_redact::model::{
    InconsistentDump, MalformedModuleData, MemoryRegionDescriptor, ModuleRecord, PointerWidth,
    RedactError, RedactionStats, ThreadStackDescriptor, UntrustedModule,
};
use dump_redact::pipeline::{redact_dump, regions_admissible, validate_dump};
use dump_redact::report::summarize;
use dump_redact::scanner::{redact_region, redact_regions};
use dump_redact::trust_gate::{check_modules, default_allow_list, is_allowed};

fn module(name: &str, base_address: u64, size: u64) -> ModuleRecord {
    ModuleRecord { name: name.to_string(), base_address, size }
}

fn region(rva: u32, size: u32) -> MemoryRegionDescriptor {
    MemoryRegionDescriptor { rva, size }
}

fn stack(rva: u32, size: u32) -> ThreadStackDescriptor {
    ThreadStackDescriptor { stack: region(rva, size) }
}

fn index_of(modules: &[ModuleRecord]) -> AddressIndex {
    AddressIndex::build(&modules.to_vec()).unwrap()
}

fn firefox(base_address: u64, size: u64) -> ModuleRecord {
    module("C:\\Program Files\\Mozilla Firefox\\xul.dll", base_address, size)
}

#[test]
fn end_to_end_example() {
    let mut buf: Vec<u8> = Vec::new();
    buf.extend_from_slice(&0x1000u64.to_le_bytes());
    buf.extend_from_slice(&0xDEADu64.to_le_bytes());
    let input = buf.clone();
    let index = index_of(&[firefox(0x1000, 0x100)]);
    let zeroed = redact_region(&mut buf, region(0, 16), PointerWidth::Bits64, &index);
    assert_eq!(zeroed, 8);
    assert_eq!(&buf[..8], &input[..8]);
    assert_eq!(&buf[8..], &[0u8; 8]);
    assert_eq!(buf.len(), 16);
}

#[test]
fn end_to_end_example_through_the_pipeline() {
    let mut buf: Vec<u8> = Vec::new();
    buf.extend_from_slice(&0x1000u64.to_le_bytes());
    buf.extend_from_slice(&0xDEADu64.to_le_bytes());
    let modules = vec![firefox(0x1000, 0x100)];
    let regions = vec![region(0, 16)];
    let threads = vec![stack(0, 16)];
    assert!(regions_admissible(&regions, buf.len()));
    let stats = redact_dump(
        &mut buf,
        &modules,
        &default_allow_list(),
        &threads,
        &regions,
        PointerWidth::Bits64,
    )
    .unwrap();
    assert_eq!(
        stats,
        RedactionStats { bytes_considered: 16, bytes_zeroed: 8, total_output_len: 16 }
    );
    assert_eq!(stats.bytes_kept(), 8);
    assert_eq!(buf, vec![0x00, 0x10, 0, 0, 0, 0, 0, 0, 0, 0, 0, 0, 0, 0, 0, 0]);
}

#[test]
fn gate_short_circuit() {
    let mut buf: Vec<u8> = vec![0xAB; 32];
    let input = buf.clone();
    let modules = vec![
        firefox(0x1000, 0x100),
        module("C:\\Users\\me\\inject.dll", 0x5000, 0x100),
        module("C:\\Windows\\System32\\ntdll.dll", 0x9000, 0x100),
    ];
    let regions = vec![region(0, 32)];
    let threads = vec![stack(0, 32)];
    let done = redact_dump(
        &mut buf,
        &modules,
        &default_allow_list(),
        &threads,
        &regions,
        PointerWidth::Bits64,
    );
    assert_eq!(
        done,
        Err(RedactError::UntrustedModule(UntrustedModule {
            name: "C:\\Users\\me\\inject.dll".to_string()
        }))
    );
    assert_eq!(buf, input);
}

#[test]
fn consistency_short_circuit() {
    let mut buf: Vec<u8> = vec![0xCD; 400];
    let input = buf.clone();
    let modules = vec![firefox(0x1000, 0x100)];
    let regions = vec![region(0, 64), region(100, 100), region(300, 100)];
    let threads = vec![stack(0, 64), stack(100, 200)];
    let done = redact_dump(
        &mut buf,
        &modules,
        &default_allow_list(),
        &threads,
        &regions,
        PointerWidth::Bits64,
    );
    assert_eq!(
        done,
        Err(RedactError::InconsistentDump(InconsistentDump { stack: region(100, 200) }))
    );
    assert_eq!(buf, input);
}

#[test]
fn gate_is_checked_before_consistency_and_ranges() {
    let modules = vec![module("D:\\tools\\x.dll", u64::MAX, 2)];
    let threads = vec![stack(1, 2)];
    let regions = vec![];
    let allow = default_allow_list();
    match validate_dump(&modules, &allow, &threads, &regions) {
        Err(RedactError::UntrustedModule(e)) => assert_eq!(e.name, "D:\\tools\\x.dll"),
        other => panic!("unexpected {:?}", other.map(|_| ())),
    }
    let trusted = vec![module("C:\\Windows\\System32\\a.dll", u64::MAX, 2)];
    match validate_dump(&trusted, &allow, &threads, &regions) {
        Err(RedactError::InconsistentDump(e)) => assert_eq!(e.stack, region(1, 2)),
        other => panic!("unexpected {:?}", other.map(|_| ())),
    }
    let listed = vec![region(1, 2)];
    match validate_dump(&trusted, &allow, &threads, &listed) {
        Err(RedactError::MalformedModuleData(e)) => {
            assert_eq!(
                e,
                MalformedModuleData {
                    name: "C:\\Windows\\System32\\a.dll".to_string(),
                    base_address: u64::MAX,
                    size: 2
                }
            )
        }
        other => panic!("unexpected {:?}", other.map(|_| ())),
    }
}

#[test]
fn validate_dump_accepts_a_sound_dump() {
    let modules = vec![firefox(0x1000, 0x100)];
    let index =
        validate_dump(&modules, &default_allow_list(), &vec![stack(8, 8)], &vec![region(8, 8)])
            .unwrap();
    assert!(index.contains(0x1000));
    assert!(!index.contains(0x1100));
}

#[test]
fn length_is_preserved() {
    let mut buf: Vec<u8> = (0..=255u8).collect();
    let index = index_of(&[]);
    let results = redact_regions(
        &mut buf,
        &vec![region(3, 50), region(100, 7), region(200, 56)],
        PointerWidth::Bits32,
        &index,
    );
    assert_eq!(buf.len(), 256);
    assert_eq!(results, vec![(50, 48), (7, 4), (56, 56)]);
}

#[test]
fn bytes_outside_regions_are_unchanged() {
    let mut buf: Vec<u8> = (0..64u8).map(|b| b + 1).collect();
    let input = buf.clone();
    let index = index_of(&[]);
    redact_regions(&mut buf, &vec![region(8, 16), region(40, 8)], PointerWidth::Bits64, &index);
    for i in 0..64 {
        let inside = (8..24).contains(&i) || (40..48).contains(&i);
        if inside {
            assert_eq!(buf[i], 0);
        } else {
            assert_eq!(buf[i], input[i]);
        }
    }
}

#[test]
fn module_pointers_are_kept_and_others_zeroed() {
    let values: [u64; 4] = [0x7FF0_0000_1000, 0x7FF0_0000_1FFF, 0x7FF0_0000_2000, 0x7FF0_0000_0FFF];
    let mut buf: Vec<u8> = Vec::new();
    for v in values {
        buf.extend_from_slice(&v.to_le_bytes());
    }
    let index = index_of(&[firefox(0x7FF0_0000_1000, 0x1000)]);
    let zeroed = redact_region(&mut buf, region(0, 32), PointerWidth::Bits64, &index);
    assert_eq!(zeroed, 16);
    assert_eq!(&buf[0..8], &values[0].to_le_bytes());
    assert_eq!(&buf[8..16], &values[1].to_le_bytes());
    assert_eq!(&buf[16..32], &[0u8; 16]);
}

#[test]
fn four_byte_windows_decode_little_endian() {
    let mut buf: Vec<u8> = vec![0xFF; 2];
    buf.extend_from_slice(&0x0040_1000u32.to_le_bytes());
    buf.extend_from_slice(&0x1000_4000u32.to_le_bytes());
    buf.extend_from_slice(&[0x11, 0x22]);
    let index = index_of(&[firefox(0x0040_0000, 0x2000)]);
    let zeroed = redact_region(&mut buf, region(2, 8), PointerWidth::Bits32, &index);
    assert_eq!(zeroed, 4);
    assert_eq!(buf, vec![0xFF, 0xFF, 0x00, 0x10, 0x40, 0x00, 0, 0, 0, 0, 0x11, 0x22]);
}

#[test]
fn trailing_remainder_is_unchanged() {
    let mut buf: Vec<u8> = vec![0xEE; 24];
    let index = index_of(&[]);
    let zeroed = redact_region(&mut buf, region(1, 21), PointerWidth::Bits64, &index);
    assert_eq!(zeroed, 16);
    assert_eq!(buf[0], 0xEE);
    assert_eq!(&buf[1..17], &[0u8; 16]);
    assert_eq!(&buf[17..], &[0xEE; 7]);
}

#[test]
fn region_shorter_than_a_window_is_untouched() {
    let mut buf: Vec<u8> = vec![0x55; 8];
    let index = index_of(&[]);
    assert_eq!(redact_region(&mut buf, region(0, 7), PointerWidth::Bits64, &index), 0);
    assert_eq!(redact_region(&mut buf, region(4, 0), PointerWidth::Bits32, &index), 0);
    assert_eq!(buf, vec![0x55; 8]);
}

#[test]
fn redaction_is_idempotent() {
    let mut buf: Vec<u8> = Vec::new();
    for v in [0x1000u64, 0xDEAD, 0x10FF, 0, 0x1100, 0x9999_0000_1000] {
        buf.extend_from_slice(&v.to_le_bytes());
    }
    let regions = vec![region(0, 20), region(24, 24)];
    let index = index_of(&[firefox(0x1000, 0x100)]);
    redact_regions(&mut buf, &regions, PointerWidth::Bits64, &index);
    let once = buf.clone();
    redact_regions(&mut buf, &regions, PointerWidth::Bits64, &index);
    assert_eq!(buf, once);
}

#[test]
fn zero_window_stays_zero_when_zero_is_a_module_address() {
    let mut buf: Vec<u8> = vec![0; 8];
    let index = index_of(&[firefox(0, 0x10)]);
    assert_eq!(redact_region(&mut buf, region(0, 8), PointerWidth::Bits64, &index), 0);
    assert_eq!(buf, vec![0; 8]);
}

#[test]
fn index_answers_for_overlapping_modules() {
    let index = index_of(&[
        firefox(0x1000, 0x1000),
        firefox(0x1800, 0x1800),
        firefox(0x5000, 0),
        firefox(0x100, 0x10),
        firefox(0x3000, 0x10),
    ]);
    assert!(!index.contains(0xFF));
    assert!(index.contains(0x100));
    assert!(index.contains(0x10F));
    assert!(!index.contains(0x110));
    assert!(!index.contains(0xFFF));
    assert!(index.contains(0x1000));
    assert!(index.contains(0x2500));
    assert!(index.contains(0x2FFF));
    assert!(index.contains(0x3000));
    assert!(index.contains(0x300F));
    assert!(!index.contains(0x3010));
    assert!(!index.contains(0x5000));
    assert!(!index.contains(u64::MAX));
}

#[test]
fn index_of_no_module_covers_nothing() {
    let index = index_of(&[]);
    assert!(!index.contains(0));
    assert!(!index.contains(0x1000));
}

#[test]
fn index_reaches_the_top_of_the_address_space() {
    let index = index_of(&[firefox(u64::MAX - 1, 1)]);
    assert!(index.contains(u64::MAX - 1));
    assert!(!index.contains(u64::MAX));
}

#[test]
fn index_reports_a_range_that_overflows() {
    let modules = vec![firefox(0x1000, 0x10), module("late.dll", u64::MAX - 1, 3), firefox(1, u64::MAX)];
    let e = AddressIndex::build(&modules).unwrap_err();
    assert_eq!(
        e,
        MalformedModuleData { name: "late.dll".to_string(), base_address: u64::MAX - 1, size: 3 }
    );
}

#[test]
fn gate_accepts_allowed_prefixes() {
    let allow = default_allow_list();
    assert_eq!(
        allow,
        vec!["C:\\Program Files\\Mozilla Firefox".to_string(), "C:\\Windows\\System32".to_string()]
    );
    let modules = vec![
        module("C:\\Program Files\\Mozilla Firefox\\firefox.exe", 0, 1),
        module("C:\\Windows\\System32", 0, 1),
    ];
    assert_eq!(check_modules(&modules, &allow), Ok(()));
    assert_eq!(check_modules(&vec![], &allow), Ok(()));
}

#[test]
fn gate_names_the_first_untrusted_module() {
    let allow = default_allow_list();
    let modules = vec![
        module("C:\\Windows\\System32\\kernel32.dll", 0, 1),
        module("C:\\Windows\\System3", 0, 1),
        module("X:\\other.dll", 0, 1),
    ];
    assert_eq!(
        check_modules(&modules, &allow),
        Err(UntrustedModule { name: "C:\\Windows\\System3".to_string() })
    );
    assert_eq!(
        check_modules(&modules, &vec![]),
        Err(UntrustedModule { name: "C:\\Windows\\System32\\kernel32.dll".to_string() })
    );
}

#[test]
fn prefix_match_is_exact() {
    let allow = vec!["/usr/lib/".to_string(), "/opt/app".to_string()];
    assert!(is_allowed("/usr/lib/libc.so", &allow));
    assert!(is_allowed("/opt/app", &allow));
    assert!(is_allowed("/opt/application/x", &allow));
    assert!(!is_allowed("/usr/lib", &allow));
    assert!(!is_allowed("/USR/LIB/libc.so", &allow));
    assert!(!is_allowed("x/usr/lib/libc.so", &allow));
    assert!(!is_allowed("", &allow));
    assert!(is_allowed("", &vec![String::new()]));
}

#[test]
fn stacks_are_matched_by_offset_and_size() {
    let regions = vec![region(100, 200), region(0, 50), region(7, 0)];
    assert_eq!(verify_stacks(&vec![stack(0, 50), stack(100, 200), stack(7, 0)], &regions), Ok(()));
    assert_eq!(verify_stacks(&vec![], &regions), Ok(()));
    assert_eq!(
        verify_stacks(&vec![stack(0, 50), stack(100, 199), stack(1, 1)], &regions),
        Err(InconsistentDump { stack: region(100, 199) })
    );
    assert_eq!(
        verify_stacks(&vec![stack(200, 100)], &regions),
        Err(InconsistentDump { stack: region(200, 100) })
    );
    assert_eq!(
        verify_stacks(&vec![stack(0, 0)], &vec![]),
        Err(InconsistentDump { stack: region(0, 0) })
    );
}

#[test]
fn summary_adds_up_the_regions() {
    let stats = summarize(&vec![(16, 8), (100, 0), (24, 24)], 4096);
    assert_eq!(
        stats,
        RedactionStats { bytes_considered: 140, bytes_zeroed: 32, total_output_len: 4096 }
    );
    assert_eq!(stats.bytes_kept(), 108);
    assert_eq!(
        summarize(&vec![], 0),
        RedactionStats { bytes_considered: 0, bytes_zeroed: 0, total_output_len: 0 }
    );
}

#[test]
fn pointer_width_in_bytes() {
    assert_eq!(PointerWidth::Bits32.bytes(), 4);
    assert_eq!(PointerWidth::Bits64.bytes(), 8);
    assert_eq!(PointerWidth::from_bytes(4), Some(PointerWidth::Bits32));
    assert_eq!(PointerWidth::from_bytes(8), Some(PointerWidth::Bits64));
    assert_eq!(PointerWidth::from_bytes(0), None);
    assert_eq!(PointerWidth::from_bytes(2), None);
    assert_eq!(PointerWidth::from_bytes(16), None);
}

#[test]
fn regions_have_to_lie_in_the_buffer() {
    assert!(regions_admissible(&vec![], 0));
    assert!(regions_admissible(&vec![region(0, 16), region(16, 0)], 16));
    assert!(!regions_admissible(&vec![region(0, 16), region(1, 16)], 16));
    assert!(!regions_admissible(&vec![region(u32::MAX, u32::MAX)], 1 << 20));
}
