use fmi::module::ProgramModule;
use fmi::pattern::{MatchType, MemoryPattern};
use fmi::process::ProcessHandle;

fn captured(image: Vec<u8>) -> ProgramModule {
    let start: usize = 0x1000;
    let mut module =
        ProgramModule::new(ProcessHandle { raw: 1 }, (start, start + image.len())).unwrap();
    module.load_snapshot(Ok(image)).unwrap();
    module
}

fn scan(offset: usize, text: &str, image: &[u8]) -> Option<usize> {
    let pattern = MemoryPattern::from_string(offset, text).unwrap();
    captured(image.to_vec()).search_memory(&pattern)
}

#[test]
fn pattern_over_the_whole_image() {
    assert_eq!(scan(0, "8B 45 ?? 89 C4", &[0x8B, 0x45, 0xFF, 0x89, 0xC4]), Some(0));
    assert_eq!(scan(0, "8B 45 ?? 89 C4", &[0x8B, 0x45, 0xFF, 0x89, 0xC5]), None);
}

#[test]
fn high_nibble_is_compared_alone() {
    assert_eq!(scan(0, "4?", &[0x4F]), Some(0));
    assert_eq!(scan(0, "4?", &[0x40]), Some(0));
    assert_eq!(scan(0, "4?", &[0x5F]), None);
    assert_eq!(scan(0, "4?", &[0xCF]), None);
    assert_eq!(scan(0, "0?", &[0x0A]), Some(0));
    assert_eq!(scan(0, "0?", &[0x1A]), None);
}

#[test]
fn low_nibble_is_compared_alone() {
    assert_eq!(scan(0, "?4", &[0x34]), Some(0));
    assert_eq!(scan(0, "?4", &[0x04]), Some(0));
    assert_eq!(scan(0, "?4", &[0x35]), None);
    assert_eq!(scan(0, "?4", &[0x3C]), None);
    assert_eq!(scan(0, "?0", &[0xA0]), Some(0));
    assert_eq!(scan(0, "?0", &[0xA1]), None);
}

#[test]
fn nibble_rules_inside_a_pattern() {
    assert_eq!(scan(0, "AA 4? ?4 BB", &[0xAA, 0x5F, 0x34, 0xBB, 0xAA, 0x4F, 0x34, 0xBB]), Some(4));
    assert_eq!(scan(0, "AA 4? ?4 BB", &[0xAA, 0x4F, 0x35, 0xBB]), None);
}

#[test]
fn nibble_rules_at_the_ends() {
    assert_eq!(scan(0, "4? AA ?4", &[0x5F, 0xAA, 0x34, 0x4F, 0xAA, 0x34]), Some(3));
    assert_eq!(scan(0, "4? AA ?4", &[0x4F, 0xAA, 0x35, 0x4F, 0xAA, 0x34]), Some(3));
    assert_eq!(scan(0, "?? AA ??", &[0x00, 0xAB, 0x00, 0xAA, 0x00]), Some(2));
}

#[test]
fn wildcards_match_at_the_start() {
    assert_eq!(scan(0, "??", &[0x12]), Some(0));
    assert_eq!(scan(0, "?? ?? ??", &[0x12, 0x34, 0x56]), Some(0));
    assert_eq!(scan(0, "?? ?? ??", &[0x12, 0x34, 0x56, 0x78, 0x9A]), Some(0));
    assert_eq!(scan(0, "* ? ** ?*", &[0xFF; 9]), Some(0));
    assert_eq!(scan(2, "?? ??", &[0x00; 4]), Some(0));
}

#[test]
fn wildcards_longer_than_the_image() {
    assert_eq!(scan(0, "?? ??", &[0x12]), None);
    assert_eq!(scan(1, "??", &[0x12]), None);
}

#[test]
fn inserted_bytes_are_found() {
    let mut image: Vec<u8> = vec![0u8; 64];
    let needle: [u8; 4] = [0xDE, 0xAD, 0xBE, 0xEF];
    let place: usize = 37;
    image[place..place + 4].copy_from_slice(&needle);
    assert_eq!(scan(0, "DE AD BE EF", &image), Some(37));
}

#[test]
fn smallest_position_is_reported() {
    let mut image: Vec<u8> = vec![0u8; 64];
    let needle: [u8; 3] = [0xCA, 0xFE, 0x01];
    image[50..53].copy_from_slice(&needle);
    image[20..23].copy_from_slice(&needle);
    image[21 + 10..24 + 10].copy_from_slice(&needle);
    assert_eq!(scan(0, "CA FE 01", &image), Some(20));
}

#[test]
fn overlapping_occurrences() {
    assert_eq!(scan(0, "AA AA", &[0x00, 0xAA, 0xAA, 0xAA]), Some(1));
}

#[test]
fn last_position_is_tried() {
    assert_eq!(scan(0, "C3", &[0x00, 0x00, 0xC3]), Some(2));
    assert_eq!(scan(0, "90 C3", &[0x00, 0x90, 0xC3]), Some(1));
    assert_eq!(scan(0, "00 90 C3", &[0x00, 0x90, 0xC3]), Some(0));
}

#[test]
fn pattern_that_does_not_fit() {
    assert_eq!(scan(0, "00 00 00", &[0x00, 0x00]), None);
    assert_eq!(scan(1, "00 00", &[0x00, 0x00]), None);
    assert_eq!(scan(3, "00", &[0x00, 0x00]), None);
    assert_eq!(scan(usize::MAX, "00", &[0x00, 0x00]), None);
    assert_eq!(scan(usize::MAX, "00 00 00", &[0x00, 0x00]), None);
}

#[test]
fn pattern_that_just_fits() {
    assert_eq!(scan(0, "00 00", &[0x00, 0x00]), Some(0));
    assert_eq!(scan(1, "00", &[0x01, 0x00]), Some(0));
    assert_eq!(scan(2, "00", &[0x01, 0x01, 0x00]), Some(0));
}

#[test]
fn offset_shifts_the_comparison() {
    let image: [u8; 8] = [0x10, 0x11, 0x12, 0x13, 0x14, 0x15, 0x16, 0x17];
    assert_eq!(scan(0, "13 14", &image), Some(3));
    assert_eq!(scan(1, "13 14", &image), Some(2));
    assert_eq!(scan(3, "13 14", &image), Some(0));
    assert_eq!(scan(4, "13 14", &image), None);
    assert_eq!(scan(2, "16 17", &image), Some(4));
    assert_eq!(scan(6, "16 17", &image), Some(0));
    assert_eq!(scan(7, "16 17", &image), None);
}

#[test]
fn single_element_patterns() {
    assert_eq!(scan(0, "7F", &[0x00, 0x7F, 0x7F]), Some(1));
    assert_eq!(scan(0, "7F", &[0x00, 0x7E]), None);
    assert_eq!(scan(0, "7?", &[0x00, 0x6F, 0x71]), Some(2));
    assert_eq!(scan(0, "?F", &[0xF0, 0x0F]), Some(1));
    assert_eq!(scan(0, "?", &[0xF0, 0x0F]), Some(0));
}

#[test]
fn two_element_patterns() {
    assert_eq!(scan(0, "01 02", &[0x01, 0x01, 0x02]), Some(1));
    assert_eq!(scan(0, "01 02", &[0x01, 0x03, 0x02]), None);
}

#[test]
fn interior_mismatch_is_noticed() {
    assert_eq!(scan(0, "01 02 03 04", &[0x01, 0x02, 0xFF, 0x04, 0x01, 0x02, 0x03, 0x04]), Some(4));
    assert_eq!(scan(0, "01 02 03 04", &[0x01, 0xFF, 0x03, 0x04]), None);
    assert_eq!(scan(0, "01 02 03 04", &[0x01, 0x02, 0xFF, 0x04]), None);
}

#[test]
fn elements_built_by_hand() {
    let pattern = MemoryPattern {
        data: vec![(0xE8u8, MatchType::Both), (0x00u8, MatchType::Neither), (0xF0u8, MatchType::Left)],
        offset: 1,
    };
    assert!(pattern.is_well_formed());
    let module = captured(vec![0xE8, 0xE8, 0x13, 0xFF, 0xE8, 0x00, 0xE0]);
    assert_eq!(module.search_memory(&pattern), Some(0));
}

#[test]
fn code_of_a_function_call() {
    let image: Vec<u8> = vec![
        0x55, 0x48, 0x8B, 0xEC, 0x8B, 0x45, 0xB0, 0x89, 0x45, 0xC4, 0x48, 0x8B, 0x4D, 0xC8, 0x8B,
        0x55, 0xC4, 0xE8, 0x13, 0xFF, 0xFF, 0xFF, 0xC3,
    ];
    let text = "8B 45 B0 89 45 C4 48 8B 4D C8 8B 55 C4 E8 13 FF FF FF";
    let pattern = MemoryPattern::from_string(0, text).unwrap();
    let module = captured(image);
    let found = module.search_memory(&pattern);
    assert_eq!(found, Some(4));
    assert_eq!(module.get_offset(found.unwrap() + 8), 0x1000 + 12);
}
