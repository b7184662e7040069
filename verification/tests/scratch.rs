use fdm::error::{IoFault, IoKind};
use fdm::scratch::{fnv1a64, is_cross_volume, move_into_place, part_path, MoveStep, STEM_LIMIT};

const TEMP: &str = r"C:\Users\me\AppData\Local\FDM\Temp";
const DIR: &str = r"C:\Users\me\Downloads\FDM\Compressed";

fn fault(kind: IoKind, code: Option<i32>) -> IoFault {
    IoFault { kind, code, message: "no".into() }
}

#[test]
fn the_same_download_always_gets_the_same_scratch_file() {
    // This is the property resume depends on.
    let a = part_path(TEMP, "https://x.test/a.zip", DIR, "a.zip");
    let b = part_path(TEMP, "https://x.test/a.zip", DIR, "a.zip");
    assert_eq!(a, b);
}

#[test]
fn the_hash_value_is_pinned() {
    // Pinned deliberately: changing the hash is a breaking change to on-disk
    // state.
    assert_eq!(fnv1a64(b"fdm"), 0xdcca_7718_feee_6abe);
    assert_eq!(fnv1a64(b""), 0xcbf2_9ce4_8422_2325);
}

#[test]
fn different_urls_with_one_filename_do_not_share_a_part_file() {
    let a = part_path(TEMP, "https://a.test/f.zip", DIR, "f.zip");
    let b = part_path(TEMP, "https://b.test/f.zip", DIR, "f.zip");
    assert_ne!(a, b, "two downloads writing one .part file is corruption");
}

#[test]
fn the_same_url_to_two_folders_does_not_share_a_part_file() {
    let a = part_path(TEMP, "https://x.test/f.zip", r"C:\one", "f.zip");
    let b = part_path(TEMP, "https://x.test/f.zip", r"C:\two", "f.zip");
    assert_ne!(a, b);
}

#[test]
fn the_name_stays_recognisable() {
    let p = part_path(TEMP, "https://x.test/d", DIR, "Ubuntu 24.04 Desktop.iso");
    let name = p.name;
    assert!(name.starts_with("Ubuntu_24"), "got {name}");
    assert!(name.ends_with(".part"), "got {name}");
}

#[test]
fn a_hostile_filename_still_produces_one_valid_component() {
    let p = part_path(TEMP, "https://x.test/d", DIR, "../../windows/system32/evil.dll");
    let name = &p.name;
    assert!(!name.contains('/') && !name.contains('\\'), "got {name}");
    assert!(!name.contains(".."), "got {name}");
    assert_eq!(p.dir, TEMP);
}

#[test]
fn a_filename_with_nothing_usable_in_it_still_works() {
    let p = part_path(TEMP, "https://x.test/d", DIR, "...");
    assert!(p.name.starts_with("download-"), "got {}", p.name);
}

#[test]
fn a_very_long_name_stays_inside_the_ntfs_component_limit() {
    let long = format!("{}.bin", "x".repeat(400));
    let p = part_path(TEMP, "https://x.test/d", DIR, &long);
    assert!(p.name.len() <= STEM_LIMIT + 22, "got {} chars", p.name.len());
}

#[test]
fn a_real_failure_is_not_swallowed_by_the_copy_fallback() {
    let missing = Err(fault(IoKind::NotFound, Some(2)));
    assert_eq!(move_into_place(&missing, false), MoveStep::Fail);
    assert_eq!(move_into_place(&missing, true), MoveStep::Fail);
    assert_eq!(missing.unwrap_err().kind, IoKind::NotFound);
}

#[test]
fn only_a_move_between_volumes_falls_back_to_a_copy() {
    assert_eq!(move_into_place(&Ok(()), true), MoveStep::Done);
    assert!(is_cross_volume(&fault(IoKind::Other, Some(17)), true));
    assert!(is_cross_volume(&fault(IoKind::Other, Some(18)), false));
    assert!(!is_cross_volume(&fault(IoKind::Other, Some(5)), true));
    assert_eq!(
        move_into_place(&Err(fault(IoKind::Other, Some(18))), false),
        MoveStep::CopyThenDelete
    );
}
