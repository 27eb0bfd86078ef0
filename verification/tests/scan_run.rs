use winshoweq::scan_run::{
    char_info_base, find_pointer_in, find_structure_in, primary_patterns, primary_report,
    secondary_patterns, secondary_report, FileInfo, Finding,
};
use winshoweq::scanner::OffsetKind;

fn finding(found: u64, current: u64, write_ok: bool) -> Finding {
    Finding { found, current, write_ok }
}

#[test]
fn pointer_scan_over_a_window() {
    let window = [0x00u8, 0x00, 0x8B, 0x78, 0x56, 0x34, 0x12, 0xFF, 0x00];
    let byte_mask = [0x8Bu8, 0xAA, 0xBB, 0xCC, 0xDD, 0xFF];
    assert_eq!(find_pointer_in(&window, &byte_mask, b"xttttx", 0, None), 0x12345678);
    assert_eq!(find_pointer_in(&window, &[0x8Cu8, 0, 0, 0, 0, 0xFF], b"xttttx", 0, None), 0);
}

#[test]
fn structure_scan_patches_base_address() {
    let window = [0x00u8, 0x8B, 0x44, 0x33, 0x22, 0x11, 0x78, 0x56, 0x34, 0x12, 0xFF];
    let byte_mask = [0x8Bu8, 0, 0, 0, 0, 0xAA, 0xBB, 0xCC, 0xDD, 0xFF];
    let char_mask = b"xoooottttx";
    assert_eq!(find_structure_in(&window, &byte_mask, char_mask, 0, None, 0x1122_3344), 0x12345678);
    // Another base address does not match the window.
    assert_eq!(find_structure_in(&window, &byte_mask, char_mask, 0, None, 0x5566_7788), 0);
    // A run of three `o` cannot be patched.
    assert_eq!(find_structure_in(&window, &byte_mask, b"xoooxttttx", 0, None, 0x1122_3344), 0);
}

#[test]
fn char_info_base_falls_back() {
    assert_eq!(char_info_base(0x140, 0x200), 0x140);
    assert_eq!(char_info_base(0, 0x200), 0x200);
}

#[test]
fn scan_tables_in_order() {
    let p = primary_patterns();
    let labels: Vec<&str> = p.iter().map(|e| e.output_label).collect();
    assert_eq!(labels, vec!["ZoneAddr", "SpawnHeaderAddr", "CharInfo", "ItemsAddr", "TargetAddr", "WorldAddr"]);
    assert_eq!(p[3].kind, OffsetKind::Ground);
    assert_eq!(p[4].ini_write_key, "TargetAddr");
    let s = secondary_patterns();
    let labels: Vec<&str> = s.iter().map(|e| e.output_label).collect();
    assert_eq!(
        labels,
        vec!["TypeOffset", "SpawnIDOffset", "LevelOffset", "RaceOffset", "ClassOffset", "PrimaryOffset", "OffhandOffset"]
    );
    assert_eq!(s[1].ini_section, "SpawnInfoSpawnIDOffset");
}

#[test]
fn primary_report_text_and_flags() {
    let info = Some(FileInfo {
        patch_date: "04/14/2026".to_owned(),
        client_hash: "abc".to_owned(),
        build_string: String::new(),
    });
    let findings = vec![
        finding(0x140, 0x140, true),
        finding(0x150, 0x100, true),
        finding(0, 0x100, true),
        finding(0, 0, true),
        finding(0x160, 0, true),
        finding(0, 0, true),
    ];
    let r = primary_report(true, &info, 10000, &findings, false);
    assert_eq!(
        r.output,
        "[File Info]\r\nPatchDate=04/14/2026\r\nClientHash=abc\r\n\r\n[Port]\r\nPort=10000\r\n\r\n[Memory Offsets]\r\n\
ZoneAddr=0x140 # Match\r\nSpawnHeaderAddr=0x150 # Does not match ini file.\r\nCharInfo=0x0 # Not Found\r\n\
ItemsAddr=0x0 # Not Found\r\nTargetAddr=0x160 # Does not match ini file.\r\nWorldAddr=0x0 # Not Found\r\n"
    );
    assert!(!r.reload);
    assert!(r.has_address_mismatch);
    assert_eq!(r.primary.zone_name, 0x140);
    assert_eq!(r.primary.spawn_list, 0x150);
    assert_eq!(r.primary.target, 0x160);
    assert_eq!(r.primary.self_addr, 0);

    let w = primary_report(true, &None, -1, &findings, true);
    assert!(w.output.starts_with("[Port]\r\nPort=-1\r\n\r\n[Memory Offsets]\r\n"));
    assert!(w.output.contains("SpawnHeaderAddr=0x150 # Written to ini file\r\n"));
    assert!(w.reload);
    assert!(!w.has_address_mismatch);

    let m = primary_report(false, &info, 10000, &Vec::new(), true);
    assert_eq!(m.output, "Error: Could not locate the specified executable file.");
    assert!(!m.reload && !m.has_address_mismatch);
    assert_eq!(m.primary.zone_name, 0);
}

#[test]
fn secondary_report_lines() {
    let mut findings = vec![finding(0, 0, true); 7];
    findings[0] = finding(0x125, 0x124, false);
    findings[2] = finding(0x130, 0x130, false);
    assert_eq!(
        secondary_report(true, &findings, true),
        "[SpawnInfo Offsets]\r\nTypeOffset=0x125 # Found - Write failed\r\nSpawnIDOffset=0x0 # Not Found\r\n\
LevelOffset=0x130 # Match\r\nRaceOffset=0x0 # Not Found\r\nClassOffset=0x0 # Not Found\r\n\
PrimaryOffset=0x0 # Not Found\r\nOffhandOffset=0x0 # Not Found\r\n"
    );
    assert!(secondary_report(true, &findings, false).starts_with("[SpawnInfo Offsets]\r\nTypeOffset=0x125 # Found\r\n"));
    assert_eq!(
        secondary_report(false, &Vec::new(), true),
        "Error: Could not locate the specified executable file."
    );
}
