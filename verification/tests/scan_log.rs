use winshoweq::scan_log::{parse_scan_log, report_hex, scan_file_info, seed_primary, seed_secondary};

const REPORT: &str = "[File Info]\r\nClientHash = abc123\r\nBuildString =\r\n[Memory Offsets]\r\nZoneAddr=0x140abc # Match\r\n  charinfo = 0x1234 # Not Found\r\nCharInfo=0x1234 # Not Found\r\nBad=\r\n[SpawnInfo Offsets]\r\nName=0xa4 # Found\r\nLevel=zz # Found\r\n[Other]\r\nX=1\r\n";

#[test]
fn scan_log_sections_and_values() {
    let (primary, secondary) = parse_scan_log(REPORT);
    let p: Vec<(&str, &str)> = primary.iter().map(|(k, v)| (k.as_str(), v.as_str())).collect();
    assert_eq!(
        p,
        vec![("ZoneAddr", "0x140abc"), ("charinfo", "0x1234"), ("CharInfo", "0x1234"), ("Bad", "\u{2014}")]
    );
    let s: Vec<(&str, &str)> = secondary.iter().map(|(k, v)| (k.as_str(), v.as_str())).collect();
    assert_eq!(s, vec![("Name", "0xa4"), ("Level", "zz")]);
}

#[test]
fn scan_log_headers_ignore_ascii_case() {
    let (primary, secondary) = parse_scan_log("[MEMORY OFFSETS]\nA=0x1\n[spawninfo OFFSETS]\nB=0x2\n");
    assert_eq!(primary.len(), 1);
    assert_eq!(secondary.len(), 1);
    assert_eq!(secondary[0].0, "B");
}

#[test]
fn scan_log_seeds_wizard_addresses() {
    let (primary, secondary) = parse_scan_log(REPORT);
    let o = seed_primary(&primary);
    assert_eq!(o.zone_name, 0x140abc);
    assert_eq!(o.self_addr, 0x1234);
    assert_eq!(o.spawn_list, 0);
    assert_eq!(o.ground, 0);
    assert_eq!(o.target, 0);
    assert_eq!(o.world, 0);
    let s = seed_secondary(&secondary);
    assert_eq!(s, vec![("Name".to_owned(), 0xa4u64)]);
}

#[test]
fn scan_log_file_info() {
    let info = scan_file_info(REPORT);
    assert_eq!(info, vec![("ClientHash".to_owned(), "abc123".to_owned())]);
}

#[test]
fn scan_log_report_hex() {
    assert_eq!(report_hex("0x1f"), Some(31));
    assert_eq!(report_hex("0x0x1F"), Some(31));
    assert_eq!(report_hex("ff"), Some(255));
    assert_eq!(report_hex("0x"), None);
    assert_eq!(report_hex("\u{2014}"), None);
    assert_eq!(report_hex("0x10000000000000000"), None);
}
