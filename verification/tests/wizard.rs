use winshoweq::memory::MemError;
use winshoweq::wizard::{
    find_byte_flip, find_consecutive_cluster, find_item_name_offset, find_name_by_value,
    find_name_candidates, is_name_char, item_offsets_from, WizardCommand, WizardPhase, WizardResults,
};

#[test]
fn wizard_phase_instructions() {
    assert_eq!(WizardPhase::Idle.instruction(), "Click 'Start Wizard' to begin.");
    assert_eq!(WizardPhase::Cancelled.instruction(), "Cancelled.");
    assert_eq!(WizardPhase::Failed.instruction(), "Wizard failed — see log for details.");
}

#[test]
fn wizard_results_default_is_empty() {
    let r = WizardResults::default();
    assert_eq!(r.name, None);
    assert_eq!(r.item_z, None);
    assert!(!r.name_confirmed);
    assert_ne!(WizardCommand::NoCommand, WizardCommand::Cancel);
}

#[test]
fn name_chars() {
    assert!(is_name_char(b'a'));
    assert!(is_name_char(b'Z'));
    assert!(is_name_char(b'\''));
    assert!(is_name_char(b' '));
    assert!(is_name_char(b'-'));
    assert!(!is_name_char(b'0'));
    assert!(!is_name_char(0));
}

#[test]
fn name_by_value_needs_terminator() {
    let buf = b"xxFippyDarkpaw\0..Fippy\0";
    assert_eq!(find_name_by_value(buf, "Fippy"), Some(17));
    assert_eq!(find_name_by_value(buf, "FippyDarkpaw"), Some(2));
    assert_eq!(find_name_by_value(buf, ""), None);
    assert_eq!(find_name_by_value(buf, "Nobody"), None);
}

#[test]
fn byte_flip_offsets() {
    let prev = [0u8, 1, 0, 0, 1];
    let curr = [1u8, 1, 1, 0];
    assert_eq!(find_byte_flip(&prev, &curr, 0, 1), vec![0, 2]);
}

#[test]
fn consecutive_cluster_first_run() {
    assert_eq!(find_consecutive_cluster(&[4, 12, 16, 20, 24], 3, 4), vec![12, 16, 20]);
    assert_eq!(find_consecutive_cluster(&[4, 12, 20], 2, 4), Vec::<usize>::new());
    assert_eq!(find_consecutive_cluster(&[4, 8], 3, 4), Vec::<usize>::new());
    assert_eq!(find_consecutive_cluster(&[usize::MAX - 1, usize::MAX], 2, 4), Vec::<usize>::new());
}

#[test]
fn item_name_offset_found() {
    let mut buf = vec![0u8; 0x60];
    buf[0x38..0x3F].copy_from_slice(b"IT12345");
    assert_eq!(find_item_name_offset(&buf), Some(0x38));
    let short = b"IT1\0....";
    assert_eq!(find_item_name_offset(short), None);
}

#[test]
fn name_candidates_sorted_and_deduped() {
    let mut buf = Vec::new();
    buf.extend_from_slice(b"\x01Fippy\0");
    buf.extend_from_slice(b"\x01Fippy Darkpaw\0");
    buf.extend_from_slice(b"\x01Orc\0");
    buf.extend_from_slice(b"\x01lower\0");
    buf.extend_from_slice(b"\x01Gnoll\0");
    let c = find_name_candidates(&buf);
    let names: Vec<&str> = c.iter().map(|(_, s)| s.as_str()).collect();
    assert_eq!(names, vec!["Fippy Darkpaw", "Gnoll", "Orc"]);
    assert_eq!(c[0].0, 8);
}

#[test]
fn item_offsets_from_structure() {
    let mut buf = vec![0u8; 0x200];
    let ptr: u64 = 0x0000_7F12_3456_0000;
    buf[0..8].copy_from_slice(&0u64.to_le_bytes());
    buf[8..16].copy_from_slice(&0x0000_7F12_0000_1000u64.to_le_bytes());
    buf[16..24].copy_from_slice(&5u64.to_le_bytes());
    buf[0x38..0x3F].copy_from_slice(b"IT12345");
    let r = item_offsets_from(&buf, ptr).unwrap();
    assert_eq!(r.item_name, Some(0x38));
    assert_eq!(r.item_prev, Some(0));
    assert_eq!(r.item_next, Some(8));
    assert_eq!(r.item_x, Some(0x8c));
    assert_eq!(r.item_id, Some(0x10));
    assert_eq!(r.name, None);
    assert!(item_offsets_from(&[0u8; 16], ptr).is_none());
}

#[test]
fn mem_error_messages() {
    assert_eq!(MemError::NoProcess.message(), "no process attached");
    assert_eq!(MemError::OpenFailed(5).message(), "OpenProcess failed (error 0x00000005)");
    assert_eq!(MemError::ReadFailed(0x12AB).message(), "ReadProcessMemory failed (error 0x000012ab)");
}
