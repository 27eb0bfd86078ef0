use winshoweq::debugger::{debug_command, first_ws_ok, split_command, DebugCommand, DebugLoop};

#[test]
fn split_command_word_and_args() {
    let (cmd, args) = split_command("  SPO   pZone 0x1234  ");
    assert_eq!(cmd, "spo");
    assert_eq!(args, "pZone 0x1234");
    let (cmd, args) = split_command("d");
    assert_eq!(cmd, "d");
    assert_eq!(args, "");
}

#[test]
fn set_primary_offset_by_index_and_name() {
    let mut d = DebugLoop::new();
    assert_eq!(d.set_primary_offset("2 0x1A2b"), " Primary offset #2 (pSelf) was set to 0x1A2B");
    assert_eq!(d.primary(2), 0x1A2B);
    assert_eq!(d.set_primary_offset("PWORLD ff"), " Primary offset #5 (pWorld) was set to 0xFF");
    assert_eq!(d.primary(5), 0xFF);
    assert_eq!(d.set_primary_offset("6 10"), " Failed to set primary offset");
    assert_eq!(d.set_primary_offset("pNothing 10"), " Failed to set primary offset");
    assert_eq!(d.set_primary_offset("1 zz"), " Failed to parse hex value 'zz'");
    assert_eq!(d.set_primary_offset("1"), " Failed to set primary offset (usage: spo <index|name> <hex>)");
    assert_eq!(d.primary(1), 0);
}

#[test]
fn set_secondary_offset_updates_read_size() {
    let mut d = DebugLoop::new();
    assert_eq!(d.set_secondary_offset("0 0x100"), " Secondary offset #0 (NameOffset) was set to 0x100");
    assert_eq!(d.spawn_offsets().name, 0x100);
    assert_eq!(d.spawn_offsets().buf_size, 0x100 + 30);
    assert_eq!(d.set_secondary_offset("nextoffset 0x0X20"), " Secondary offset #17 (NextOffset) was set to 0x20");
    assert_eq!(d.spawn_offsets().next, 0x20);
    assert_eq!(d.set_secondary_offset("18 1"), " Failed to set secondary offset");
    assert_eq!(d.set_secondary_offset("Bogus 1"), " Failed to set secondary offset");
}

#[test]
fn hex_prefixes_strip_in_order() {
    let mut d = DebugLoop::new();
    assert_eq!(d.set_secondary_offset("1 0X0x20"), " Failed to parse hex value '0X0x20'");
    assert_eq!(d.set_secondary_offset("1 +1f"), " Secondary offset #1 (LastNameOffset) was set to 0x1F");
}

#[test]
fn preconditions_checks() {
    assert!(first_ws_ok("spo 1 2"));
    assert!(first_ws_ok("d"));
    assert!(!first_ws_ok("spo\u{3000}1 2"));
    let d = DebugLoop::new();
    assert!(d.secondary_fits("0 ffff"));
    assert!(!d.secondary_fits("0 ffffffffffffffff"));
    assert!(d.secondary_fits("99 ffffffffffffffff"));
}

#[test]
fn debug_command_words() {
    assert_eq!(debug_command("spo", "1 10"), DebugCommand::SetPrimary);
    assert_eq!(debug_command("ws", ""), DebugCommand::Walk { ot: 2, reverse: true });
    assert_eq!(debug_command("vt", ""), DebugCommand::Walk { ot: 3, reverse: false });
    assert_eq!(debug_command("sbt", ""), DebugCommand::Uint { ot: 3, width: 2 });
    assert_eq!(debug_command("sfa", "1.0,2.0,3.0, 0x1A2b"), DebugCommand::FloatsAt { addr: 0x1A2B });
    assert_eq!(debug_command("sfa", "1.0,2.0"), DebugCommand::FloatsAt { addr: 0 });
    assert_eq!(debug_command("sfa", "1,2,3,zz"), DebugCommand::FloatsAt { addr: 0 });
    assert_eq!(debug_command("x", ""), DebugCommand::Exit);
    assert_eq!(debug_command("", ""), DebugCommand::Nothing);
    assert_eq!(debug_command("zz", ""), DebugCommand::Invalid);
}
