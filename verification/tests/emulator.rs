use mgba_gateway::worker::emulator::system_ram_range;


#[test]
fn system_ram_range_accepts_absolute_gba_address() {
    let range = system_ram_range(0x0200_0004, 4, 16).unwrap();
    assert_eq!(range, 4..8);
}

#[test]
fn system_ram_range_accepts_relative_offset() {
    let range = system_ram_range(4, 4, 16).unwrap();
    assert_eq!(range, 4..8);
}

#[test]
fn system_ram_range_rejects_out_of_bounds_access() {
    let error = system_ram_range(0x0200_000c, 8, 16).unwrap_err();
    assert!(error.contains("exceeds system RAM size"));
}
