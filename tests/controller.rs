use ethercat_controller::config::EthercatConfig;
use ethercat_controller::cycle::ProcessImage;
use ethercat_controller::gates::{Gates, AL_STATE_OPERATIONAL};
use ethercat_controller::offsets::{
    block_count_supported, sync_role, BuildError, ByteRange, OffsetRecord, OffsetTable, SyncRole,
};
use ethercat_controller::registers::{apply_one, copy_range, PendingWrite, RegisterError};

fn rec(bit_len: u8, byte_offset: usize) -> OffsetRecord {
    OffsetRecord { entry_index: 0x6000, entry_subindex: 1, bit_len, byte_offset }
}

fn s(x: &str) -> String {
    x.to_string()
}

/// One device at position 0 named "drive" with the given entries.
fn table_with(entries: &[(&str, OffsetRecord)], image_len: usize) -> OffsetTable {
    let mut t = OffsetTable::new();
    t.add_device(0, s("drive")).unwrap();
    for (name, r) in entries {
        t.add_entry(0, s(name), *r).unwrap();
    }
    t.finish(image_len).unwrap()
}

#[test]
fn single_entry_read_write_round_trip() {
    let table = table_with(&[("X", rec(16, 0))], 2);
    let mut image = ProcessImage::new(2);
    let mut gates = Gates::new();
    assert_eq!(image.get_pdo_register(&table, 0, &s("X"), 0), None);

    image.publish(&[0x00, 0x2A]);
    gates.complete_cycle();
    assert_eq!(image.get_pdo_register(&table, 0, &s("X"), 0), Some(vec![0, 42]));

    let w = table.set_pdo_register(0, &s("X"), 0, vec![0, 43]).unwrap();
    image.apply_writes(&vec![w]);
    // Not visible before the next cycle publishes.
    assert_eq!(image.get_pdo_register(&table, 0, &s("X"), 0), Some(vec![0, 42]));
    assert_eq!(image.exchange, vec![0, 43]);

    let sent = image.exchange.clone();
    image.publish(&sent);
    gates.complete_cycle();
    assert_eq!(image.get_pdo_register(&table, 0, &s("X"), 0), Some(vec![0, 43]));
    assert_eq!(gates.cycle_count(), 2);
}

#[test]
fn array_write_with_extra_value_enqueues_two() {
    let table = table_with(&[("A", rec(8, 0)), ("A", rec(8, 1))], 2);
    let batch = table
        .set_pdo_registers(0, &s("A"), vec![vec![1], vec![2], vec![3]])
        .unwrap();
    assert_eq!(batch.writes.len(), 2);
    assert!(batch.truncated);
    assert_eq!(batch.writes[0].range, ByteRange { start: 0, end: 1 });
    assert_eq!(batch.writes[1].range, ByteRange { start: 1, end: 2 });
    assert_eq!(batch.writes[1].value, vec![2]);
}

#[test]
fn array_write_with_fewer_values() {
    let table = table_with(&[("A", rec(8, 0)), ("A", rec(8, 1))], 2);
    let batch = table.set_pdo_registers(0, &s("A"), vec![vec![9]]).unwrap();
    assert_eq!(batch.writes.len(), 1);
    assert!(batch.truncated);
    let exact = table.set_pdo_registers(0, &s("A"), vec![vec![9], vec![8]]).unwrap();
    assert!(!exact.truncated);
}

#[test]
fn sub_byte_entry_reads_empty() {
    let table = table_with(&[("bit", rec(4, 1))], 2);
    assert_eq!(
        table.get_reg_addr_range(0, &s("bit"), 0),
        Some(ByteRange { start: 1, end: 1 })
    );
    let mut image = ProcessImage::new(2);
    image.publish(&[7, 8]);
    assert_eq!(image.get_pdo_register(&table, 0, &s("bit"), 0), Some(vec![]));
}

#[test]
fn repeated_reads_between_cycles_agree() {
    let table = table_with(&[("X", rec(16, 0)), ("Y", rec(8, 2))], 3);
    let mut image = ProcessImage::new(3);
    image.publish(&[1, 2, 3]);
    let first = image.get_pdo_register(&table, 0, &s("X"), 0);
    let w = table.set_pdo_register(0, &s("X"), 0, vec![5, 6]).unwrap();
    image.apply_writes(&vec![w]);
    let second = image.get_pdo_register(&table, 0, &s("X"), 0);
    assert_eq!(first, Some(vec![1, 2]));
    assert_eq!(first, second);
}

#[test]
fn readiness_fires_once_and_stays() {
    let mut g = Gates::new();
    assert!(!g.observe_bus_state(false, AL_STATE_OPERATIONAL));
    assert!(!g.observe_bus_state(true, 4));
    assert!(!g.is_ready());
    assert!(g.observe_bus_state(true, AL_STATE_OPERATIONAL));
    assert!(g.is_ready());
    assert!(!g.observe_bus_state(false, 1));
    assert!(g.is_ready());
    g.complete_cycle();
    assert!(g.is_ready());
}

#[test]
fn waits_return_once_per_cycle() {
    let mut g = Gates::new();
    for _ in 0..3 {
        let seen = g.cycle_count();
        assert!(!g.cycle_completed_since(seen));
        g.complete_cycle();
        assert!(g.cycle_completed_since(seen));
        assert!(!g.cycle_completed_since(g.cycle_count()));
    }
    assert_eq!(g.cycle_count(), 3);
}

#[test]
fn ranges_lie_inside_image() {
    let table = table_with(&[("X", rec(16, 0)), ("Y", rec(32, 2)), ("Y", rec(8, 6))], 7);
    for (name, i) in [("X", 0usize), ("Y", 0), ("Y", 1)] {
        let r = table.get_reg_addr_range(0, &s(name), i).unwrap();
        assert!(r.start <= r.end && r.end <= 7);
    }
    assert_eq!(
        table.get_reg_addr_range(0, &s("Y"), 0),
        Some(ByteRange { start: 2, end: 6 })
    );
}

#[test]
fn finish_rejects_entry_past_image() {
    let mut t = OffsetTable::new();
    t.add_device(0, s("drive")).unwrap();
    t.add_entry(0, s("X"), rec(16, 3)).unwrap();
    assert!(matches!(t.finish(4), Err(BuildError::OutOfImage)));
}

#[test]
fn build_errors() {
    let mut t = OffsetTable::new();
    assert_eq!(t.add_entry(3, s("X"), rec(8, 0)), Err(BuildError::UnknownDevice));
    t.add_device(3, s("io")).unwrap();
    assert_eq!(t.add_device(3, s("other")), Err(BuildError::DuplicatePosition));
    assert_eq!(OffsetTable::require_bound(None), Err(BuildError::Unbound));
    assert_eq!(OffsetTable::require_bound(Some(3)), Ok(3));
}

#[test]
fn unknown_registers() {
    let table = table_with(&[("X", rec(16, 0))], 2);
    let mut image = ProcessImage::new(2);
    image.publish(&[0, 0]);
    assert_eq!(image.get_pdo_register(&table, 1, &s("X"), 0), None);
    assert_eq!(image.get_pdo_register(&table, 0, &s("Z"), 0), None);
    assert_eq!(image.get_pdo_register(&table, 0, &s("X"), 1), None);
    assert!(matches!(
        table.set_pdo_register(0, &s("X"), 1, vec![0, 0]),
        Err(RegisterError::UnknownRegister)
    ));
    assert!(matches!(
        table.set_pdo_register(0, &s("X"), 0, vec![0]),
        Err(RegisterError::LengthMismatch)
    ));
    assert!(matches!(
        table.set_pdo_registers(0, &s("X"), vec![vec![1, 2, 3]]),
        Err(RegisterError::LengthMismatch)
    ));
    assert!(matches!(
        table.set_pdo_registers(2, &s("X"), vec![]),
        Err(RegisterError::UnknownRegister)
    ));
}

#[test]
fn array_reads() {
    let table = table_with(&[("A", rec(8, 0)), ("B", rec(8, 1)), ("A", rec(16, 2))], 4);
    let mut image = ProcessImage::new(4);
    assert_eq!(image.get_pdo_registers(&table, 0, &s("A")), None);
    image.publish(&[1, 2, 3, 4]);
    assert_eq!(
        image.get_pdo_registers(&table, 0, &s("A")),
        Some(vec![vec![1], vec![3, 4]])
    );
    assert_eq!(image.get_pdo_registers(&table, 0, &s("C")), None);
}

#[test]
fn device_lookups() {
    let mut t = OffsetTable::new();
    t.add_device(2, s("io")).unwrap();
    t.add_device(0, s("drive")).unwrap();
    t.add_device(1, s("io")).unwrap();
    let t = t.finish(0).unwrap();
    assert_eq!(t.get_slave_ids(), vec![0, 1, 2]);
    assert_eq!(t.get_slave_id(&s("drive")), Some(0));
    // A later device of the same name shadows the earlier one.
    assert_eq!(t.get_slave_id(&s("io")), Some(1));
    assert_eq!(t.get_slave_name(1), Some(s("io")));
    assert_eq!(t.get_slave_name(2), None);
    assert_eq!(t.get_slave_name(0), Some(s("drive")));
    assert_eq!(t.get_slave_id(&s("none")), None);
}

#[test]
fn writes_apply_in_order() {
    let table = table_with(&[("X", rec(16, 0))], 3);
    let mut image = ProcessImage::new(3);
    let a = table.set_pdo_register(0, &s("X"), 0, vec![1, 1]).unwrap();
    let b = table.set_pdo_register(0, &s("X"), 0, vec![2, 3]).unwrap();
    image.apply_writes(&vec![a, b]);
    assert_eq!(image.exchange, vec![2, 3, 0]);
}

#[test]
fn misfit_write_is_skipped() {
    let mut buf = vec![1u8, 2, 3];
    apply_one(&mut buf, &PendingWrite { range: ByteRange { start: 2, end: 4 }, value: vec![9, 9] });
    assert_eq!(buf, vec![1, 2, 3]);
    apply_one(&mut buf, &PendingWrite { range: ByteRange { start: 1, end: 2 }, value: vec![7] });
    assert_eq!(buf, vec![1, 7, 3]);
    assert_eq!(copy_range(&[4, 5, 6], 1, 3), vec![5, 6]);
}

#[test]
fn config_holds_values() {
    let c = EthercatConfig::new(1, s("esi.xml"));
    assert_eq!(c.master_id, 1);
    assert_eq!(c.esi, "esi.xml");
}

#[test]
fn block_roles_and_counts() {
    assert_eq!(sync_role(0), SyncRole::Output);
    assert_eq!(sync_role(1), SyncRole::Input);
    assert_eq!(sync_role(3), SyncRole::Input);
    assert!(block_count_supported(1));
    assert!(!block_count_supported(2));
    assert!(!block_count_supported(0));
}
