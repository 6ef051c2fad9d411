use limcode::snapshot::{
    parse_appendvec, parse_manifest, parse_snapshot, route_entry, snapshot_stats, version_text,
    AppendVecCursor, EntryAction, SnapshotAccount, SnapshotItem,
};

#[test]
fn test_snapshot_account_size() {
    assert!(std::mem::size_of::<SnapshotAccount>() < 256);
}

fn record(write_version: u64, lamports: u64, executable: bool, data: &[u8]) -> Vec<u8> {
    let mut r = Vec::new();
    r.extend_from_slice(&write_version.to_le_bytes());
    r.extend_from_slice(&(data.len() as u64).to_le_bytes());
    r.extend_from_slice(&[0x11; 32]);
    r.extend_from_slice(&lamports.to_le_bytes());
    r.extend_from_slice(&5u64.to_le_bytes());
    r.extend_from_slice(&[0x22; 32]);
    r.push(executable as u8);
    r.extend_from_slice(&[0; 7]);
    r.extend_from_slice(&[0x33; 32]);
    r.extend_from_slice(data);
    while r.len() % 8 != 0 {
        r.push(0);
    }
    r
}

#[test]
fn appendvec_records_in_order() {
    let mut file = record(1, 100, false, b"abc");
    file.extend(record(2, 200, true, &[]));
    file.extend(record(3, 300, false, &[7; 20]));
    let accounts = parse_appendvec(&file);
    assert_eq!(accounts.len(), 3);
    assert_eq!(accounts[0].write_version, 1);
    assert_eq!(accounts[0].data, b"abc".to_vec());
    assert_eq!(accounts[0].pubkey, [0x11; 32]);
    assert_eq!(accounts[0].owner, [0x22; 32]);
    assert_eq!(accounts[0].hash, [0x33; 32]);
    assert_eq!(accounts[0].rent_epoch, 5);
    assert!(accounts[1].executable);
    assert_eq!(accounts[2].lamports, 300);
    assert_eq!(accounts[2].data, vec![7; 20]);

    // A cut-off record ends the walk.
    let mut cut = record(1, 1, false, b"xyz");
    let mut tail = record(2, 2, false, &[1; 40]);
    tail.truncate(150);
    cut.extend(tail);
    assert_eq!(parse_appendvec(&cut).len(), 1);
    assert!(parse_appendvec(&[0; 100]).is_empty());

    let both = parse_snapshot(&vec![file.clone(), cut]);
    assert_eq!(both.len(), 4);
    assert_eq!(both[3].write_version, 1);

    let mut cursor = AppendVecCursor::new();
    cursor.load(file);
    assert_eq!(cursor.next_account().unwrap().write_version, 1);
    assert_eq!(cursor.next_account().unwrap().write_version, 2);
    assert_eq!(cursor.next_account().unwrap().write_version, 3);
    assert!(cursor.next_account().is_none());
}

#[test]
fn manifest_head() {
    let mut m = Vec::new();
    m.extend_from_slice(&77u64.to_le_bytes());
    m.extend_from_slice(&76u64.to_le_bytes());
    m.extend_from_slice(&[9; 32]);
    m.extend_from_slice(&[1, 2, 3]);
    let parsed = parse_manifest(&m).unwrap();
    assert_eq!(parsed.slot, 77);
    assert_eq!(parsed.parent_slot, 76);
    assert_eq!(parsed.bank_hash, [9; 32]);
    assert_eq!(parsed.raw_data, m);
    assert!(parse_manifest(&m[..47]).is_err());
}

#[test]
fn entries_are_routed_by_path() {
    let manifest = vec![0u8; 48];
    match route_entry("version".to_string(), b" 1.18.0\n".to_vec()) {
        EntryAction::Emit(SnapshotItem::Version(v)) => assert_eq!(v, "1.18.0"),
        other => panic!("unexpected {:?}", other),
    }
    assert!(matches!(route_entry("status_cache".to_string(), vec![1]), EntryAction::Emit(SnapshotItem::StatusCache(_))));
    assert!(matches!(route_entry("snapshots/12/12".to_string(), manifest.clone()), EntryAction::Emit(SnapshotItem::Manifest(_))));
    assert!(matches!(route_entry("snapshots/12/13".to_string(), manifest.clone()), EntryAction::Emit(SnapshotItem::OtherFile { .. })));
    assert!(matches!(route_entry("snapshots/12/12".to_string(), vec![1, 2]), EntryAction::Emit(SnapshotItem::OtherFile { .. })));
    assert!(matches!(route_entry("snapshots/12/12/12".to_string(), manifest.clone()), EntryAction::Emit(SnapshotItem::OtherFile { .. })));
    assert!(matches!(route_entry("snapshots/12/".to_string(), vec![]), EntryAction::Skip));
    assert!(matches!(route_entry("snapshots/x".to_string(), vec![]), EntryAction::Skip));
    assert!(matches!(route_entry("accounts/12.0".to_string(), vec![1]), EntryAction::LoadStorage(_)));
    assert!(matches!(route_entry("other".to_string(), vec![1]), EntryAction::Emit(SnapshotItem::OtherFile { .. })));
    assert!(matches!(route_entry("dir/".to_string(), vec![]), EntryAction::Skip));
}

#[test]
fn stats_add_up() {
    let file = [record(1, 10, false, b"ab"), record(2, u64::MAX, true, &[0; 30])].concat();
    let mut items = vec![SnapshotItem::Version("1.18.0".to_string())];
    for a in parse_appendvec(&file) {
        items.push(SnapshotItem::Account(a));
    }
    let stats = snapshot_stats(&items);
    assert_eq!(stats.version, "1.18.0");
    assert_eq!(stats.total_accounts, 2);
    assert_eq!(stats.total_lamports, u64::MAX);
    assert_eq!(stats.total_data_bytes, 32);
    assert_eq!(stats.executable_accounts, 1);
    assert_eq!(stats.max_account_size, 30);
}

#[test]
fn version_text_is_trimmed_and_lossy() {
    assert_eq!(version_text(b"\t1.18.0 \r\n"), "1.18.0");
    assert_eq!(version_text(b"1.\xff8"), "1.\u{fffd}8");
    assert_eq!(version_text(b"\xe3\x80\x80x\xc2\xa0"), "x");
    assert_eq!(version_text(b"   "), "");
}
