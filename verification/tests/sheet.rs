use rhythm_engine::sheet::{Table, MAX_CHANNELS};

#[test]
fn table_fill_with_sets_every_channel() {
    let mut table = Table([0u32; MAX_CHANNELS]);
    table.fill_with(|| 9);
    assert!(table.0.iter().all(|v| *v == 9));
    assert_eq!(table.0.len(), 256);
}

#[test]
fn table_fill_with_options() {
    let mut table: Table<Option<u8>> = Table([Some(1); MAX_CHANNELS]);
    table.fill_with(|| None);
    assert!(table.0.iter().all(|v| v.is_none()));
}
