use inventory_store::records::Error;
use inventory_store::store::Store;

#[test]
fn scenario_depot_and_widget() {
    let mut store = Store::new();

    let depot = store
        .create_container(b"Main Depot".to_vec(), b"12 Dock Rd".to_vec())
        .expect("container is created");
    assert_eq!(depot.id, 0);
    assert_eq!(depot.name, b"Main Depot".to_vec());
    assert_eq!(depot.address, b"12 Dock Rd".to_vec());

    let widget = store
        .create_item(b"Widget".to_vec(), b"tools".to_vec(), 10, 0, 500)
        .expect("item is created");
    assert_eq!(widget.id, 1);
    assert_eq!(widget.container, depot);
    assert_eq!(widget.quantity, 10);
    assert_eq!(widget.added_at, 500);
    assert_eq!(widget.restocked_at, 500);

    let over = store.withdraw_item_quantity(1, 15);
    assert!(matches!(over, Err(Error::InvalidPayload { .. })));
    assert_eq!(store.get_item(1).expect("item is stored").quantity, 10);

    let taken = store.withdraw_item_quantity(1, 4).expect("enough in stock");
    assert_eq!(taken.quantity, 6);
    assert_eq!(store.get_item(1).expect("item is stored").quantity, 6);

    let found = store.find_containers_by_name(b"depot".to_vec()).expect("one match");
    assert_eq!(found.len(), 1);
    assert_eq!(found[0], depot);

    assert!(matches!(store.get_item(999), Err(Error::NotFound { .. })));
}

#[test]
fn create_container_validates_lengths() {
    let mut store = Store::new();
    let r = store.create_container(b"ab".to_vec(), b"12 Dock Rd".to_vec());
    assert!(matches!(r, Err(Error::InvalidPayload { .. })));
    let r = store.create_container(b"Depot".to_vec(), b"xy".to_vec());
    assert!(matches!(r, Err(Error::InvalidPayload { .. })));
    // A rejected create consumes no identifier.
    let ok = store.create_container(b"abc".to_vec(), b"xyz".to_vec()).expect("valid");
    assert_eq!(ok.id, 0);
}

#[test]
fn create_item_requires_existing_container() {
    let mut store = Store::new();
    let r = store.create_item(b"Widget".to_vec(), b"tools".to_vec(), 1, 42, 0);
    assert!(matches!(r, Err(Error::NotFound { .. })));
    let r = store.create_item(b"ab".to_vec(), b"tools".to_vec(), 1, 42, 0);
    assert!(matches!(r, Err(Error::InvalidPayload { .. })));
}

#[test]
fn identifiers_are_distinct_across_kinds() {
    let mut store = Store::new();
    let c0 = store.create_container(b"One Depot".to_vec(), b"Road 1".to_vec()).expect("ok");
    let c1 = store.create_container(b"Two Depot".to_vec(), b"Road 2".to_vec()).expect("ok");
    let i2 = store.create_item(b"Bolt".to_vec(), b"parts".to_vec(), 5, c0.id, 9).expect("ok");
    let i3 = store.create_item(b"Nut".to_vec(), b"parts".to_vec(), 5, c1.id, 9).expect("ok");
    let ids = [c0.id, c1.id, i2.id, i3.id];
    for a in 0..ids.len() {
        for b in (a + 1)..ids.len() {
            assert_ne!(ids[a], ids[b]);
        }
    }
}

#[test]
fn get_container_after_create() {
    let mut store = Store::new();
    let made = store.create_container(b"Main Depot".to_vec(), b"12 Dock Rd".to_vec()).expect("ok");
    let read = store.get_container(made.id).expect("stored");
    assert_eq!(read, made);
    assert!(matches!(store.get_container(77), Err(Error::NotFound { .. })));
}

#[test]
fn list_containers_is_ascending_and_errors_when_empty() {
    let mut store = Store::new();
    assert!(matches!(store.list_containers(), Err(Error::NotFound { .. })));
    let a = store.create_container(b"Alpha Depot".to_vec(), b"Road A".to_vec()).expect("ok");
    let b = store.create_container(b"Beta Depot".to_vec(), b"Road B".to_vec()).expect("ok");
    let all = store.list_containers().expect("two stored");
    assert_eq!(all.len(), 2);
    assert_eq!(all[0], a);
    assert_eq!(all[1], b);
    assert!(all[0].id < all[1].id);
}

#[test]
fn find_containers_is_case_insensitive() {
    let mut store = Store::new();
    let a = store.create_container(b"Main DEPOT".to_vec(), b"Road A".to_vec()).expect("ok");
    let _b = store.create_container(b"Harbour".to_vec(), b"Road B".to_vec()).expect("ok");
    let found = store.find_containers_by_name(b"dePot".to_vec()).expect("matches");
    assert_eq!(found.len(), 1);
    assert_eq!(found[0], a);
    assert!(matches!(
        store.find_containers_by_name(b"warehouse".to_vec()),
        Err(Error::NotFound { .. })
    ));
    // The empty query matches every container.
    let all = store.find_containers_by_name(Vec::new()).expect("matches all");
    assert_eq!(all.len(), 2);
}

#[test]
fn edit_container_changes_only_the_name() {
    let mut store = Store::new();
    let made = store.create_container(b"Main Depot".to_vec(), b"12 Dock Rd".to_vec()).expect("ok");
    let edited = store.edit_container(made.id, b"North Depot".to_vec()).expect("stored");
    assert_eq!(edited.id, made.id);
    assert_eq!(edited.name, b"North Depot".to_vec());
    assert_eq!(edited.address, made.address);
    assert_eq!(store.get_container(made.id).expect("stored"), edited);
    assert!(matches!(store.edit_container(5, b"Nowhere".to_vec()), Err(Error::NotFound { .. })));
}

#[test]
fn edit_item_changes_only_the_name() {
    let mut store = Store::new();
    let depot = store.create_container(b"Main Depot".to_vec(), b"12 Dock Rd".to_vec()).expect("ok");
    let made = store.create_item(b"Widget".to_vec(), b"tools".to_vec(), 10, depot.id, 500).expect("ok");
    let edited = store.edit_item(made.id, b"Gadget".to_vec()).expect("stored");
    assert_eq!(edited.id, made.id);
    assert_eq!(edited.name, b"Gadget".to_vec());
    assert_eq!(edited.quantity, made.quantity);
    assert_eq!(edited.category, made.category);
    assert_eq!(edited.container, made.container);
    assert_eq!(edited.added_at, made.added_at);
    assert_eq!(edited.restocked_at, made.restocked_at);
    assert_eq!(store.get_item(made.id).expect("stored"), edited);
    assert!(matches!(store.edit_item(5, b"Nothing".to_vec()), Err(Error::NotFound { .. })));
}

#[test]
fn container_edits_do_not_reach_embedded_snapshots() {
    let mut store = Store::new();
    let depot = store.create_container(b"Main Depot".to_vec(), b"12 Dock Rd".to_vec()).expect("ok");
    let made = store.create_item(b"Widget".to_vec(), b"tools".to_vec(), 10, depot.id, 500).expect("ok");
    store.edit_container(depot.id, b"Renamed Depot".to_vec()).expect("stored");
    let read = store.get_item(made.id).expect("stored");
    assert_eq!(read.container.name, b"Main Depot".to_vec());
}

#[test]
fn withdraw_to_zero_and_not_below() {
    let mut store = Store::new();
    let depot = store.create_container(b"Main Depot".to_vec(), b"12 Dock Rd".to_vec()).expect("ok");
    let made = store.create_item(b"Widget".to_vec(), b"tools".to_vec(), 3, depot.id, 500).expect("ok");
    let down = store.withdraw_item_quantity(made.id, 3).expect("exactly enough");
    assert_eq!(down.quantity, 0);
    let r = store.withdraw_item_quantity(made.id, 1);
    assert!(matches!(r, Err(Error::InvalidPayload { .. })));
    assert_eq!(store.get_item(made.id).expect("stored").quantity, 0);
    assert!(matches!(store.withdraw_item_quantity(9, 1), Err(Error::NotFound { .. })));
}

#[test]
fn allocator_advances_once_per_create() {
    let mut store = Store::new();
    assert_eq!(store.peek_next_id(), 0);
    let id = store.next_id();
    assert_eq!(id, 0);
    assert_eq!(store.peek_next_id(), 1);
    let made = store.create_container(b"Main Depot".to_vec(), b"12 Dock Rd".to_vec()).expect("ok");
    assert_eq!(made.id, 1);
    assert_eq!(store.peek_next_id(), 2);
}

#[test]
fn error_messages_are_readable() {
    let mut store = Store::new();
    match store.get_container(3) {
        Err(e) => assert!(!e.message().is_empty()),
        Ok(_) => panic!("no container was stored"),
    }
}

#[test]
fn validation_counts_characters_not_bytes() {
    let mut store = Store::new();
    // Two accented letters: two characters in four UTF-8 bytes.
    let two_chars = vec![0xC3u8, 0x89, 0xC3, 0xA9];
    let r = store.create_container(two_chars.clone(), b"12 Dock Rd".to_vec());
    assert!(matches!(r, Err(Error::InvalidPayload { .. })));
    // Three accented letters: three characters in six UTF-8 bytes.
    let three_chars = vec![0xC3u8, 0x89, 0xC3, 0xA9, 0xC3, 0xA8];
    let made = store.create_container(three_chars.clone(), b"12 Dock Rd".to_vec()).expect("valid");
    assert_eq!(made.name, three_chars);
    let depot = store.create_container(b"Main Depot".to_vec(), b"12 Dock Rd".to_vec()).expect("ok");
    let r = store.create_item(two_chars, b"tools".to_vec(), 1, depot.id, 0);
    assert!(matches!(r, Err(Error::InvalidPayload { .. })));
}

#[test]
fn find_matches_unicode_case_insensitively() {
    let mut store = Store::new();
    // "Épicerie": an uppercase accented letter, then ASCII.
    let mut name = vec![0xC3u8, 0x89];
    name.extend_from_slice(b"picerie");
    let made = store.create_container(name, b"12 Dock Rd".to_vec()).expect("ok");
    // Query with the lowercase form of the accented letter.
    let query = vec![0xC3u8, 0xA9];
    let found = store.find_containers_by_name(query).expect("matches");
    assert_eq!(found.len(), 1);
    assert_eq!(found[0], made);
    // And with the uppercase form itself.
    let found = store.find_containers_by_name(vec![0xC3u8, 0x89]).expect("matches");
    assert_eq!(found.len(), 1);
}
