use inventory_store::codec::decode_container;
use inventory_store::codec::decode_item;
use inventory_store::codec::encode_container;
use inventory_store::codec::encode_item;
use inventory_store::records::Container;
use inventory_store::records::Item;

fn sample_container() -> Container {
    Container { id: 7, name: b"Main Depot".to_vec(), address: b"12 Dock Rd".to_vec() }
}

fn sample_item() -> Item {
    Item {
        id: 8,
        name: b"Widget".to_vec(),
        quantity: 10,
        category: b"tools".to_vec(),
        container: sample_container(),
        added_at: 1111,
        restocked_at: 2222,
    }
}

#[test]
fn container_round_trip() {
    let c = sample_container();
    let bytes = encode_container(&c).expect("fits the size bound");
    let back = decode_container(&bytes).expect("decodes");
    assert_eq!(back, c);
}

#[test]
fn item_round_trip() {
    let it = sample_item();
    let bytes = encode_item(&it).expect("fits the size bound");
    let back = decode_item(&bytes).expect("decodes");
    assert_eq!(back, it);
}

#[test]
fn container_round_trip_empty_fields_rejected_nowhere() {
    // The codec itself accepts any field contents; only the size bound limits it.
    let c = Container { id: 0, name: Vec::new(), address: Vec::new() };
    let bytes = encode_container(&c).expect("fits the size bound");
    assert_eq!(bytes.len(), 16);
    let back = decode_container(&bytes).expect("decodes");
    assert_eq!(back, c);
}

#[test]
fn encode_rejects_oversized_container() {
    let c = Container { id: 1, name: vec![b'x'; 600], address: vec![b'y'; 600] };
    assert!(encode_container(&c).is_none());
}

#[test]
fn encode_rejects_oversized_item() {
    let it = Item {
        id: 1,
        name: vec![b'x'; 600],
        quantity: 1,
        category: vec![b'y'; 600],
        container: sample_container(),
        added_at: 0,
        restocked_at: 0,
    };
    assert!(encode_item(&it).is_none());
}

#[test]
fn decode_rejects_truncated_bytes() {
    let c = sample_container();
    let mut bytes = encode_container(&c).expect("fits the size bound");
    bytes.pop();
    assert!(decode_container(&bytes).is_none());
    assert!(decode_container(&vec![1u8, 2, 3]).is_none());
}

#[test]
fn decode_rejects_trailing_garbage() {
    let c = sample_container();
    let mut bytes = encode_container(&c).expect("fits the size bound");
    bytes.push(0);
    assert!(decode_container(&bytes).is_none());
}
