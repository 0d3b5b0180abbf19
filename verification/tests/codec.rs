use medbook_orderservice::codec::{
    decode_delivery_event, decode_order_event, encode_delivery_request_event,
    encode_order_items_event,
};
use medbook_orderservice::models::CartItemEntity;

fn item(product_id: i32, quantity: i32) -> CartItemEntity {
    CartItemEntity { cart_id: 1, product_id, quantity, created_at: 0, updated_at: 0 }
}

#[test]
fn encodes_order_items_payload_exactly() {
    let items = vec![item(4, 2), item(9, 1)];
    let payload = encode_order_items_event(17, &items);
    assert_eq!(
        payload,
        b"{\"order_id\":17,\"order_items\":[{\"product_id\":4,\"quantity\":2},{\"product_id\":9,\"quantity\":1}]}".to_vec()
    );
}

#[test]
fn encodes_empty_item_list() {
    let items: Vec<CartItemEntity> = vec![];
    let payload = encode_order_items_event(3, &items);
    assert_eq!(payload, b"{\"order_id\":3,\"order_items\":[]}".to_vec());
}

#[test]
fn encodes_negative_ids_in_decimal() {
    let items = vec![item(-4, -2)];
    let payload = encode_order_items_event(-17, &items);
    assert_eq!(
        payload,
        b"{\"order_id\":-17,\"order_items\":[{\"product_id\":-4,\"quantity\":-2}]}".to_vec()
    );
}

#[test]
fn encodes_delivery_request_with_spliced_address() {
    let address = b"{\"street\":\"elm\"}".to_vec();
    let payload = encode_delivery_request_event(&address, 5, &b"DELIVERY".to_vec());
    assert_eq!(
        payload,
        b"{\"delivery_address\":{\"street\":\"elm\"},\"order_id\":5,\"order_type\":\"DELIVERY\"}"
            .to_vec()
    );
}

#[test]
fn decodes_canonical_order_event() {
    assert_eq!(decode_order_event(b"{\"order_id\":123}"), Some(123));
    assert_eq!(decode_order_event(b"{\"order_id\":-5}"), Some(-5));
}

#[test]
fn decodes_with_blank_space_and_extra_fields() {
    assert_eq!(decode_order_event(b"  {  \"note\" : \"x\" , \"order_id\" : 8 }  "), Some(8));
}

#[test]
fn rejects_malformed_order_events() {
    assert_eq!(decode_order_event(b""), None);
    assert_eq!(decode_order_event(b"[]"), None);
    assert_eq!(decode_order_event(b"{\"order_id\":}"), None);
    assert_eq!(decode_order_event(b"{\"order_id\":1"), None);
    assert_eq!(decode_order_event(b"{\"order_id\":\"1\"}"), None);
    assert_eq!(decode_order_event(b"{\"order_id\":1}{"), None);
    // Out of the id column's range.
    assert_eq!(decode_order_event(b"{\"order_id\":3000000000}"), None);
    assert_eq!(decode_order_event(b"{\"order_id\":1234567890123456789012}"), None);
}

#[test]
fn decodes_delivery_event_with_both_fields() {
    let payload = b"{\"order_id\":7,\"delivery_id\":\"6f9619ff-8b86-d011-b42d-00cf4fc964ff\"}";
    let (id, delivery) = decode_delivery_event(payload).unwrap();
    assert_eq!(id, 7);
    assert_eq!(delivery, b"6f9619ff-8b86-d011-b42d-00cf4fc964ff".to_vec());
}

#[test]
fn rejects_delivery_event_without_delivery_id() {
    assert_eq!(decode_delivery_event(b"{\"order_id\":7}"), None);
    assert_eq!(decode_delivery_event(b"{\"delivery_id\":\"d-1\"}"), None);
    assert_eq!(decode_delivery_event(b"{\"order_id\":7,\"delivery_id\":4}"), None);
}

#[test]
fn empty_object_decodes_but_names_no_order() {
    assert_eq!(decode_order_event(b"{}"), None);
    assert_eq!(decode_order_event(b" { } "), None);
}
