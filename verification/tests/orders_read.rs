use medbook_orderservice::carts::{create_cart, delete_cart};
use medbook_orderservice::models::AddressSnapshot;
use medbook_orderservice::orders::{
    create_order, get_my_orders, get_order, get_order_for_patient, get_orders,
};
use medbook_orderservice::pricing::PriceList;
use medbook_orderservice::status::OrderStatus;
use medbook_orderservice::store::Store;
use medbook_orderservice::AppError;

fn address_for(patient_id: i32) -> AddressSnapshot {
    AddressSnapshot { patient_id, body: b"{\"street\":\"elm\"}".to_vec() }
}

fn seeded_store() -> Store {
    let mut store = Store::new();
    create_cart(&mut store, 7, &vec![(1, 2), (2, 1)], 10).unwrap();
    create_cart(&mut store, 8, &vec![(3, 1)], 11).unwrap();
    create_order(&mut store, 7, 1, &address_for(7), &b"DELIVERY".to_vec(), 20).unwrap();
    create_order(&mut store, 8, 2, &address_for(8), &b"DELIVERY".to_vec(), 21).unwrap();
    store
}

#[test]
fn get_order_reports_row_items_and_total() {
    let store = seeded_store();
    let prices = PriceList { entries: vec![(1, 1000), (2, 500), (3, 300)] };
    let res = get_order(&store, 1, &prices).unwrap();
    assert_eq!(res.order.id, 1);
    assert_eq!(res.order.status, OrderStatus::Pending);
    assert_eq!(res.order_items.len(), 2);
    assert_eq!(res.total_price, 2500);
    assert!(matches!(get_order(&store, 99, &prices), Err(AppError::NotFound)));
}

#[test]
fn get_order_for_patient_checks_ownership() {
    let store = seeded_store();
    let prices = PriceList { entries: vec![] };
    assert!(get_order_for_patient(&store, 1, 7, &prices).is_ok());
    assert!(matches!(get_order_for_patient(&store, 1, 8, &prices), Err(AppError::NotFound)));
}

#[test]
fn get_orders_lists_every_order_newest_first() {
    let store = seeded_store();
    let prices = PriceList { entries: vec![(1, 1000), (2, 500), (3, 300)] };
    let all = get_orders(&store, &prices).unwrap();
    assert_eq!(all.len(), 2);
    // Order 2 was updated later and is listed first.
    assert_eq!(all[0].order.id, 2);
    assert_eq!(all[0].total_price, 300);
    assert_eq!(all[1].order.id, 1);
    assert_eq!(all[1].total_price, 2500);
}

#[test]
fn listings_keep_first_come_order_on_equal_update_times() {
    let mut store = Store::new();
    create_cart(&mut store, 7, &vec![(1, 1)], 10).unwrap();
    create_cart(&mut store, 7, &vec![(2, 1)], 10).unwrap();
    create_order(&mut store, 7, 1, &address_for(7), &b"DELIVERY".to_vec(), 20).unwrap();
    create_order(&mut store, 7, 2, &address_for(7), &b"DELIVERY".to_vec(), 20).unwrap();
    let prices = PriceList { entries: vec![(1, 100), (2, 200)] };
    let all = get_orders(&store, &prices).unwrap();
    assert_eq!(all.len(), 2);
    assert_eq!(all[0].order.id, 1);
    assert_eq!(all[1].order.id, 2);
}

#[test]
fn get_my_orders_filters_by_patient() {
    let store = seeded_store();
    let prices = PriceList { entries: vec![(3, 300)] };
    let mine = get_my_orders(&store, 8, &prices).unwrap();
    assert_eq!(mine.len(), 1);
    assert_eq!(mine[0].order.id, 2);
    assert_eq!(mine[0].total_price, 300);
    let none = get_my_orders(&store, 9, &prices).unwrap();
    assert_eq!(none.len(), 0);
}

#[test]
fn order_item_view_degrades_when_the_cart_is_deleted() {
    // Line items are read live from the cart rows the order references:
    // deleting the cart leaves the order's item view empty.
    let mut store = seeded_store();
    delete_cart(&mut store, 1, 7).unwrap();
    let prices = PriceList { entries: vec![(1, 1000), (2, 500)] };
    let res = get_order(&store, 1, &prices).unwrap();
    assert_eq!(res.order_items.len(), 0);
    assert_eq!(res.total_price, 0);
}
