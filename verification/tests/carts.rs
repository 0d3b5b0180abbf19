use medbook_orderservice::carts::{
    create_cart, delete_cart, get_cart, get_carts, get_my_carts, update_cart,
};
use medbook_orderservice::pricing::PriceList;
use medbook_orderservice::store::Store;
use medbook_orderservice::AppError;

#[test]
fn create_cart_drops_non_positive_quantities() {
    let mut store = Store::new();
    let res = create_cart(&mut store, 7, &vec![(1, 2), (2, 0), (3, -1), (4, 5)], 10).unwrap();
    assert_eq!(res.cart.id, 1);
    assert_eq!(res.cart.patient_id, 7);
    let products: Vec<(i32, i32)> =
        res.cart_items.iter().map(|it| (it.product_id, it.quantity)).collect();
    assert_eq!(products, vec![(1, 2), (4, 5)]);
    assert_eq!(store.cart_items.len(), 2);
}

#[test]
fn create_cart_rejects_duplicate_products() {
    let mut store = Store::new();
    let r = create_cart(&mut store, 7, &vec![(1, 2), (1, 3)], 10);
    assert!(matches!(r, Err(AppError::TransactionFailed)));
    assert_eq!(store.carts.len(), 0);
    assert_eq!(store.cart_items.len(), 0);
}

#[test]
fn create_cart_accepts_duplicates_that_filtering_removes() {
    let mut store = Store::new();
    let res = create_cart(&mut store, 7, &vec![(1, 2), (1, 0)], 10).unwrap();
    assert_eq!(res.cart_items.len(), 1);
}

#[test]
fn update_cart_deletes_upserts_and_touches_the_cart() {
    let mut store = Store::new();
    create_cart(&mut store, 7, &vec![(1, 2), (2, 1)], 10).unwrap();
    let res = update_cart(&mut store, 1, 7, &vec![(2, 4), (3, 6)], 20).unwrap();
    let deleted: Vec<i32> = res.deleted_items.iter().map(|it| it.product_id).collect();
    assert_eq!(deleted, vec![1]);
    let updated: Vec<(i32, i32)> =
        res.updated_items.iter().map(|it| (it.product_id, it.quantity)).collect();
    assert_eq!(updated, vec![(2, 4), (3, 6)]);
    assert_eq!(res.updated_cart.updated_at, 20);
    // The upserted row kept its creation time; the fresh row got the new
    // one.
    assert_eq!(res.updated_items[0].created_at, 10);
    assert_eq!(res.updated_items[1].created_at, 20);
}

#[test]
fn update_cart_later_duplicate_wins() {
    let mut store = Store::new();
    create_cart(&mut store, 7, &vec![(1, 2)], 10).unwrap();
    let res = update_cart(&mut store, 1, 7, &vec![(5, 1), (5, 9)], 20).unwrap();
    let updated: Vec<(i32, i32)> =
        res.updated_items.iter().map(|it| (it.product_id, it.quantity)).collect();
    assert_eq!(updated, vec![(5, 9)]);
}

#[test]
fn update_cart_leaves_other_carts_alone() {
    let mut store = Store::new();
    create_cart(&mut store, 7, &vec![(1, 2)], 10).unwrap();
    create_cart(&mut store, 8, &vec![(1, 5)], 11).unwrap();
    update_cart(&mut store, 1, 7, &vec![(2, 3)], 20).unwrap();
    let other: Vec<(i32, i32, i32)> = store
        .cart_items
        .iter()
        .filter(|it| it.cart_id == 2)
        .map(|it| (it.cart_id, it.product_id, it.quantity))
        .collect();
    assert_eq!(other, vec![(2, 1, 5)]);
}

#[test]
fn update_cart_rejects_foreign_cart() {
    let mut store = Store::new();
    create_cart(&mut store, 7, &vec![(1, 2)], 10).unwrap();
    let r = update_cart(&mut store, 1, 8, &vec![(1, 3)], 20);
    assert!(matches!(r, Err(AppError::NotFound)));
    assert_eq!(store.cart_items[0].quantity, 2);
}

#[test]
fn delete_cart_removes_cart_and_rows() {
    let mut store = Store::new();
    create_cart(&mut store, 7, &vec![(1, 2)], 10).unwrap();
    create_cart(&mut store, 7, &vec![(2, 3)], 11).unwrap();
    let removed = delete_cart(&mut store, 1, 7).unwrap();
    assert_eq!(removed.id, 1);
    assert_eq!(store.carts.len(), 1);
    assert_eq!(store.carts[0].id, 2);
    let remaining: Vec<i32> = store.cart_items.iter().map(|it| it.cart_id).collect();
    assert_eq!(remaining, vec![2]);
}

#[test]
fn delete_cart_rejects_foreign_cart() {
    let mut store = Store::new();
    create_cart(&mut store, 7, &vec![(1, 2)], 10).unwrap();
    let r = delete_cart(&mut store, 1, 8);
    assert!(matches!(r, Err(AppError::NotFound)));
    assert_eq!(store.carts.len(), 1);
}

#[test]
fn get_cart_reports_items_and_total() {
    let mut store = Store::new();
    create_cart(&mut store, 7, &vec![(1, 2), (2, 1)], 10).unwrap();
    let prices = PriceList { entries: vec![(1, 1000), (2, 500)] };
    let res = get_cart(&store, 1, 7, &prices).unwrap();
    assert_eq!(res.cart.id, 1);
    assert_eq!(res.cart_items.len(), 2);
    assert_eq!(res.total_price, 2500);
    assert!(matches!(get_cart(&store, 1, 8, &prices), Err(AppError::NotFound)));
    assert!(matches!(get_cart(&store, 2, 7, &prices), Err(AppError::NotFound)));
}

#[test]
fn get_carts_and_my_carts_list_what_is_there() {
    let mut store = Store::new();
    create_cart(&mut store, 7, &vec![(1, 1)], 10).unwrap();
    create_cart(&mut store, 8, &vec![(2, 1)], 11).unwrap();
    create_cart(&mut store, 7, &vec![(3, 1)], 12).unwrap();
    let all = get_carts(&store);
    assert_eq!(all.len(), 3);
    let prices = PriceList { entries: vec![(1, 100), (2, 200), (3, 300)] };
    let mine = get_my_carts(&store, 7, &prices).unwrap();
    assert_eq!(mine.len(), 2);
    assert_eq!(mine[0].cart.id, 1);
    assert_eq!(mine[0].total_price, 100);
    assert_eq!(mine[1].cart.id, 3);
    assert_eq!(mine[1].total_price, 300);
}
