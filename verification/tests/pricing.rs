use medbook_orderservice::models::CartItemEntity;
use medbook_orderservice::pricing::{total_cents, PriceList};

fn item(product_id: i32, quantity: i32) -> CartItemEntity {
    CartItemEntity { cart_id: 1, product_id, quantity, created_at: 0, updated_at: 0 }
}

#[test]
fn missing_product_contributes_zero_not_an_error() {
    // Line items {(A, qty 2), (B, qty 1)}; the pricing response knows only
    // A at 10.00: the total is 20.00, in cents.
    let items = vec![item(1, 2), item(2, 1)];
    let prices = PriceList { entries: vec![(1, 1000)] };
    assert_eq!(total_cents(&items, &prices), Some(2000));
}

#[test]
fn total_multiplies_quantity_by_unit_price() {
    let items = vec![item(1, 2), item(2, 1)];
    let prices = PriceList { entries: vec![(1, 1000), (2, 500)] };
    assert_eq!(total_cents(&items, &prices), Some(2500));
}

#[test]
fn empty_cart_totals_zero() {
    let items: Vec<CartItemEntity> = vec![];
    let prices = PriceList { entries: vec![(1, 1000)] };
    assert_eq!(total_cents(&items, &prices), Some(0));
}

#[test]
fn set_price_replaces_an_existing_entry() {
    let mut prices = PriceList::new();
    prices.set_price(1, 1000);
    prices.set_price(1, 700);
    prices.set_price(2, 500);
    assert_eq!(prices.lookup(1), Some(700));
    assert_eq!(prices.lookup(2), Some(500));
    assert_eq!(prices.lookup(3), None);
}

#[test]
fn total_overflowing_the_amount_column_is_reported() {
    let many = i32::MAX;
    let items: Vec<CartItemEntity> =
        (0..5).map(|p| item(p, many)).collect();
    let prices = PriceList { entries: (0..5).map(|p| (p, u32::MAX)).collect() };
    assert_eq!(total_cents(&items, &prices), None);
}

#[test]
fn negative_quantities_subtract() {
    let items = vec![item(1, -2)];
    let prices = PriceList { entries: vec![(1, 1000)] };
    assert_eq!(total_cents(&items, &prices), Some(-2000));
}
