use medbook_orderservice::api::ApiUrls;
use medbook_orderservice::status::{order_status_name, payment_status_name, OrderStatus, PaymentStatus};

#[test]
fn init_fills_in_the_default_addresses() {
    let urls = ApiUrls::init();
    assert_eq!(urls.delivery_service_url, "http://localhost:3000/deliveries-service");
    assert_eq!(urls.inventory_service_url, "http://localhost:3000/inventory-service");
    assert_eq!(ApiUrls::get_delivery_service_url(), urls.delivery_service_url);
    assert_eq!(ApiUrls::get_inventory_service_url(), urls.inventory_service_url);
}

#[test]
fn status_columns_render_as_persisted() {
    assert_eq!(order_status_name(OrderStatus::Pending), "PENDING");
    assert_eq!(order_status_name(OrderStatus::Reserved), "RESERVED");
    assert_eq!(order_status_name(OrderStatus::PaymentPending), "PAYMENT_PENDING");
    assert_eq!(order_status_name(OrderStatus::DeliveryPending), "DELIVERY_PENDING");
    assert_eq!(order_status_name(OrderStatus::Delivered), "DELIVERED");
    assert_eq!(order_status_name(OrderStatus::Rejected), "REJECTED");
    assert_eq!(order_status_name(OrderStatus::CancelPending), "CANCEL_PENDING");
    assert_eq!(order_status_name(OrderStatus::Cancelled), "CANCELLED");
    assert_eq!(payment_status_name(PaymentStatus::Pending), "PENDING");
    assert_eq!(payment_status_name(PaymentStatus::Paid), "PAID");
}
