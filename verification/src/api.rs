//! Base addresses of the sibling services this service calls for pricing
//! and delivery-address lookups.
use vstd::prelude::*;

verus! {

/// The base addresses used for outbound lookups.  `init` fills in the
/// defaults; a deployment that reads overrides from its environment
/// constructs the value with its own fields.
pub struct ApiUrls {
    pub delivery_service_url: String,
    pub inventory_service_url: String,
}

impl ApiUrls {
    /// The default addresses.
    pub fn init() -> (r: ApiUrls)
        ensures
            r.delivery_service_url@ == ("http://localhost:3000/deliveries-service")@,
            r.inventory_service_url@ == ("http://localhost:3000/inventory-service")@,
    {
        ApiUrls {
            delivery_service_url: Self::get_delivery_service_url(),
            inventory_service_url: Self::get_inventory_service_url(),
        }
    }

    /// The default delivery-service address.
    pub fn get_delivery_service_url() -> (r: String)
        ensures
            r@ == ("http://localhost:3000/deliveries-service")@,
    {
        ("http://localhost:3000/deliveries-service").to_owned()
    }

    /// The default inventory-service address.
    pub fn get_inventory_service_url() -> (r: String)
        ensures
            r@ == ("http://localhost:3000/inventory-service")@,
    {
        ("http://localhost:3000/inventory-service").to_owned()
    }
}

} // verus!
