//! bitFlyer request and response shapes. Serialization and transport live
//! with the host.

use vstd::prelude::*;

use crate::float_exp::FloatExp;
use crate::order_types::Side;

verus! {

#[derive(Debug)]
pub struct GetPositionRequest {
    pub product_code: String,
}

#[derive(Debug)]
pub struct ChildOrderResponse {
    pub child_order_acceptance_id: String,
}

#[derive(Debug, Clone, Copy, PartialEq, Eq, Structural)]
pub enum ChildOrderType {
    Limit,
    Market,
}

#[derive(Debug)]
pub struct ChildOrderRequest {
    pub product_code: String,
    pub child_order_type: ChildOrderType,
    pub side: Side,
    pub price: Option<FloatExp>,
    pub size: FloatExp,
    pub minute_to_expire: Option<u32>,
}

#[derive(Debug)]
pub struct CancelAllOrdersRequest {
    pub product_code: String,
}

#[derive(Debug)]
pub struct CancelChildOrderRequest {
    pub product_code: String,
    pub child_order_acceptance_id: String,
}

#[derive(Debug)]
pub struct GetCollateralRequest;

#[derive(Debug)]
pub struct TickerRequest {
    pub product_code: String,
}

} // verus!
