//! GMO request and response shapes, and the response-to-result policy.
//! Serialization and transport live with the host.

use vstd::prelude::*;

use crate::order_types::{Side, OrderType};
use crate::symbol::Symbol;
use crate::text::{contains_str, contains_str_lower, contains_sub, lower_seq};

verus! {

/// A failure reported by the GMO endpoints.
#[derive(Debug)]
pub enum GmoError {
    /// The exchange is in maintenance.
    Maintenance,
    /// Any other reported message, or a response with neither payload nor
    /// message.
    ClientMessage { code: String, message: String },
}

#[derive(Debug, Clone)]
pub struct GmoClientResponseMessage {
    pub message_code: String,
    pub message_string: String,
}

/// The GMO response envelope: a status, an optional payload, and optional
/// messages.
#[derive(Debug)]
pub struct GmoClientResponse<T> {
    pub status: u16,
    pub data: Option<T>,
    pub messages: Option<Vec<GmoClientResponseMessage>>,
    pub responsetime: Option<String>,
}

impl<T> GmoClientResponse<T> {
    /// The payload if one came; otherwise the first message classified: a
    /// message mentioning maintenance (case-insensitively) is the
    /// maintenance error, any other is passed through, and a response with
    /// no message at all yields an unknown client message.
    pub fn into_result(self) -> (r: Result<T, GmoError>)
        requires
            self.messages is Some ==> self.messages->0@.len() > 0,
        ensures
            self.data is Some ==> r == Ok::<T, GmoError>(self.data->0),
            self.data is None && self.messages is Some && contains_sub(
                lower_seq(self.messages->0@[0].message_string@),
                lower_seq("maintenance"@),
            ) ==> r == Err::<T, GmoError>(GmoError::Maintenance),
            self.data is None && self.messages is Some && !contains_sub(
                lower_seq(self.messages->0@[0].message_string@),
                lower_seq("maintenance"@),
            ) ==> (match r {
                Err(GmoError::ClientMessage { code, message }) => code
                    == self.messages->0@[0].message_code && message
                    == self.messages->0@[0].message_string,
                _ => false,
            }),
            self.data is None && self.messages is None ==> (match r {
                Err(GmoError::ClientMessage { code, message }) => code@ == "unknown"@ && message@
                    == "unknown"@,
                _ => false,
            }),
    {
        match self.data {
            Some(data) => Ok(data),
            None => match self.messages {
                Some(messages) => {
                    let first = &messages[0];
                    if contains_str_lower(first.message_string.as_str(), "maintenance") {
                        Err(GmoError::Maintenance)
                    } else {
                        Err(
                            GmoError::ClientMessage {
                                code: first.message_code.clone(),
                                message: first.message_string.clone(),
                            },
                        )
                    }
                },
                None => Err(
                    GmoError::ClientMessage {
                        code: "unknown".to_owned(),
                        message: "unknown".to_owned(),
                    },
                ),
            },
        }
    }
}

#[derive(Debug)]
pub struct WsErrResponse {
    pub error: String,
}

impl WsErrResponse {
    /// Whether the error reports websocket rate limiting.
    pub fn is_too_many_request(&self) -> (r: bool)
        ensures
            r == contains_sub(self.error@, "Request too many"@),
    {
        contains_str(self.error.as_str(), "Request too many")
    }
}

#[derive(Debug)]
pub struct AccountAssetsRequest;

#[derive(Debug)]
pub struct AccountAsset {
    pub amount: String,
    pub available: String,
    pub symbol: String,
}

#[derive(Debug)]
pub struct Ticker {
    pub last: String,
}

/// Post-only time in force.
#[derive(Debug, Clone, Copy, PartialEq, Eq, Structural)]
pub enum GmoTimeInForce {
    SOK,
}

#[derive(Debug)]
pub struct CreateOrderRequest {
    pub symbol: Symbol,
    pub side: Side,
    pub execution_type: OrderType,
    pub size: String,
    pub price: String,
    pub time_in_force: Option<GmoTimeInForce>,
}

} // verus!
