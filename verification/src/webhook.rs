//! Webhook delivery: what a payment event carries, how its body is signed,
//! and when a failed delivery is tried again.

use vstd::prelude::*;
use crate::crypto::signature_spec;
use crate::auth::hmac_signature;
use crate::text::owned;

verus! {

/// One event to deliver to a merchant's webhook.
pub struct WebhookEvent {
    pub merchant_id: String,
    pub url: String,
    pub secret: Option<String>,
    /// The event's name, such as `payment.received`.
    pub event: String,
    /// The event's data, as JSON text.
    pub data: String,
}

/// The API version that payloads declare.
pub fn api_version() -> (r: String)
    ensures
        r@ == "2024-01"@,
{
    owned("2024-01")
}

/// The name of the event sent when a payment is credited.
pub fn payment_received_event() -> (r: String)
    ensures
        r@ == "payment.received"@,
{
    owned("payment.received")
}

/// The `X-Lumen-Signature` header for a body: its signature under the
/// merchant's secret, and no header where the merchant has no secret.
pub fn signature_header(secret: &Option<String>, body: &str) -> (r: Option<String>)
    ensures
        match secret {
            Some(s) => r matches Some(h) && h@ == signature_spec(s@, body@),
            None => r is None,
        },
{
    match secret {
        Some(s) => Some(hmac_signature(s.as_str(), body)),
        None => None,
    }
}

/// The number of attempts made to deliver one event.
pub const MAX_ATTEMPTS: u32 = 3;

/// What follows one delivery attempt.
#[derive(Clone, Copy, Debug, PartialEq, Eq, Structural)]
pub enum DeliveryStep {
    /// The endpoint answered with a 2xx status: delivered.
    Delivered,
    /// Wait this many seconds, then try again.
    RetryAfter(u64),
    /// The last attempt failed: give up.
    GiveUp,
}

/// 2 to the power `attempt`.
pub open spec fn pow2(attempt: nat) -> nat
    decreases attempt,
{
    if attempt == 0 {
        1
    } else {
        2 * pow2((attempt - 1) as nat)
    }
}

/// What follows attempt number `attempt` (from 1): a success ends the
/// delivery; a failure before the last attempt waits `2^attempt` seconds.
pub open spec fn delivery_step_spec(attempt: u32, success: bool) -> DeliveryStep {
    if success {
        DeliveryStep::Delivered
    } else if attempt < MAX_ATTEMPTS {
        DeliveryStep::RetryAfter(pow2(attempt as nat) as u64)
    } else {
        DeliveryStep::GiveUp
    }
}

pub fn delivery_step(attempt: u32, success: bool) -> (r: DeliveryStep)
    requires
        1 <= attempt <= MAX_ATTEMPTS,
    ensures
        r == delivery_step_spec(attempt, success),
{
    if success {
        DeliveryStep::Delivered
    } else if attempt < MAX_ATTEMPTS {
        proof {
            reveal_with_fuel(pow2, 3);
        }
        let wait: u64 = if attempt == 1 {
            2
        } else {
            4
        };
        DeliveryStep::RetryAfter(wait)
    } else {
        DeliveryStep::GiveUp
    }
}

/// Failed attempts are retried at most twice, after 2 and then 4 seconds,
/// and the third failure gives up.
pub proof fn law_delivery_gives_up_after_three()
    ensures
        delivery_step_spec(1, false) == DeliveryStep::RetryAfter(2),
        delivery_step_spec(2, false) == DeliveryStep::RetryAfter(4),
        delivery_step_spec(3, false) == DeliveryStep::GiveUp,
        forall|a: u32| 1 <= a <= MAX_ATTEMPTS ==> delivery_step_spec(a, true) == DeliveryStep::Delivered,
{
    reveal_with_fuel(pow2, 3);
}

} // verus!
