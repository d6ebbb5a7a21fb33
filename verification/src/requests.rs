//! The bodies of the node's HTTP requests.

use vstd::prelude::*;

verus! {

/// `POST /api/v1/register`
pub struct RegisterReq {
    pub name: String,
    pub email: String,
}

/// `POST /api/v1/invoices`; the lifetime defaults to `default_ttl()`.
pub struct CreateInvoiceReq {
    pub amount_sats: u64,
    pub description: String,
    /// Caller-supplied JSON, as its text.
    pub metadata: Option<String>,
    pub expires_in: u64,
}

/// `POST /api/v1/webhook`
pub struct WebhookReq {
    pub url: String,
    pub secret: Option<String>,
}

/// `POST /api/v1/transfer` (legacy)
pub struct TransferReq {
    pub to: String,
    pub amount: u64,
}

/// Legacy mint request.
pub struct MintReq {
    pub amount: u64,
}

/// Legacy invoice request.
pub struct InvoiceReq {
    pub amount_sats: u64,
    pub description: String,
}

/// `POST /api/v1/pay` (legacy)
pub struct PayReq {
    pub invoice: String,
}

/// `POST /api/v1/peer/connect`
pub struct PeerReq {
    pub node_id: String,
    pub address: String,
}

/// `POST /api/v1/channel/open`
pub struct ChannelReq {
    pub node_id: String,
    pub address: String,
    pub amount_sats: u64,
    pub push_msat: u64,
}

} // verus!
