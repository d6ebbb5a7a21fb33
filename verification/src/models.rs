//! The merchant API's records, shared by the node and its storage.

pub use crate::state::{Lsat, Merchant, InvoiceStatus, Invoice, PaymentRecord};
