//! The errors a request can be refused with, and how each is surfaced.
//!
//! Three kinds reach a caller: internal failures, client-visible "not
//! found", and client-visible "invalid argument" for requests rejected
//! before any mutation. Delivery failures to slow or vanished subscribers
//! are deliberately absent: those are expected, swallowed by best-effort
//! fan-out, and cleaned up by the reaper.

use vstd::prelude::*;

verus! {

/// A request field checked for length.
#[derive(Clone, Copy, Debug, PartialEq, Eq, Structural)]
pub enum FieldName {
    MenuUrl,
    Buyer,
    Food,
}

/// How an error is surfaced to the caller.
#[derive(Clone, Copy, Debug, PartialEq, Eq, Structural)]
pub enum ErrorKind {
    /// An internal failure of the server or its storage.
    Internal,
    /// The order or entry the request names does not exist.
    NotFound,
    /// The request itself is unacceptable; nothing was mutated.
    InvalidArgument,
}

/// Why a request was refused.
#[derive(Clone, Copy, Debug, PartialEq, Eq, Structural)]
pub enum RequestError {
    /// The order a lookup or mutation names does not exist.
    OrderNotFound,
    /// The entry a mutation names does not exist.
    OrderEntryNotFound,
    /// The order an entry should join does not exist.
    OrderMissing,
    /// The order no longer accepts entries.
    OrderNotOpen,
    /// A text field exceeds the stored maximum.
    FieldTooLong(FieldName),
    /// An entry price below zero cannot be represented.
    EntryPriceNegative,
    /// An entry price above the accepted ceiling.
    EntryPriceTooHigh,
}

impl RequestError {
    /// The kind each error is surfaced as: an unknown order or entry id is a
    /// client-visible "not found" wherever it turns up, and every validation
    /// failure — an order that is not open, an oversized field, an
    /// unacceptable price — is a client-visible "invalid argument", refused
    /// before anything is mutated.
    pub open spec fn spec_kind(self) -> ErrorKind {
        match self {
            RequestError::OrderNotFound => ErrorKind::NotFound,
            RequestError::OrderEntryNotFound => ErrorKind::NotFound,
            RequestError::OrderMissing => ErrorKind::NotFound,
            RequestError::OrderNotOpen => ErrorKind::InvalidArgument,
            RequestError::FieldTooLong(_) => ErrorKind::InvalidArgument,
            RequestError::EntryPriceNegative => ErrorKind::InvalidArgument,
            RequestError::EntryPriceTooHigh => ErrorKind::InvalidArgument,
        }
    }

    /// See [`RequestError::spec_kind`].
    pub fn kind(&self) -> (k: ErrorKind)
        ensures
            k == self.spec_kind(),
    {
        match self {
            RequestError::OrderNotFound => ErrorKind::NotFound,
            RequestError::OrderEntryNotFound => ErrorKind::NotFound,
            RequestError::OrderMissing => ErrorKind::NotFound,
            RequestError::OrderNotOpen => ErrorKind::InvalidArgument,
            RequestError::FieldTooLong(_) => ErrorKind::InvalidArgument,
            RequestError::EntryPriceNegative => ErrorKind::InvalidArgument,
            RequestError::EntryPriceTooHigh => ErrorKind::InvalidArgument,
        }
    }
}

} // verus!
