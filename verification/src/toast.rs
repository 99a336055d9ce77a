//! View state for the toast messages a client pops up on errors.

use vstd::prelude::*;

verus! {

/// The flavour of a toast message.
#[derive(Clone, PartialEq)]
pub enum ToastKind {
    Error,
}

/// What a toast renders.
#[derive(PartialEq)]
pub struct Props {
    pub message: String,
    pub kind: ToastKind,
}

} // verus!
