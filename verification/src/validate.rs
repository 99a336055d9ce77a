//! Request field validation, applied before any mutation.

use vstd::prelude::*;

verus! {

use vstd::string::StringSliceAdditionalSpecFns;
use crate::errors::FieldName;
use crate::errors::RequestError;

/// The longest text (in bytes) storage keeps for a menu reference, a buyer
/// name, or a food description; longer fields are refused up front.
pub const MAX_STR_LEN: usize = 210;

/// Accept `string` for the field `field` only if it fits the stored maximum.
pub fn length(field: FieldName, string: &str) -> (r: Result<(), RequestError>)
    ensures
        string.spec_bytes().len() <= MAX_STR_LEN ==> r == Ok::<(), RequestError>(()),
        string.spec_bytes().len() > MAX_STR_LEN ==> r == Err::<(), RequestError>(
            RequestError::FieldTooLong(field),
        ),
{
    proof {
        broadcast use vstd::slice::axiom_spec_len;

    }
    if string.as_bytes().len() > MAX_STR_LEN {
        return Err(RequestError::FieldTooLong(field));
    }
    Ok(())
}

} // verus!
