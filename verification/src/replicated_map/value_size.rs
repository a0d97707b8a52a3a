//! The ceiling on encoded values.

use vstd::prelude::*;
use vstd::string::StringExecFns;

use crate::bounds;
use crate::bounds::Value;
use crate::text;

verus! {

/// The value's encoded size exceeds the configured ceiling.
#[derive(Clone, Copy, Debug, PartialEq, Eq, Structural)]
pub struct ValueTooLarge {
    /// The encoded size, in bytes.
    pub encoded_size: usize,
    /// The ceiling it exceeds.
    pub max_value_size: usize,
}

impl ValueTooLarge {
    /// The message a user sees.
    pub open spec fn message(self) -> Seq<char> {
        "value encodes to "@ + text::decimal(self.encoded_size as nat)
            + " bytes, exceeding Config::max_value_size ("@ + text::decimal(self.max_value_size as nat)
            + " bytes)"@
    }

    /// The message a user sees.
    pub fn to_string(&self) -> (text: String)
        ensures
            text@ == self.message(),
    {
        let mut text: String = String::from_str("value encodes to ");
        text::append_decimal(&mut text, self.encoded_size);
        text.append(" bytes, exceeding Config::max_value_size (");
        text::append_decimal(&mut text, self.max_value_size);
        text.append(" bytes)");
        text
    }
}

/// Reject a value whose encoding exceeds the ceiling; one exactly at the ceiling is accepted.
pub fn check_value_size<V: Value>(value: &V, max_value_size: Option<usize>) -> (result: Result<
    (),
    ValueTooLarge,
>)
    ensures
        result is Err <==> (max_value_size matches Some(max) && bounds::capped(
            V::encoded_len(value@),
        ) > max),
        result matches Err(error) ==> error.encoded_size as nat == bounds::capped(
            V::encoded_len(value@),
        ) && Some(error.max_value_size) == max_value_size,
{
    match max_value_size {
        None => Ok(()),
        Some(max_value_size) => {
            let encoded_size: usize = value.encoded_size();
            if encoded_size > max_value_size {
                Err(ValueTooLarge { encoded_size, max_value_size })
            } else {
                Ok(())
            }
        },
    }
}

/// What a user reads of a value that is too large is its size, and then the ceiling.
pub proof fn the_message_tells_size_and_ceiling(error: ValueTooLarge) -> (around: (Seq<char>, Seq<char>, Seq<char>))
    ensures
        error.message() == around.0 + text::decimal(error.encoded_size as nat) + around.1 + text::decimal(
            error.max_value_size as nat,
        ) + around.2,
        around.0 == "value encodes to "@,
{
    ("value encodes to "@, " bytes, exceeding Config::max_value_size ("@, " bytes)"@)
}

} // verus!
