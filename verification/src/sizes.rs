//! Human-readable byte counts.

use vstd::prelude::*;

verus! {

/// What `bytesize::ByteSize::b(bytes)` displays.
pub uninterp spec fn byte_size_text(bytes: u64) -> Seq<char>;

/// Calls `bytesize::ByteSize::b` and its `Display` through `to_string`. The
/// claim is that the text depends on the byte count alone; how it is rounded
/// and which unit it shows is left to the crate.
#[verifier::external_body]
pub(crate) fn byte_size(bytes: u64) -> (text: String)
    ensures
        text@ == byte_size_text(bytes),
{
    bytesize::ByteSize::b(bytes).to_string()
}

} // verus!
