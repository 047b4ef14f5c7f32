//! The clipboard and the name under which a pasted item lands.
use vstd::prelude::*;

pub use crate::fs_operations::{next_copy_attempt, unique_destination_name, LAST_COPY_ATTEMPT};
pub use crate::types::{ClipboardItem, ClipboardMode};

verus! {

/// The name a pasted item keeps: its file name, or `item` when it has none
/// that is valid text.
pub fn paste_file_name(file_name: Option<String>) -> (r: String)
    ensures
        r@ == match file_name {
            Some(n) => n@,
            None => "item"@,
        },
{
    match file_name {
        Some(n) => n,
        None => String::from_str("item"),
    }
}

} // verus!
