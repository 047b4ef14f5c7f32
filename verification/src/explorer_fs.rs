//! Previews with English texts, and the volume helpers they share with
//! `fs_operations`.
use vstd::prelude::*;
use crate::fs_operations::{preview_file, preview_outcome};
use crate::zip_preview::{zip_listing, zip_preview, zip_preview_text, ZipTexts};

pub use crate::fs_operations::{available_volumes, drive_root, is_zip_file, order_entries, volume_label};
pub use crate::types::EntryItem;

verus! {

/// The texts of this module's ZIP previews.
pub fn zip_texts() -> (r: ZipTexts)
    ensures
        r.empty@ == "ZIP archive is empty."@,
        r.header@ == "ZIP archive: "@,
        r.encrypted@ == "Archive is encrypted."@,
        r.more@ == "... (more entries)"@,
{
    ZipTexts {
        empty: "ZIP archive is empty.",
        header: "ZIP archive: ",
        encrypted: "Archive is encrypted.",
        more: "... (more entries)",
    }
}

/// The listing of the ZIP archive in `bytes`, shown as `path`.
pub fn read_zip_preview(path: &str, bytes: Vec<u8>) -> (r: Result<String, String>)
    ensures
        match zip_listing(bytes@) {
            None => r is Err,
            Some(es) => match zip_preview_text(path@, es, "ZIP archive is empty."@, "ZIP archive: "@, "Archive is encrypted."@, "... (more entries)"@) {
                Some(t) => r matches Ok(s) && s@ == t,
                None => r is Err,
            },
        },
{
    zip_preview(path, bytes, &zip_texts())
}

/// The preview of a file from its contents: the listing of a ZIP archive, or
/// at most `max_bytes` of its text.
pub fn read_preview(path: &str, file_name: &str, bytes: Vec<u8>, max_bytes: usize) -> (r: Result<String, String>)
    ensures
        match preview_outcome(path@, file_name@, bytes@, max_bytes as nat, false, ("ZIP archive is empty."@, "ZIP archive: "@, "Archive is encrypted."@, "... (more entries)"@)) {
            Some(t) => r matches Ok(s) && s@ == t,
            None => r is Err,
        },
{
    preview_file(path, file_name, bytes, max_bytes, false, &zip_texts())
}

} // verus!
