//! What the file server knows of the files that it serves.
use crate::text::same_str;
use vstd::prelude::*;

verus! {

/// The media type of a file in the directory of miscellaneous files, by the
/// extension of its name.
pub open spec fn misc_mime(ext: Seq<char>) -> Option<Seq<char>> {
    if ext == "webmanifest"@ {
        Some("application/manifest+json"@)
    } else if ext == "png"@ {
        Some("image/png"@)
    } else if ext == "svg"@ {
        Some("image/svg+xml"@)
    } else if ext == "ico"@ {
        Some("image/vnd.microsoft.icon"@)
    } else if ext == "xml"@ {
        Some("application/xml"@)
    } else {
        None
    }
}

/// The media type of a file in the directory of miscellaneous files, by the
/// extension of its name. A file with another extension is not served.
pub fn mime(ext: &str) -> (r: Option<&'static str>)
    ensures
        match r {
            Some(m) => misc_mime(ext@) == Some(m@),
            None => misc_mime(ext@) is None,
        },
{
    if same_str(ext, "webmanifest") {
        Some("application/manifest+json")
    } else if same_str(ext, "png") {
        Some("image/png")
    } else if same_str(ext, "svg") {
        Some("image/svg+xml")
    } else if same_str(ext, "ico") {
        Some("image/vnd.microsoft.icon")
    } else if same_str(ext, "xml") {
        Some("application/xml")
    } else {
        None
    }
}

} // verus!
