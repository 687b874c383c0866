//! A read-only snapshot of one path's metadata.

use crate::text::{chars_to_string, dec_digits, u64_to_dec};
use vstd::prelude::*;
use vstd::string::*;

verus! {

/// Size, timestamps, kind and permission summary of a file or directory.
/// Timestamps are pre-formatted text; one that the platform cannot supply
/// is absent rather than an error.
#[derive(Debug)]
pub struct FileInfo {
    pub size: u64,
    pub created: Option<String>,
    pub modified: Option<String>,
    pub accessed: Option<String>,
    pub is_directory: bool,
    pub is_file: bool,
    pub permissions: String,
}

/// The text of an optional timestamp: the timestamp itself, or nothing.
pub open spec fn opt_text(t: &Option<String>) -> Seq<char> {
    match t {
        Some(s) => s@,
        None => Seq::empty(),
    }
}

/// The text of a boolean, as `true` or `false`.
pub open spec fn bool_text(b: bool) -> Seq<char> {
    if b {
        "true"@
    } else {
        "false"@
    }
}

/// The formatted metadata block for `info`.
pub open spec fn spec_file_info_text(info: &FileInfo) -> Seq<char> {
    "size: "@ + dec_digits(info.size as int) + "\ncreated: "@ + opt_text(&info.created)
        + "\nmodified: "@ + opt_text(&info.modified) + "\naccessed: "@ + opt_text(&info.accessed)
        + "\nisDirectory: "@ + bool_text(info.is_directory) + "\nisFile: "@ + bool_text(
        info.is_file,
    ) + "\npermissions: "@ + info.permissions@ + "\n"@
}

impl FileInfo {
    /// The metadata block as text, one field per line.
    pub fn format_text(&self) -> (r: String)
        ensures
            r@ == spec_file_info_text(self),
    {
        let mut out = String::from_str("size: ");
        let size_text = chars_to_string(&u64_to_dec(self.size));
        out.append(size_text.as_str());
        out.append("\ncreated: ");
        if let Some(t) = &self.created {
            out.append(t.as_str());
        }
        out.append("\nmodified: ");
        if let Some(t) = &self.modified {
            out.append(t.as_str());
        }
        out.append("\naccessed: ");
        if let Some(t) = &self.accessed {
            out.append(t.as_str());
        }
        out.append("\nisDirectory: ");
        out.append(if self.is_directory {
            "true"
        } else {
            "false"
        });
        out.append("\nisFile: ");
        out.append(if self.is_file {
            "true"
        } else {
            "false"
        });
        out.append("\npermissions: ");
        out.append(self.permissions.as_str());
        out.append("\n");
        out
    }
}

} // verus!
