//! Reading the prompts of an image file by its format, which the file
//! name's extension names.
use std::path::PathBuf;
use vstd::prelude::*;
use crate::discovery::{extension_of, file_extension, is_image_extension, is_image_name};
use crate::jpeg::{jpeg_issue, jpeg_records, scan_jpeg};
use crate::png::{png_issue, png_records, scan_png};
use crate::types::{RecordSpec, Scan, ScanIssue, all_at, record_views};
use crate::unicode::{lowercase_text, to_lowercase};
use crate::webp::{scan_webp, webp_issue, webp_records};

verus! {

/// The image formats whose metadata the library reads.
#[derive(Debug, Clone, Copy, PartialEq, Eq, Structural)]
pub enum ImageFormat {
    Png,
    Jpeg,
    Webp,
}

/// The format that a lowercased extension names.
pub open spec fn format_of_extension(lower: Seq<char>) -> Option<ImageFormat> {
    if lower == "png"@ {
        Some(ImageFormat::Png)
    } else if lower == "jpg"@ || lower == "jpeg"@ {
        Some(ImageFormat::Jpeg)
    } else if lower == "webp"@ {
        Some(ImageFormat::Webp)
    } else {
        None
    }
}

/// The format of a file name: that of its extension, ignoring case.
pub open spec fn format_of_name(name: Seq<char>) -> Option<ImageFormat> {
    match extension_of(name) {
        Some(e) => format_of_extension(lowercase_text(e)),
        None => None,
    }
}

/// The format that a lowercased extension names, if any.
pub fn format_of_extension_exec(lower: &str) -> (r: Option<ImageFormat>)
    ensures
        r == format_of_extension(lower@),
{
    if crate::json::str_eq(lower, "png") {
        Some(ImageFormat::Png)
    } else if crate::json::str_eq(lower, "jpg") || crate::json::str_eq(lower, "jpeg") {
        Some(ImageFormat::Jpeg)
    } else if crate::json::str_eq(lower, "webp") {
        Some(ImageFormat::Webp)
    } else {
        None
    }
}

/// The format that the file name `name` names by its extension, if any.
pub fn image_format(name: &str) -> (r: Option<ImageFormat>)
    ensures
        r == format_of_name(name@),
{
    match file_extension(name) {
        Some(ext) => format_of_extension_exec(to_lowercase(ext.as_str()).as_str()),
        None => None,
    }
}

/// The prompt records of file data in the given format.
pub open spec fn format_records(format: ImageFormat, d: Seq<u8>) -> Seq<RecordSpec> {
    match format {
        ImageFormat::Png => png_records(d),
        ImageFormat::Jpeg => jpeg_records(d),
        ImageFormat::Webp => webp_records(d),
    }
}

/// What stops the reading of file data in the given format early.
pub open spec fn format_issue(format: ImageFormat, d: Seq<u8>) -> Option<ScanIssue> {
    match format {
        ImageFormat::Png => png_issue(d),
        ImageFormat::Jpeg => jpeg_issue(d),
        ImageFormat::Webp => webp_issue(d),
    }
}

/// The prompt records of an image file's data read as `format`, all with
/// the path `path`.
pub fn scan_image(format: ImageFormat, path: &PathBuf, data: &[u8]) -> (s: Scan)
    ensures
        all_at(s.records@, *path),
        record_views(s.records@) == format_records(format, data@),
        s.issue == format_issue(format, data@),
{
    match format {
        ImageFormat::Png => scan_png(path, data),
        ImageFormat::Jpeg => scan_jpeg(path, data),
        ImageFormat::Webp => scan_webp(path, data),
    }
}

/// Every file that the search selects has a format that can be read, and
/// only those: a name has an image extension exactly when it names a
/// format.
pub proof fn law_selected_files_have_format(name: Seq<char>)
    ensures
        format_of_name(name) is Some <==> is_image_name(name),
{
    match extension_of(name) {
        Some(e) => assert(format_of_extension(lowercase_text(e)) is Some <==> is_image_extension(
            lowercase_text(e),
        )),
        None => {},
    }
}

} // verus!
