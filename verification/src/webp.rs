//! Prompts in the `XMP ` and `EXIF` chunks of a RIFF/WebP file; other
//! chunks are passed over.
use std::path::PathBuf;
use vstd::prelude::*;
use crate::exif::extract_user_comment;
use crate::jpeg::{detect_xmp_generator, exif_records, extract_xmp_description, xmp_records};
use crate::types::{
    Generator, PromptDetails, PromptRecord, RecordSpec, Scan, ScanIssue, all_at, push_record,
    record_views,
};

verus! {

/// The 32-bit little-endian word at `off`.
pub open spec fn le32(d: Seq<u8>, off: int) -> int {
    d[off] as int + 256 * d[off + 1] as int + 65536 * d[off + 2] as int + 16777216 * d[off
        + 3] as int
}

/// The four bytes at `off` are `a b c e`.
pub open spec fn tag_at(d: Seq<u8>, off: int, a: u8, b: u8, c: u8, e: u8) -> bool {
    d[off] == a && d[off + 1] == b && d[off + 2] == c && d[off + 3] == e
}

/// A chunk of `size` bytes takes `size` rounded up to even.
pub open spec fn padded(size: int) -> int {
    size + size % 2
}

/// The records of the chunks from `pos` on. Reading stops where no chunk
/// header remains and at an `XMP ` or `EXIF` chunk that the data does not
/// hold whole.
pub open spec fn webp_records_from(d: Seq<u8>, pos: int) -> Seq<RecordSpec>
    decreases d.len() - pos,
{
    if pos < 0 || pos + 8 > d.len() {
        Seq::empty()
    } else {
        let size = le32(d, pos + 4);
        let next = pos + 8 + padded(size);
        let rest = if next <= d.len() {
            webp_records_from(d, next)
        } else {
            Seq::empty()
        };
        if tag_at(d, pos, 0x58, 0x4d, 0x50, 0x20) {
            if pos + 8 + size > d.len() {
                Seq::empty()
            } else {
                xmp_records(d.subrange(pos + 8, pos + 8 + size)) + rest
            }
        } else if tag_at(d, pos, 0x45, 0x58, 0x49, 0x46) {
            if pos + 8 + size > d.len() {
                Seq::empty()
            } else {
                exif_records(d.subrange(pos + 8, pos + 8 + size)) + rest
            }
        } else {
            rest
        }
    }
}

/// What stopped the reading from `pos` on early, if anything did.
pub open spec fn webp_issue_from(d: Seq<u8>, pos: int) -> Option<ScanIssue>
    decreases d.len() - pos,
{
    if pos < 0 || pos + 8 > d.len() {
        None
    } else {
        let size = le32(d, pos + 4);
        let next = pos + 8 + padded(size);
        let rest = if next <= d.len() {
            webp_issue_from(d, next)
        } else {
            None
        };
        if tag_at(d, pos, 0x58, 0x4d, 0x50, 0x20) {
            if pos + 8 + size > d.len() {
                Some(ScanIssue::TruncatedXmp)
            } else {
                rest
            }
        } else if tag_at(d, pos, 0x45, 0x58, 0x49, 0x46) {
            if pos + 8 + size > d.len() {
                Some(ScanIssue::TruncatedExif)
            } else {
                rest
            }
        } else {
            rest
        }
    }
}

/// The data starts with a RIFF header of form WEBP.
pub open spec fn is_webp(d: Seq<u8>) -> bool {
    d.len() >= 12 && tag_at(d, 0, 0x52, 0x49, 0x46, 0x46) && tag_at(d, 8, 0x57, 0x45, 0x42, 0x50)
}

/// The prompt records of a WebP file's data.
pub open spec fn webp_records(d: Seq<u8>) -> Seq<RecordSpec> {
    if is_webp(d) {
        webp_records_from(d, 12)
    } else {
        Seq::empty()
    }
}

/// What stopped the reading of a WebP file's data early.
pub open spec fn webp_issue(d: Seq<u8>) -> Option<ScanIssue> {
    if d.len() < 12 {
        Some(ScanIssue::WebpTooSmall)
    } else if !is_webp(d) {
        Some(ScanIssue::NotWebp)
    } else {
        webp_issue_from(d, 12)
    }
}

/// The prompt records in the XMP and EXIF chunks of a WebP file's data,
/// all with the path `path`.
pub fn scan_webp(path: &PathBuf, data: &[u8]) -> (s: Scan)
    ensures
        all_at(s.records@, *path),
        record_views(s.records@) == webp_records(data@),
        s.issue == webp_issue(data@),
{
    let mut results: Vec<PromptRecord> = Vec::new();
    assert(record_views(results@) =~= Seq::<RecordSpec>::empty());
    let len = data.len();
    if len < 12 {
        return Scan { records: results, issue: Some(ScanIssue::WebpTooSmall) };
    }
    if !(data[0] == 0x52 && data[1] == 0x49 && data[2] == 0x46 && data[3] == 0x46 && data[8]
        == 0x57 && data[9] == 0x45 && data[10] == 0x42 && data[11] == 0x50) {
        return Scan { records: results, issue: Some(ScanIssue::NotWebp) };
    }
    let ghost d = data@;
    let mut pos: usize = 12;
    let mut issue: Option<ScanIssue> = None;
    loop
        invariant_except_break
            12 <= pos <= len,
            len == d.len(),
            d == data@,
            issue is None,
            is_webp(d),
            all_at(results@, *path),
            webp_records(d) == record_views(results@) + webp_records_from(d, pos as int),
            webp_issue_from(d, 12) == webp_issue_from(d, pos as int),
        ensures
            all_at(results@, *path),
            is_webp(d),
            webp_records(d) == record_views(results@),
            webp_issue_from(d, 12) == issue,
        decreases len - pos,
    {
        if len - pos < 8 {
            assert(record_views(results@) + Seq::<RecordSpec>::empty() == record_views(results@));
            break;
        }
        let size = (data[pos + 4] as usize) + (data[pos + 5] as usize) * 256 + (data[pos + 6]
            as usize) * 65536 + (data[pos + 7] as usize) * 16777216;
        assert(size == le32(d, pos + 4));
        let pad = size % 2;
        let is_xmp = data[pos] == 0x58 && data[pos + 1] == 0x4d && data[pos + 2] == 0x50 && data[pos
            + 3] == 0x20;
        let is_exif = data[pos] == 0x45 && data[pos + 1] == 0x58 && data[pos + 2] == 0x49 && data[pos
            + 3] == 0x46;
        let ghost before = record_views(results@);
        let ghost next = pos + 8 + padded(size as int);
        if is_xmp || is_exif {
            if len - pos - 8 < size {
                issue = if is_xmp {
                    Some(ScanIssue::TruncatedXmp)
                } else {
                    Some(ScanIssue::TruncatedExif)
                };
                assert(record_views(results@) + Seq::<RecordSpec>::empty() == record_views(
                    results@,
                ));
                break;
            }
            let chunk = vstd::slice::slice_subrange(data, pos + 8, pos + 8 + size);
            if is_xmp {
                match extract_xmp_description(chunk) {
                    Some(prompt) => {
                        let generator = detect_xmp_generator(chunk);
                        let r = PromptRecord::with_details(
                            path.clone(),
                            prompt,
                            generator,
                            "XMP",
                            PromptDetails::default(),
                        );
                        push_record(&mut results, r, path);
                    },
                    None => {
                        assert(before + Seq::<RecordSpec>::empty() == before);
                    },
                }
                assert(record_views(results@) == before + xmp_records(chunk@));
            } else {
                match extract_user_comment(chunk) {
                    Some(prompt) => {
                        let r = PromptRecord::with_details(
                            path.clone(),
                            prompt,
                            Generator::Unknown,
                            "UserComment",
                            PromptDetails::default(),
                            );
                        push_record(&mut results, r, path);
                    },
                    None => {
                        assert(before + Seq::<RecordSpec>::empty() == before);
                    },
                }
                assert(record_views(results@) == before + exif_records(chunk@));
            }
        }
        if len - pos - 8 < size || len - pos - 8 - size < pad {
            assert(record_views(results@) + Seq::<RecordSpec>::empty() == record_views(results@));
            break;
        }
        proof {
            if is_xmp {
                assert(before + (xmp_records(d.subrange(pos + 8, pos + 8 + size)) + webp_records_from(
                    d,
                    next,
                )) == (before + xmp_records(d.subrange(pos + 8, pos + 8 + size)))
                    + webp_records_from(d, next));
            } else if is_exif {
                assert(before + (exif_records(d.subrange(pos + 8, pos + 8 + size)) + webp_records_from(
                    d,
                    next,
                )) == (before + exif_records(d.subrange(pos + 8, pos + 8 + size)))
                    + webp_records_from(d, next));
            }
        }
        pos = pos + 8 + size + pad;
    }
    Scan { records: results, issue }
}

} // verus!
