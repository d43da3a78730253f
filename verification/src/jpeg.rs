//! Prompts in the COM and APP1 (XMP, EXIF) segments of a JPEG file, read up
//! to the start of scan.
use std::path::PathBuf;
use vstd::prelude::*;
use crate::a1111::{a1111_details, extract_details};
use crate::exif::{exif_prefix, extract_user_comment, user_comment_of};
use crate::text::{
    chars_of, contains, contains_str, find, find_in, lemma_find_from_spec, non_empty_text, trim,
    trimmed_non_empty,
};
use crate::types::{
    Generator, PromptDetails, PromptRecord, RecordSpec, Scan, ScanIssue, all_at, empty_details,
    push_record, record_spec, record_views,
};
use crate::unicode::{utf8_lossy, utf8_lossy_text};

verus! {

/// The text of the first `<rdf:li>` inside `<dc:description>`, trimmed;
/// nothing where any of the tags is missing or the text is empty.
pub open spec fn xmp_description(x: Seq<char>) -> Option<Seq<char>> {
    match find(x, "<dc:description>"@) {
        None => None,
        Some(dc) => {
            let after_dc = x.skip(dc + "<dc:description>"@.len());
            match find(after_dc, "<rdf:li"@) {
                None => None,
                Some(li) => {
                    let li_content = after_dc.skip(li);
                    match find(li_content, ">"@) {
                        None => None,
                        Some(c) => {
                            let text = li_content.skip(c + 1);
                            match find(text, "</rdf:li>"@) {
                                None => None,
                                Some(end) => non_empty_text(trim(text.take(end))),
                            }
                        },
                    }
                },
            }
        },
    }
}

/// InvokeAI where the XMP text uses the `invokeai:` namespace.
pub open spec fn xmp_generator(x: Seq<char>) -> Generator {
    if contains(x, "invokeai:"@) {
        Generator::InvokeAI
    } else {
        Generator::Unknown
    }
}

/// The prompt description of an XMP packet given as text.
pub fn description_in_xmp(xmp: &str) -> (r: Option<String>)
    ensures
        crate::text::opt_view(r) == xmp_description(xmp@),
{
    let x = chars_of(xmp);
    let n = x.len();
    assert(x@.subrange(0, n as int) == x@);
    let dc_tag = chars_of("<dc:description>");
    let dc = match find_in(&x, 0, n, &dc_tag) {
        Some(i) => i,
        None => return None,
    };
    proof {
        lemma_find_from_spec(x@, dc_tag@, 0);
    }
    let a = dc + dc_tag.len();
    let ghost after_dc = x@.skip(a as int);
    assert(after_dc == x@.subrange(a as int, n as int));
    let li_tag = chars_of("<rdf:li");
    let li = match find_in(&x, a, n, &li_tag) {
        Some(i) => i,
        None => return None,
    };
    let ghost li_content = after_dc.skip(li - a);
    assert(li_content == x@.subrange(li as int, n as int));
    let close = chars_of(">");
    let c = match find_in(&x, li, n, &close) {
        Some(i) => i,
        None => return None,
    };
    proof {
        reveal_strlit(">");
        lemma_find_from_spec(li_content, close@, 0);
    }
    let t = c + 1;
    let ghost text = li_content.skip(c - li + 1);
    assert(text == x@.subrange(t as int, n as int));
    let end_tag = chars_of("</rdf:li>");
    let end = match find_in(&x, t, n, &end_tag) {
        Some(i) => i,
        None => return None,
    };
    assert(text.take(end - t) == x@.subrange(t as int, end as int));
    trimmed_non_empty(&x, t, end)
}

/// The generator that an XMP packet given as text names.
pub fn generator_of_xmp(xmp: &str) -> (g: Generator)
    ensures
        g == xmp_generator(xmp@),
{
    if contains_str(xmp, "invokeai:") {
        Generator::InvokeAI
    } else {
        Generator::Unknown
    }
}

/// The prompt description of an XMP packet, its bytes decoded as UTF-8.
pub fn extract_xmp_description(xmp_bytes: &[u8]) -> (r: Option<String>)
    ensures
        crate::text::opt_view(r) == xmp_description(utf8_lossy_text(xmp_bytes@)),
{
    let xmp = utf8_lossy(xmp_bytes);
    description_in_xmp(xmp.as_str())
}

/// InvokeAI where an XMP packet uses the `invokeai:` namespace, else
/// Unknown.
pub fn detect_xmp_generator(xmp_bytes: &[u8]) -> (g: Generator)
    ensures
        g == xmp_generator(utf8_lossy_text(xmp_bytes@)),
{
    let xmp = utf8_lossy(xmp_bytes);
    generator_of_xmp(xmp.as_str())
}

/// `http://ns.adobe.com/xap/1.0/` and a zero byte, which starts an XMP
/// APP1 segment.
pub open spec fn xmp_header() -> Seq<u8> {
    seq![
        0x68u8, 0x74, 0x74, 0x70, 0x3a, 0x2f, 0x2f, 0x6e, 0x73, 0x2e, 0x61, 0x64, 0x6f, 0x62, 0x65,
        0x2e, 0x63, 0x6f, 0x6d, 0x2f, 0x78, 0x61, 0x70, 0x2f, 0x31, 0x2e, 0x30, 0x2f, 0x00,
    ]
}

/// `s` begins with the bytes `p`.
pub open spec fn starts_with_bytes(s: Seq<u8>, p: Seq<u8>) -> bool {
    p.len() <= s.len() && s.take(p.len() as int) == p
}

/// The records of an XMP packet.
pub open spec fn xmp_records(x: Seq<u8>) -> Seq<RecordSpec> {
    match xmp_description(utf8_lossy_text(x)) {
        Some(p) => seq![
            record_spec(p, xmp_generator(utf8_lossy_text(x)), "XMP"@, empty_details()),
        ],
        None => Seq::empty(),
    }
}

/// The records of an EXIF block.
pub open spec fn exif_records(e: Seq<u8>) -> Seq<RecordSpec> {
    match user_comment_of(e) {
        Some(p) => seq![record_spec(p, Generator::Unknown, "UserComment"@, empty_details())],
        None => Seq::empty(),
    }
}

/// The records of a JPEG segment of type `t` with body `body`: a COM text
/// (A1111 style), an XMP packet or an EXIF block.
pub open spec fn segment_records(t: u8, body: Seq<u8>) -> Seq<RecordSpec> {
    if t == 0xfe {
        let text = trim(utf8_lossy_text(body));
        if text.len() > 0 {
            seq![record_spec(text, Generator::A1111, "COM"@, a1111_details(text))]
        } else {
            Seq::empty()
        }
    } else if t == 0xe1 {
        if starts_with_bytes(body, xmp_header()) {
            xmp_records(body.skip(xmp_header().len() as int))
        } else if starts_with_bytes(body, exif_prefix()) {
            exif_records(body)
        } else {
            Seq::empty()
        }
    } else {
        Seq::empty()
    }
}

/// The 16-bit big-endian word at `off`.
pub open spec fn be16(d: Seq<u8>, off: int) -> int {
    256 * d[off] as int + d[off + 1] as int
}

/// The records of the segments from `pos` on. Reading stops at anything
/// that is not a marker, at end of image, at start of scan, and at a
/// segment that the data does not hold whole.
pub open spec fn jpeg_records_from(d: Seq<u8>, pos: int) -> Seq<RecordSpec>
    decreases d.len() - pos,
{
    if pos < 0 || pos + 2 > d.len() || d[pos] != 0xff {
        Seq::empty()
    } else {
        let t = d[pos + 1];
        if t == 0xd9 || t == 0xda {
            Seq::empty()
        } else if t == 0xd8 {
            jpeg_records_from(d, pos + 2)
        } else if pos + 4 > d.len() || be16(d, pos + 2) < 2 || pos + 2 + be16(d, pos + 2) > d.len() {
            Seq::empty()
        } else {
            segment_records(t, d.subrange(pos + 4, pos + 2 + be16(d, pos + 2))) + jpeg_records_from(
                d,
                pos + 2 + be16(d, pos + 2),
            )
        }
    }
}

/// Whether the reading from `pos` on stops at a segment whose body is cut
/// short.
pub open spec fn jpeg_truncated_from(d: Seq<u8>, pos: int) -> bool
    decreases d.len() - pos,
{
    if pos < 0 || pos + 2 > d.len() || d[pos] != 0xff {
        false
    } else {
        let t = d[pos + 1];
        if t == 0xd9 || t == 0xda {
            false
        } else if t == 0xd8 {
            jpeg_truncated_from(d, pos + 2)
        } else if pos + 4 > d.len() || be16(d, pos + 2) < 2 {
            false
        } else if pos + 2 + be16(d, pos + 2) > d.len() {
            true
        } else {
            jpeg_truncated_from(d, pos + 2 + be16(d, pos + 2))
        }
    }
}

/// The data starts with the start-of-image marker.
pub open spec fn is_jpeg(d: Seq<u8>) -> bool {
    d.len() >= 2 && d[0] == 0xff && d[1] == 0xd8
}

/// The prompt records of a JPEG file's data.
pub open spec fn jpeg_records(d: Seq<u8>) -> Seq<RecordSpec> {
    if is_jpeg(d) {
        jpeg_records_from(d, 2)
    } else {
        Seq::empty()
    }
}

/// What stopped the reading of a JPEG file's data early.
pub open spec fn jpeg_issue(d: Seq<u8>) -> Option<ScanIssue> {
    if !is_jpeg(d) {
        Some(ScanIssue::NotJpeg)
    } else if jpeg_truncated_from(d, 2) {
        Some(ScanIssue::TruncatedSegment)
    } else {
        None
    }
}

/// Whether `data[from..to]` begins with `p`.
fn starts_with_at(data: &[u8], from: usize, to: usize, p: &Vec<u8>) -> (b: bool)
    requires
        from <= to <= data@.len(),
    ensures
        b == starts_with_bytes(data@.subrange(from as int, to as int), p@),
{
    let ghost s = data@.subrange(from as int, to as int);
    if p.len() > to - from {
        return false;
    }
    let mut k: usize = 0;
    while k < p.len()
        invariant
            from <= to <= data@.len(),
            p@.len() <= to - from,
            k <= p@.len(),
            s == data@.subrange(from as int, to as int),
            forall|j: int| 0 <= j < k ==> data@[from + j] == p@[j],
        decreases p@.len() - k,
    {
        if data[from + k] != p[k] {
            assert(s.take(p@.len() as int)[k as int] != p@[k as int]);
            return false;
        }
        k = k + 1;
    }
    assert(s.take(p@.len() as int) =~= p@);
    true
}

fn xmp_header_bytes() -> (v: Vec<u8>)
    ensures
        v@ == xmp_header(),
{
    let v = vec![
        0x68u8, 0x74, 0x74, 0x70, 0x3a, 0x2f, 0x2f, 0x6e, 0x73, 0x2e, 0x61, 0x64, 0x6f, 0x62, 0x65,
        0x2e, 0x63, 0x6f, 0x6d, 0x2f, 0x78, 0x61, 0x70, 0x2f, 0x31, 0x2e, 0x30, 0x2f, 0x00,
    ];
    assert(v@ =~= xmp_header());
    v
}

fn exif_prefix_bytes() -> (v: Vec<u8>)
    ensures
        v@ == exif_prefix(),
{
    let v = vec![0x45u8, 0x78, 0x69, 0x66, 0x00, 0x00];
    assert(v@ =~= exif_prefix());
    v
}

/// Appends the records of the segment of type `t` whose body is
/// `data[from..to]`.
fn process_segment(
    path: &PathBuf,
    t: u8,
    data: &[u8],
    from: usize,
    to: usize,
    results: &mut Vec<PromptRecord>,
)
    requires
        from <= to <= data@.len(),
        all_at(old(results)@, *path),
    ensures
        all_at(final(results)@, *path),
        record_views(final(results)@) == record_views(old(results)@) + segment_records(
            t,
            data@.subrange(from as int, to as int),
        ),
{
    let ghost before = record_views(results@);
    let ghost body = data@.subrange(from as int, to as int);
    assert(before + Seq::<RecordSpec>::empty() == before);
    let seg = vstd::slice::slice_subrange(data, from, to);
    if t == 0xfe {
        let text = utf8_lossy(seg);
        let cs = chars_of(text.as_str());
        assert(cs@.subrange(0, cs@.len() as int) == cs@);
        match trimmed_non_empty(&cs, 0, cs.len()) {
            Some(prompt) => {
                let details = extract_details(prompt.as_str());
                let r = PromptRecord::with_details(
                    path.clone(),
                    prompt,
                    Generator::A1111,
                    "COM",
                    details,
                );
                push_record(results, r, path);
            },
            None => {},
        }
    } else if t == 0xe1 {
        let xmp_head = xmp_header_bytes();
        let exif_head = exif_prefix_bytes();
        if starts_with_at(data, from, to, &xmp_head) {
            let x = vstd::slice::slice_subrange(data, from + 29, to);
            assert(x@ == body.skip(29));
            match extract_xmp_description(x) {
                Some(prompt) => {
                    let generator = detect_xmp_generator(x);
                    let r = PromptRecord::with_details(
                        path.clone(),
                        prompt,
                        generator,
                        "XMP",
                        PromptDetails::default(),
                    );
                    push_record(results, r, path);
                },
                None => {},
            }
        } else if starts_with_at(data, from, to, &exif_head) {
            match extract_user_comment(seg) {
                Some(prompt) => {
                    let r = PromptRecord::with_details(
                        path.clone(),
                        prompt,
                        Generator::Unknown,
                        "UserComment",
                        PromptDetails::default(),
                    );
                    push_record(results, r, path);
                },
                None => {},
            }
        }
    }
}

/// The prompt records in the COM and APP1 segments of a JPEG file's data,
/// all with the path `path`.
pub fn scan_jpeg(path: &PathBuf, data: &[u8]) -> (s: Scan)
    ensures
        all_at(s.records@, *path),
        record_views(s.records@) == jpeg_records(data@),
        s.issue == jpeg_issue(data@),
{
    let mut results: Vec<PromptRecord> = Vec::new();
    assert(record_views(results@) =~= Seq::<RecordSpec>::empty());
    let len = data.len();
    if len < 2 || data[0] != 0xff || data[1] != 0xd8 {
        return Scan { records: results, issue: Some(ScanIssue::NotJpeg) };
    }
    let ghost d = data@;
    let mut pos: usize = 2;
    let mut truncated = false;
    loop
        invariant_except_break
            2 <= pos <= len,
            len == d.len(),
            d == data@,
            !truncated,
            is_jpeg(d),
            all_at(results@, *path),
            jpeg_records(d) == record_views(results@) + jpeg_records_from(d, pos as int),
            jpeg_truncated_from(d, 2) == jpeg_truncated_from(d, pos as int),
        ensures
            all_at(results@, *path),
            is_jpeg(d),
            jpeg_records(d) == record_views(results@),
            jpeg_truncated_from(d, 2) == truncated,
        decreases len - pos,
    {
        if len - pos < 2 || data[pos] != 0xff {
            assert(record_views(results@) + Seq::<RecordSpec>::empty() == record_views(results@));
            break;
        }
        let t = data[pos + 1];
        if t == 0xd9 || t == 0xda {
            assert(record_views(results@) + Seq::<RecordSpec>::empty() == record_views(results@));
            break;
        }
        if t == 0xd8 {
            pos = pos + 2;
        } else {
            if len - pos < 4 {
                assert(record_views(results@) + Seq::<RecordSpec>::empty() == record_views(
                    results@,
                ));
                break;
            }
            let seg_len = (data[pos + 2] as usize) * 256 + (data[pos + 3] as usize);
            assert(seg_len == be16(d, pos + 2));
            if seg_len < 2 {
                assert(record_views(results@) + Seq::<RecordSpec>::empty() == record_views(
                    results@,
                ));
                break;
            }
            if len - pos - 2 < seg_len {
                truncated = true;
                assert(record_views(results@) + Seq::<RecordSpec>::empty() == record_views(
                    results@,
                ));
                break;
            }
            let ghost before = record_views(results@);
            let ghost seg = d.subrange(pos + 4, pos + 2 + seg_len);
            process_segment(path, t, data, pos + 4, pos + 2 + seg_len, &mut results);
            assert(before + (segment_records(t, seg) + jpeg_records_from(d, pos + 2 + seg_len)) == (
            before + segment_records(t, seg)) + jpeg_records_from(d, pos + 2 + seg_len));
            pos = pos + 2 + seg_len;
        }
    }
    Scan { records: results, issue: if truncated { Some(ScanIssue::TruncatedSegment) } else { None } }
}

} // verus!
