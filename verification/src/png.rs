//! Prompts in the `tEXt` and `iTXt` chunks of a PNG file, read up to the
//! first `IDAT` chunk.
use std::path::PathBuf;
use vstd::prelude::*;
use crate::a1111::{a1111_details, extract_details};
use crate::comfyui::{
    extract_details_from_workflow, extract_from_workflow, workflow_details, workflow_prompts,
};
use crate::json::{JsonValue, get, get_member, parse_json, parsed_json, str_eq, str_of};
use crate::text::{chars_of, join, join_strings, trim, trim_range};
use crate::types::{
    Generator, PromptDetails, PromptRecord, RecordSpec, Scan, ScanIssue, all_at,
    empty_details, push_record, record_spec, record_views,
};
use crate::unicode::{utf8_lossy, utf8_lossy_text};

verus! {

/// The 32-bit big-endian word at `off`.
pub open spec fn be32(d: Seq<u8>, off: int) -> int {
    16777216 * d[off] as int + 65536 * d[off + 1] as int + 256 * d[off + 2] as int + d[off + 3] as int
}

/// The eight-byte PNG signature.
pub open spec fn png_signature() -> Seq<u8> {
    seq![0x89u8, 0x50, 0x4e, 0x47, 0x0d, 0x0a, 0x1a, 0x0a]
}

/// The chunk type `IDAT`.
pub open spec fn idat_type() -> Seq<u8> {
    seq![0x49u8, 0x44, 0x41, 0x54]
}

/// The chunk type `tEXt`.
pub open spec fn text_type() -> Seq<u8> {
    seq![0x74u8, 0x45, 0x58, 0x74]
}

/// The chunk type `iTXt`.
pub open spec fn itxt_type() -> Seq<u8> {
    seq![0x69u8, 0x54, 0x58, 0x74]
}

pub proof fn lemma_seq4(s: Seq<u8>, t: Seq<u8>)
    requires
        s.len() == 4,
        t.len() == 4,
    ensures
        s == t <==> (s[0] == t[0] && s[1] == t[1] && s[2] == t[2] && s[3] == t[3]),
{
    if s[0] == t[0] && s[1] == t[1] && s[2] == t[2] && s[3] == t[3] {
        assert(s =~= t);
    }
}

/// The position of the first zero byte of `s`.
pub open spec fn first_zero(s: Seq<u8>) -> Option<int>
    decreases s.len(),
{
    if s.len() == 0 {
        None
    } else if s[0] == 0 {
        Some(0)
    } else {
        match first_zero(s.drop_first()) {
            Some(i) => Some(i + 1),
            None => None,
        }
    }
}

pub proof fn lemma_first_zero(s: Seq<u8>)
    ensures
        first_zero(s) matches Some(i) ==> 0 <= i < s.len() && s[i] == 0 && forall|j: int|
            0 <= j < i ==> s[j] != 0,
        first_zero(s) is None ==> forall|j: int| 0 <= j < s.len() ==> s[j] != 0,
    decreases s.len(),
{
    if s.len() > 0 {
        lemma_first_zero(s.drop_first());
        if s[0] != 0 {
            assert forall|j: int| 1 <= j < s.len() implies s[j] == s.drop_first()[j - 1] by {}
        }
    }
}

/// Keyword and text of a `tEXt` chunk: the keyword ends at the first zero
/// byte; both are decoded as UTF-8.
pub open spec fn text_chunk(data: Seq<u8>) -> Option<(Seq<char>, Seq<char>)> {
    match first_zero(data) {
        Some(n) => Some((utf8_lossy_text(data.take(n)), utf8_lossy_text(data.skip(n + 1)))),
        None => None,
    }
}

/// Keyword and text of an `iTXt` chunk: the keyword, two flag bytes, a
/// language tag and a translated keyword (each ending in a zero byte), then
/// the text.
pub open spec fn itxt_chunk(data: Seq<u8>) -> Option<(Seq<char>, Seq<char>)> {
    match first_zero(data) {
        None => None,
        Some(k) => {
            let p = k + 3;
            if p > data.len() {
                None
            } else {
                match first_zero(data.skip(p)) {
                    None => None,
                    Some(l) => {
                        let p2 = p + l + 1;
                        match first_zero(data.skip(p2)) {
                            None => None,
                            Some(t) => Some(
                                (utf8_lossy_text(data.take(k)), utf8_lossy_text(data.skip(p2 + t + 1))),
                            ),
                        }
                    },
                }
            }
        },
    }
}

/// The text has a character other than whitespace.
pub open spec fn has_text(v: Seq<char>) -> bool {
    trim(v).len() > 0
}

/// The records a text chunk with keyword `k` and text `v` gives:
/// `parameters` is A1111 text; `prompt` a ComfyUI workflow, or plain text
/// where it is not JSON; `Comment` NovelAI JSON with a `prompt` member, or
/// plain text where it is not JSON; `Description` NovelAI text.
pub open spec fn keyword_records(k: Seq<char>, v: Seq<char>) -> Seq<RecordSpec> {
    if k == "parameters"@ {
        seq![record_spec(v, Generator::A1111, "parameters"@, a1111_details(v))]
    } else if k == "prompt"@ {
        match parsed_json(v) {
            Some(json) => if workflow_prompts(json).len() > 0 {
                seq![
                    record_spec(
                        join(workflow_prompts(json), " | "@),
                        Generator::ComfyUI,
                        "prompt"@,
                        workflow_details(json),
                    ),
                ]
            } else {
                Seq::empty()
            },
            None => if has_text(v) {
                seq![record_spec(v, Generator::Unknown, "prompt"@, empty_details())]
            } else {
                Seq::empty()
            },
        }
    } else if k == "Comment"@ {
        match parsed_json(v) {
            Some(json) => match str_of(get(Some(json), "prompt"@)) {
                Some(p) => seq![record_spec(p, Generator::NovelAI, "Comment"@, empty_details())],
                None => Seq::empty(),
            },
            None => if has_text(v) {
                seq![record_spec(v, Generator::Unknown, "Comment"@, empty_details())]
            } else {
                Seq::empty()
            },
        }
    } else if k == "Description"@ {
        if has_text(v) {
            seq![record_spec(v, Generator::NovelAI, "Description"@, empty_details())]
        } else {
            Seq::empty()
        }
    } else {
        Seq::empty()
    }
}

/// The records of one chunk of type `ty`.
pub open spec fn chunk_records(ty: Seq<u8>, data: Seq<u8>) -> Seq<RecordSpec> {
    if ty == text_type() {
        match text_chunk(data) {
            Some(kv) => keyword_records(kv.0, kv.1),
            None => Seq::empty(),
        }
    } else if ty == itxt_type() {
        match itxt_chunk(data) {
            Some(kv) => keyword_records(kv.0, kv.1),
            None => Seq::empty(),
        }
    } else {
        Seq::empty()
    }
}

/// The records of the chunks from `pos` on. Reading stops at an `IDAT`
/// chunk and at a chunk that the data does not hold whole, CRC included.
pub open spec fn png_records_from(d: Seq<u8>, pos: int) -> Seq<RecordSpec>
    decreases d.len() - pos,
{
    if pos < 0 || pos + 8 > d.len() {
        Seq::empty()
    } else {
        let n = be32(d, pos);
        let ty = d.subrange(pos + 4, pos + 8);
        if ty == idat_type() || pos + 8 + n + 4 > d.len() {
            Seq::empty()
        } else {
            chunk_records(ty, d.subrange(pos + 8, pos + 8 + n)) + png_records_from(d, pos + 12 + n)
        }
    }
}

/// Whether the reading from `pos` on stops at a chunk whose data is cut
/// short.
pub open spec fn png_truncated_from(d: Seq<u8>, pos: int) -> bool
    decreases d.len() - pos,
{
    if pos < 0 || pos + 8 > d.len() {
        false
    } else {
        let n = be32(d, pos);
        if d.subrange(pos + 4, pos + 8) == idat_type() {
            false
        } else if pos + 8 + n > d.len() {
            true
        } else if pos + 8 + n + 4 > d.len() {
            false
        } else {
            png_truncated_from(d, pos + 12 + n)
        }
    }
}

/// The data starts with the PNG signature.
pub open spec fn is_png(d: Seq<u8>) -> bool {
    d.len() >= 8 && d.take(8) == png_signature()
}

/// The prompt records of a PNG file's data.
pub open spec fn png_records(d: Seq<u8>) -> Seq<RecordSpec> {
    if is_png(d) {
        png_records_from(d, 8)
    } else {
        Seq::empty()
    }
}

/// What stopped the reading of a PNG file's data early.
pub open spec fn png_issue(d: Seq<u8>) -> Option<ScanIssue> {
    if !is_png(d) {
        Some(ScanIssue::NotPng)
    } else if png_truncated_from(d, 8) {
        Some(ScanIssue::TruncatedChunk)
    } else {
        None
    }
}

/// The prompt records in the text chunks of a PNG file's data, all with
/// the path `path`.
pub fn scan_png(path: &PathBuf, data: &[u8]) -> (s: Scan)
    ensures
        all_at(s.records@, *path),
        record_views(s.records@) == png_records(data@),
        s.issue == png_issue(data@),
{
    let mut results: Vec<PromptRecord> = Vec::new();
    assert(record_views(results@) =~= Seq::<RecordSpec>::empty());
    let len = data.len();
    let sig_ok = len >= 8 && data[0] == 0x89 && data[1] == 0x50 && data[2] == 0x4e && data[3]
        == 0x47 && data[4] == 0x0d && data[5] == 0x0a && data[6] == 0x1a && data[7] == 0x0a;
    if !sig_ok {
        assert(!is_png(data@)) by {
            if is_png(data@) {
                assert(data@.take(8)[0] == data@[0]);
                assert(data@.take(8)[1] == data@[1]);
                assert(data@.take(8)[2] == data@[2]);
                assert(data@.take(8)[3] == data@[3]);
                assert(data@.take(8)[4] == data@[4]);
                assert(data@.take(8)[5] == data@[5]);
                assert(data@.take(8)[6] == data@[6]);
                assert(data@.take(8)[7] == data@[7]);
            }
        }
        return Scan { records: results, issue: Some(ScanIssue::NotPng) };
    }
    assert(data@.take(8) =~= png_signature());
    let ghost d = data@;
    let mut pos: usize = 8;
    let mut truncated = false;
    loop
        invariant_except_break
            8 <= pos <= len,
            len == d.len(),
            d == data@,
            !truncated,
            is_png(d),
            all_at(results@, *path),
            png_records(d) == record_views(results@) + png_records_from(d, pos as int),
            png_truncated_from(d, 8) == png_truncated_from(d, pos as int),
        ensures
            all_at(results@, *path),
            is_png(d),
            png_records(d) == record_views(results@),
            png_truncated_from(d, 8) == truncated,
        decreases len - pos,
    {
        if len - pos < 8 {
            assert(record_views(results@) + Seq::<RecordSpec>::empty() == record_views(results@));
            break;
        }
        let n = (data[pos] as usize) * 16777216 + (data[pos + 1] as usize) * 65536 + (data[pos
            + 2] as usize) * 256 + (data[pos + 3] as usize);
        assert(n == be32(d, pos as int));
        let is_idat = data[pos + 4] == 0x49 && data[pos + 5] == 0x44 && data[pos + 6] == 0x41
            && data[pos + 7] == 0x54;
        let is_text = data[pos + 4] == 0x74 && data[pos + 5] == 0x45 && data[pos + 6] == 0x58
            && data[pos + 7] == 0x74;
        let is_itxt = data[pos + 4] == 0x69 && data[pos + 5] == 0x54 && data[pos + 6] == 0x58
            && data[pos + 7] == 0x74;
        let ghost ty = d.subrange(pos + 4, pos + 8);
        proof {
            assert(ty[0] == d[pos + 4]);
            assert(ty[1] == d[pos + 5]);
            assert(ty[2] == d[pos + 6]);
            assert(ty[3] == d[pos + 7]);
            lemma_seq4(ty, idat_type());
            lemma_seq4(ty, text_type());
            lemma_seq4(ty, itxt_type());
        }
        if is_idat {
            assert(record_views(results@) + Seq::<RecordSpec>::empty() == record_views(results@));
            break;
        }
        if len - pos - 8 < n {
            truncated = true;
            assert(record_views(results@) + Seq::<RecordSpec>::empty() == record_views(results@));
            break;
        }
        if len - pos - 8 - n < 4 {
            assert(record_views(results@) + Seq::<RecordSpec>::empty() == record_views(results@));
            break;
        }
        let chunk = vstd::slice::slice_subrange(data, pos + 8, pos + 8 + n);
        let ghost before = record_views(results@);
        if is_text {
            match parse_text_chunk(chunk) {
                Some((keyword, value)) => process_keyword(path, &keyword, &value, &mut results),
                None => {},
            }
        } else if is_itxt {
            match parse_itxt_chunk(chunk) {
                Some((keyword, value)) => process_keyword(path, &keyword, &value, &mut results),
                None => {},
            }
        }
        assert(record_views(results@) == before + chunk_records(ty, chunk@)) by {
            if !is_text && !is_itxt {
                assert(before + Seq::<RecordSpec>::empty() == before);
            }
        }
        assert(png_records_from(d, pos as int) == chunk_records(ty, chunk@) + png_records_from(
            d,
            pos + 12 + n,
        ));
        assert(before + (chunk_records(ty, chunk@) + png_records_from(d, pos + 12 + n)) == (before
            + chunk_records(ty, chunk@)) + png_records_from(d, pos + 12 + n));
        pos = pos + 12 + n;
    }
    Scan { records: results, issue: if truncated { Some(ScanIssue::TruncatedChunk) } else { None } }
}

/// The position of the first zero byte of `data[from..]`, as an index into
/// `data`.
fn position_of_zero(data: &[u8], from: usize) -> (r: Option<usize>)
    requires
        from <= data@.len(),
    ensures
        match r {
            Some(i) => from <= i < data@.len() && first_zero(data@.skip(from as int)) == Some(
                i - from,
            ),
            None => first_zero(data@.skip(from as int)) is None,
        },
{
    let ghost s = data@.skip(from as int);
    let mut i = from;
    while i < data.len()
        invariant
            from <= i <= data@.len(),
            s == data@.skip(from as int),
            forall|j: int| 0 <= j < i - from ==> s[j] != 0,
        decreases data@.len() - i,
    {
        if data[i] == 0 {
            proof {
                lemma_first_zero(s);
                match first_zero(s) {
                    Some(k) => {
                        assert(s[i - from] == 0);
                        assert(k == i - from);
                    },
                    None => {
                        assert(s[i - from] == 0);
                    },
                }
            }
            return Some(i);
        }
        i = i + 1;
    }
    proof {
        lemma_first_zero(s);
        if first_zero(s) is Some {
            let k = first_zero(s)->0;
            assert(s[k] != 0);
        }
    }
    None
}

/// Keyword and text of a `tEXt` chunk.
pub fn parse_text_chunk(data: &[u8]) -> (r: Option<(String, String)>)
    ensures
        match r {
            Some(kv) => text_chunk(data@) == Some((kv.0@, kv.1@)),
            None => text_chunk(data@) is None,
        },
{
    assert(data@.skip(0) == data@);
    let dl = data.len();
    let null_pos = match position_of_zero(data, 0) {
        Some(p) => p,
        None => return None,
    };
    let keyword = utf8_lossy(vstd::slice::slice_subrange(data, 0, null_pos));
    let value = utf8_lossy(vstd::slice::slice_subrange(data, null_pos + 1, data.len()));
    assert(data@.subrange(0, null_pos as int) == data@.take(null_pos as int));
    assert(data@.subrange(null_pos + 1, data@.len() as int) == data@.skip(null_pos + 1));
    Some((keyword, value))
}

/// Keyword and text of an `iTXt` chunk.
pub fn parse_itxt_chunk(data: &[u8]) -> (r: Option<(String, String)>)
    ensures
        match r {
            Some(kv) => itxt_chunk(data@) == Some((kv.0@, kv.1@)),
            None => itxt_chunk(data@) is None,
        },
{
    assert(data@.skip(0) == data@);
    let kw_end = match position_of_zero(data, 0) {
        Some(p) => p,
        None => return None,
    };
    let keyword = utf8_lossy(vstd::slice::slice_subrange(data, 0, kw_end));
    assert(data@.subrange(0, kw_end as int) == data@.take(kw_end as int));
    if data.len() - kw_end < 3 {
        return None;
    }
    let pos = kw_end + 3;
    let lang_end = match position_of_zero(data, pos) {
        Some(p) => p,
        None => return None,
    };
    let pos2 = lang_end + 1;
    assert(data@.skip(pos2 as int) == data@.skip(pos as int).skip(lang_end - pos + 1));
    let trans_end = match position_of_zero(data, pos2) {
        Some(p) => p,
        None => return None,
    };
    let start = trans_end + 1;
    let value = utf8_lossy(vstd::slice::slice_subrange(data, start, data.len()));
    assert(data@.subrange(start as int, data@.len() as int) == data@.skip(start as int));
    Some((keyword, value))
}

/// Whether the text has a character other than whitespace.
fn has_text_exec(v: &str) -> (b: bool)
    ensures
        b == has_text(v@),
{
    let cs = chars_of(v);
    assert(cs@.subrange(0, cs@.len() as int) == cs@);
    let (a, b) = trim_range(&cs, 0, cs.len());
    a < b
}

/// Appends the record that a text chunk with keyword `keyword` and text
/// `value` gives, if any: at most one, none for a keyword other than
/// `parameters`, `prompt`, `Comment` and `Description`, and for
/// `Description` one exactly when the text is not blank.
pub fn process_keyword(path: &PathBuf, keyword: &str, value: &str, results: &mut Vec<PromptRecord>)
    requires
        all_at(old(results)@, *path),
    ensures
        all_at(final(results)@, *path),
        record_views(final(results)@) == record_views(old(results)@) + keyword_records(
            keyword@,
            value@,
        ),
        final(results)@.len() <= old(results)@.len() + 1,
        forall|i: int|
            0 <= i < old(results)@.len() ==> #[trigger] record_views(final(results)@)[i]
                == record_views(old(results)@)[i],
        keyword@ != "parameters"@ && keyword@ != "prompt"@ && keyword@ != "Comment"@ && keyword@
            != "Description"@ ==> record_views(final(results)@) == record_views(old(results)@),
        keyword@ == "Description"@ ==> (final(results)@.len() == old(results)@.len() + 1
            <==> has_text(value@)),
{
    proof {
        crate::laws::law_keyword_at_most_one(keyword@, value@);
    }
    let ghost old_len = results@.len();
    assert(record_views(results@).len() == old_len);
    let ghost before = record_views(results@);
    proof {
        assert(before + Seq::<RecordSpec>::empty() == before);
    }
    if str_eq(keyword, "parameters") {
        let details = extract_details(value);
        let r = PromptRecord::with_details(
            path.clone(),
            string_from(value),
            Generator::A1111,
            "parameters",
            details,
        );
        push_record(results, r, path);
    } else if str_eq(keyword, "prompt") {
        match parse_json(value) {
            Some(json) => {
                let prompts = extract_from_workflow(&json);
                if prompts.len() > 0 {
                    let details = extract_details_from_workflow(&json);
                    let r = PromptRecord::with_details(
                        path.clone(),
                        join_strings(&prompts, " | "),
                        Generator::ComfyUI,
                        "prompt",
                        details,
                    );
                    push_record(results, r, path);
                }
            },
            None => {
                if has_text_exec(value) {
                    let r = PromptRecord::with_details(
                        path.clone(),
                        string_from(value),
                        Generator::Unknown,
                        "prompt",
                        PromptDetails::default(),
                    );
                    push_record(results, r, path);
                }
            },
        }
    } else if str_eq(keyword, "Comment") {
        match parse_json(value) {
            Some(json) => {
                match get_member(Some(&json), "prompt") {
                    Some(JsonValue::String(p)) => {
                        let r = PromptRecord::with_details(
                            path.clone(),
                            p.clone(),
                            Generator::NovelAI,
                            "Comment",
                            PromptDetails::default(),
                        );
                        push_record(results, r, path);
                    },
                    _ => {},
                }
            },
            None => {
                if has_text_exec(value) {
                    let r = PromptRecord::with_details(
                        path.clone(),
                        string_from(value),
                        Generator::Unknown,
                        "Comment",
                        PromptDetails::default(),
                    );
                    push_record(results, r, path);
                }
            },
        }
    } else if str_eq(keyword, "Description") {
        if has_text_exec(value) {
            let r = PromptRecord::with_details(
                path.clone(),
                string_from(value),
                Generator::NovelAI,
                "Description",
                PromptDetails::default(),
            );
            push_record(results, r, path);
        }
    }
    assert(record_views(results@).len() == results@.len());
}

/// A string with the characters of `s`.
fn string_from(s: &str) -> (r: String)
    ensures
        r@ == s@,
{
    let cs = chars_of(s);
    assert(cs@.subrange(0, cs@.len() as int) == cs@);
    crate::text::string_of(&cs, 0, cs.len())
}

} // verus!
