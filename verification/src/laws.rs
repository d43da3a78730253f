//! Properties that hold across the library's operations: what searching
//! within results gives, what every extracted text looks like, and what a
//! file cut short still yields.
use vstd::prelude::*;
use crate::a1111::{
    a1111_details, last_colon, lora_parts, loras_from, setting_len, split_spec,
};
use crate::comfyui::{
    PromptRole, add_entry_lora, add_named_lora, add_prompt_fields, add_text, class_or_empty,
    entry_loras_upto, inputs_of, lemma_member_key, lemma_unvisited_decreases, loras_upto,
    model_from, model_of_node, name_of, node_loras, node_prompts, node_text, prompts_upto,
    push_lora_spec, ref_id, resolve, resolve_from, role_field, sampler_scan, unvisited,
    workflow_details, workflow_loras, workflow_model, workflow_prompts,
};
use crate::json::{JsonValue, bool_of, member, parsed_json, str_of, text_of};
use crate::exif::{
    EntryScan, clean, comment_at, exif_prefix, scan_entries, scan_ifd, tiff_data, tiff_order,
    u32v, user_comment_of, utf16_comment, utf16_units,
};
use crate::jpeg::{be16, is_jpeg, jpeg_records, jpeg_records_from};
use crate::matcher::{is_result_for, match_outcome};
use crate::png::{be32, has_text, idat_type, is_png, keyword_records, png_records, png_records_from};
use crate::webp::{le32, padded, tag_at, webp_records, webp_records_from};
use crate::text::{
    contains, find, is_trimmed, join, lemma_find_from_spec, lemma_trim_trimmed, strip_nul, trim,
    trim_start,
};
use crate::types::{
    Config, DetailsSpec, Generator, LoraSpec, MatchMode, MatchResult, PromptRecord, RecordSpec,
    distinct_lora_names, empty_details, has_lora_named, record_spec,
};
use crate::unicode::{lowercase_text, utf16_decode, utf8_lossy_text};

verus! {

/// A text that is not empty and has no whitespace at either end.
pub open spec fn is_clean(s: Seq<char>) -> bool {
    s.len() > 0 && is_trimmed(s)
}

/// Searching within results: a match's record meets any query exactly as
/// the record it was found in does, so a second query run over a result
/// list decides each entry as it would on the records first searched.
pub proof fn law_refilter_same_outcome(
    record: PromptRecord,
    m: MatchResult,
    score: Option<i64>,
    config: Config,
)
    requires
        is_result_for(m, record, score),
    ensures
        match_outcome(m.record.prompt@, config) == match_outcome(record.prompt@, config),
{
}

/// Running again the query that produced a match, on that match's record,
/// matches again with the same score: narrowing by one query twice is
/// narrowing once.
pub proof fn law_refilter_idempotent(
    record: PromptRecord,
    m: MatchResult,
    score: Option<i64>,
    config: Config,
)
    requires
        match_outcome(record.prompt@, config) == Some(score),
        is_result_for(m, record, score),
    ensures
        match_outcome(m.record.prompt@, config) == Some(score),
{
}

/// A fuzzy match carries its score, and that score reaches the configured
/// minimum; an exact or regex match carries no score.
pub proof fn law_match_scores(prompt: Seq<char>, config: Config)
    ensures
        match_outcome(prompt, config) matches Some(score) ==> if config.match_mode
            == MatchMode::Fuzzy {
            score matches Some(s) && s >= config.min_score
        } else {
            score is None
        },
{
}

/// A cleaned comment text has no whitespace at either end.
proof fn lemma_clean_trimmed(s: Seq<char>)
    ensures
        is_trimmed(clean(s)),
{
    lemma_trim_trimmed(strip_nul(s));
}

proof fn lemma_utf16_comment_trimmed(body: Seq<u8>, le: bool)
    ensures
        is_trimmed(utf16_comment(body, le)),
{
    if body.len() >= 2 {
        lemma_clean_trimmed(utf16_decode(utf16_units(body.skip(2), true)));
        lemma_clean_trimmed(utf16_decode(utf16_units(body.skip(2), false)));
        lemma_clean_trimmed(utf16_decode(utf16_units(body, le)));
    }
}

proof fn lemma_comment_at_clean(d: Seq<u8>, le: bool, offset: int, count: int)
    ensures
        comment_at(d, le, offset, count) matches Some(t) ==> is_clean(t),
{
    if 0 <= offset < d.len() {
        let n = if count < d.len() - offset {
            count
        } else {
            d.len() - offset
        };
        if n >= 8 {
            let body = d.subrange(offset + 8, offset + n);
            lemma_utf16_comment_trimmed(body, le);
            lemma_clean_trimmed(utf8_lossy_text(body));
        }
    }
}

proof fn lemma_scan_entries_clean(
    d: Seq<u8>,
    le: bool,
    base: int,
    n: int,
    i: int,
    exif: Option<int>,
)
    ensures
        scan_entries(d, le, base, n, i, exif) matches EntryScan::Found(t) ==> is_clean(t),
    decreases n - i,
{
    if !(i >= n || i < 0 || base + 12 * i + 12 > d.len()) {
        let e = base + 12 * i;
        lemma_comment_at_clean(d, le, u32v(d, e + 8, le), u32v(d, e + 4, le));
        lemma_scan_entries_clean(d, le, base, n, i + 1, exif);
        lemma_scan_entries_clean(d, le, base, n, i + 1, Some(u32v(d, e + 8, le)));
    }
}

proof fn lemma_scan_ifd_clean(d: Seq<u8>, le: bool, offset: int, depth: int)
    ensures
        scan_ifd(d, le, offset, depth) matches Some(t) ==> is_clean(t),
    decreases 5 - depth,
{
    if !(depth > 4 || offset < 0 || offset + 2 > d.len()) {
        lemma_scan_entries_clean(d, le, offset + 2, crate::exif::u16v(d, offset, le), 0, None);
        match scan_entries(d, le, offset + 2, crate::exif::u16v(d, offset, le), 0, None) {
            EntryScan::Next(Some(next)) => lemma_scan_ifd_clean(d, le, next, depth + 1),
            _ => {},
        }
    }
}

/// An EXIF `UserComment` that is found is never empty and has no
/// whitespace (nor NUL padding) at either end.
pub proof fn law_user_comment_clean(d: Seq<u8>)
    ensures
        user_comment_of(d) matches Some(t) ==> is_clean(t),
{
    let tiff = tiff_data(d);
    match tiff_order(tiff) {
        Some(le) => lemma_scan_ifd_clean(tiff, le, u32v(tiff, 4, le), 0),
        None => {},
    }
}

/// The `Exif\0\0` marker before a TIFF header is optional: with or without
/// it, the same comment is read.
pub proof fn law_exif_marker_optional(tiff: Seq<u8>)
    requires
        !(tiff.len() >= 6 && tiff.take(6) == exif_prefix()),
    ensures
        user_comment_of(exif_prefix() + tiff) == user_comment_of(tiff),
{
    let d = exif_prefix() + tiff;
    assert(d.take(6) =~= exif_prefix());
    assert(d.skip(6) =~= tiff);
}

/// The empty list is a prefix of every list.
proof fn lemma_empty_prefix(b: Seq<RecordSpec>)
    ensures
        Seq::<RecordSpec>::empty().is_prefix_of(b),
{
    assert(Seq::<RecordSpec>::empty() =~= b.subrange(0, 0));
}

/// Putting the same list before both sides keeps a prefix a prefix.
proof fn lemma_prefix_after(c: Seq<RecordSpec>, a: Seq<RecordSpec>, b: Seq<RecordSpec>)
    requires
        a.is_prefix_of(b),
    ensures
        (c + a).is_prefix_of(c + b),
{
    assert forall|k: int| 0 <= k < (c + a).len() implies #[trigger] (c + a)[k] == (c + b).subrange(
        0,
        (c + a).len() as int,
    )[k] by {
        if k >= c.len() {
            assert(a[k - c.len()] == b.subrange(0, a.len() as int)[k - c.len()]);
        }
    }
    assert((c + a) =~= (c + b).subrange(0, (c + a).len() as int));
}

proof fn lemma_png_prefix(d: Seq<u8>, m: int, pos: int)
    requires
        0 <= m <= d.len(),
    ensures
        png_records_from(d.take(m), pos).is_prefix_of(png_records_from(d, pos)),
    decreases d.len() - pos,
{
    let dm = d.take(m);
    lemma_empty_prefix(png_records_from(d, pos));
    if 0 <= pos && pos + 8 <= m {
        assert(be32(dm, pos) == be32(d, pos));
        assert(dm.subrange(pos + 4, pos + 8) =~= d.subrange(pos + 4, pos + 8));
        let n = be32(d, pos);
        let ty = d.subrange(pos + 4, pos + 8);
        if !(ty == idat_type() || pos + 8 + n + 4 > m) {
            assert(dm.subrange(pos + 8, pos + 8 + n) =~= d.subrange(pos + 8, pos + 8 + n));
            lemma_png_prefix(d, m, pos + 12 + n);
            lemma_prefix_after(
                crate::png::chunk_records(ty, d.subrange(pos + 8, pos + 8 + n)),
                png_records_from(dm, pos + 12 + n),
                png_records_from(d, pos + 12 + n),
            );
        }
    }
}

/// A PNG file cut short yields the records of the chunks it still holds
/// whole: a prefix of the records of the whole file.
pub proof fn law_png_cut_short(d: Seq<u8>, m: int)
    requires
        0 <= m <= d.len(),
    ensures
        png_records(d.take(m)).is_prefix_of(png_records(d)),
{
    lemma_empty_prefix(png_records(d));
    if m >= 8 {
        assert(d.take(m).take(8) =~= d.take(8));
        lemma_png_prefix(d, m, 8);
    }
}

proof fn lemma_jpeg_prefix(d: Seq<u8>, m: int, pos: int)
    requires
        0 <= m <= d.len(),
    ensures
        jpeg_records_from(d.take(m), pos).is_prefix_of(jpeg_records_from(d, pos)),
    decreases d.len() - pos,
{
    let dm = d.take(m);
    lemma_empty_prefix(jpeg_records_from(d, pos));
    if 0 <= pos && pos + 2 <= m && d[pos] == 0xff {
        let t = d[pos + 1];
        if t == 0xd8 {
            lemma_jpeg_prefix(d, m, pos + 2);
        } else if !(t == 0xd9 || t == 0xda) && pos + 4 <= m {
            assert(be16(dm, pos + 2) == be16(d, pos + 2));
            let len = be16(d, pos + 2);
            if len >= 2 && pos + 2 + len <= m {
                assert(dm.subrange(pos + 4, pos + 2 + len) =~= d.subrange(pos + 4, pos + 2 + len));
                lemma_jpeg_prefix(d, m, pos + 2 + len);
                lemma_prefix_after(
                    crate::jpeg::segment_records(t, d.subrange(pos + 4, pos + 2 + len)),
                    jpeg_records_from(dm, pos + 2 + len),
                    jpeg_records_from(d, pos + 2 + len),
                );
            }
        }
    }
}

/// A JPEG file cut short yields the records of the segments it still holds
/// whole: a prefix of the records of the whole file.
pub proof fn law_jpeg_cut_short(d: Seq<u8>, m: int)
    requires
        0 <= m <= d.len(),
    ensures
        jpeg_records(d.take(m)).is_prefix_of(jpeg_records(d)),
{
    lemma_empty_prefix(jpeg_records(d));
    if m >= 2 {
        lemma_jpeg_prefix(d, m, 2);
    }
}

proof fn lemma_webp_prefix(d: Seq<u8>, m: int, pos: int)
    requires
        0 <= m <= d.len(),
    ensures
        webp_records_from(d.take(m), pos).is_prefix_of(webp_records_from(d, pos)),
    decreases d.len() - pos,
{
    let dm = d.take(m);
    lemma_empty_prefix(webp_records_from(d, pos));
    if 0 <= pos && pos + 8 <= m {
        assert(le32(dm, pos + 4) == le32(d, pos + 4));
        let size = le32(d, pos + 4);
        let next = pos + 8 + padded(size);
        let rest_m = if next <= m {
            webp_records_from(dm, next)
        } else {
            Seq::empty()
        };
        let rest = if next <= d.len() {
            webp_records_from(d, next)
        } else {
            Seq::empty()
        };
        lemma_empty_prefix(rest);
        if next <= m {
            lemma_webp_prefix(d, m, next);
        }
        assert(rest_m.is_prefix_of(rest));
        assert(tag_at(dm, pos, 0x58, 0x4d, 0x50, 0x20) == tag_at(d, pos, 0x58, 0x4d, 0x50, 0x20));
        assert(tag_at(dm, pos, 0x45, 0x58, 0x49, 0x46) == tag_at(d, pos, 0x45, 0x58, 0x49, 0x46));
        if pos + 8 + size <= m {
            let chunk = d.subrange(pos + 8, pos + 8 + size);
            assert(dm.subrange(pos + 8, pos + 8 + size) =~= chunk);
            lemma_prefix_after(crate::jpeg::xmp_records(chunk), rest_m, rest);
            lemma_prefix_after(crate::jpeg::exif_records(chunk), rest_m, rest);
        }
    }
}

/// A WebP file cut short yields the records of the chunks it still holds
/// whole: a prefix of the records of the whole file.
pub proof fn law_webp_cut_short(d: Seq<u8>, m: int)
    requires
        0 <= m <= d.len(),
    ensures
        webp_records(d.take(m)).is_prefix_of(webp_records(d)),
{
    lemma_empty_prefix(webp_records(d));
    if m >= 12 {
        lemma_webp_prefix(d, m, 12);
    }
}

/// An optional text that, where present, is clean.
pub open spec fn clean_opt(o: Option<Seq<char>>) -> bool {
    o matches Some(s) ==> is_clean(s)
}

/// Texts that are each clean and each listed once.
pub open spec fn distinct_clean_texts(ts: Seq<Seq<char>>) -> bool {
    &&& forall|i: int| 0 <= i < ts.len() ==> is_clean(#[trigger] ts[i])
    &&& forall|i: int, j: int| 0 <= i < j < ts.len() ==> ts[i] != ts[j]
}

/// LoRA entries whose names are clean and each listed once.
pub open spec fn clean_lora_names(l: Seq<LoraSpec>) -> bool {
    &&& distinct_lora_names(l)
    &&& forall|i: int| #![trigger l[i]] 0 <= i < l.len() ==> is_clean(l[i].name)
}

/// LoRA entries whose weights are clean.
pub open spec fn clean_lora_weights(l: Seq<LoraSpec>) -> bool {
    forall|i: int| #![trigger l[i]] 0 <= i < l.len() ==> is_clean(l[i].weight)
}

/// Structured fields that are each clean where present, with LoRA names
/// listed once.
pub open spec fn clean_details(d: DetailsSpec) -> bool {
    &&& clean_opt(d.model)
    &&& clean_opt(d.positive)
    &&& clean_opt(d.negative)
    &&& clean_lora_names(d.loras)
}

proof fn lemma_trim_clean(s: Seq<char>)
    ensures
        trim(s).len() > 0 ==> is_clean(trim(s)),
{
    lemma_trim_trimmed(s);
}

proof fn lemma_lora_parts_trimmed(tag: Seq<char>)
    ensures
        is_trimmed(lora_parts(tag).0),
        is_trimmed(lora_parts(tag).1),
{
    match last_colon(tag) {
        Some(p) => {
            lemma_trim_trimmed(tag.take(p));
            lemma_trim_trimmed(tag.skip(p + 1));
        },
        None => lemma_trim_trimmed(tag),
    }
}

proof fn lemma_loras_from_clean(rest: Seq<char>, acc: Seq<LoraSpec>)
    requires
        clean_lora_names(acc),
        clean_lora_weights(acc),
    ensures
        clean_lora_names(loras_from(rest, acc)),
        clean_lora_weights(loras_from(rest, acc)),
    decreases rest.len(),
{
    lemma_find_from_spec(rest, "<lora:"@, 0);
    match find(rest, "<lora:"@) {
        None => {},
        Some(s) => {
            let after = rest.skip(s + "<lora:"@.len());
            lemma_find_from_spec(after, seq!['>'], 0);
            match find(after, seq!['>']) {
                None => {},
                Some(e) => {
                    let parts = lora_parts(after.take(e));
                    lemma_lora_parts_trimmed(after.take(e));
                    if parts.0.len() > 0 && parts.1.len() > 0 && !has_lora_named(acc, parts.0) {
                        let acc2 = acc.push(LoraSpec { name: parts.0, weight: parts.1 });
                        assert forall|i: int, j: int|
                            0 <= i < j < acc2.len() implies acc2[i].name != acc2[j].name by {
                            if j == acc.len() {
                                assert(acc2[i] == acc[i]);
                            }
                        }
                        lemma_loras_from_clean(after.skip(e + 1), acc2);
                    } else {
                        lemma_loras_from_clean(after.skip(e + 1), acc);
                    }
                },
            }
        },
    }
}

/// What is read from A1111-style text is clean: the positive and negative
/// prompt and the model, where present, are non-empty and trimmed, and
/// each LoRA has a non-empty trimmed name and weight, its name listed once.
pub proof fn law_a1111_details_clean(text: Seq<char>)
    ensures
        clean_details(a1111_details(text)),
        clean_lora_weights(a1111_details(text).loras),
{
    let t = trim(text);
    if t.len() > 0 {
        let parts = split_spec(t);
        let src = match parts.2 {
            Some(x) => x,
            None => t,
        };
        let marker = "Model"@.push(':');
        match find(src, marker) {
            Some(i) => {
                let rest = trim_start(src.skip(i + marker.len()));
                lemma_trim_clean(rest.take(setting_len(rest)));
            },
            None => {},
        }
        lemma_trim_clean(parts.0);
        lemma_trim_clean(parts.1);
        lemma_trim_trimmed(parts.0);
        lemma_trim_trimmed(parts.1);
        lemma_loras_from_clean(t, Seq::empty());
    }
}

proof fn lemma_add_text_clean(acc: Seq<Seq<char>>, v: Option<JsonValue>)
    requires
        distinct_clean_texts(acc),
    ensures
        distinct_clean_texts(add_text(acc, v)),
{
    match crate::json::str_of(v) {
        Some(t) => {
            lemma_trim_clean(t);
            if trim(t).len() > 0 && !acc.contains(trim(t)) {
                let acc2 = acc.push(trim(t));
                assert forall|i: int, j: int| 0 <= i < j < acc2.len() implies acc2[i] != acc2[j] by {
                    if j == acc.len() {
                        assert(acc2[i] == acc[i]);
                    }
                }
            }
        },
        None => {},
    }
}

proof fn lemma_add_prompt_fields_clean(acc: Seq<Seq<char>>, inputs: Seq<(String, JsonValue)>)
    requires
        distinct_clean_texts(acc),
    ensures
        distinct_clean_texts(add_prompt_fields(acc, inputs)),
{
    let a1 = add_text(acc, member(inputs, "text_g"@));
    let a2 = add_text(a1, member(inputs, "text_l"@));
    let a3 = add_text(a2, member(inputs, "text"@));
    lemma_add_text_clean(acc, member(inputs, "text_g"@));
    lemma_add_text_clean(a1, member(inputs, "text_l"@));
    lemma_add_text_clean(a2, member(inputs, "text"@));
    lemma_add_text_clean(a3, member(inputs, "prompt"@));
}

proof fn lemma_prompts_upto_clean(nodes: Seq<(String, JsonValue)>, n: int)
    ensures
        distinct_clean_texts(prompts_upto(nodes, n)),
    decreases n,
{
    if n > 0 {
        let acc = prompts_upto(nodes, n - 1);
        lemma_prompts_upto_clean(nodes, n - 1);
        match inputs_of(nodes[n - 1].1) {
            Some(inp) => lemma_add_prompt_fields_clean(acc, inp),
            None => {},
        }
        assert(distinct_clean_texts(node_prompts(acc, nodes[n - 1].1)));
    }
}

/// The prompts read from a ComfyUI workflow are each non-empty, trimmed
/// and listed once.
pub proof fn law_workflow_prompts_clean(json: JsonValue)
    ensures
        distinct_clean_texts(workflow_prompts(json)),
{
    match json {
        JsonValue::Object(e) => lemma_prompts_upto_clean(e@, e@.len() as int),
        _ => {},
    }
}

proof fn lemma_push_lora_clean(acc: Seq<LoraSpec>, name: Seq<char>, weight: Seq<char>)
    requires
        clean_lora_names(acc),
        is_clean(name),
    ensures
        clean_lora_names(push_lora_spec(acc, name, weight)),
{
    if !has_lora_named(acc, name) {
        let acc2 = acc.push(LoraSpec { name, weight });
        assert forall|i: int, j: int| 0 <= i < j < acc2.len() implies acc2[i].name
            != acc2[j].name by {
            if j == acc.len() {
                assert(acc2[i] == acc[i]);
            }
        }
    }
}

proof fn lemma_name_of_clean(v: Option<JsonValue>)
    ensures
        clean_opt(name_of(v)),
{
    match text_of(v) {
        Some(t) => lemma_trim_clean(t),
        None => {},
    }
}

proof fn lemma_entry_loras_clean(acc: Seq<LoraSpec>, inputs: Seq<(String, JsonValue)>, n: int)
    requires
        clean_lora_names(acc),
    ensures
        clean_lora_names(entry_loras_upto(acc, inputs, n)),
    decreases n,
{
    if n > 0 {
        let prev = entry_loras_upto(acc, inputs, n - 1);
        lemma_entry_loras_clean(acc, inputs, n - 1);
        match inputs[n - 1].1 {
            JsonValue::Object(e) => {
                lemma_name_of_clean(member(e@, "lora"@));
                match name_of(member(e@, "lora"@)) {
                    Some(name) => {
                        lemma_push_lora_clean(
                            prev,
                            name,
                            match text_of(member(e@, "strength"@)) {
                                Some(w) => w,
                                None => crate::comfyui::or_one(text_of(member(e@, "strength_model"@))),
                            },
                        );
                    },
                    None => {},
                }
            },
            _ => {},
        }
        assert(clean_lora_names(add_entry_lora(prev, inputs[n - 1].1)));
    }
}

proof fn lemma_loras_upto_clean(nodes: Seq<(String, JsonValue)>, n: int)
    ensures
        clean_lora_names(loras_upto(nodes, n)),
    decreases n,
{
    if n > 0 {
        let acc = loras_upto(nodes, n - 1);
        lemma_loras_upto_clean(nodes, n - 1);
        let node = nodes[n - 1].1;
        match inputs_of(node) {
            Some(inp) => {
                lemma_name_of_clean(member(inp, "lora_name"@));
                match name_of(member(inp, "lora_name"@)) {
                    Some(name) => lemma_push_lora_clean(
                        acc,
                        name,
                        crate::comfyui::or_one(
                            crate::comfyui::format_weight(
                                text_of(member(inp, "strength_model"@)),
                                text_of(member(inp, "strength_clip"@)),
                            ),
                        ),
                    ),
                    None => {},
                }
                let named = add_named_lora(acc, inp);
                lemma_entry_loras_clean(named, inp, inp.len() as int);
            },
            None => {},
        }
        assert(clean_lora_names(node_loras(acc, node)));
    }
}

proof fn lemma_model_from_clean(nodes: Seq<(String, JsonValue)>, field: Seq<char>, i: int)
    ensures
        clean_opt(model_from(nodes, field, i)),
    decreases nodes.len() - i,
{
    if 0 <= i < nodes.len() {
        let node = nodes[i].1;
        match text_of(crate::json::get(crate::json::get(Some(node), "inputs"@), field)) {
            Some(t) => lemma_trim_clean(t),
            None => {},
        }
        assert(clean_opt(model_of_node(node, field)));
        lemma_model_from_clean(nodes, field, i + 1);
    }
}

proof fn lemma_join_clean(parts: Seq<Seq<char>>, sep: Seq<char>)
    requires
        parts.len() > 0,
        forall|i: int| 0 <= i < parts.len() ==> is_clean(#[trigger] parts[i]),
    ensures
        join(parts, sep).len() > 0,
        join(parts, sep)[0] == parts[0][0],
        join(parts, sep).last() == parts.last().last(),
    decreases parts.len(),
{
    if parts.len() > 1 {
        lemma_join_clean(parts.drop_last(), sep);
        assert(is_clean(parts[parts.len() - 1]));
    } else {
        assert(is_clean(parts[0]));
    }
}

proof fn lemma_node_text_clean(node: JsonValue)
    ensures
        clean_opt(node_text(node)),
{
    match inputs_of(node) {
        Some(inp) => {
            let parts = add_prompt_fields(Seq::empty(), inp);
            lemma_add_prompt_fields_clean(Seq::empty(), inp);
            if parts.len() > 0 {
                lemma_join_clean(parts, "\n"@);
                assert(is_clean(parts[0]));
                assert(is_clean(parts[parts.len() - 1]));
            }
        },
        None => {},
    }
}

proof fn lemma_resolve_clean(
    nodes: Seq<(String, JsonValue)>,
    id: Seq<char>,
    role: PromptRole,
    visited: Set<Seq<char>>,
)
    ensures
        clean_opt(resolve(nodes, id, role, visited).0),
    decreases unvisited(nodes, visited),
{
    if !visited.contains(id) {
        let v1 = visited.insert(id);
        match member(nodes, id) {
            None => {},
            Some(node) => {
                lemma_node_text_clean(node);
                if !contains(class_or_empty(node), "ZeroOut"@) {
                    match inputs_of(node) {
                        None => {},
                        Some(inp) => {
                            lemma_member_key(nodes, id);
                            lemma_unvisited_decreases(nodes, visited, id, v1);
                            let first = match ref_id(member(inp, role_field(role))) {
                                Some(next) => {
                                    lemma_resolve_clean(nodes, next, role, v1);
                                    resolve(nodes, next, role, v1)
                                },
                                None => (None, v1),
                            };
                            let v2 = first.1.union(v1);
                            assert(v1.subset_of(v2));
                            lemma_unvisited_decreases(nodes, visited, id, v2);
                            match ref_id(member(inp, "conditioning"@)) {
                                Some(next) => lemma_resolve_clean(nodes, next, role, v2),
                                None => {},
                            }
                        },
                    }
                }
            },
        }
    }
}

proof fn lemma_resolve_from_clean(
    nodes: Seq<(String, JsonValue)>,
    id: Option<Seq<char>>,
    role: PromptRole,
)
    ensures
        clean_opt(resolve_from(nodes, id, role)),
{
    match id {
        Some(i) => lemma_resolve_clean(nodes, i, role, Set::empty()),
        None => {},
    }
}

proof fn lemma_sampler_scan_clean(
    nodes: Seq<(String, JsonValue)>,
    i: int,
    pos: Option<Seq<char>>,
    neg: Option<Seq<char>>,
)
    requires
        clean_opt(pos),
        clean_opt(neg),
    ensures
        clean_opt(sampler_scan(nodes, i, pos, neg).0),
        clean_opt(sampler_scan(nodes, i, pos, neg).1),
    decreases nodes.len() - i,
{
    if 0 <= i < nodes.len() {
        let node = nodes[i].1;
        match inputs_of(node) {
            Some(inp) => {
                lemma_resolve_from_clean(nodes, ref_id(member(inp, "positive"@)), PromptRole::Positive);
                lemma_resolve_from_clean(nodes, ref_id(member(inp, "negative"@)), PromptRole::Negative);
                let p2 = if pos is None {
                    resolve_from(nodes, ref_id(member(inp, "positive"@)), PromptRole::Positive)
                } else {
                    pos
                };
                let n2 = if neg is None {
                    resolve_from(nodes, ref_id(member(inp, "negative"@)), PromptRole::Negative)
                } else {
                    neg
                };
                lemma_sampler_scan_clean(nodes, i + 1, p2, n2);
            },
            None => {},
        }
        lemma_sampler_scan_clean(nodes, i + 1, pos, neg);
    }
}

/// What is read from a ComfyUI workflow is clean: the model and the traced
/// positive and negative prompts, where present, are non-empty and
/// trimmed, and each LoRA has a non-empty trimmed name, listed once.
pub proof fn law_workflow_details_clean(json: JsonValue)
    ensures
        clean_details(workflow_details(json)),
{
    match json {
        JsonValue::Object(e) => {
            lemma_model_from_clean(e@, "ckpt_name"@, 0);
            lemma_model_from_clean(e@, "unet_name"@, 0);
            assert(clean_opt(workflow_model(json)));
            lemma_loras_upto_clean(e@, e@.len() as int);
            assert(clean_lora_names(workflow_loras(json)));
            lemma_sampler_scan_clean(e@, 0, None, None);
        },
        _ => {},
    }
}

/// The metadata text stays searchable: an A1111 `parameters` chunk gives
/// one record whose prompt is the whole text, and a `prompt` or `Comment`
/// chunk that is not valid JSON, but holds text, gives one record with that
/// text as prompt and no structured fields.
pub proof fn law_metadata_text_kept(k: Seq<char>, v: Seq<char>)
    ensures
        k == "parameters"@ ==> keyword_records(k, v).len() == 1 && keyword_records(k, v)[0].prompt
            == v,
        (k == "prompt"@ || k == "Comment"@) && parsed_json(v) is None && has_text(v)
            ==> keyword_records(k, v) == seq![record_spec(v, Generator::Unknown, k, empty_details())],
{
    reveal_strlit("parameters");
    reveal_strlit("prompt");
    reveal_strlit("Comment");
    if k == "prompt"@ && parsed_json(v) is None && has_text(v) {
        assert("prompt"@.len() == 6);
        assert("parameters"@.len() == 10);
        assert(k != "parameters"@);
        assert(keyword_records(k, v) =~= seq![
            record_spec(v, Generator::Unknown, "prompt"@, empty_details()),
        ]);
    }
    if k == "Comment"@ && parsed_json(v) is None && has_text(v) {
        assert("Comment"@.len() == 7);
        assert("prompt"@.len() == 6);
        assert("parameters"@.len() == 10);
        assert(k != "prompt"@);
        assert(k != "parameters"@);
        assert(keyword_records(k, v) =~= seq![
            record_spec(v, Generator::Unknown, "Comment"@, empty_details()),
        ]);
    }
}

/// Where the chunk walk from `pos` stops: at an `IDAT` chunk, at a chunk
/// the data does not hold whole, or where no chunk header remains.
pub open spec fn png_stop(d: Seq<u8>, pos: int) -> int
    decreases d.len() - pos,
{
    if pos < 0 || pos + 8 > d.len() {
        pos
    } else {
        let n = be32(d, pos);
        if d.subrange(pos + 4, pos + 8) == idat_type() || pos + 8 + n + 4 > d.len() {
            pos
        } else {
            png_stop(d, pos + 12 + n)
        }
    }
}

proof fn lemma_png_after_idat(d: Seq<u8>, t: Seq<u8>, pos: int, stop: int)
    requires
        0 <= pos,
        stop == png_stop(d, pos),
        stop + 8 <= d.len(),
        d.subrange(stop + 4, stop + 8) == idat_type(),
    ensures
        pos <= stop,
        png_records_from(d.take(stop + 8) + t, pos) == png_records_from(d, pos),
    decreases d.len() - pos,
{
    let e = d.take(stop + 8) + t;
    let n = be32(d, pos);
    if d.subrange(pos + 4, pos + 8) == idat_type() || pos + 8 + n + 4 > d.len() {
        assert(e.subrange(pos + 4, pos + 8) =~= d.subrange(pos + 4, pos + 8));
    } else {
        lemma_png_after_idat(d, t, pos + 12 + n, stop);
        assert(be32(e, pos) == be32(d, pos));
        assert(e.subrange(pos + 4, pos + 8) =~= d.subrange(pos + 4, pos + 8));
        assert(e.subrange(pos + 8, pos + 8 + n) =~= d.subrange(pos + 8, pos + 8 + n));
    }
}

/// Nothing after the first `IDAT` chunk header is read: where the chunk
/// walk of a PNG file stops at an `IDAT` chunk, replacing everything after
/// its header leaves the records unchanged.
pub proof fn law_png_stops_at_idat(d: Seq<u8>, t: Seq<u8>)
    requires
        is_png(d),
        png_stop(d, 8) + 8 <= d.len(),
        d.subrange(png_stop(d, 8) + 4, png_stop(d, 8) + 8) == idat_type(),
    ensures
        png_records(d.take(png_stop(d, 8) + 8) + t) == png_records(d),
{
    let stop = png_stop(d, 8);
    lemma_png_after_idat(d, t, 8, stop);
    let e = d.take(stop + 8) + t;
    assert(e.take(8) =~= d.take(8));
}

/// Where the segment walk from `pos` stops: at end of image, at start of
/// scan, at a segment the data does not hold whole, or at anything that is
/// not a marker.
pub open spec fn jpeg_stop(d: Seq<u8>, pos: int) -> int
    decreases d.len() - pos,
{
    if pos < 0 || pos + 2 > d.len() || d[pos] != 0xff {
        pos
    } else {
        let t = d[pos + 1];
        if t == 0xd9 || t == 0xda {
            pos
        } else if t == 0xd8 {
            jpeg_stop(d, pos + 2)
        } else if pos + 4 > d.len() || be16(d, pos + 2) < 2 || pos + 2 + be16(d, pos + 2)
            > d.len() {
            pos
        } else {
            jpeg_stop(d, pos + 2 + be16(d, pos + 2))
        }
    }
}

/// A marker that ends the reading: end of image or start of scan.
pub open spec fn ends_reading(d: Seq<u8>, pos: int) -> bool {
    d[pos] == 0xff && (d[pos + 1] == 0xd9 || d[pos + 1] == 0xda)
}

proof fn lemma_jpeg_after_end(d: Seq<u8>, t: Seq<u8>, pos: int, stop: int)
    requires
        0 <= pos,
        stop == jpeg_stop(d, pos),
        stop + 2 <= d.len(),
        ends_reading(d, stop),
    ensures
        pos <= stop,
        jpeg_records_from(d.take(stop + 2) + t, pos) == jpeg_records_from(d, pos),
    decreases d.len() - pos,
{
    let e = d.take(stop + 2) + t;
    if pos + 2 <= d.len() && d[pos] == 0xff {
        let m = d[pos + 1];
        if m == 0xd8 {
            lemma_jpeg_after_end(d, t, pos + 2, stop);
        } else if !(m == 0xd9 || m == 0xda) && pos + 4 <= d.len() {
            let len = be16(d, pos + 2);
            if len >= 2 && pos + 2 + len <= d.len() {
                lemma_jpeg_after_end(d, t, pos + 2 + len, stop);
                assert(be16(e, pos + 2) == len);
                assert(e.subrange(pos + 4, pos + 2 + len) =~= d.subrange(pos + 4, pos + 2 + len));
            }
        }
    }
}

/// Nothing after the scan data starts is read: where the segment walk of a
/// JPEG file stops at a start-of-scan or end-of-image marker, replacing
/// everything after that marker leaves the records unchanged.
pub proof fn law_jpeg_stops_at_scan(d: Seq<u8>, t: Seq<u8>)
    requires
        is_jpeg(d),
        jpeg_stop(d, 2) + 2 <= d.len(),
        ends_reading(d, jpeg_stop(d, 2)),
    ensures
        jpeg_records(d.take(jpeg_stop(d, 2) + 2) + t) == jpeg_records(d),
{
    lemma_jpeg_after_end(d, t, 2, jpeg_stop(d, 2));
}

/// A text chunk adds at most one record: none for a keyword other than
/// `parameters`, `prompt`, `Comment` and `Description`, and for
/// `Description` one exactly when its text is not blank.
pub proof fn law_keyword_at_most_one(k: Seq<char>, v: Seq<char>)
    ensures
        keyword_records(k, v).len() <= 1,
        k != "parameters"@ && k != "prompt"@ && k != "Comment"@ && k != "Description"@
            ==> keyword_records(k, v).len() == 0,
        k == "Description"@ ==> (keyword_records(k, v).len() == 1 <==> has_text(v)),
{
    reveal_strlit("parameters");
    reveal_strlit("prompt");
    reveal_strlit("Comment");
    reveal_strlit("Description");
    assert("parameters"@.len() == 10);
    assert("prompt"@.len() == 6);
    assert("Comment"@.len() == 7);
    assert("Description"@.len() == 11);
}

/// Tracing conditioning never visits a node twice: from an id already
/// visited it gives nothing and visits nothing more; otherwise it marks the
/// id visited before going on, keeps every earlier mark, and gives nothing
/// at a node that zeroes conditioning. (It ends: each step visits a new id.)
pub proof fn law_resolve_visits_once(
    nodes: Seq<(String, JsonValue)>,
    id: Seq<char>,
    role: PromptRole,
    visited: Set<Seq<char>>,
)
    ensures
        visited.contains(id) ==> resolve(nodes, id, role, visited) == (
        None::<Seq<char>>,
        visited,
        ),
        !visited.contains(id) ==> visited.insert(id).subset_of(resolve(nodes, id, role, visited).1),
        !visited.contains(id) && (member(nodes, id) matches Some(node) && contains(
            class_or_empty(node),
            "ZeroOut"@,
        )) ==> resolve(nodes, id, role, visited).0 is None,
    decreases unvisited(nodes, visited),
{
    if !visited.contains(id) {
        let v1 = visited.insert(id);
        match member(nodes, id) {
            None => {},
            Some(node) => {
                let ct = class_or_empty(node);
                if !contains(ct, "ZeroOut"@) && !(crate::comfyui::is_text_encode_class(ct)
                    && node_text(node) is Some) {
                    match inputs_of(node) {
                        None => {},
                        Some(inp) => {
                            lemma_member_key(nodes, id);
                            lemma_unvisited_decreases(nodes, visited, id, v1);
                            let first = match ref_id(member(inp, role_field(role))) {
                                Some(next) => {
                                    law_resolve_visits_once(nodes, next, role, v1);
                                    resolve(nodes, next, role, v1)
                                },
                                None => (None, v1),
                            };
                            assert(v1.subset_of(first.1)) by {
                                match ref_id(member(inp, role_field(role))) {
                                    Some(next) => {
                                        if !v1.contains(next) {
                                            assert(v1.subset_of(v1.insert(next)));
                                        }
                                    },
                                    None => {},
                                }
                            }
                            let v2 = first.1.union(v1);
                            assert(v1.subset_of(v2));
                            lemma_unvisited_decreases(nodes, visited, id, v2);
                            match ref_id(member(inp, "conditioning"@)) {
                                Some(next) => {
                                    law_resolve_visits_once(nodes, next, role, v2);
                                    if !v2.contains(next) {
                                        assert(v2.subset_of(v2.insert(next)));
                                    }
                                },
                                None => {},
                            }
                        },
                    }
                }
            },
        }
    }
}

/// A run of complete JPEG segments with no end-of-image or start-of-scan
/// marker: each a start-of-image marker, or a marker with a big-endian
/// length of at least 2 that the run holds whole.
pub open spec fn complete_segments(s: Seq<u8>) -> bool
    decreases s.len(),
{
    if s.len() == 0 {
        true
    } else if s.len() >= 2 && s[0] == 0xff && s[1] == 0xd8 {
        complete_segments(s.skip(2))
    } else if s.len() >= 4 && s[0] == 0xff && s[1] != 0xd8 && s[1] != 0xd9 && s[1] != 0xda
        && be16(s, 2) >= 2 && 2 + be16(s, 2) <= s.len() {
        complete_segments(s.skip(2 + be16(s, 2)))
    } else {
        false
    }
}

proof fn lemma_segments_walk_to(d: Seq<u8>, pos: int, s: Seq<u8>)
    requires
        0 <= pos,
        complete_segments(s),
        pos + s.len() + 2 <= d.len(),
        d.subrange(pos, pos + s.len()) == s,
        ends_reading(d, pos + s.len()),
    ensures
        jpeg_stop(d, pos) == pos + s.len(),
    decreases s.len(),
{
    if s.len() > 0 {
        assert(d[pos] == s[0] && d[pos + 1] == s[1]);
        if s.len() >= 2 && s[0] == 0xff && s[1] == 0xd8 {
            assert(d.subrange(pos + 2, pos + 2 + s.skip(2).len()) =~= s.skip(2));
            lemma_segments_walk_to(d, pos + 2, s.skip(2));
        } else {
            assert(d[pos + 2] == s[2] && d[pos + 3] == s[3]);
            let n = be16(s, 2);
            assert(be16(d, pos + 2) == n);
            assert(d.subrange(pos + 2 + n, pos + 2 + n + s.skip(2 + n).len()) =~= s.skip(2 + n));
            lemma_segments_walk_to(d, pos + 2 + n, s.skip(2 + n));
        }
    }
}

/// No record is taken from what follows the start-of-scan marker: a JPEG
/// file that is a start-of-image marker, a run of complete segments and a
/// start-of-scan marker gives the same records whatever bytes follow.
pub proof fn law_jpeg_ignores_scan_data(segments: Seq<u8>, rest: Seq<u8>)
    requires
        complete_segments(segments),
    ensures
        jpeg_records(seq![0xffu8, 0xd8] + segments + seq![0xffu8, 0xda] + rest) == jpeg_records(
            seq![0xffu8, 0xd8] + segments + seq![0xffu8, 0xda],
        ),
{
    let d = seq![0xffu8, 0xd8] + segments + seq![0xffu8, 0xda];
    let stop = 2 + segments.len() as int;
    assert(d.subrange(2, stop) =~= segments);
    assert(d[stop] == 0xff && d[stop + 1] == 0xda);
    lemma_segments_walk_to(d, 2, segments);
    assert(is_jpeg(d));
    law_jpeg_stops_at_scan(d, rest);
    assert(d.take(stop + 2) =~= d);
    assert(d + rest =~= seq![0xffu8, 0xd8] + segments + seq![0xffu8, 0xda] + rest);
}

/// Input `field` of `inputs` is a string whose trimmed text is `t`, and
/// `t` is not empty.
pub open spec fn field_offers(inputs: Seq<(String, JsonValue)>, field: Seq<char>, t: Seq<char>) -> bool {
    str_of(member(inputs, field)) matches Some(v) && trim(v) == t && t.len() > 0
}

/// The node encodes text, and one of its prompt fields `text_g`, `text_l`,
/// `text` or `prompt` offers the text `t`.
pub open spec fn node_offers(node: JsonValue, t: Seq<char>) -> bool {
    &&& crate::comfyui::class_of(node) matches Some(ct) && crate::comfyui::is_text_encode_class(ct)
    &&& inputs_of(node) matches Some(inp) && (field_offers(inp, "text_g"@, t) || field_offers(
        inp,
        "text_l"@,
        t,
    ) || field_offers(inp, "text"@, t) || field_offers(inp, "prompt"@, t))
}

proof fn lemma_add_text_contains(acc: Seq<Seq<char>>, v: Option<JsonValue>, x: Seq<char>)
    ensures
        add_text(acc, v).contains(x) <==> acc.contains(x) || (str_of(v) matches Some(s) && trim(s)
            == x && x.len() > 0),
{
    match str_of(v) {
        Some(t) => {
            if trim(t).len() > 0 && !acc.contains(trim(t)) {
                let a2 = acc.push(trim(t));
                if a2.contains(x) {
                    let j = choose|j: int| 0 <= j < a2.len() && a2[j] == x;
                    if j < acc.len() {
                        assert(acc[j] == x);
                    }
                }
                if acc.contains(x) {
                    let j = choose|j: int| 0 <= j < acc.len() && acc[j] == x;
                    assert(a2[j] == x);
                }
                assert(a2[acc.len() as int] == trim(t));
            }
        },
        None => {},
    }
}

proof fn lemma_node_prompts_contains(acc: Seq<Seq<char>>, node: JsonValue, x: Seq<char>)
    ensures
        node_prompts(acc, node).contains(x) <==> acc.contains(x) || node_offers(node, x),
{
    match crate::comfyui::class_of(node) {
        Some(ct) => if crate::comfyui::is_text_encode_class(ct) {
            match inputs_of(node) {
                Some(inp) => {
                    let a1 = add_text(acc, member(inp, "text_g"@));
                    let a2 = add_text(a1, member(inp, "text_l"@));
                    let a3 = add_text(a2, member(inp, "text"@));
                    lemma_add_text_contains(acc, member(inp, "text_g"@), x);
                    lemma_add_text_contains(a1, member(inp, "text_l"@), x);
                    lemma_add_text_contains(a2, member(inp, "text"@), x);
                    lemma_add_text_contains(a3, member(inp, "prompt"@), x);
                },
                None => {},
            }
        },
        None => {},
    }
}

proof fn lemma_prompts_upto_contains(nodes: Seq<(String, JsonValue)>, n: int, x: Seq<char>)
    requires
        0 <= n <= nodes.len(),
    ensures
        prompts_upto(nodes, n).contains(x) <==> exists|k: int|
            0 <= k < n && #[trigger] node_offers(nodes[k].1, x),
    decreases n,
{
    if n > 0 {
        lemma_prompts_upto_contains(nodes, n - 1, x);
        lemma_node_prompts_contains(prompts_upto(nodes, n - 1), nodes[n - 1].1, x);
        if exists|k: int| 0 <= k < n && #[trigger] node_offers(nodes[k].1, x) {
            let k = choose|k: int| 0 <= k < n && #[trigger] node_offers(nodes[k].1, x);
            if k < n - 1 {
                assert(exists|k2: int| 0 <= k2 < n - 1 && #[trigger] node_offers(nodes[k2].1, x));
            }
        }
    } else {
        assert(prompts_upto(nodes, 0) =~= Seq::<Seq<char>>::empty());
    }
}

/// One of the nodes offers the prompt text `t`.
pub open spec fn offered_by_text_node(nodes: Seq<(String, JsonValue)>, t: Seq<char>) -> bool {
    exists|k: int| 0 <= k < nodes.len() && #[trigger] node_offers(nodes[k].1, t)
}

/// The prompts of a ComfyUI workflow are exactly the texts its
/// text-encoding nodes offer in their prompt fields (trimmed, non-empty),
/// each listed once; a workflow that is not an object has none.
pub proof fn law_workflow_prompts_are_offered(json: JsonValue)
    ensures
        distinct_clean_texts(workflow_prompts(json)),
        !(json is Object) ==> workflow_prompts(json).len() == 0,
        forall|t: Seq<char>|
            #[trigger] workflow_prompts(json).contains(t) <==> offered_by_text_node(
                workflow_nodes(json),
                t,
            ),
{
    law_workflow_prompts_clean(json);
    let nodes = workflow_nodes(json);
    assert(workflow_prompts(json) == prompts_upto(nodes, nodes.len() as int));
    assert forall|t: Seq<char>|
        #[trigger] workflow_prompts(json).contains(t) <==> offered_by_text_node(nodes, t) by {
        lemma_prompts_upto_contains(nodes, nodes.len() as int, t);
    }
}

/// The object-valued input `value` is a switched-on LoRA entry named `name`.
pub open spec fn entry_offers(value: JsonValue, name: Seq<char>) -> bool {
    value matches JsonValue::Object(e) && bool_of(member(e@, "on"@)) != Some(false) && name_of(
        member(e@, "lora"@),
    ) == Some(name)
}

/// The node's class names a LoRA, and its `lora_name` input or one of its
/// switched-on entries names `name`.
pub open spec fn lora_node_offers(node: JsonValue, name: Seq<char>) -> bool {
    &&& contains(lowercase_text(class_or_empty(node)), "lora"@)
    &&& inputs_of(node) matches Some(inp) && (name_of(member(inp, "lora_name"@)) == Some(name)
        || exists|k: int| 0 <= k < inp.len() && #[trigger] entry_offers(inp[k].1, name))
}

/// Every entry's name meets `p`.
pub open spec fn all_names(l: Seq<LoraSpec>, p: spec_fn(Seq<char>) -> bool) -> bool {
    forall|i: int| #![trigger l[i]] 0 <= i < l.len() ==> p(l[i].name)
}

proof fn lemma_push_names(acc: Seq<LoraSpec>, name: Seq<char>, w: Seq<char>, p: spec_fn(Seq<char>) -> bool)
    requires
        all_names(acc, p),
        p(name),
    ensures
        all_names(push_lora_spec(acc, name, w), p),
{
    if !has_lora_named(acc, name) {
        let a2 = acc.push(LoraSpec { name, weight: w });
        assert forall|i: int| #![trigger a2[i]] 0 <= i < a2.len() implies p(a2[i].name) by {
            if i < acc.len() {
                assert(a2[i] == acc[i]);
            }
        }
    }
}

proof fn lemma_entry_names(
    acc: Seq<LoraSpec>,
    inp: Seq<(String, JsonValue)>,
    n: int,
    p: spec_fn(Seq<char>) -> bool,
)
    requires
        all_names(acc, p),
        n <= inp.len(),
        forall|k: int, nm: Seq<char>| 0 <= k < n && #[trigger] entry_offers(inp[k].1, nm) ==> p(nm),
    ensures
        all_names(entry_loras_upto(acc, inp, n), p),
    decreases n,
{
    if n > 0 {
        let prev = entry_loras_upto(acc, inp, n - 1);
        lemma_entry_names(acc, inp, n - 1, p);
        match inp[n - 1].1 {
            JsonValue::Object(e) => {
                if bool_of(member(e@, "on"@)) != Some(false) {
                    match name_of(member(e@, "lora"@)) {
                        Some(name) => {
                            assert(entry_offers(inp[n - 1].1, name));
                            lemma_push_names(
                                prev,
                                name,
                                match text_of(member(e@, "strength"@)) {
                                    Some(w) => w,
                                    None => crate::comfyui::or_one(
                                        text_of(member(e@, "strength_model"@)),
                                    ),
                                },
                                p,
                            );
                        },
                        None => {},
                    }
                }
            },
            _ => {},
        }
        assert(entry_loras_upto(acc, inp, n) == add_entry_lora(prev, inp[n - 1].1));
    }
}

/// Some node among the first `n` offers `name`.
pub open spec fn offered_upto(nodes: Seq<(String, JsonValue)>, n: int) -> spec_fn(Seq<char>) -> bool {
    |nm: Seq<char>| exists|k: int| 0 <= k < n && #[trigger] lora_node_offers(nodes[k].1, nm)
}

proof fn lemma_loras_upto_sources(nodes: Seq<(String, JsonValue)>, n: int)
    requires
        0 <= n <= nodes.len(),
    ensures
        all_names(loras_upto(nodes, n), offered_upto(nodes, n)),
    decreases n,
{
    if n > 0 {
        let acc = loras_upto(nodes, n - 1);
        let p = offered_upto(nodes, n);
        lemma_loras_upto_sources(nodes, n - 1);
        assert forall|i: int| #![trigger acc[i]] 0 <= i < acc.len() implies p(acc[i].name) by {
            let q = offered_upto(nodes, n - 1);
            assert(q(acc[i].name));
            let k = choose|k: int| 0 <= k < n - 1 && #[trigger] lora_node_offers(nodes[k].1, acc[i].name);
            assert(0 <= k < n && lora_node_offers(nodes[k].1, acc[i].name));
        }
        let node = nodes[n - 1].1;
        if contains(lowercase_text(class_or_empty(node)), "lora"@) {
            match inputs_of(node) {
                Some(inp) => {
                    match name_of(member(inp, "lora_name"@)) {
                        Some(name) => {
                            assert(lora_node_offers(node, name));
                            assert(p(name));
                            lemma_push_names(
                                acc,
                                name,
                                crate::comfyui::or_one(
                                    crate::comfyui::format_weight(
                                        text_of(member(inp, "strength_model"@)),
                                        text_of(member(inp, "strength_clip"@)),
                                    ),
                                ),
                                p,
                            );
                        },
                        None => {},
                    }
                    assert forall|k: int, nm: Seq<char>|
                        0 <= k < inp.len() && #[trigger] entry_offers(inp[k].1, nm) implies p(nm) by {
                        assert(lora_node_offers(node, nm));
                    }
                    lemma_entry_names(add_named_lora(acc, inp), inp, inp.len() as int, p);
                },
                None => {},
            }
        }
        assert(loras_upto(nodes, n) == node_loras(acc, node));
    }
}

/// The nodes of a workflow: the members of its top-level object.
pub open spec fn workflow_nodes(json: JsonValue) -> Seq<(String, JsonValue)> {
    match json {
        JsonValue::Object(e) => e@,
        _ => Seq::empty(),
    }
}

/// One of the nodes offers the LoRA name `name`.
pub open spec fn offered_by_some_node(nodes: Seq<(String, JsonValue)>, name: Seq<char>) -> bool {
    exists|k: int| 0 <= k < nodes.len() && #[trigger] lora_node_offers(nodes[k].1, name)
}

/// Each entry's name is offered by one of the nodes.
pub open spec fn offered_by_nodes(loras: Seq<LoraSpec>, nodes: Seq<(String, JsonValue)>) -> bool {
    forall|i: int|
        #![trigger loras[i]]
        0 <= i < loras.len() ==> offered_by_some_node(nodes, loras[i].name)
}

/// Every LoRA of a ComfyUI workflow comes from a node whose class names a
/// LoRA: from its `lora_name` input or from one of its switched-on entries.
pub proof fn law_workflow_loras_from_lora_nodes(json: JsonValue)
    ensures
        clean_lora_names(workflow_loras(json)),
        offered_by_nodes(workflow_loras(json), workflow_nodes(json)),
{
    law_workflow_details_clean(json);
    let nodes = workflow_nodes(json);
    lemma_loras_upto_sources(nodes, nodes.len() as int);
    let l = loras_upto(nodes, nodes.len() as int);
    assert(workflow_loras(json) == l);
    assert forall|i: int| #![trigger l[i]] 0 <= i < l.len() implies offered_by_some_node(
        nodes,
        l[i].name,
    ) by {
        assert(offered_upto(nodes, nodes.len() as int)(l[i].name));
    }
    assert(offered_by_nodes(l, nodes));
}

/// The UTF-16 code units of one character: itself below U+10000, else a
/// high and a low surrogate.
pub open spec fn char_units(c: char) -> Seq<u16> {
    let v = c as u32;
    if v < 0x10000 {
        seq![v as u16]
    } else {
        seq![(0xd800 + (v - 0x10000) / 1024) as u16, (0xdc00 + (v - 0x10000) % 1024) as u16]
    }
}

/// The UTF-16 encoding of a text (what `str::encode_utf16` yields).
pub open spec fn utf16_encode(s: Seq<char>) -> Seq<u16>
    decreases s.len(),
{
    if s.len() == 0 {
        Seq::empty()
    } else {
        char_units(s[0]) + utf16_encode(s.drop_first())
    }
}

/// The two bytes of a code unit in the given byte order.
pub open spec fn unit_bytes(u: u16, le: bool) -> Seq<u8> {
    if le {
        seq![(u % 256) as u8, (u / 256) as u8]
    } else {
        seq![(u / 256) as u8, (u % 256) as u8]
    }
}

/// Code units written out as byte pairs in the given byte order.
pub open spec fn units_bytes(us: Seq<u16>, le: bool) -> Seq<u8>
    decreases us.len(),
{
    if us.len() == 0 {
        Seq::empty()
    } else {
        unit_bytes(us[0], le) + units_bytes(us.drop_first(), le)
    }
}

proof fn lemma_units_bytes(us: Seq<u16>, le: bool)
    ensures
        units_bytes(us, le).len() == 2 * us.len(),
        forall|i: int|
            0 <= i < us.len() ==> crate::exif::u16v(units_bytes(us, le), 2 * i, le) == us[i] as int,
    decreases us.len(),
{
    if us.len() > 0 {
        let tail = us.drop_first();
        lemma_units_bytes(tail, le);
        let b = units_bytes(us, le);
        let head = unit_bytes(us[0], le);
        assert forall|i: int|
            0 <= i < us.len() implies crate::exif::u16v(b, 2 * i, le) == us[i] as int by {
            if i == 0 {
                assert(b[0] == head[0] && b[1] == head[1]);
                let u = us[0];
                assert(u as int == 256 * (u / 256) + u % 256);
            } else {
                assert(b[2 * i] == units_bytes(tail, le)[2 * (i - 1)]);
                assert(b[2 * i + 1] == units_bytes(tail, le)[2 * (i - 1) + 1]);
                assert(tail[i - 1] == us[i]);
            }
        }
    }
}

/// Byte pairs read back as code units give the units written.
proof fn lemma_units_round_trip(us: Seq<u16>, le: bool)
    ensures
        utf16_units(units_bytes(us, le), le) == us,
{
    lemma_units_bytes(us, le);
    assert(utf16_units(units_bytes(us, le), le) =~= us);
}

proof fn lemma_decode_char(c: char, rest: Seq<u16>)
    ensures
        utf16_decode(char_units(c) + rest) == seq![c] + utf16_decode(rest),
{
    let v = c as u32;
    vstd::utf8::char_is_scalar(c);
    vstd::utf8::char_u32_cast(c, v);
    let us = char_units(c) + rest;
    if v < 0x10000 {
        assert(us[0] == v as u16);
        assert(us.drop_first() =~= rest);
        assert(((us[0] as u32) as char) == c);
    } else {
        let w = v - 0x10000;
        assert(w == 1024 * (w / 1024) + w % 1024);
        assert(us[0] == (0xd800 + w / 1024) as u16);
        assert(us[1] == (0xdc00 + w % 1024) as u16);
        assert(us.skip(2) =~= rest);
        assert((0x10000 + (us[0] - 0xd800) * 1024 + (us[1] - 0xdc00)) == v);
    }
}

/// Decoding the UTF-16 encoding of a text gives the text back.
proof fn lemma_decode_encode(s: Seq<char>)
    ensures
        utf16_decode(utf16_encode(s)) == s,
    decreases s.len(),
{
    if s.len() > 0 {
        lemma_decode_char(s[0], utf16_encode(s.drop_first()));
        lemma_decode_encode(s.drop_first());
        assert(seq![s[0]] + s.drop_first() =~= s);
    } else {
        assert(utf16_encode(s) =~= Seq::<u16>::empty());
    }
}

/// An empty text stays empty when cleaned.
proof fn lemma_clean_empty()
    ensures
        clean(Seq::empty()) == Seq::<char>::empty(),
{
    assert(strip_nul(Seq::empty()) =~= Seq::<char>::empty());
    assert(trim(Seq::<char>::empty()) =~= Seq::<char>::empty());
}

/// A UTF-16 `UserComment` body reads back as the text it encodes, cleaned
/// of NULs and surrounding whitespace: after a little-endian or big-endian
/// byte-order mark, or with none in the TIFF byte order, where the text does
/// not itself begin with U+FEFF or U+FFFE (which would read as a mark).
pub proof fn law_utf16_comment_round_trip(s: Seq<char>, tiff_le: bool)
    ensures
        utf16_comment(seq![0xffu8, 0xfe] + units_bytes(utf16_encode(s), true), tiff_le) == clean(s),
        utf16_comment(seq![0xfeu8, 0xff] + units_bytes(utf16_encode(s), false), tiff_le) == clean(s),
        s.len() == 0 || (s[0] != '\u{feff}' && s[0] != '\u{fffe}') ==> utf16_comment(
            units_bytes(utf16_encode(s), tiff_le),
            tiff_le,
        ) == clean(s),
{
    lemma_decode_encode(s);
    lemma_units_round_trip(utf16_encode(s), true);
    lemma_units_round_trip(utf16_encode(s), false);
    lemma_units_round_trip(utf16_encode(s), tiff_le);
    let le_body = seq![0xffu8, 0xfe] + units_bytes(utf16_encode(s), true);
    assert(le_body.skip(2) =~= units_bytes(utf16_encode(s), true));
    let be_body = seq![0xfeu8, 0xff] + units_bytes(utf16_encode(s), false);
    assert(be_body.skip(2) =~= units_bytes(utf16_encode(s), false));
    let body = units_bytes(utf16_encode(s), tiff_le);
    if s.len() == 0 {
        assert(utf16_encode(s) =~= Seq::<u16>::empty());
        lemma_clean_empty();
    } else if s[0] != '\u{feff}' && s[0] != '\u{fffe}' {
        let c = s[0];
        let v = c as u32;
        vstd::utf8::char_is_scalar(c);
        vstd::utf8::char_u32_cast(c, v);
        let u = char_units(c)[0];
        assert(utf16_encode(s)[0] == u);
        assert(body[0] == unit_bytes(u, tiff_le)[0] && body[1] == unit_bytes(u, tiff_le)[1]);
        if v < 0x10000 {
            assert(v != 0xfeff && v != 0xfffe) by {
                if v == 0xfeff {
                    vstd::utf8::char_u32_cast(c, 0xfeff);
                }
                if v == 0xfffe {
                    vstd::utf8::char_u32_cast(c, 0xfffe);
                }
            }
            assert(u as int == 256 * (u / 256) + u % 256);
        } else {
            assert(0xd800 <= u <= 0xdbff);
        }
        assert(!(body[0] == 0xff && body[1] == 0xfe));
        assert(!(body[0] == 0xfe && body[1] == 0xff));
    }
}

} // verus!
