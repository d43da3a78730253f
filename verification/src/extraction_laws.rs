//! What extraction must find, stated over whole inputs: an EXIF comment in
//! a JPEG, a comment entry wherever it stands in its IFD, the A1111 prompt
//! before its settings line, the conditioning that a trace follows, and
//! where an XMP description is read from.
use vstd::prelude::*;
use crate::comfyui::{
    PromptRole, class_or_empty, inputs_of, is_text_encode_class, node_text, ref_id, resolve,
};
use crate::a1111::{a1111_details, split_spec, find_line_marker_spec};
use crate::exif::{
    EntryScan, TAG_EXIF_IFD, TAG_USER_COMMENT, comment_at, exif_prefix, scan_entries, tiff_order, u16v, u32v,
    user_comment_of,
};
use crate::jpeg::{be16, jpeg_records, xmp_description, xmp_header};
use crate::json::{JsonValue, member};
use crate::text::{
    contains, find, is_trimmed, is_ws, lemma_find_from_none, lemma_find_from_some,
    lemma_find_from_spec, lemma_trim_end_index, lemma_trim_start_index, lemma_trim_start_skip,
    lemma_trim_trimmed, matches_at, non_empty_text, starts_with, trim, trim_end, trim_start,
};
use crate::types::{Generator, RecordSpec, empty_details, record_spec};

verus! {

/// A JPEG file that holds only one segment, of type `t` with body `e`:
/// start of image, the segment's marker and big-endian length, the body,
/// end of image.
pub open spec fn jpeg_with_segment(t: u8, e: Seq<u8>) -> Seq<u8> {
    seq![0xffu8, 0xd8, 0xff, t, ((e.len() + 2) / 256) as u8, ((e.len() + 2) % 256) as u8] + e
        + seq![0xffu8, 0xd9]
}

/// A JPEG file that holds only one APP1 segment with body `e`.
pub open spec fn jpeg_with_app1(e: Seq<u8>) -> Seq<u8> {
    jpeg_with_segment(0xe1, e)
}

/// An EXIF block in a JPEG APP1 segment gives its `UserComment` as a
/// record: a file made of one such segment yields exactly one record, with
/// the comment as prompt, under the key `UserComment`.
pub proof fn law_jpeg_exif_user_comment(e: Seq<u8>, p: Seq<char>)
    requires
        e.len() + 2 < 65536,
        e.len() >= 6 && e.take(6) == exif_prefix(),
        user_comment_of(e) == Some(p),
    ensures
        jpeg_records(jpeg_with_app1(e)) == seq![
            record_spec(p, Generator::Unknown, "UserComment"@, empty_details()),
        ],
{
    let d = jpeg_with_app1(e);
    let n = e.len() as int + 2;
    assert(n == 256 * (n / 256) + n % 256);
    assert(d[0] == 0xff && d[1] == 0xd8 && d[2] == 0xff && d[3] == 0xe1);
    assert(d[4] == (n / 256) as u8 && d[5] == (n % 256) as u8);
    assert(be16(d, 4) == n);
    assert(d.subrange(6, 4 + n) =~= e);
    assert(e.take(6)[0] == e[0]);
    assert(e[0] == 0x45);
    if e.len() >= 29 {
        assert(e.take(29)[0] == e[0]);
        assert(e.take(29) != xmp_header());
    }
    assert(d[4 + n] == 0xff && d[5 + n] == 0xd9);
    let rest = crate::jpeg::jpeg_records_from(d, 4 + n);
    assert(rest =~= Seq::<RecordSpec>::empty());
    assert(crate::jpeg::segment_records(0xe1, e) == seq![
        record_spec(p, Generator::Unknown, "UserComment"@, empty_details()),
    ]);
    assert(crate::jpeg::jpeg_records_from(d, 2) =~= seq![
        record_spec(p, Generator::Unknown, "UserComment"@, empty_details()),
    ] + rest);
}

/// Entry `j` of the IFD whose entries start at `base` is a `UserComment`
/// that gives a comment.
pub open spec fn gives_comment(d: Seq<u8>, le: bool, base: int, j: int) -> bool {
    let e = base + 12 * j;
    u16v(d, e, le) == TAG_USER_COMMENT && comment_at(d, le, u32v(d, e + 8, le), u32v(d, e + 4, le))
        is Some
}

proof fn lemma_entries_reach(
    d: Seq<u8>,
    le: bool,
    base: int,
    n: int,
    i: int,
    k: int,
    exif: Option<int>,
)
    requires
        0 <= i <= k < n,
        base + 12 * k + 12 <= d.len(),
        u16v(d, base + 12 * k, le) == TAG_USER_COMMENT,
        forall|j: int| i <= j < k ==> !#[trigger] gives_comment(d, le, base, j),
    ensures
        scan_entries(d, le, base, n, i, exif) == EntryScan::Found(
            comment_at(d, le, u32v(d, base + 12 * k + 8, le), u32v(d, base + 12 * k + 4, le))->0,
        ) || comment_at(d, le, u32v(d, base + 12 * k + 8, le), u32v(d, base + 12 * k + 4, le))
            is None,
    decreases k - i,
{
    if i < k {
        assert(!gives_comment(d, le, base, i));
        let e = base + 12 * i;
        lemma_entries_reach(d, le, base, n, i + 1, k, exif);
        lemma_entries_reach(d, le, base, n, i + 1, k, Some(u32v(d, e + 8, le)));
    }
}

/// The `UserComment` is found wherever its entry stands in the first IFD:
/// where entry `k` of IFD0 is a `UserComment` with a comment `t`, and no
/// earlier entry gives one, the block's comment is `t`, whatever tags the
/// earlier entries carry.
pub proof fn law_user_comment_at_any_position(d: Seq<u8>, k: int, t: Seq<char>)
    requires
        tiff_order(d) matches Some(le) && {
            let off = u32v(d, 4, le);
            let base = off + 2;
            &&& off + 2 <= d.len()
            &&& 0 <= k < u16v(d, off, le)
            &&& base + 12 * k + 12 <= d.len()
            &&& u16v(d, base + 12 * k, le) == TAG_USER_COMMENT
            &&& comment_at(d, le, u32v(d, base + 12 * k + 8, le), u32v(d, base + 12 * k + 4, le))
                == Some(t)
            &&& forall|j: int| 0 <= j < k ==> !#[trigger] gives_comment(d, le, base, j)
        },
    ensures
        user_comment_of(d) == Some(t),
{
    let le = tiff_order(d)->0;
    let off = u32v(d, 4, le);
    assert(d.len() >= 6 ==> d.take(6) != exif_prefix()) by {
        if d.len() >= 6 && d.take(6) == exif_prefix() {
            assert(d.take(6)[0] == d[0]);
        }
    }
    assert(crate::exif::tiff_data(d) == d);
    assert(u32v(d, 4, le) >= 0);
    lemma_entries_reach(d, le, off + 2, u16v(d, off, le), 0, k, None);
}

/// Where `t` is `w[a..b]`, an occurrence of a pattern in `t` is one in `w`.
proof fn lemma_contains_in_subrange(w: Seq<char>, a: int, b: int, pat: Seq<char>)
    requires
        0 <= a <= b <= w.len(),
        contains(w.subrange(a, b), pat),
    ensures
        contains(w, pat),
{
    let s = w.subrange(a, b);
    let i = choose|i: int| matches_at(s, pat, i);
    assert(w.subrange(a + i, a + i + pat.len()) =~= s.subrange(i, i + pat.len()));
    assert(matches_at(w, pat, a + i));
}

/// The trimmed text is a stretch of the text.
proof fn lemma_trim_is_subrange(s: Seq<char>) -> (r: (int, int))
    ensures
        0 <= r.0 <= r.1 <= s.len(),
        trim(s) == s.subrange(r.0, r.1),
{
    let i = lemma_trim_start_index(s);
    let u = s.skip(i);
    let j = lemma_trim_end_index(u);
    assert(u.take(j) =~= s.subrange(i, i + j));
    (i, i + j)
}

/// The text before the settings line holds no line that begins with
/// `Steps:`.
proof fn lemma_body_has_no_steps_line(t: Seq<char>)
    ensures
        !contains(
            match find_line_marker_spec(t, "Steps:"@) {
                Some(i) => t.take(i),
                None => t,
            },
            seq!['\n'].add("Steps:"@),
        ),
{
    reveal_strlit("Steps:");
    let m = seq!['\n'].add("Steps:"@);
    assert(m.len() == 7);
    lemma_find_from_spec(t, m, 0);
    if crate::text::starts_with(t, "Steps:"@) {
        assert(t.take(0).len() == 0);
    } else {
        match find(t, m) {
            None => {},
            Some(i) => {
                let body = t.take(i + 1);
                if contains(body, m) {
                    let j = choose|j: int| matches_at(body, m, j);
                    assert(body.subrange(j, j + m.len()) =~= t.subrange(j, j + m.len()));
                    assert(matches_at(t, m, j));
                }
            },
        }
    }
}

/// The positive prompt of A1111 text lies before its settings line: it
/// never holds a line that begins with `Steps:`.
pub proof fn law_a1111_positive_before_settings(text: Seq<char>)
    ensures
        a1111_details(text).positive matches Some(p) ==> !contains(p, "\nSteps:"@),
{
    reveal_strlit("\nSteps:");
    reveal_strlit("Steps:");
    assert("\nSteps:"@ =~= seq!['\n'].add("Steps:"@));
    let t = trim(text);
    if t.len() > 0 {
        let body = match find_line_marker_spec(t, "Steps:"@) {
            Some(i) => t.take(i),
            None => t,
        };
        lemma_body_has_no_steps_line(t);
        let m = "\nSteps:"@;
        let parts = split_spec(t);
        // The positive part is a stretch of the body, and so is its trim.
        let (a, b) = match find(body, "Negative prompt:"@) {
            Some(i) => {
                lemma_find_from_spec(body, "Negative prompt:"@, 0);
                let pre = body.take(i);
                assert(pre == body.subrange(0, i));
                let (c, e) = lemma_trim_is_subrange(pre);
                assert(trim(pre) =~= body.subrange(c, e));
                (c, e)
            },
            None => {
                if crate::text::starts_with(crate::text::trim_start(body), "Steps:"@) {
                    assert(parts.0 =~= body.subrange(0, 0));
                    (0, 0)
                } else {
                    let (c, e) = lemma_trim_is_subrange(body);
                    (c, e)
                }
            },
        };
        assert(parts.0 == body.subrange(a, b));
        let (c2, e2) = lemma_trim_is_subrange(parts.0);
        assert(trim(parts.0) =~= body.subrange(a + c2, a + e2));
        if contains(trim(parts.0), m) {
            lemma_contains_in_subrange(body, a + c2, a + e2, m);
        }
    }
}

/// The node with id `id` encodes text and gives some.
pub open spec fn text_encoder(nodes: Seq<(String, JsonValue)>, id: Seq<char>) -> bool {
    member(nodes, id) matches Some(n) && !contains(class_or_empty(n), "ZeroOut"@)
        && is_text_encode_class(class_or_empty(n)) && node_text(n) is Some
}

/// A trace follows the input of its own role: from a node that does not
/// itself encode text, whose `positive` input links to an encoder `a` and
/// whose `negative` input links to an encoder `b`, the positive trace gives
/// `a`'s text and the negative trace `b`'s.
pub proof fn law_trace_follows_its_role(
    nodes: Seq<(String, JsonValue)>,
    x: Seq<char>,
    a: Seq<char>,
    b: Seq<char>,
)
    requires
        member(nodes, x) matches Some(node) && {
            &&& !contains(class_or_empty(node), "ZeroOut"@)
            &&& !(is_text_encode_class(class_or_empty(node)) && node_text(node) is Some)
            &&& inputs_of(node) matches Some(inp) && ref_id(member(inp, "positive"@)) == Some(a)
                && ref_id(member(inp, "negative"@)) == Some(b)
        },
        text_encoder(nodes, a),
        text_encoder(nodes, b),
        a != x,
        b != x,
    ensures
        resolve(nodes, x, PromptRole::Positive, Set::empty()).0 == node_text(member(nodes, a)->0),
        resolve(nodes, x, PromptRole::Negative, Set::empty()).0 == node_text(member(nodes, b)->0),
{
    let v1 = Set::<Seq<char>>::empty().insert(x);
    assert(!v1.contains(a) && !v1.contains(b));
    assert(!Set::<Seq<char>>::empty().contains(x));
    crate::comfyui::lemma_member_key(nodes, x);
    crate::comfyui::lemma_unvisited_decreases(nodes, Set::empty(), x, v1);
    assert(resolve(nodes, a, PromptRole::Positive, v1).0 == node_text(member(nodes, a)->0));
    assert(resolve(nodes, b, PromptRole::Negative, v1).0 == node_text(member(nodes, b)->0));
}

/// The description is read from after the first `<dc:description>` tag:
/// a description that is found occurs in the text that follows that tag,
/// so nothing before it (a title, say) is ever taken.
pub proof fn law_xmp_description_after_tag(x: Seq<char>)
    ensures
        xmp_description(x) matches Some(t) ==> find(x, "<dc:description>"@) matches Some(i)
            && contains(x.skip(i + "<dc:description>"@.len()), t),
{
    reveal_strlit("<rdf:li");
    reveal_strlit(">");
    reveal_strlit("</rdf:li>");
    match find(x, "<dc:description>"@) {
        None => {},
        Some(dc) => {
            lemma_find_from_spec(x, "<dc:description>"@, 0);
            let after = x.skip(dc + "<dc:description>"@.len());
            lemma_find_from_spec(after, "<rdf:li"@, 0);
            match find(after, "<rdf:li"@) {
                None => {},
                Some(li) => {
                    let lc = after.skip(li);
                    lemma_find_from_spec(lc, ">"@, 0);
                    match find(lc, ">"@) {
                        None => {},
                        Some(c) => {
                            let text = lc.skip(c + 1);
                            lemma_find_from_spec(text, "</rdf:li>"@, 0);
                            match find(text, "</rdf:li>"@) {
                                None => {},
                                Some(end) => {
                                    let inner = text.take(end);
                                    let (s0, s1) = lemma_trim_is_subrange(inner);
                                    let start = li + c + 1;
                                    assert(li + 7 <= after.len());
                                    assert(c + 1 <= lc.len());
                                    assert(end + 9 <= text.len());
                                    assert(text =~= after.skip(start));
                                    assert(inner =~= after.subrange(start, start + end));
                                    assert(trim(inner) =~= after.subrange(start + s0, start + s1));
                                    let t = trim(inner);
                                    assert(matches_at(after.subrange(start + s0, start + s1), t, 0))
                                        by {
                                        assert(after.subrange(start + s0, start + s1).subrange(
                                            0,
                                            t.len() as int,
                                        ) =~= t);
                                    }
                                    lemma_contains_in_subrange(after, start + s0, start + s1, t);
                                },
                            }
                        },
                    }
                },
            }
        },
    }
}

/// Reading entries `i..n`, none of which gives a comment or names an EXIF
/// sub-IFD, ends with the sub-IFD offset met before.
proof fn lemma_entries_tail(
    d: Seq<u8>,
    le: bool,
    base: int,
    n: int,
    i: int,
    exif: Option<int>,
)
    requires
        0 <= i <= n,
        base + 12 * n <= d.len(),
        forall|j: int| i <= j < n ==> !#[trigger] gives_comment(d, le, base, j),
        forall|j: int| i <= j < n ==> u16v(d, #[trigger] (base + 12 * j), le) != TAG_EXIF_IFD,
    ensures
        scan_entries(d, le, base, n, i, exif) == EntryScan::Next(exif),
    decreases n - i,
{
    if i < n {
        assert(!gives_comment(d, le, base, i));
        assert(u16v(d, base + 12 * i, le) != TAG_EXIF_IFD);
        lemma_entries_tail(d, le, base, n, i + 1, exif);
    }
}

/// Reading entries `i..n`, none of which gives a comment, where entry `p`
/// is the last to name an EXIF sub-IFD, ends with that sub-IFD's offset.
proof fn lemma_entries_to_subifd(
    d: Seq<u8>,
    le: bool,
    base: int,
    n: int,
    i: int,
    p: int,
    exif: Option<int>,
)
    requires
        0 <= i <= p < n,
        base + 12 * n <= d.len(),
        u16v(d, base + 12 * p, le) == TAG_EXIF_IFD,
        forall|j: int| i <= j < n ==> !#[trigger] gives_comment(d, le, base, j),
        forall|j: int| p < j < n ==> u16v(d, #[trigger] (base + 12 * j), le) != TAG_EXIF_IFD,
    ensures
        scan_entries(d, le, base, n, i, exif) == EntryScan::Next(
            Some(u32v(d, base + 12 * p + 8, le)),
        ),
    decreases p - i,
{
    assert(!gives_comment(d, le, base, i));
    if i < p {
        lemma_entries_to_subifd(d, le, base, n, i + 1, p, exif);
        lemma_entries_to_subifd(d, le, base, n, i + 1, p, Some(u32v(d, base + 12 * i + 8, le)));
    } else {
        lemma_entries_tail(d, le, base, n, p + 1, Some(u32v(d, base + 12 * p + 8, le)));
    }
}

/// The comment is also found in the EXIF sub-IFD: where no entry of IFD0
/// gives a comment, its last EXIF-IFD entry points to a sub-IFD, and entry
/// `k` of that sub-IFD is a `UserComment` with a comment `t` that no earlier
/// entry there precedes, the block's comment is `t`.
pub proof fn law_user_comment_in_exif_subifd(d: Seq<u8>, p: int, k: int, t: Seq<char>)
    requires
        tiff_order(d) matches Some(le) && {
            let off0 = u32v(d, 4, le);
            let base0 = off0 + 2;
            let n0 = u16v(d, off0, le);
            let off1 = u32v(d, base0 + 12 * p + 8, le);
            let base1 = off1 + 2;
            &&& off0 + 2 <= d.len()
            &&& base0 + 12 * n0 <= d.len()
            &&& 0 <= p < n0
            &&& u16v(d, base0 + 12 * p, le) == TAG_EXIF_IFD
            &&& forall|j: int| 0 <= j < n0 ==> !#[trigger] gives_comment(d, le, base0, j)
            &&& forall|j: int| p < j < n0 ==> u16v(d, #[trigger] (base0 + 12 * j), le) != TAG_EXIF_IFD
            &&& off1 + 2 <= d.len()
            &&& 0 <= k < u16v(d, off1, le)
            &&& base1 + 12 * k + 12 <= d.len()
            &&& u16v(d, base1 + 12 * k, le) == TAG_USER_COMMENT
            &&& comment_at(d, le, u32v(d, base1 + 12 * k + 8, le), u32v(d, base1 + 12 * k + 4, le))
                == Some(t)
            &&& forall|j: int| 0 <= j < k ==> !#[trigger] gives_comment(d, le, base1, j)
        },
    ensures
        user_comment_of(d) == Some(t),
{
    let le = tiff_order(d)->0;
    let off0 = u32v(d, 4, le);
    let base0 = off0 + 2;
    let n0 = u16v(d, off0, le);
    let off1 = u32v(d, base0 + 12 * p + 8, le);
    assert(d.len() >= 6 ==> d.take(6) != exif_prefix()) by {
        if d.len() >= 6 && d.take(6) == exif_prefix() {
            assert(d.take(6)[0] == d[0]);
        }
    }
    assert(crate::exif::tiff_data(d) == d);
    lemma_entries_to_subifd(d, le, base0, n0, 0, p, None);
    lemma_entries_reach(d, le, off1 + 2, u16v(d, off1, le), 0, k, None);
    assert(crate::exif::scan_ifd(d, le, off1, 1) == Some(t));
}

/// Whitespace after the last non-blank character does not reach the trim.
proof fn lemma_trim_newline(b: Seq<char>)
    requires
        b.len() == 0 || !is_ws(b[0]),
    ensures
        trim(b.push('\n')) == trim(b),
{
    let bn = b.push('\n');
    if b.len() == 0 {
        assert(is_ws('\n'));
        lemma_trim_start_skip(bn, 1);
        assert(bn.skip(1) =~= Seq::<char>::empty());
        assert(trim_start(b) == b);
    } else {
        lemma_trim_start_skip(bn, 0);
        lemma_trim_start_skip(b, 0);
        assert(bn.skip(0) == bn);
        assert(b.skip(0) == b);
        assert(bn.drop_last() == b);
        assert(is_ws(bn.last()));
    }
}

/// The A1111 positive prompt is the text before the first line that begins
/// with `Steps:`: for a text whose trim is `b`, a newline, `Steps:` and the
/// rest, where no line of `b` begins with `Steps:` and `b` has no
/// `Negative prompt:`, the positive prompt is `b` trimmed, or nothing where
/// that is empty.
pub proof fn law_a1111_positive_is_text_before_steps(text: Seq<char>, b: Seq<char>, r: Seq<char>)
    requires
        trim(text) == b + "\nSteps:"@ + r,
        !starts_with(b, "Steps:"@),
        !contains(b, "\nSteps:"@),
        !contains(b, "Negative prompt:"@),
    ensures
        a1111_details(text).positive == non_empty_text(trim(b)),
{
    reveal_strlit("\nSteps:");
    reveal_strlit("Steps:");
    reveal_strlit("Negative prompt:");
    let t = trim(text);
    let m = seq!['\n'].add("Steps:"@);
    assert(m =~= "\nSteps:"@);
    let np = "Negative prompt:"@;
    let bl = b.len() as int;
    lemma_trim_trimmed(text);
    assert(t[bl] == '\n');
    // `t` does not begin with `Steps:`.
    assert(!starts_with(t, "Steps:"@)) by {
        if starts_with(t, "Steps:"@) {
            if bl >= 6 {
                assert(b.take(6) =~= t.take(6));
            } else {
                assert(t.take(6)[bl] == t[bl]);
            }
        }
    }
    // The first `\nSteps:` of `t` is the one after `b`.
    assert(matches_at(t, m, bl)) by {
        assert(t.subrange(bl, bl + 7) =~= m);
    }
    assert forall|j: int| 0 <= j < bl implies !matches_at(t, m, j) by {
        if matches_at(t, m, j) {
            if j + 7 <= bl {
                assert(b.subrange(j, j + 7) =~= t.subrange(j, j + 7));
                assert(matches_at(b, m, j));
            } else {
                assert(t.subrange(j, j + 7)[bl - j] == t[bl]);
            }
        }
    }
    lemma_find_from_some(t, m, 0, bl);
    assert(find_line_marker_spec(t, "Steps:"@) == Some(bl + 1));
    let body = t.take(bl + 1);
    assert(body =~= b.push('\n'));
    // `body` has no `Negative prompt:`.
    assert forall|j: int| 0 <= j implies !matches_at(body, np, j) by {
        if matches_at(body, np, j) {
            if j + 16 <= bl {
                assert(b.subrange(j, j + 16) =~= body.subrange(j, j + 16));
                assert(matches_at(b, np, j));
            } else {
                assert(body.subrange(j, j + 16)[15] == body[bl]);
            }
        }
    }
    lemma_find_from_none(body, np, 0);
    // The body does not begin with `Steps:` once leading blanks are gone.
    if bl > 0 {
        assert(b[0] == t[0]);
        lemma_trim_start_skip(body, 0);
        assert(body.skip(0) == body);
        assert(!starts_with(body, "Steps:"@)) by {
            if starts_with(body, "Steps:"@) {
                if bl >= 6 {
                    assert(b.take(6) =~= body.take(6));
                } else {
                    assert(body.take(6)[bl] == body[bl]);
                }
            }
        }
    } else {
        assert(is_ws('\n'));
        lemma_trim_start_skip(body, 1);
        assert(body.skip(1).len() == 0);
    }
    lemma_trim_newline(b);
    lemma_trim_trimmed(body);
    assert(split_spec(t).0 == trim(body));
}

/// A description that is found is not empty and has no whitespace at
/// either end.
pub proof fn law_xmp_description_clean(x: Seq<char>)
    ensures
        xmp_description(x) matches Some(t) ==> t.len() > 0 && is_trimmed(t),
{
    match find(x, "<dc:description>"@) {
        None => {},
        Some(dc) => {
            let after = x.skip(dc + "<dc:description>"@.len());
            match find(after, "<rdf:li"@) {
                None => {},
                Some(li) => {
                    let lc = after.skip(li);
                    match find(lc, ">"@) {
                        None => {},
                        Some(c) => {
                            let text = lc.skip(c + 1);
                            match find(text, "</rdf:li>"@) {
                                None => {},
                                Some(end) => lemma_trim_trimmed(text.take(end)),
                            }
                        },
                    }
                },
            }
        },
    }
}

/// The records of a file with one segment (not a marker-only type) are
/// those of that segment.
proof fn lemma_one_segment(t: u8, e: Seq<u8>)
    requires
        e.len() + 2 < 65536,
        t != 0xd8 && t != 0xd9 && t != 0xda,
    ensures
        jpeg_records(jpeg_with_segment(t, e)) == crate::jpeg::segment_records(t, e),
{
    let d = jpeg_with_segment(t, e);
    let n = e.len() as int + 2;
    assert(n == 256 * (n / 256) + n % 256);
    assert(d[0] == 0xff && d[1] == 0xd8 && d[2] == 0xff && d[3] == t);
    assert(d[4] == (n / 256) as u8 && d[5] == (n % 256) as u8);
    assert(be16(d, 4) == n);
    assert(d.subrange(6, 4 + n) =~= e);
    assert(d[4 + n] == 0xff && d[5 + n] == 0xd9);
    let rest = crate::jpeg::jpeg_records_from(d, 4 + n);
    assert(rest =~= Seq::<RecordSpec>::empty());
    assert(crate::jpeg::jpeg_records_from(d, 2) =~= crate::jpeg::segment_records(t, e) + rest);
}

/// A COM segment gives its text, trimmed, as an A1111 record with the
/// details read from that text; a blank comment gives none.
pub proof fn law_jpeg_comment_segment(c: Seq<u8>)
    requires
        c.len() + 2 < 65536,
    ensures
        jpeg_records(jpeg_with_segment(0xfe, c)) == (if trim(
            crate::unicode::utf8_lossy_text(c),
        ).len() > 0 {
            seq![
                record_spec(
                    trim(crate::unicode::utf8_lossy_text(c)),
                    Generator::A1111,
                    "COM"@,
                    a1111_details(trim(crate::unicode::utf8_lossy_text(c))),
                ),
            ]
        } else {
            Seq::empty()
        }),
{
    lemma_one_segment(0xfe, c);
}

/// An XMP packet in an APP1 segment gives its description as a record,
/// with the generator that the packet names, under the key `XMP`.
pub proof fn law_jpeg_xmp_description(x: Seq<u8>, p: Seq<char>)
    requires
        xmp_header().len() + x.len() + 2 < 65536,
        xmp_description(crate::unicode::utf8_lossy_text(x)) == Some(p),
    ensures
        jpeg_records(jpeg_with_app1(xmp_header() + x)) == seq![
            record_spec(
                p,
                crate::jpeg::xmp_generator(crate::unicode::utf8_lossy_text(x)),
                "XMP"@,
                empty_details(),
            ),
        ],
{
    let e = xmp_header() + x;
    lemma_one_segment(0xe1, e);
    assert(e.take(xmp_header().len() as int) =~= xmp_header());
    assert(e.skip(xmp_header().len() as int) =~= x);
}

} // verus!
