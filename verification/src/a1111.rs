//! Structured fields of A1111/Forge-style generation text: positive and
//! negative prompt, model and `<lora:name:weight>` tags.
use vstd::prelude::*;
use crate::text::{
    chars_of, find, find_in, lemma_find_from_spec, matches_at_exec, non_empty_text, opt_view,
    starts_with, string_of, trim, trim_range, trim_start, trimmed_non_empty, is_ws, is_whitespace,
    lemma_trim_start_skip,
};
use crate::types::{
    DetailsSpec, LoraInfo, LoraSpec, PromptDetails, empty_details, has_lora_named, lora_views,
};

verus! {

/// The line-start position of `m` in `t`: at the very start, or just after
/// a newline.
pub open spec fn find_line_marker_spec(t: Seq<char>, m: Seq<char>) -> Option<int> {
    if starts_with(t, m) {
        Some(0)
    } else {
        match find(t, seq!['\n'].add(m)) {
            Some(i) => Some(i + 1),
            None => None,
        }
    }
}

/// Positive prompt, negative prompt and settings line of a trimmed text.
/// The settings start at the first line that begins with `Steps:`; the
/// negative prompt follows `Negative prompt:`.
pub open spec fn split_spec(t: Seq<char>) -> (Seq<char>, Seq<char>, Option<Seq<char>>) {
    let body = match find_line_marker_spec(t, "Steps:"@) {
        Some(i) => t.take(i),
        None => t,
    };
    let settings = match find_line_marker_spec(t, "Steps:"@) {
        Some(i) => Some(trim(t.skip(i))),
        None => None,
    };
    match find(body, "Negative prompt:"@) {
        Some(i) => (trim(body.take(i)), trim(body.skip(i + "Negative prompt:"@.len())), settings),
        None => (
            if starts_with(trim_start(body), "Steps:"@) {
                Seq::empty()
            } else {
                trim(body)
            },
            Seq::empty(),
            settings,
        ),
    }
}

/// A character that ends a setting's value.
pub open spec fn is_setting_end(c: char) -> bool {
    c == ',' || c == '\n' || c == '\r'
}

/// The length of the value that starts `s`: up to the first `,`, newline or
/// carriage return.
pub open spec fn setting_len(s: Seq<char>) -> int
    decreases s.len(),
{
    if s.len() == 0 || is_setting_end(s[0]) {
        0
    } else {
        1 + setting_len(s.drop_first())
    }
}

/// The value of the setting `key` (written `key: value`) in `t`, trimmed;
/// nothing where it is absent or empty.
pub open spec fn parse_setting_spec(t: Seq<char>, key: Seq<char>) -> Option<Seq<char>> {
    let marker = key.push(':');
    match find(t, marker) {
        None => None,
        Some(i) => {
            let rest = trim_start(t.skip(i + marker.len()));
            non_empty_text(trim(rest.take(setting_len(rest))))
        },
    }
}

/// The position of the last `:` in `t`.
pub open spec fn last_colon(t: Seq<char>) -> Option<int>
    decreases t.len(),
{
    if t.len() == 0 {
        None
    } else if t.last() == ':' {
        Some(t.len() - 1)
    } else {
        last_colon(t.drop_last())
    }
}

/// Name and weight of the text inside a `<lora:...>` tag: the weight is what
/// follows the last `:`, the name what precedes it, both trimmed.
pub open spec fn lora_parts(tag: Seq<char>) -> (Seq<char>, Seq<char>) {
    match last_colon(tag) {
        Some(p) => (trim(tag.take(p)), trim(tag.skip(p + 1))),
        None => (Seq::empty(), trim(tag)),
    }
}

/// The LoRA list `acc` extended by the tags of `rest`: a tag is kept when
/// its name and weight are non-empty and its name is new.
pub open spec fn loras_from(rest: Seq<char>, acc: Seq<LoraSpec>) -> Seq<LoraSpec>
    decreases rest.len(),
{
    match find(rest, "<lora:"@) {
        None => acc,
        Some(s) => {
            proof {
                lemma_find_from_spec(rest, "<lora:"@, 0);
            }
            let after = rest.skip(s + "<lora:"@.len());
            match find(after, seq!['>']) {
                None => acc,
                Some(e) => {
                    proof {
                        lemma_find_from_spec(after, seq!['>'], 0);
                    }
                    let parts = lora_parts(after.take(e));
                    let acc2 = if parts.0.len() > 0 && parts.1.len() > 0 && !has_lora_named(
                        acc,
                        parts.0,
                    ) {
                        acc.push(LoraSpec { name: parts.0, weight: parts.1 })
                    } else {
                        acc
                    };
                    loras_from(after.skip(e + 1), acc2)
                },
            }
        },
    }
}

/// The LoRA tags of a text, first occurrence of each name kept.
pub open spec fn parse_loras_spec(t: Seq<char>) -> Seq<LoraSpec> {
    loras_from(t, Seq::empty())
}

/// The structured fields of A1111-style generation text.
pub open spec fn a1111_details(text: Seq<char>) -> DetailsSpec {
    let t = trim(text);
    if t.len() == 0 {
        empty_details()
    } else {
        let parts = split_spec(t);
        DetailsSpec {
            model: parse_setting_spec(
                match parts.2 {
                    Some(s) => s,
                    None => t,
                },
                "Model"@,
            ),
            loras: parse_loras_spec(t),
            positive: non_empty_text(trim(parts.0)),
            negative: non_empty_text(trim(parts.1)),
        }
    }
}

/// Positive and negative prompt, model and LoRA tags of A1111-style text;
/// each field is empty where the text does not give it.
pub fn extract_details(text: &str) -> (d: PromptDetails)
    ensures
        d@ == a1111_details(text@),
{
    let cs = chars_of(text);
    let n = cs.len();
    assert(cs@.subrange(0, n as int) == cs@);
    let (a, b) = trim_range(&cs, 0, n);
    if a == b {
        return PromptDetails::default();
    }
    let ghost t = cs@.subrange(a as int, b as int);
    let (pos, neg, settings) = split_prompts_and_settings(&cs, a, b);
    let (sa, sb) = match settings {
        Some(r) => r,
        None => (a, b),
    };
    let model = parse_setting(&cs, sa, sb, "Model");
    let loras = parse_loras(&cs, a, b);
    let positive_prompt = non_empty(&cs, pos.0, pos.1);
    let negative_prompt = non_empty(&cs, neg.0, neg.1);
    PromptDetails { model, loras, positive_prompt, negative_prompt }
}

/// The ranges of positive prompt, negative prompt and settings within
/// `cs[lo..hi]`.
fn split_prompts_and_settings(cs: &[char], lo: usize, hi: usize) -> (r: (
    (usize, usize),
    (usize, usize),
    Option<(usize, usize)>,
))
    requires
        lo <= hi <= cs@.len(),
    ensures
        r.0.0 <= r.0.1 <= cs@.len(),
        r.1.0 <= r.1.1 <= cs@.len(),
        cs@.subrange(r.0.0 as int, r.0.1 as int) == split_spec(cs@.subrange(lo as int, hi as int)).0,
        cs@.subrange(r.1.0 as int, r.1.1 as int) == split_spec(cs@.subrange(lo as int, hi as int)).1,
        match r.2 {
            Some(s) => s.0 <= s.1 <= cs@.len() && split_spec(cs@.subrange(lo as int, hi as int)).2
                == Some(cs@.subrange(s.0 as int, s.1 as int)),
            None => split_spec(cs@.subrange(lo as int, hi as int)).2 is None,
        },
{
    let ghost t = cs@.subrange(lo as int, hi as int);
    let steps = chars_of("Steps:");
    let negative = chars_of("Negative prompt:");
    let marker = find_line_marker(cs, lo, hi, &steps);
    let (body_end, settings) = match marker {
        Some(idx) => {
            assert(t.skip(idx - lo) == cs@.subrange(idx as int, hi as int));
            let (sa, sb) = trim_range(cs, idx, hi);
            (idx, Some((sa, sb)))
        },
        None => (hi, None),
    };
    let ghost body = cs@.subrange(lo as int, body_end as int);
    assert(body == match find_line_marker_spec(t, "Steps:"@) {
        Some(i) => t.take(i),
        None => t,
    });
    match find_in(cs, lo, body_end, &negative) {
        Some(idx) => {
            let (pa, pb) = trim_range(cs, lo, idx);
            assert(body.take(idx - lo) == cs@.subrange(lo as int, idx as int));
            proof {
                lemma_find_from_spec(body, negative@, 0);
            }
            let nstart = idx + negative.len();
            assert(body.skip(idx - lo + negative@.len()) == cs@.subrange(
                nstart as int,
                body_end as int,
            ));
            let (na, nb) = trim_range(cs, nstart, body_end);
            ((pa, pb), (na, nb), settings)
        },
        None => {
            let (ta, tb) = trim_range(cs, lo, body_end);
            let (wa, wb) = trim_start_range(cs, lo, body_end);
            let positive = if matches_at_exec(cs, wa, wb, &steps, wa) {
                assert(starts_with(trim_start(body), "Steps:"@)) by {
                    assert(cs@.subrange(wa as int, wb as int).subrange(0, steps@.len() as int)
                        == trim_start(body).take(steps@.len() as int));
                }
                (lo, lo)
            } else {
                assert(!starts_with(trim_start(body), "Steps:"@)) by {
                    if starts_with(trim_start(body), "Steps:"@) {
                        assert(cs@.subrange(wa as int, wb as int).subrange(0, steps@.len() as int)
                            == trim_start(body).take(steps@.len() as int));
                    }
                }
                (ta, tb)
            };
            assert(cs@.subrange(lo as int, lo as int) == Seq::<char>::empty());
            (positive, (lo, lo), settings)
        },
    }
}

/// The bounds of `cs[lo..hi]` with leading whitespace removed.
fn trim_start_range(cs: &[char], lo: usize, hi: usize) -> (r: (usize, usize))
    requires
        lo <= hi <= cs@.len(),
    ensures
        lo <= r.0 <= r.1 == hi,
        cs@.subrange(r.0 as int, r.1 as int) == trim_start(cs@.subrange(lo as int, hi as int)),
{
    let ghost sub = cs@.subrange(lo as int, hi as int);
    let mut a = lo;
    while a < hi && is_whitespace(cs[a])
        invariant
            lo <= a <= hi <= cs@.len(),
            sub == cs@.subrange(lo as int, hi as int),
            forall|j: int| 0 <= j < a - lo ==> is_ws(sub[j]),
        decreases hi - a,
    {
        a = a + 1;
    }
    proof {
        lemma_trim_start_skip(sub, a - lo);
        assert(sub.skip(a - lo) == cs@.subrange(a as int, hi as int));
    }
    (a, hi)
}

/// Where a line of `cs[lo..hi]` begins with `marker`, as an index into `cs`.
fn find_line_marker(cs: &[char], lo: usize, hi: usize, marker: &[char]) -> (r: Option<usize>)
    requires
        lo <= hi <= cs@.len(),
    ensures
        match r {
            Some(k) => lo <= k <= hi && find_line_marker_spec(
                cs@.subrange(lo as int, hi as int),
                marker@,
            ) == Some(k - lo),
            None => find_line_marker_spec(cs@.subrange(lo as int, hi as int), marker@) is None,
        },
{
    let ghost t = cs@.subrange(lo as int, hi as int);
    if matches_at_exec(cs, lo, hi, marker, lo) {
        assert(t.take(marker@.len() as int) == t.subrange(0, marker@.len() as int));
        return Some(lo);
    }
    assert(!starts_with(t, marker@)) by {
        if starts_with(t, marker@) {
            assert(t.take(marker@.len() as int) == t.subrange(0, marker@.len() as int));
        }
    }
    let mut pat: Vec<char> = Vec::new();
    pat.push('\n');
    let mut k: usize = 0;
    while k < marker.len()
        invariant
            k <= marker@.len(),
            pat@ == seq!['\n'].add(marker@.take(k as int)),
        decreases marker@.len() - k,
    {
        pat.push(marker[k]);
        assert(marker@.take(k + 1) == marker@.take(k as int).push(marker@[k as int]));
        assert(pat@ =~= seq!['\n'].add(marker@.take(k + 1)));
        k = k + 1;
    }
    assert(marker@.take(marker@.len() as int) == marker@);
    match find_in(cs, lo, hi, &pat) {
        Some(idx) => {
            proof {
                lemma_find_from_spec(t, pat@, 0);
            }
            Some(idx + 1)
        },
        None => None,
    }
}

/// The value of the setting `key` in `cs[lo..hi]`.
fn parse_setting(cs: &[char], lo: usize, hi: usize, key: &str) -> (r: Option<String>)
    requires
        lo <= hi <= cs@.len(),
    ensures
        opt_view(r) == parse_setting_spec(cs@.subrange(lo as int, hi as int), key@),
{
    let ghost t = cs@.subrange(lo as int, hi as int);
    let mut marker = chars_of(key);
    marker.push(':');
    let start = match find_in(cs, lo, hi, &marker) {
        Some(i) => i,
        None => return None,
    };
    proof {
        lemma_find_from_spec(t, marker@, 0);
    }
    let from = start + marker.len();
    assert(t.skip(from - lo) == cs@.subrange(from as int, hi as int));
    let (ra, rb) = trim_start_range(cs, from, hi);
    let ghost rest = cs@.subrange(ra as int, rb as int);
    let mut end = ra;
    assert(rest.skip(0) == rest);
    while end < rb && cs[end] != ',' && cs[end] != '\n' && cs[end] != '\r'
        invariant
            from <= ra <= end <= rb <= cs@.len(),
            rest == cs@.subrange(ra as int, rb as int),
            setting_len(rest) == (end - ra) + setting_len(rest.skip(end - ra)),
        decreases rb - end,
    {
        assert(rest.skip(end - ra).drop_first() == rest.skip(end + 1 - ra));
        end = end + 1;
    }
    assert(setting_len(rest.skip(end - ra)) == 0);
    assert(rest.take(end - ra) == cs@.subrange(ra as int, end as int));
    trimmed_non_empty(cs, ra, end)
}

/// Name and weight of the text `cs[lo..hi]` inside a LoRA tag.
fn lora_parts_exec(cs: &[char], lo: usize, hi: usize) -> (r: ((usize, usize), (usize, usize)))
    requires
        lo <= hi <= cs@.len(),
    ensures
        r.0.0 <= r.0.1 <= cs@.len(),
        r.1.0 <= r.1.1 <= cs@.len(),
        cs@.subrange(r.0.0 as int, r.0.1 as int) == lora_parts(cs@.subrange(lo as int, hi as int)).0,
        cs@.subrange(r.1.0 as int, r.1.1 as int) == lora_parts(cs@.subrange(lo as int, hi as int)).1,
{
    let ghost tag = cs@.subrange(lo as int, hi as int);
    let mut p = hi;
    assert(tag.take(hi - lo) == tag);
    while p > lo && cs[p - 1] != ':'
        invariant
            lo <= p <= hi <= cs@.len(),
            tag == cs@.subrange(lo as int, hi as int),
            last_colon(tag) == last_colon(tag.take(p - lo)),
        decreases p - lo,
    {
        assert(tag.take(p - lo).drop_last() == tag.take(p - 1 - lo));
        p = p - 1;
    }
    if p == lo {
        assert(tag.take(0) == Seq::<char>::empty());
        let (wa, wb) = trim_range(cs, lo, hi);
        assert(cs@.subrange(lo as int, lo as int) == trim(Seq::<char>::empty())) by {
            assert(cs@.subrange(lo as int, lo as int) =~= Seq::<char>::empty());
        }
        ((lo, lo), (wa, wb))
    } else {
        assert(last_colon(tag.take(p - lo)) == Some(p - 1 - lo));
        assert(tag.take(p - 1 - lo) == cs@.subrange(lo as int, p - 1));
        assert(tag.skip(p - lo) == cs@.subrange(p as int, hi as int));
        let (na, nb) = trim_range(cs, lo, p - 1);
        let (wa, wb) = trim_range(cs, p, hi);
        ((na, nb), (wa, wb))
    }
}

/// Whether some entry of `loras` is named `name`.
fn has_name(loras: &Vec<LoraInfo>, name: &String) -> (b: bool)
    ensures
        b == has_lora_named(lora_views(loras@), name@),
{
    let mut i: usize = 0;
    while i < loras.len()
        invariant
            i <= loras@.len(),
            forall|j: int| 0 <= j < i ==> lora_views(loras@)[j].name != name@,
        decreases loras@.len() - i,
    {
        if loras[i].name == *name {
            assert(lora_views(loras@)[i as int].name == name@);
            return true;
        }
        i = i + 1;
    }
    false
}

/// The LoRA tags of `cs[lo..hi]`, first occurrence of each name kept.
fn parse_loras(cs: &[char], lo: usize, hi: usize) -> (r: Vec<LoraInfo>)
    requires
        lo <= hi <= cs@.len(),
    ensures
        lora_views(r@) == parse_loras_spec(cs@.subrange(lo as int, hi as int)),
{
    let open = chars_of("<lora:");
    let mut close: Vec<char> = Vec::new();
    close.push('>');
    assert(close@ == seq!['>']);
    let mut loras: Vec<LoraInfo> = Vec::new();
    let mut pos = lo;
    assert(lora_views(loras@) == Seq::<LoraSpec>::empty());
    loop
        invariant
            lo <= pos <= hi <= cs@.len(),
            open@ == "<lora:"@,
            close@ == seq!['>'],
            parse_loras_spec(cs@.subrange(lo as int, hi as int)) == loras_from(
                cs@.subrange(pos as int, hi as int),
                lora_views(loras@),
            ),
        decreases hi - pos,
    {
        let ghost rest = cs@.subrange(pos as int, hi as int);
        let start = match find_in(cs, pos, hi, &open) {
            Some(s) => s,
            None => {
                return loras;
            },
        };
        proof {
            lemma_find_from_spec(rest, open@, 0);
        }
        let after = start + open.len();
        assert(rest.skip(after - pos) == cs@.subrange(after as int, hi as int));
        let ghost after_s = cs@.subrange(after as int, hi as int);
        let end = match find_in(cs, after, hi, &close) {
            Some(e) => e,
            None => {
                return loras;
            },
        };
        proof {
            lemma_find_from_spec(after_s, close@, 0);
        }
        assert(after_s.take(end - after) == cs@.subrange(after as int, end as int));
        let (np, wp) = lora_parts_exec(cs, after, end);
        let ghost acc = lora_views(loras@);
        if np.0 < np.1 && wp.0 < wp.1 {
            let name = string_of(cs, np.0, np.1);
            if !has_name(&loras, &name) {
                let weight = string_of(cs, wp.0, wp.1);
                let item = LoraInfo { name, weight };
                let ghost prev = loras@;
                loras.push(item);
                assert(lora_views(loras@) =~= acc.push(item@)) by {
                    assert forall|k: int| 0 <= k < loras@.len() implies #[trigger] lora_views(
                        loras@,
                    )[k] == acc.push(item@)[k] by {
                        if k < prev.len() {
                            assert(loras@[k] == prev[k]);
                        }
                    }
                }
            }
        }
        assert(after_s.skip(end - after + 1) == cs@.subrange(end + 1, hi as int));
        pos = end + 1;
    }
}

/// `cs[lo..hi]` trimmed, or nothing when that is empty.
fn non_empty(cs: &[char], lo: usize, hi: usize) -> (r: Option<String>)
    requires
        lo <= hi <= cs@.len(),
    ensures
        opt_view(r) == non_empty_text(trim(cs@.subrange(lo as int, hi as int))),
{
    trimmed_non_empty(cs, lo, hi)
}

} // verus!
