//! Which files a search reads, and how deep it walks.
use vstd::prelude::*;
use crate::text::chars_of;
use std::path::PathBuf;
use crate::types::Config;
use crate::unicode::{lowercase_text, to_lowercase};

verus! {

/// The position of the last `.` in `s`.
pub open spec fn last_dot(s: Seq<char>) -> Option<int>
    decreases s.len(),
{
    if s.len() == 0 {
        None
    } else if s.last() == '.' {
        Some(s.len() - 1)
    } else {
        last_dot(s.drop_last())
    }
}

/// The extension of a file name, as `Path::extension` finds it: what
/// follows the last `.`, where that dot is not the name's first character
/// and the name is not `..`.
pub open spec fn extension_of(name: Seq<char>) -> Option<Seq<char>> {
    if name == ".."@ {
        None
    } else {
        match last_dot(name) {
            Some(i) => if i == 0 {
                None
            } else {
                Some(name.skip(i + 1))
            },
            None => None,
        }
    }
}

/// An extension, lowercased, that names an image format the search reads.
pub open spec fn is_image_extension(lower: Seq<char>) -> bool {
    lower == "png"@ || lower == "jpg"@ || lower == "jpeg"@ || lower == "webp"@
}

/// A file name whose extension, ignoring case, is png, jpg, jpeg or webp.
pub open spec fn is_image_name(name: Seq<char>) -> bool {
    match extension_of(name) {
        Some(e) => is_image_extension(lowercase_text(e)),
        None => false,
    }
}

/// The extension of the file name `name`, as `Path::extension` finds it.
pub fn file_extension(name: &str) -> (r: Option<String>)
    ensures
        crate::text::opt_view(r) == extension_of(name@),
{
    let cs = chars_of(name);
    let n = cs.len();
    if crate::json::str_eq(name, "..") {
        return None;
    }
    let mut i = n;
    assert(name@.take(n as int) == name@);
    while i > 0 && cs[i - 1] != '.'
        invariant
            i <= n,
            n == cs@.len(),
            cs@ == name@,
            last_dot(name@) == last_dot(name@.take(i as int)),
        decreases i,
    {
        assert(name@.take(i as int).drop_last() == name@.take(i - 1));
        i = i - 1;
    }
    if i == 0 {
        assert(name@.take(0) == Seq::<char>::empty());
        return None;
    }
    assert(name@.take(i as int).last() == '.');
    assert(last_dot(name@) == Some(i - 1));
    if i == 1 {
        return None;
    }
    let ext = crate::text::string_of(&cs, i, n);
    assert(ext@ == name@.skip(i as int));
    Some(ext)
}

/// Whether the file name `name` has an image extension (png, jpg, jpeg or
/// webp, in any case).
pub fn is_image(name: &str) -> (b: bool)
    ensures
        b == is_image_name(name@),
{
    match file_extension(name) {
        Some(ext) => crate::extract::format_of_extension_exec(
            to_lowercase(ext.as_str()).as_str(),
        ).is_some(),
        None => false,
    }
}

/// The depth limit of the directory walk: one level where the search is
/// not recursive, else the configured depth, if any.
pub open spec fn walk_depth(no_recursive: bool, depth: Option<usize>) -> Option<usize> {
    if no_recursive {
        Some(1)
    } else {
        depth
    }
}

/// The depth limit of the directory walk for `config`.
pub fn max_walk_depth(config: &Config) -> (r: Option<usize>)
    ensures
        r == walk_depth(config.no_recursive, config.depth),
{
    if config.no_recursive {
        Some(1)
    } else {
        config.depth
    }
}

/// The value of a decimal digit.
pub open spec fn digit_value(c: char) -> int {
    c as u32 as int - 48
}

/// A decimal digit.
pub open spec fn is_digit(c: char) -> bool {
    48 <= c as u32 <= 57
}

/// The number that the digits `s` write.
pub open spec fn decimal_value(s: Seq<char>) -> int
    decreases s.len(),
{
    if s.len() == 0 {
        0
    } else {
        10 * decimal_value(s.drop_last()) + digit_value(s.last())
    }
}

/// The text after an optional leading `+`.
pub open spec fn unsigned_digits(s: Seq<char>) -> Seq<char> {
    if s.len() > 0 && s[0] == '+' {
        s.drop_first()
    } else {
        s
    }
}

/// Every character is a decimal digit.
pub open spec fn all_digits(d: Seq<char>) -> bool {
    forall|i: int| 0 <= i < d.len() ==> is_digit(#[trigger] d[i])
}

/// What `str::parse::<usize>` gives: an optional `+` and then one or more
/// decimal digits whose value fits in `usize`.
pub open spec fn parsed_usize(s: Seq<char>) -> Option<usize> {
    let digits = unsigned_digits(s);
    if digits.len() > 0 && all_digits(digits) && decimal_value(digits) <= usize::MAX {
        Some(decimal_value(digits) as usize)
    } else {
        None
    }
}

/// The depth typed in a text field: the trimmed text as a number, or no
/// limit where it is not one.
pub fn parse_depth(text: &str) -> (r: Option<usize>)
    ensures
        r == parsed_usize(crate::text::trim(text@)),
{
    let cs = chars_of(text);
    assert(cs@.subrange(0, cs@.len() as int) == cs@);
    let (a, b) = crate::text::trim_range(&cs, 0, cs.len());
    let ghost s = cs@.subrange(a as int, b as int);
    assert(s == crate::text::trim(text@));
    let start = if a < b && cs[a] == '+' {
        a + 1
    } else {
        a
    };
    let ghost digits = cs@.subrange(start as int, b as int);
    assert(digits == unsigned_digits(s));
    if start == b {
        return None;
    }
    let mut value: usize = 0;
    let mut k = start;
    while k < b
        invariant
            start <= k <= b <= cs@.len(),
            digits == cs@.subrange(start as int, b as int),
            digits == unsigned_digits(s),
            s == crate::text::trim(text@),
            forall|j: int| 0 <= j < k - start ==> is_digit(digits[j]),
            value as int == decimal_value(digits.take(k - start)),
        decreases b - k,
    {
        let c = cs[k] as u32;
        if !(48 <= c && c <= 57) {
            assert(!is_digit(digits[k - start]));
            assert(!all_digits(digits));
            assert(parsed_usize(s) is None);
            return None;
        }
        assert(digits.take(k + 1 - start).drop_last() == digits.take(k - start));
        let dv = (c - 48) as usize;
        if value > (usize::MAX - dv) / 10 {
            assert(10 * value + dv > usize::MAX) by (nonlinear_arith)
                requires
                    value > (usize::MAX - dv) / 10,
                    dv <= 9,
            ;
            proof {
                if all_digits(digits) {
                    lemma_decimal_prefix_bound(digits, k + 1 - start);
                }
            }
            assert(parsed_usize(s) is None);
            return None;
        }
        value = value * 10 + dv;
        k = k + 1;
    }
    assert(digits.take(b - start) == digits);
    Some(value)
}

proof fn lemma_decimal_nonneg(s: Seq<char>)
    requires
        forall|j: int| 0 <= j < s.len() ==> is_digit(s[j]),
    ensures
        decimal_value(s) >= 0,
    decreases s.len(),
{
    if s.len() > 0 {
        lemma_decimal_nonneg(s.drop_last());
        assert(is_digit(s[s.len() - 1]));
    }
}

proof fn lemma_decimal_prefix_bound(digits: Seq<char>, n: int)
    requires
        0 <= n <= digits.len(),
        forall|j: int| 0 <= j < digits.len() ==> is_digit(digits[j]),
    ensures
        decimal_value(digits.take(n)) <= decimal_value(digits),
    decreases digits.len() - n,
{
    if n == digits.len() {
        assert(digits.take(n) == digits);
    } else {
        lemma_decimal_prefix_bound(digits, n + 1);
        assert(digits.take(n + 1).drop_last() == digits.take(n));
        lemma_decimal_nonneg(digits.take(n));
        assert(is_digit(digits[n]));
        assert(digits.take(n + 1).last() == digits[n]);
    }
}

/// One entry of a directory walk as the walk reports it: the path, its
/// final component as text, its depth below the root (the root at depth
/// 0), and whether it is a regular file (links are not followed).
pub struct WalkEntry {
    pub path: PathBuf,
    pub name: String,
    pub depth: usize,
    pub is_file: bool,
}

/// The search reads the entry: a regular file with an image extension, no
/// deeper than the walk's depth limit.
pub open spec fn selected_entry(e: WalkEntry, config: Config) -> bool {
    &&& e.is_file
    &&& is_image_name(e.name@)
    &&& match walk_depth(config.no_recursive, config.depth) {
        Some(d) => e.depth <= d,
        None => true,
    }
}

/// The paths of the selected entries, in walk order.
pub open spec fn selected_paths(es: Seq<WalkEntry>, config: Config) -> Seq<PathBuf>
    decreases es.len(),
{
    if es.len() == 0 {
        Seq::empty()
    } else if selected_entry(es.last(), config) {
        selected_paths(es.drop_last(), config).push(es.last().path)
    } else {
        selected_paths(es.drop_last(), config)
    }
}

/// The files a search reads among the entries of a directory walk.
pub fn select_files(entries: &Vec<WalkEntry>, config: &Config) -> (r: Vec<PathBuf>)
    ensures
        r@ == selected_paths(entries@, *config),
{
    let limit = max_walk_depth(config);
    let mut r: Vec<PathBuf> = Vec::new();
    let mut i: usize = 0;
    while i < entries.len()
        invariant
            i <= entries@.len(),
            limit == walk_depth(config.no_recursive, config.depth),
            r@ == selected_paths(entries@.take(i as int), *config),
        decreases entries@.len() - i,
    {
        let e = &entries[i];
        let deep_enough = match limit {
            Some(d) => e.depth <= d,
            None => true,
        };
        assert(entries@.take(i + 1).drop_last() == entries@.take(i as int));
        assert(entries@.take(i + 1).last() == entries@[i as int]);
        if e.is_file && deep_enough && is_image(e.name.as_str()) {
            r.push(e.path.clone());
        }
        i = i + 1;
    }
    assert(entries@.take(entries@.len() as int) == entries@);
    r
}

/// No two entries share a path.
pub open spec fn distinct_paths(es: Seq<WalkEntry>) -> bool {
    forall|i: int, j: int| 0 <= i < j < es.len() ==> es[i].path != es[j].path
}

/// Some selected entry has the path `p`.
pub open spec fn selects(es: Seq<WalkEntry>, config: Config, p: PathBuf) -> bool {
    exists|i: int| 0 <= i < es.len() && #[trigger] es[i].path == p && selected_entry(es[i], config)
}

proof fn lemma_selected_paths(es: Seq<WalkEntry>, config: Config)
    ensures
        forall|p: PathBuf| #[trigger] selected_paths(es, config).contains(p) <==> selects(es, config, p),
        distinct_paths(es) ==> forall|a: int, b: int|
            0 <= a < b < selected_paths(es, config).len() ==> selected_paths(es, config)[a]
                != selected_paths(es, config)[b],
    decreases es.len(),
{
    if es.len() > 0 {
        let init = es.drop_last();
        let rest = selected_paths(init, config);
        lemma_selected_paths(init, config);
        let out = selected_paths(es, config);
        assert forall|p: PathBuf| #[trigger] out.contains(p) <==> selects(es, config, p) by {
            if out.contains(p) {
                let k = choose|k: int| 0 <= k < out.len() && out[k] == p;
                if k < rest.len() {
                    assert(rest[k] == p);
                    assert(rest.contains(p));
                    let i = choose|i: int|
                        0 <= i < init.len() && #[trigger] init[i].path == p && selected_entry(
                            init[i],
                            config,
                        );
                    assert(es[i] == init[i]);
                } else {
                    assert(es[es.len() - 1].path == p);
                }
            }
            if selects(es, config, p) {
                let i = choose|i: int|
                    0 <= i < es.len() && #[trigger] es[i].path == p && selected_entry(es[i], config);
                if i < es.len() - 1 {
                    assert(init[i] == es[i]);
                    assert(selects(init, config, p));
                    assert(rest.contains(p));
                    let k = choose|k: int| 0 <= k < rest.len() && rest[k] == p;
                    assert(out[k] == p);
                } else {
                    assert(out[out.len() - 1] == p);
                }
            }
        }
        if distinct_paths(es) {
            assert(distinct_paths(init)) by {
                assert forall|i: int, j: int| 0 <= i < j < init.len() implies init[i].path
                    != init[j].path by {
                    assert(init[i] == es[i] && init[j] == es[j]);
                }
            }
            if selected_entry(es.last(), config) {
                assert forall|a: int, b: int| 0 <= a < b < out.len() implies out[a] != out[b] by {
                    if b == out.len() - 1 {
                        assert(out[a] == rest[a]);
                        assert(rest.contains(rest[a]));
                        let i = choose|i: int|
                            0 <= i < init.len() && #[trigger] init[i].path == rest[a]
                                && selected_entry(init[i], config);
                        assert(es[i] == init[i]);
                    } else {
                        assert(out[a] == rest[a] && out[b] == rest[b]);
                    }
                }
            }
        }
    }
}

/// The files a search reads are exactly the regular files with an image
/// extension within the depth limit, each once where the walk lists each
/// path once.
pub proof fn law_selected_files(es: Seq<WalkEntry>, config: Config)
    ensures
        forall|p: PathBuf| #[trigger] selected_paths(es, config).contains(p) <==> selects(es, config, p),
        distinct_paths(es) ==> forall|a: int, b: int|
            0 <= a < b < selected_paths(es, config).len() ==> selected_paths(es, config)[a]
                != selected_paths(es, config)[b],
{
    lemma_selected_paths(es, config);
}

} // verus!
