//! Character-sequence utilities: whitespace, trimming and substring search,
//! specified over `Seq<char>` and implemented on `&[char]`.
use vstd::prelude::*;

verus! {

/// Unicode `White_Space`, the set that `char::is_whitespace` tests.
pub open spec fn is_ws(c: char) -> bool {
    let u = c as u32;
    ||| u == 0x20
    ||| 0x09 <= u <= 0x0d
    ||| u == 0x85
    ||| u == 0xa0
    ||| u == 0x1680
    ||| 0x2000 <= u <= 0x200a
    ||| u == 0x2028
    ||| u == 0x2029
    ||| u == 0x202f
    ||| u == 0x205f
    ||| u == 0x3000
}

/// `s` without its leading whitespace.
pub open spec fn trim_start(s: Seq<char>) -> Seq<char>
    decreases s.len(),
{
    if s.len() > 0 && is_ws(s[0]) {
        trim_start(s.drop_first())
    } else {
        s
    }
}

/// `s` without its trailing whitespace.
pub open spec fn trim_end(s: Seq<char>) -> Seq<char>
    decreases s.len(),
{
    if s.len() > 0 && is_ws(s.last()) {
        trim_end(s.drop_last())
    } else {
        s
    }
}

/// `s` without leading and trailing whitespace (what `str::trim` gives).
pub open spec fn trim(s: Seq<char>) -> Seq<char> {
    trim_end(trim_start(s))
}

/// Characters of class `p` removed from the start of `s`.
pub open spec fn strip_start(s: Seq<char>, p: spec_fn(char) -> bool) -> Seq<char>
    decreases s.len(),
{
    if s.len() > 0 && p(s[0]) {
        strip_start(s.drop_first(), p)
    } else {
        s
    }
}

/// Characters of class `p` removed from the end of `s`.
pub open spec fn strip_end(s: Seq<char>, p: spec_fn(char) -> bool) -> Seq<char>
    decreases s.len(),
{
    if s.len() > 0 && p(s.last()) {
        strip_end(s.drop_last(), p)
    } else {
        s
    }
}

/// The class of NUL characters.
pub open spec fn nul_class() -> spec_fn(char) -> bool {
    |c: char| c == '\0'
}

/// `s` without leading and trailing NULs (what `trim_matches('\0')` gives).
pub open spec fn strip_nul(s: Seq<char>) -> Seq<char> {
    strip_end(strip_start(s, nul_class()), nul_class())
}

pub proof fn lemma_strip_start_skip(s: Seq<char>, p: spec_fn(char) -> bool, i: int)
    requires
        0 <= i <= s.len(),
        forall|j: int| 0 <= j < i ==> p(s[j]),
        i == s.len() || !p(s[i]),
    ensures
        strip_start(s, p) == s.skip(i),
    decreases i,
{
    if i > 0 {
        assert(s.drop_first().skip(i - 1) == s.skip(i));
        lemma_strip_start_skip(s.drop_first(), p, i - 1);
    } else {
        assert(s.skip(0) == s);
    }
}

pub proof fn lemma_strip_end_take(s: Seq<char>, p: spec_fn(char) -> bool, i: int)
    requires
        0 <= i <= s.len(),
        forall|j: int| i <= j < s.len() ==> p(s[j]),
        i == 0 || !p(s[i - 1]),
    ensures
        strip_end(s, p) == s.take(i),
    decreases s.len() - i,
{
    if i < s.len() {
        assert(s.drop_last().take(i) == s.take(i));
        lemma_strip_end_take(s.drop_last(), p, i);
    } else {
        assert(s.take(i) == s);
    }
}

/// The characters of an optional string.
pub open spec fn opt_view(o: Option<String>) -> Option<Seq<char>> {
    match o {
        Some(s) => Some(s@),
        None => None,
    }
}

/// The text, or nothing when it is empty.
pub open spec fn non_empty_text(s: Seq<char>) -> Option<Seq<char>> {
    if s.len() == 0 {
        None
    } else {
        Some(s)
    }
}

/// The texts of a list of strings.
pub open spec fn texts(v: Seq<String>) -> Seq<Seq<char>> {
    v.map_values(|s: String| s@)
}

/// The parts joined with `sep` between each two (what `join` gives).
pub open spec fn join(parts: Seq<Seq<char>>, sep: Seq<char>) -> Seq<char>
    decreases parts.len(),
{
    if parts.len() == 0 {
        Seq::empty()
    } else if parts.len() == 1 {
        parts[0]
    } else {
        join(parts.drop_last(), sep) + sep + parts.last()
    }
}

/// No whitespace at either end.
pub open spec fn is_trimmed(s: Seq<char>) -> bool {
    s.len() == 0 || (!is_ws(s[0]) && !is_ws(s.last()))
}

pub proof fn lemma_trim_start_index(s: Seq<char>) -> (i: int)
    ensures
        0 <= i <= s.len(),
        trim_start(s) == s.skip(i),
        i == s.len() || !is_ws(s[i]),
    decreases s.len(),
{
    if s.len() > 0 && is_ws(s[0]) {
        let k = lemma_trim_start_index(s.drop_first());
        assert(s.drop_first().skip(k) == s.skip(k + 1));
        k + 1
    } else {
        assert(s.skip(0) == s);
        0
    }
}

pub proof fn lemma_trim_end_index(s: Seq<char>) -> (j: int)
    ensures
        0 <= j <= s.len(),
        trim_end(s) == s.take(j),
        j == 0 || !is_ws(s[j - 1]),
    decreases s.len(),
{
    if s.len() > 0 && is_ws(s.last()) {
        let k = lemma_trim_end_index(s.drop_last());
        assert(s.drop_last().take(k) == s.take(k));
        k
    } else {
        assert(s.take(s.len() as int) == s);
        s.len() as int
    }
}

/// Trimming leaves no whitespace at either end, and trimming again changes
/// nothing.
pub proof fn lemma_trim_trimmed(s: Seq<char>)
    ensures
        is_trimmed(trim(s)),
        trim(trim(s)) == trim(s),
{
    let i = lemma_trim_start_index(s);
    let t = s.skip(i);
    let j = lemma_trim_end_index(t);
    let y = t.take(j);
    if y.len() > 0 {
        assert(y[0] == s[i]);
        assert(y.last() == t[j - 1]);
    }
    lemma_trimmed_fixed(y);
}

/// A text without whitespace at its ends is its own trim.
pub proof fn lemma_trimmed_fixed(y: Seq<char>)
    requires
        is_trimmed(y),
    ensures
        trim(y) == y,
{
    lemma_trim_start_skip(y, 0);
    assert(y.skip(0) == y);
    lemma_trim_end_take(y, y.len() as int);
    assert(y.take(y.len() as int) == y);
}

/// `pat` occurs in `s` at position `i`.
pub open spec fn matches_at(s: Seq<char>, pat: Seq<char>, i: int) -> bool {
    &&& 0 <= i
    &&& i + pat.len() <= s.len()
    &&& s.subrange(i, i + pat.len()) == pat
}

/// The first position at or after `i` where `pat` occurs in `s`.
pub open spec fn find_from(s: Seq<char>, pat: Seq<char>, i: int) -> Option<int>
    decreases s.len() + 1 - i,
{
    if i < 0 || i + pat.len() > s.len() {
        None
    } else if matches_at(s, pat, i) {
        Some(i)
    } else {
        find_from(s, pat, i + 1)
    }
}

/// The first position where `pat` occurs in `s` (what `str::find` locates).
pub open spec fn find(s: Seq<char>, pat: Seq<char>) -> Option<int> {
    find_from(s, pat, 0)
}

/// `pat` occurs somewhere in `s`.
pub open spec fn contains(s: Seq<char>, pat: Seq<char>) -> bool {
    exists|i: int| matches_at(s, pat, i)
}

/// `s` begins with `pat`.
pub open spec fn starts_with(s: Seq<char>, pat: Seq<char>) -> bool {
    pat.len() <= s.len() && s.take(pat.len() as int) == pat
}

pub proof fn lemma_find_from_some(s: Seq<char>, pat: Seq<char>, i: int, k: int)
    requires
        0 <= i <= k,
        matches_at(s, pat, k),
        forall|j: int| i <= j < k ==> !matches_at(s, pat, j),
    ensures
        find_from(s, pat, i) == Some(k),
    decreases k - i,
{
    if i < k {
        lemma_find_from_some(s, pat, i + 1, k);
    }
}

pub proof fn lemma_find_from_none(s: Seq<char>, pat: Seq<char>, i: int)
    requires
        0 <= i,
        forall|j: int| i <= j ==> !matches_at(s, pat, j),
    ensures
        find_from(s, pat, i) is None,
    decreases s.len() + 1 - i,
{
    if i + pat.len() <= s.len() {
        lemma_find_from_none(s, pat, i + 1);
    }
}

/// What `find_from` gives, characterised without recursion.
pub proof fn lemma_find_from_spec(s: Seq<char>, pat: Seq<char>, i: int)
    requires
        0 <= i,
    ensures
        find_from(s, pat, i) matches Some(k) ==> i <= k && matches_at(s, pat, k) && forall|j: int|
            i <= j < k ==> !matches_at(s, pat, j),
        find_from(s, pat, i) is None ==> forall|j: int| i <= j ==> !matches_at(s, pat, j),
    decreases s.len() + 1 - i,
{
    if i + pat.len() <= s.len() && !matches_at(s, pat, i) {
        lemma_find_from_spec(s, pat, i + 1);
    }
}

/// `find` is `Some` exactly when `pat` occurs.
pub proof fn lemma_find_contains(s: Seq<char>, pat: Seq<char>)
    ensures
        find(s, pat) is Some <==> contains(s, pat),
{
    lemma_find_from_spec(s, pat, 0);
}

pub proof fn lemma_trim_start_skip(s: Seq<char>, i: int)
    requires
        0 <= i <= s.len(),
        forall|j: int| 0 <= j < i ==> is_ws(s[j]),
        i == s.len() || !is_ws(s[i]),
    ensures
        trim_start(s) == s.skip(i),
    decreases i,
{
    if i > 0 {
        assert(s.drop_first().skip(i - 1) == s.skip(i));
        lemma_trim_start_skip(s.drop_first(), i - 1);
    } else {
        assert(s.skip(0) == s);
    }
}

pub proof fn lemma_trim_end_take(s: Seq<char>, i: int)
    requires
        0 <= i <= s.len(),
        forall|j: int| i <= j < s.len() ==> is_ws(s[j]),
        i == 0 || !is_ws(s[i - 1]),
    ensures
        trim_end(s) == s.take(i),
    decreases s.len() - i,
{
    if i < s.len() {
        assert(s.drop_last().take(i) == s.take(i));
        lemma_trim_end_take(s.drop_last(), i);
    } else {
        assert(s.take(i) == s);
    }
}

/// Appends one character to a string.
#[verifier::external_body]
pub(crate) fn push_char(s: &mut String, c: char)
    ensures
        final(s)@ == old(s)@.push(c),
{
    s.push(c);
}

/// The characters of `s`, in order.
pub fn chars_of(s: &str) -> (v: Vec<char>)
    ensures
        v@ == s@,
{
    let mut v: Vec<char> = Vec::new();
    for c in it: s.chars()
        invariant
            v@ == it.seq().take(it.index() as int),
            it.seq() == s@,
    {
        v.push(c);
    }
    v
}

/// The string made of the characters `cs[lo..hi]`.
pub fn string_of(cs: &[char], lo: usize, hi: usize) -> (s: String)
    requires
        lo <= hi <= cs@.len(),
    ensures
        s@ == cs@.subrange(lo as int, hi as int),
{
    let mut s = String::new();
    let mut i: usize = lo;
    while i < hi
        invariant
            lo <= i <= hi <= cs@.len(),
            s@ == cs@.subrange(lo as int, i as int),
        decreases hi - i,
    {
        push_char(&mut s, cs[i]);
        assert(cs@.subrange(lo as int, i + 1) == cs@.subrange(lo as int, i as int).push(cs@[i as int]));
        i = i + 1;
    }
    s
}

/// Appends the characters of `t` to `s`.
pub fn append_str(s: &mut String, t: &str)
    ensures
        final(s)@ == old(s)@ + t@,
{
    let cs = chars_of(t);
    let ghost start = s@;
    let mut i: usize = 0;
    while i < cs.len()
        invariant
            i <= cs@.len(),
            cs@ == t@,
            s@ == start + cs@.take(i as int),
        decreases cs@.len() - i,
    {
        push_char(s, cs[i]);
        assert(cs@.take(i + 1) == cs@.take(i as int).push(cs@[i as int]));
        assert(s@ =~= start + cs@.take(i + 1));
        i = i + 1;
    }
    assert(cs@.take(cs@.len() as int) == cs@);
}

/// The strings of `parts` joined with `sep` between each two.
pub fn join_strings(parts: &Vec<String>, sep: &str) -> (r: String)
    ensures
        r@ == join(texts(parts@), sep@),
{
    if parts.len() == 0 {
        return String::new();
    }
    let mut r = parts[0].clone();
    assert(texts(parts@).take(1) == seq![parts@[0]@]);
    let mut i: usize = 1;
    while i < parts.len()
        invariant
            1 <= i <= parts@.len(),
            r@ == join(texts(parts@).take(i as int), sep@),
        decreases parts@.len() - i,
    {
        append_str(&mut r, sep);
        append_str(&mut r, parts[i].as_str());
        assert(texts(parts@).take(i + 1).drop_last() == texts(parts@).take(i as int));
        i = i + 1;
    }
    assert(texts(parts@).take(parts@.len() as int) == texts(parts@));
    r
}

/// Whether `pat` occurs in `s`.
pub fn contains_str(s: &str, pat: &str) -> (b: bool)
    ensures
        b == contains(s@, pat@),
{
    let cs = chars_of(s);
    let ps = chars_of(pat);
    assert(cs@.subrange(0, cs@.len() as int) == cs@);
    proof {
        lemma_find_contains(s@, pat@);
    }
    find_in(&cs, 0, cs.len(), &ps).is_some()
}

/// Whether `v` holds a string equal to `t`.
pub fn contains_string(v: &Vec<String>, t: &String) -> (b: bool)
    ensures
        b == texts(v@).contains(t@),
{
    let mut i: usize = 0;
    while i < v.len()
        invariant
            i <= v@.len(),
            forall|j: int| 0 <= j < i ==> texts(v@)[j] != t@,
        decreases v@.len() - i,
    {
        if v[i] == *t {
            assert(texts(v@)[i as int] == t@);
            return true;
        }
        i = i + 1;
    }
    false
}

/// Whether `c` is whitespace, as `char::is_whitespace` decides.
pub fn is_whitespace(c: char) -> (b: bool)
    ensures
        b == is_ws(c),
{
    let u = c as u32;
    u == 0x20 || (0x09 <= u && u <= 0x0d) || u == 0x85 || u == 0xa0 || u == 0x1680 || (0x2000 <= u
        && u <= 0x200a) || u == 0x2028 || u == 0x2029 || u == 0x202f || u == 0x205f || u == 0x3000
}

/// The bounds of `cs[lo..hi]` with surrounding whitespace removed.
pub fn trim_range(cs: &[char], lo: usize, hi: usize) -> (r: (usize, usize))
    requires
        lo <= hi <= cs@.len(),
    ensures
        lo <= r.0 <= r.1 <= hi,
        cs@.subrange(r.0 as int, r.1 as int) == trim(cs@.subrange(lo as int, hi as int)),
{
    let ghost sub = cs@.subrange(lo as int, hi as int);
    let mut a = lo;
    while a < hi && is_whitespace(cs[a])
        invariant
            lo <= a <= hi <= cs@.len(),
            sub == cs@.subrange(lo as int, hi as int),
            forall|j: int| 0 <= j < a - lo ==> is_ws(sub[j]),
        decreases hi - a,
    {
        a = a + 1;
    }
    proof {
        lemma_trim_start_skip(sub, a - lo);
        assert(sub.skip(a - lo) == cs@.subrange(a as int, hi as int));
    }
    let ghost t = cs@.subrange(a as int, hi as int);
    let mut b = hi;
    while b > a && is_whitespace(cs[b - 1])
        invariant
            lo <= a <= b <= hi <= cs@.len(),
            t == cs@.subrange(a as int, hi as int),
            forall|j: int| b - a <= j < t.len() ==> is_ws(t[j]),
        decreases b - a,
    {
        b = b - 1;
    }
    proof {
        lemma_trim_end_take(t, b - a);
        assert(t.take(b - a) == cs@.subrange(a as int, b as int));
    }
    (a, b)
}

/// The bounds of `cs[lo..hi]` with surrounding NULs removed.
pub fn strip_nul_range(cs: &[char], lo: usize, hi: usize) -> (r: (usize, usize))
    requires
        lo <= hi <= cs@.len(),
    ensures
        lo <= r.0 <= r.1 <= hi,
        cs@.subrange(r.0 as int, r.1 as int) == strip_nul(cs@.subrange(lo as int, hi as int)),
{
    let ghost sub = cs@.subrange(lo as int, hi as int);
    let ghost p = nul_class();
    let mut a = lo;
    while a < hi && cs[a] == '\0'
        invariant
            lo <= a <= hi <= cs@.len(),
            sub == cs@.subrange(lo as int, hi as int),
            p == nul_class(),
            forall|j: int| 0 <= j < a - lo ==> p(sub[j]),
        decreases hi - a,
    {
        a = a + 1;
    }
    proof {
        lemma_strip_start_skip(sub, p, a - lo);
        assert(sub.skip(a - lo) == cs@.subrange(a as int, hi as int));
    }
    let ghost t = cs@.subrange(a as int, hi as int);
    let mut b = hi;
    while b > a && cs[b - 1] == '\0'
        invariant
            lo <= a <= b <= hi <= cs@.len(),
            t == cs@.subrange(a as int, hi as int),
            p == nul_class(),
            forall|j: int| b - a <= j < t.len() ==> p(t[j]),
        decreases b - a,
    {
        b = b - 1;
    }
    proof {
        lemma_strip_end_take(t, p, b - a);
        assert(t.take(b - a) == cs@.subrange(a as int, b as int));
    }
    (a, b)
}

/// The string `cs[lo..hi]` with NULs and then whitespace removed from both ends.
pub fn clean_text(cs: &[char], lo: usize, hi: usize) -> (s: String)
    requires
        lo <= hi <= cs@.len(),
    ensures
        s@ == trim(strip_nul(cs@.subrange(lo as int, hi as int))),
{
    let (a, b) = strip_nul_range(cs, lo, hi);
    let (c, d) = trim_range(cs, a, b);
    string_of(cs, c, d)
}

/// `cs[lo..hi]` with NULs and then whitespace removed from both ends, or
/// nothing when that leaves no character.
pub fn clean_non_empty(cs: &[char], lo: usize, hi: usize) -> (r: Option<String>)
    requires
        lo <= hi <= cs@.len(),
    ensures
        opt_view(r) == non_empty_text(trim(strip_nul(cs@.subrange(lo as int, hi as int)))),
{
    let (a, b) = strip_nul_range(cs, lo, hi);
    let (c, d) = trim_range(cs, a, b);
    if c == d {
        None
    } else {
        Some(string_of(cs, c, d))
    }
}

/// `cs[lo..hi]` with whitespace removed from both ends, or nothing when that
/// leaves no character.
pub fn trimmed_non_empty(cs: &[char], lo: usize, hi: usize) -> (r: Option<String>)
    requires
        lo <= hi <= cs@.len(),
    ensures
        opt_view(r) == non_empty_text(trim(cs@.subrange(lo as int, hi as int))),
{
    let (c, d) = trim_range(cs, lo, hi);
    if c == d {
        None
    } else {
        Some(string_of(cs, c, d))
    }
}

/// Whether `pat` occurs in `cs` at position `i`, within the bound `hi`.
pub fn matches_at_exec(cs: &[char], lo: usize, hi: usize, pat: &[char], i: usize) -> (b: bool)
    requires
        lo <= i <= hi <= cs@.len(),
    ensures
        b == matches_at(cs@.subrange(lo as int, hi as int), pat@, i - lo),
{
    let ghost sub = cs@.subrange(lo as int, hi as int);
    if pat.len() > hi - i {
        return false;
    }
    let mut k: usize = 0;
    while k < pat.len()
        invariant
            lo <= i <= hi <= cs@.len(),
            pat@.len() <= hi - i,
            k <= pat@.len(),
            sub == cs@.subrange(lo as int, hi as int),
            forall|j: int| 0 <= j < k ==> cs@[i + j] == pat@[j],
        decreases pat@.len() - k,
    {
        if cs[i + k] != pat[k] {
            assert(sub.subrange(i - lo, i - lo + pat@.len())[k as int] != pat@[k as int]);
            return false;
        }
        k = k + 1;
    }
    assert(sub.subrange(i - lo, i - lo + pat@.len()) == pat@);
    true
}

/// The first position of `pat` in `cs[lo..hi]`, as an index into `cs`.
pub fn find_in(cs: &[char], lo: usize, hi: usize, pat: &[char]) -> (r: Option<usize>)
    requires
        lo <= hi <= cs@.len(),
    ensures
        match r {
            Some(k) => lo <= k <= hi && find(cs@.subrange(lo as int, hi as int), pat@) == Some(
                k - lo,
            ),
            None => find(cs@.subrange(lo as int, hi as int), pat@) is None,
        },
{
    let ghost sub = cs@.subrange(lo as int, hi as int);
    let mut i = lo;
    while pat.len() <= hi - i
        invariant
            lo <= i <= hi <= cs@.len(),
            sub == cs@.subrange(lo as int, hi as int),
            forall|j: int| 0 <= j < i - lo ==> !matches_at(sub, pat@, j),
        decreases hi - i,
    {
        if matches_at_exec(cs, lo, hi, pat, i) {
            proof {
                lemma_find_from_some(sub, pat@, 0, i - lo);
            }
            return Some(i);
        }
        assert(pat@.len() > 0) by {
            if pat@.len() == 0 {
                assert(sub.subrange(i - lo, i - lo) =~= pat@);
            }
        }
        i = i + 1;
    }
    proof {
        lemma_find_from_none(sub, pat@, 0);
    }
    None
}

} // verus!
