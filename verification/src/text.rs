//! Character-level text utilities: trimming, searching, line splitting,
//! joining, decimal formatting and ordering, each stated over `Seq<char>`.
use vstd::prelude::*;

verus! {

// ---------------------------------------------------------------------------
// Conversions between `str`/`String` and character vectors
// ---------------------------------------------------------------------------

/// The characters of `s`, in order.
pub fn chars_of(s: &str) -> (res: Vec<char>)
    ensures
        res@ == s@,
{
    let mut res: Vec<char> = Vec::new();
    for c in it: s.chars()
        invariant
            res@ == it.seq().take(it.index() as int),
            it.seq() == s@,
    {
        res.push(c);
    }
    res
}

/// Collects characters into a `String` (std's `FromIterator<&char>`).
#[verifier::external_body]
pub(crate) fn string_from_chars(chars: &[char]) -> (res: String)
    ensures
        res@ == chars@,
{
    chars.iter().collect()
}

/// The characters `v[from..to]`.
pub fn subvec(v: &Vec<char>, from: usize, to: usize) -> (res: Vec<char>)
    requires
        from <= to <= v.len(),
    ensures
        res@ == v@.subrange(from as int, to as int),
{
    let mut res: Vec<char> = Vec::new();
    for i in from..to
        invariant
            from <= to <= v.len(),
            res@ == v@.subrange(from as int, i as int),
    {
        res.push(v[i]);
        assert(v@.subrange(from as int, i + 1) =~= v@.subrange(from as int, i as int).push(v@[i as int]));
    }
    res
}

/// Whether two character vectors are equal.
pub fn chars_eq(a: &Vec<char>, b: &Vec<char>) -> (r: bool)
    ensures
        r == (a@ == b@),
{
    if a.len() != b.len() {
        return false;
    }
    let n = a.len();
    for i in 0..n
        invariant
            n == a.len(),
            n == b.len(),
            forall|j: int| 0 <= j < i ==> a@[j] == b@[j],
    {
        if a[i] != b[i] {
            return false;
        }
    }
    assert(a@ =~= b@);
    true
}

/// Whether two strings are equal.
pub fn str_eq(a: &str, b: &str) -> (r: bool)
    ensures
        r == (a@ == b@),
{
    let va = chars_of(a);
    let vb = chars_of(b);
    chars_eq(&va, &vb)
}

/// Whether the characters of `v` spell `s`.
pub fn chars_eq_str(v: &Vec<char>, s: &str) -> (r: bool)
    ensures
        r == (v@ == s@),
{
    let w = chars_of(s);
    chars_eq(v, &w)
}

/// Appends the characters of `s` to `out`.
pub fn push_str(out: &mut Vec<char>, s: &str)
    ensures
        final(out)@ == old(out)@ + s@,
{
    for c in it: s.chars()
        invariant
            out@ == old(out)@ + it.seq().take(it.index() as int),
            it.seq() == s@,
    {
        out.push(c);
    }
    assert(s@.take(s@.len() as int) =~= s@);
}

/// Appends the characters of `src` to `out`.
pub fn push_chars(out: &mut Vec<char>, src: &Vec<char>)
    ensures
        final(out)@ == old(out)@ + src@,
{
    let n = src.len();
    for i in 0..n
        invariant
            n == src.len(),
            out@ == old(out)@ + src@.take(i as int),
    {
        out.push(src[i]);
        assert(src@.take(i + 1) =~= src@.take(i as int).push(src@[i as int]));
    }
    assert(src@.take(n as int) =~= src@);
}

// ---------------------------------------------------------------------------
// Whitespace and trimming
// ---------------------------------------------------------------------------

/// The Unicode `White_Space` property, which `char::is_whitespace` tests.
pub open spec fn is_white_space(c: char) -> bool {
    let u = c as u32;
    ||| 0x09 <= u <= 0x0d
    ||| u == 0x20
    ||| u == 0x85
    ||| u == 0xa0
    ||| u == 0x1680
    ||| 0x2000 <= u <= 0x200a
    ||| u == 0x2028
    ||| u == 0x2029
    ||| u == 0x202f
    ||| u == 0x205f
    ||| u == 0x3000
}

/// Whether `c` is whitespace.
pub fn is_whitespace(c: char) -> (b: bool)
    ensures
        b == is_white_space(c),
{
    let u = c as u32;
    (0x09 <= u && u <= 0x0d) || u == 0x20 || u == 0x85 || u == 0xa0 || u == 0x1680 || (0x2000
        <= u && u <= 0x200a) || u == 0x2028 || u == 0x2029 || u == 0x202f || u == 0x205f || u
        == 0x3000
}

/// `s` without its leading whitespace.
pub open spec fn trim_start(s: Seq<char>) -> Seq<char>
    decreases s.len(),
{
    if s.len() > 0 && is_white_space(s[0]) {
        trim_start(s.drop_first())
    } else {
        s
    }
}

/// `s` without its trailing whitespace.
pub open spec fn trim_end(s: Seq<char>) -> Seq<char>
    decreases s.len(),
{
    if s.len() > 0 && is_white_space(s.last()) {
        trim_end(s.drop_last())
    } else {
        s
    }
}

/// `s` without leading and trailing whitespace (what `str::trim` returns).
pub open spec fn trim(s: Seq<char>) -> Seq<char> {
    trim_end(trim_start(s))
}

proof fn lemma_trim_start_at(s: Seq<char>, i: int)
    requires
        0 <= i <= s.len(),
        forall|j: int| 0 <= j < i ==> is_white_space(#[trigger] s[j]),
        i == s.len() || !is_white_space(s[i]),
    ensures
        trim_start(s) == s.subrange(i, s.len() as int),
    decreases i,
{
    if i > 0 {
        let t = s.drop_first();
        assert forall|j: int| 0 <= j < i - 1 implies is_white_space(#[trigger] t[j]) by {
            assert(t[j] == s[j + 1]);
        }
        lemma_trim_start_at(t, i - 1);
        assert(t.subrange(i - 1, t.len() as int) =~= s.subrange(i, s.len() as int));
    } else {
        assert(s.subrange(0, s.len() as int) =~= s);
    }
}

proof fn lemma_trim_end_at(s: Seq<char>, k: int)
    requires
        0 <= k <= s.len(),
        forall|j: int| k <= j < s.len() ==> is_white_space(#[trigger] s[j]),
        k == 0 || !is_white_space(s[k - 1]),
    ensures
        trim_end(s) == s.subrange(0, k),
    decreases s.len() - k,
{
    if k < s.len() {
        let t = s.drop_last();
        assert forall|j: int| k <= j < t.len() implies is_white_space(#[trigger] t[j]) by {
            assert(t[j] == s[j]);
        }
        lemma_trim_end_at(t, k);
        assert(t.subrange(0, k) =~= s.subrange(0, k));
    } else {
        assert(s.subrange(0, k) =~= s);
    }
}

proof fn lemma_trim_start_shape(s: Seq<char>)
    ensures
        trim_start(s).len() == 0 || !is_white_space(trim_start(s)[0]),
        trim_start(s).len() <= s.len(),
        trim_start(s) == s.subrange(s.len() - trim_start(s).len(), s.len() as int),
    decreases s.len(),
{
    if s.len() > 0 && is_white_space(s[0]) {
        lemma_trim_start_shape(s.drop_first());
        let t = trim_start(s.drop_first());
        assert(s.drop_first().subrange(s.len() - 1 - t.len(), s.len() - 1) =~= s.subrange(s.len() - t.len(), s.len() as int));
    } else {
        assert(s.subrange(0, s.len() as int) =~= s);
    }
}

proof fn lemma_trim_end_shape(s: Seq<char>)
    ensures
        trim_end(s).len() == 0 || !is_white_space(trim_end(s).last()),
        trim_end(s).len() <= s.len(),
        trim_end(s) == s.subrange(0, trim_end(s).len() as int),
    decreases s.len(),
{
    if s.len() > 0 && is_white_space(s.last()) {
        lemma_trim_end_shape(s.drop_last());
        let t = trim_end(s.drop_last());
        assert(s.drop_last().subrange(0, t.len() as int) =~= s.subrange(0, t.len() as int));
    } else {
        assert(s.subrange(0, s.len() as int) =~= s);
    }
}

/// The trimmed text is a contiguous part of the text.
pub proof fn lemma_trim_within(s: Seq<char>)
    ensures
        trim_start(s).len() <= s.len(),
        s.len() - trim_start(s).len() + trim(s).len() <= s.len(),
        trim(s) == s.subrange(s.len() - trim_start(s).len(), s.len() - trim_start(s).len() + trim(s).len()),
{
    let u = trim_start(s);
    lemma_trim_start_shape(s);
    lemma_trim_end_shape(u);
    let lo = s.len() - u.len();
    assert(trim(s) =~= s.subrange(lo, lo + trim(s).len()));
}

/// Trimming twice is trimming once.
pub proof fn lemma_trim_idempotent(s: Seq<char>)
    ensures
        trim(trim(s)) == trim(s),
{
    let u = trim_start(s);
    let t = trim_end(u);
    lemma_trim_start_shape(s);
    lemma_trim_end_shape(u);
    if t.len() > 0 {
        assert(t[0] == u[0]);
        lemma_trim_start_at(t, 0);
        assert(t.subrange(0, t.len() as int) =~= t);
        lemma_trim_end_at(t, t.len() as int);
    } else {
        assert(trim_start(t) == t);
    }
}

/// The bounds of the trimmed part of `v`.
pub fn trim_range(v: &Vec<char>) -> (r: (usize, usize))
    ensures
        r.0 <= r.1 <= v.len(),
        v@.subrange(r.0 as int, r.1 as int) == trim(v@),
{
    let n = v.len();
    let mut lo: usize = 0;
    while lo < n && is_whitespace(v[lo])
        invariant
            n == v.len(),
            lo <= n,
            forall|j: int| 0 <= j < lo ==> is_white_space(#[trigger] v@[j]),
        decreases n - lo,
    {
        lo = lo + 1;
    }
    let mut hi: usize = n;
    while hi > lo && is_whitespace(v[hi - 1])
        invariant
            n == v.len(),
            lo <= hi <= n,
            forall|j: int| hi <= j < n ==> is_white_space(#[trigger] v@[j]),
        decreases hi,
    {
        hi = hi - 1;
    }
    proof {
        lemma_trim_start_at(v@, lo as int);
        let t = v@.subrange(lo as int, n as int);
        let k = (hi - lo) as int;
        assert forall|j: int| k <= j < t.len() implies is_white_space(#[trigger] t[j]) by {
            assert(t[j] == v@[lo + j]);
        }
        if k > 0 {
            assert(t[k - 1] == v@[hi - 1]);
        }
        lemma_trim_end_at(t, k);
        assert(t.subrange(0, k) =~= v@.subrange(lo as int, hi as int));
    }
    (lo, hi)
}

/// The characters of `v` without leading and trailing whitespace.
pub fn trim_chars(v: &Vec<char>) -> (res: Vec<char>)
    ensures
        res@ == trim(v@),
{
    let (lo, hi) = trim_range(v);
    let mut res: Vec<char> = Vec::new();
    for i in lo..hi
        invariant
            lo <= hi <= v.len(),
            res@ == v@.subrange(lo as int, i as int),
    {
        res.push(v[i]);
        assert(v@.subrange(lo as int, i + 1) =~= v@.subrange(lo as int, i as int).push(v@[i as int]));
    }
    res
}

/// `s` without leading and trailing whitespace, as an owned string.
pub fn trim_str(s: &str) -> (res: String)
    ensures
        res@ == trim(s@),
{
    let v = chars_of(s);
    let t = trim_chars(&v);
    string_from_chars(t.as_slice())
}

// ---------------------------------------------------------------------------
// Case mapping
// ---------------------------------------------------------------------------

/// The full Unicode lowercase mapping of a string, as `str::to_lowercase`
/// computes it.
pub uninterp spec fn lowercase(s: Seq<char>) -> Seq<char>;

/// Every character of `s` is ASCII.
pub open spec fn is_ascii_seq(s: Seq<char>) -> bool {
    forall|i: int| 0 <= i < s.len() ==> (s[i] as u32) < 128
}

/// std's `str::to_lowercase`: the string mapped through Unicode's lowercase
/// mapping (one character may map to several, and a final Greek sigma is
/// context-dependent). The contract names the result as a function of the
/// input alone, and states two facts std documents: every character maps to
/// one or more characters, so the result is empty exactly when `s` is; and
/// on ASCII text the mapping is the ASCII lowercase. Nothing more is stated
/// of non-ASCII text.
#[verifier::external_body]
pub(crate) fn to_lowercase(s: &str) -> (res: String)
    ensures
        res@ == lowercase(s@),
        res@.len() == 0 <==> s@.len() == 0,
        is_ascii_seq(s@) ==> res@ == ascii_lower_seq(s@),
{
    s.to_lowercase()
}

/// ASCII lowercase of one character (`char::to_ascii_lowercase`).
pub open spec fn ascii_lower(c: char) -> char {
    if 'A' <= c <= 'Z' {
        (((c as u32) + 32) as u8) as char
    } else {
        c
    }
}

/// ASCII lowercase of a string (`str::to_ascii_lowercase`).
pub open spec fn ascii_lower_seq(s: Seq<char>) -> Seq<char> {
    s.map_values(|c: char| ascii_lower(c))
}

/// The ASCII lowercase of one character.
pub fn to_ascii_lower(c: char) -> (r: char)
    ensures
        r == ascii_lower(c),
{
    if 'A' <= c && c <= 'Z' {
        let b: u8 = (c as u8) + 32;
        b as char
    } else {
        c
    }
}

/// The ASCII lowercase of a character vector.
pub fn to_ascii_lower_chars(v: &Vec<char>) -> (res: Vec<char>)
    ensures
        res@ == ascii_lower_seq(v@),
{
    let mut res: Vec<char> = Vec::new();
    let n = v.len();
    for i in 0..n
        invariant
            n == v.len(),
            res@ == ascii_lower_seq(v@.take(i as int)),
    {
        res.push(to_ascii_lower(v[i]));
        assert(ascii_lower_seq(v@.take(i + 1)) =~= ascii_lower_seq(v@.take(i as int)).push(
            ascii_lower(v@[i as int]),
        ));
    }
    assert(v@.take(n as int) =~= v@);
    res
}

// ---------------------------------------------------------------------------
// Searching
// ---------------------------------------------------------------------------

/// `needle` occurs in `hay` starting at position `i`.
pub open spec fn matches_at(hay: Seq<char>, needle: Seq<char>, i: int) -> bool {
    0 <= i && i + needle.len() <= hay.len() && hay.subrange(i, i + needle.len()) == needle
}

/// `needle` occurs somewhere in `hay` (`str::contains`).
pub open spec fn contains(hay: Seq<char>, needle: Seq<char>) -> bool {
    exists|i: int| matches_at(hay, needle, i)
}

/// `s` begins with `prefix` (`str::starts_with`).
pub open spec fn starts_with(s: Seq<char>, prefix: Seq<char>) -> bool {
    matches_at(s, prefix, 0)
}

/// Whether `needle` occurs in `hay` at position `i`.
pub fn matches_here(hay: &Vec<char>, needle: &Vec<char>, i: usize) -> (b: bool)
    ensures
        b == matches_at(hay@, needle@, i as int),
{
    if needle.len() > hay.len() || i > hay.len() - needle.len() {
        return false;
    }
    let m = needle.len();
    let mut k: usize = 0;
    while k < m
        invariant
            m == needle.len(),
            i + m <= hay.len(),
            k <= m,
            forall|j: int| 0 <= j < k ==> hay@[i + j] == needle@[j],
        decreases m - k,
    {
        if hay[i + k] != needle[k] {
            assert(hay@.subrange(i as int, i + m)[k as int] != needle@[k as int]);
            return false;
        }
        k = k + 1;
    }
    assert(hay@.subrange(i as int, i + m) =~= needle@);
    true
}

/// The first position at or after `from` where `needle` occurs in `hay`.
pub fn find_from(hay: &Vec<char>, needle: &Vec<char>, from: usize) -> (r: Option<usize>)
    ensures
        match r {
            Some(i) => from <= i && matches_at(hay@, needle@, i as int) && forall|j: int|
                from <= j < i ==> !matches_at(hay@, needle@, j),
            None => forall|j: int| from <= j ==> !matches_at(hay@, needle@, j),
        },
{
    if needle.len() > hay.len() {
        return None;
    }
    let last = hay.len() - needle.len();
    if from > last {
        return None;
    }
    let mut i = from;
    loop
        invariant
            last + needle.len() == hay.len(),
            from <= i <= last,
            forall|j: int| from <= j < i ==> !matches_at(hay@, needle@, j),
        decreases last - i,
    {
        if matches_here(hay, needle, i) {
            return Some(i);
        }
        if i == last {
            return None;
        }
        i = i + 1;
    }
}

/// `i` is the first position where `needle` occurs in `hay`.
pub open spec fn is_first_match(hay: Seq<char>, needle: Seq<char>, i: int) -> bool {
    &&& matches_at(hay, needle, i)
    &&& forall|j: int| 0 <= j < i ==> !matches_at(hay, needle, j)
}

/// The first position where `needle` occurs in `hay` (`str::find`).
pub open spec fn first_match(hay: Seq<char>, needle: Seq<char>) -> Option<int> {
    if exists|i: int| is_first_match(hay, needle, i) {
        Some(choose|i: int| is_first_match(hay, needle, i))
    } else {
        None
    }
}

/// The first position where `needle` occurs in `hay`.
pub fn find_first(hay: &Vec<char>, needle: &Vec<char>) -> (r: Option<usize>)
    ensures
        match r {
            Some(i) => first_match(hay@, needle@) == Some(i as int) && is_first_match(hay@, needle@, i as int),
            None => first_match(hay@, needle@) is None && !contains(hay@, needle@),
        },
{
    let r = find_from(hay, needle, 0);
    match r {
        Some(i) => {
            proof {
                assert(is_first_match(hay@, needle@, i as int));
                let c = choose|c: int| is_first_match(hay@, needle@, c);
                if c < i {
                    assert(matches_at(hay@, needle@, c));
                } else if i < c {
                    assert(!matches_at(hay@, needle@, i as int));
                }
            }
        },
        None => {
            assert(!exists|i: int| is_first_match(hay@, needle@, i));
        },
    }
    r
}

/// The last position in `v` holding `c`, if any.
pub fn rfind_char(v: &Vec<char>, c: char) -> (r: Option<usize>)
    ensures
        match r {
            Some(k) => k < v.len() && v@[k as int] == c && forall|j: int| k < j < v.len() ==> #[trigger] v@[j] != c,
            None => forall|j: int| 0 <= j < v.len() ==> #[trigger] v@[j] != c,
        },
{
    let mut i = v.len();
    while i > 0
        invariant
            i <= v.len(),
            forall|j: int| i <= j < v.len() ==> #[trigger] v@[j] != c,
        decreases i,
    {
        if v[i - 1] == c {
            return Some(i - 1);
        }
        i = i - 1;
    }
    None
}

/// Whether `needle` occurs in `hay`.
pub fn contains_chars(hay: &Vec<char>, needle: &Vec<char>) -> (b: bool)
    ensures
        b == contains(hay@, needle@),
{
    match find_from(hay, needle, 0) {
        Some(i) => true,
        None => false,
    }
}

// ---------------------------------------------------------------------------
// Lines
// ---------------------------------------------------------------------------

/// A line without one trailing carriage return.
pub open spec fn strip_cr(line: Seq<char>) -> Seq<char> {
    if line.len() > 0 && line.last() == '\r' {
        line.drop_last()
    } else {
        line
    }
}

/// The position of the first `c` in `s`, or `s.len()` when there is none.
pub open spec fn find_char(s: Seq<char>, c: char) -> int
    decreases s.len(),
{
    if s.len() == 0 {
        0
    } else if s[0] == c {
        0
    } else {
        1 + find_char(s.drop_first(), c)
    }
}

/// `find_char` stays within the string.
pub proof fn lemma_find_char_bounds(s: Seq<char>, c: char)
    ensures
        0 <= find_char(s, c) <= s.len(),
    decreases s.len(),
{
    if s.len() > 0 && s[0] != c {
        lemma_find_char_bounds(s.drop_first(), c);
    }
}

/// `find_char` is the first position holding `c`.
pub proof fn lemma_find_char_is(s: Seq<char>, c: char, k: int)
    requires
        0 <= k <= s.len(),
        forall|j: int| 0 <= j < k ==> #[trigger] s[j] != c,
        k == s.len() || s[k] == c,
    ensures
        find_char(s, c) == k,
    decreases k,
{
    if k > 0 {
        let t = s.drop_first();
        assert forall|j: int| 0 <= j < k - 1 implies #[trigger] t[j] != c by {
            assert(t[j] == s[j + 1]);
        }
        lemma_find_char_is(t, c, k - 1);
    }
}

/// The first position at or after `from` in `v` holding `c`, or `v.len()`.
pub fn find_char_from(v: &Vec<char>, c: char, from: usize) -> (r: usize)
    requires
        from <= v.len(),
    ensures
        from <= r <= v.len(),
        r == from + find_char(v@.subrange(from as int, v@.len() as int), c),
{
    let mut i = from;
    while i < v.len() && v[i] != c
        invariant
            from <= i <= v.len(),
            forall|j: int| from <= j < i ==> #[trigger] v@[j] != c,
        decreases v.len() - i,
    {
        i = i + 1;
    }
    proof {
        let t = v@.subrange(from as int, v@.len() as int);
        assert forall|j: int| 0 <= j < i - from implies #[trigger] t[j] != c by {
            assert(t[j] == v@[from + j]);
        }
        lemma_find_char_is(t, c, i - from);
    }
    i
}

/// The lines of `s` as `str::lines` yields them: split at `'\n'`, a `'\r'`
/// right before a `'\n'` dropped, and no empty line after a final `'\n'`.
pub open spec fn split_lines(s: Seq<char>) -> Seq<Seq<char>>
    decreases s.len(),
{
    if s.len() == 0 {
        seq![]
    } else {
        let k = find_char(s, '\n');
        proof {
            lemma_find_char_bounds(s, '\n');
        }
        if k < s.len() {
            seq![strip_cr(s.subrange(0, k))] + split_lines(s.subrange(k + 1, s.len() as int))
        } else {
            seq![s]
        }
    }
}

/// The lines of `s`.
pub fn lines_of(s: &str) -> (res: Vec<String>)
    ensures
        res.deep_view() == split_lines(s@),
{
    let v = chars_of(s);
    let n = v.len();
    let mut res: Vec<String> = Vec::new();
    let mut start: usize = 0;
    let mut i: usize = 0;
    assert(v@.subrange(0, n as int) =~= v@);
    assert(res.deep_view() + split_lines(v@) =~= split_lines(v@));
    while i < n
        invariant
            n == v.len(),
            v@ == s@,
            start <= i <= n,
            forall|j: int| start <= j < i ==> #[trigger] v@[j] != '\n',
            res.deep_view() + split_lines(v@.subrange(start as int, n as int)) == split_lines(
                v@,
            ),
        decreases n - i,
    {
        if v[i] == '\n' {
            let end = if i > start && v[i - 1] == '\r' {
                i - 1
            } else {
                i
            };
            let line = string_from_chars(vstd::slice::slice_subrange(v.as_slice(), start, end));
            proof {
                let t = v@.subrange(start as int, n as int);
                let k = (i - start) as int;
                assert forall|j: int| 0 <= j < k implies #[trigger] t[j] != '\n' by {
                    assert(t[j] == v@[start + j]);
                }
                lemma_find_char_is(t, '\n', k);
                assert(t.subrange(0, k) =~= v@.subrange(start as int, i as int));
                assert(t.subrange(k + 1, t.len() as int) =~= v@.subrange(i + 1, n as int));
                assert(strip_cr(v@.subrange(start as int, i as int)) =~= v@.subrange(
                    start as int,
                    end as int,
                ));
            }
            let ghost before = res.deep_view();
            res.push(line);
            assert(res.deep_view() =~= before.push(line@));
            start = i + 1;
        }
        i = i + 1;
    }
    if start < n {
        let line = string_from_chars(vstd::slice::slice_subrange(v.as_slice(), start, n));
        proof {
            let t = v@.subrange(start as int, n as int);
            assert forall|j: int| 0 <= j < t.len() implies #[trigger] t[j] != '\n' by {
                assert(t[j] == v@[start + j]);
            }
            lemma_find_char_is(t, '\n', t.len() as int);
        }
        let ghost before = res.deep_view();
        res.push(line);
        assert(res.deep_view() =~= before.push(line@));
        assert(split_lines(v@.subrange(start as int, n as int)) =~= seq![
            v@.subrange(start as int, n as int),
        ]);
    } else {
        assert(split_lines(v@.subrange(start as int, n as int)) =~= Seq::<Seq<char>>::empty());
    }
    assert(res.deep_view() + Seq::<Seq<char>>::empty() =~= res.deep_view());
    res
}

// ---------------------------------------------------------------------------
// Joining
// ---------------------------------------------------------------------------

/// `parts` joined with `sep` between consecutive parts (`[T]::join`).
pub open spec fn join(parts: Seq<Seq<char>>, sep: Seq<char>) -> Seq<char>
    decreases parts.len(),
{
    if parts.len() == 0 {
        seq![]
    } else if parts.len() == 1 {
        parts[0]
    } else {
        join(parts.drop_last(), sep) + sep + parts.last()
    }
}

/// The strings `parts[start..end]` joined with `sep`.
pub fn join_range(parts: &Vec<String>, start: usize, end: usize, sep: &str) -> (res: Vec<char>)
    requires
        start <= end <= parts.len(),
    ensures
        res@ == join(parts.deep_view().subrange(start as int, end as int), sep@),
{
    let mut res: Vec<char> = Vec::new();
    let ghost dv = parts.deep_view();
    for i in start..end
        invariant
            start <= end <= parts.len(),
            dv == parts.deep_view(),
            res@ == join(dv.subrange(start as int, i as int), sep@),
    {
        assert(dv.subrange(start as int, i + 1).drop_last() =~= dv.subrange(start as int, i as int));
        if i > start {
            push_str(&mut res, sep);
        }
        push_str(&mut res, parts[i].as_str());
        assert(dv[i as int] == parts@[i as int]@);
        if i == start {
            assert(res@ =~= join(dv.subrange(start as int, i + 1), sep@));
        }
    }
    res
}

// ---------------------------------------------------------------------------
// Splitting what was joined
// ---------------------------------------------------------------------------

/// `s` holds no `'\n'`.
pub open spec fn has_no_newline(s: Seq<char>) -> bool {
    forall|j: int| 0 <= j < s.len() ==> s[j] != '\n'
}

/// `line` ends with a carriage return.
pub open spec fn ends_with_cr(line: Seq<char>) -> bool {
    line.len() > 0 && line.last() == '\r'
}

/// Joining `lines` with `'\n'` (and a final `'\n'` when `trailing`) and
/// splitting the text again gives `lines` back: every line followed by a
/// `'\n'` keeps any final carriage return, the text of an empty list is
/// empty, and without a final `'\n'` the last line is not empty.
pub open spec fn lines_survive_join(lines: Seq<Seq<char>>, trailing: bool) -> bool {
    &&& forall|i: int| 0 <= i < lines.len() && ends_with_cr(#[trigger] lines[i]) ==> (i == lines.len() - 1 && !trailing)
    &&& trailing ==> lines.len() > 0
    &&& !trailing ==> (lines.len() == 0 || lines.last().len() > 0)
}

/// No position before `find_char(s, c)` holds `c`.
pub proof fn lemma_find_char_prefix(s: Seq<char>, c: char)
    ensures
        forall|j: int| 0 <= j < find_char(s, c) ==> s[j] != c,
    decreases s.len(),
{
    if s.len() > 0 && s[0] != c {
        let t = s.drop_first();
        lemma_find_char_prefix(t, c);
        lemma_find_char_bounds(t, c);
        assert forall|j: int| 0 <= j < find_char(s, c) implies s[j] != c by {
            if j > 0 {
                assert(s[j] == t[j - 1]);
            }
        }
    }
}

/// No line that `split_lines` yields holds a `'\n'`.
pub proof fn lemma_split_lines_no_newline(s: Seq<char>)
    ensures
        forall|i: int| 0 <= i < split_lines(s).len() ==> has_no_newline(#[trigger] split_lines(s)[i]),
    decreases s.len(),
{
    if s.len() > 0 {
        let k = find_char(s, '\n');
        lemma_find_char_bounds(s, '\n');
        lemma_find_char_prefix(s, '\n');
        if k < s.len() {
            let rest = s.subrange(k + 1, s.len() as int);
            lemma_split_lines_no_newline(rest);
            let first = strip_cr(s.subrange(0, k));
            assert(has_no_newline(first)) by {
                assert forall|j: int| 0 <= j < first.len() implies first[j] != '\n' by {
                    assert(first[j] == s[j]);
                }
            }
            assert forall|i: int| 0 <= i < split_lines(s).len() implies has_no_newline(#[trigger] split_lines(s)[i]) by {
                if i > 0 {
                    assert(split_lines(s)[i] == split_lines(rest)[i - 1]);
                }
            }
        }
    }
}

/// Splitting a line, a `'\n'` and more text gives the line (without a final
/// carriage return) followed by the lines of the rest.
pub proof fn lemma_split_cons(a: Seq<char>, b: Seq<char>)
    requires
        has_no_newline(a),
    ensures
        split_lines(a + seq!['\n'] + b) == seq![strip_cr(a)] + split_lines(b),
{
    let s = a + seq!['\n'] + b;
    assert forall|j: int| 0 <= j < a.len() implies #[trigger] s[j] != '\n' by {
        assert(s[j] == a[j]);
    }
    assert(s[a.len() as int] == '\n');
    lemma_find_char_is(s, '\n', a.len() as int);
    assert(s.subrange(0, a.len() as int) =~= a);
    assert(s.subrange(a.len() as int + 1, s.len() as int) =~= b);
}

/// A text without `'\n'` is one line, or none when empty.
pub proof fn lemma_split_single(a: Seq<char>)
    requires
        has_no_newline(a),
    ensures
        split_lines(a) == (if a.len() == 0 { Seq::<Seq<char>>::empty() } else { seq![a] }),
{
    if a.len() > 0 {
        lemma_find_char_is(a, '\n', a.len() as int);
    }
}

/// `join` seen from the front.
pub proof fn lemma_join_front(parts: Seq<Seq<char>>, sep: Seq<char>)
    requires
        parts.len() >= 2,
    ensures
        join(parts, sep) == parts[0] + sep + join(parts.drop_first(), sep),
    decreases parts.len(),
{
    let rest = parts.drop_first();
    if parts.len() == 2 {
        assert(parts.drop_last() =~= seq![parts[0]]);
        assert(join(parts.drop_last(), sep) == parts[0]);
        assert(join(rest, sep) == rest[0]);
        assert(rest[0] == parts.last());
    } else {
        let init = parts.drop_last();
        lemma_join_front(init, sep);
        assert(init.drop_first() =~= rest.drop_last());
        assert(rest.last() == parts.last());
        assert(join(parts, sep) =~= parts[0] + sep + join(rest, sep));
    }
}

/// Lines without `'\n'` that survive the join come back from splitting
/// their join.
pub proof fn lemma_split_join(lines: Seq<Seq<char>>, trailing: bool)
    requires
        forall|i: int| 0 <= i < lines.len() ==> has_no_newline(#[trigger] lines[i]),
        lines_survive_join(lines, trailing),
    ensures
        split_lines(if trailing { join(lines, "\n"@).push('\n') } else { join(lines, "\n"@) }) == lines,
    decreases lines.len(),
{
    reveal_strlit("\n");
    let nl: Seq<char> = seq!['\n'];
    assert("\n"@ =~= nl);
    if lines.len() == 0 {
        assert(split_lines(Seq::<char>::empty()) =~= Seq::<Seq<char>>::empty());
    } else if lines.len() == 1 {
        let a = lines[0];
        assert(has_no_newline(a));
        if trailing {
            assert(!ends_with_cr(lines[0]));
            lemma_split_cons(a, Seq::empty());
            assert(a.push('\n') =~= a + nl + Seq::<char>::empty());
            assert(split_lines(Seq::<char>::empty()) =~= Seq::<Seq<char>>::empty());
            assert(seq![strip_cr(a)] + Seq::<Seq<char>>::empty() =~= lines);
        } else {
            lemma_split_single(a);
            assert(seq![a] =~= lines);
        }
    } else {
        let a = lines[0];
        let rest = lines.drop_first();
        assert(has_no_newline(a));
        assert(!ends_with_cr(lines[0]));
        assert forall|i: int| 0 <= i < rest.len() implies has_no_newline(#[trigger] rest[i]) by {
            assert(rest[i] == lines[i + 1]);
        }
        assert forall|i: int| 0 <= i < rest.len() && ends_with_cr(#[trigger] rest[i]) implies (i == rest.len() - 1 && !trailing) by {
            assert(rest[i] == lines[i + 1]);
        }
        assert(rest.last() == lines.last());
        lemma_split_join(rest, trailing);
        lemma_join_front(lines, "\n"@);
        let tail = if trailing { join(rest, "\n"@).push('\n') } else { join(rest, "\n"@) };
        assert((if trailing { join(lines, "\n"@).push('\n') } else { join(lines, "\n"@) }) =~= a + nl + tail);
        lemma_split_cons(a, tail);
        assert(seq![strip_cr(a)] + rest =~= lines);
    }
}

/// When `find_char` finds `c`, `c` is there.
pub proof fn lemma_find_char_found(s: Seq<char>, c: char)
    ensures
        find_char(s, c) < s.len() ==> s[find_char(s, c)] == c,
    decreases s.len(),
{
    if s.len() > 0 && s[0] != c {
        let t = s.drop_first();
        lemma_find_char_found(t, c);
        lemma_find_char_bounds(t, c);
        let j = find_char(t, c);
        if j < t.len() {
            assert(s[j + 1] == t[j]);
        }
    }
}

/// No carriage return in `s` is directly followed by a `'\n'`.
pub open spec fn has_no_crlf(s: Seq<char>) -> bool {
    forall|i: int| 0 <= i < s.len() - 1 ==> !(#[trigger] s[i] == '\r' && s[i + 1] == '\n')
}

/// In a text without `"\r\n"`, no line but the last ends with a carriage
/// return.
pub proof fn lemma_split_lines_no_cr(s: Seq<char>)
    requires
        has_no_crlf(s),
    ensures
        forall|i: int| 0 <= i < split_lines(s).len() - 1 ==> !ends_with_cr(#[trigger] split_lines(s)[i]),
    decreases s.len(),
{
    if s.len() > 0 {
        let k = find_char(s, '\n');
        lemma_find_char_bounds(s, '\n');
        lemma_find_char_found(s, '\n');
        if k < s.len() {
            let a = s.subrange(0, k);
            let rest = s.subrange(k + 1, s.len() as int);
            assert(has_no_crlf(rest)) by {
                assert forall|i: int| 0 <= i < rest.len() - 1 implies !(#[trigger] rest[i] == '\r' && rest[i + 1] == '\n') by {
                    assert(rest[i] == s[k + 1 + i] && rest[i + 1] == s[k + 2 + i]);
                }
            }
            lemma_split_lines_no_cr(rest);
            if k > 0 {
                assert(s[k - 1] != '\r' || s[k] != '\n');
                assert(a.last() == s[k - 1]);
            }
            assert(!ends_with_cr(a));
            assert(strip_cr(a) == a);
            assert forall|i: int| 0 <= i < split_lines(s).len() - 1 implies !ends_with_cr(#[trigger] split_lines(s)[i]) by {
                if i > 0 {
                    assert(split_lines(s)[i] == split_lines(rest)[i - 1]);
                }
            }
        }
    }
}

/// A text without `"\r\n"` is the join of its lines with `'\n'`, with a
/// final `'\n'` when it ends with one.
pub proof fn lemma_join_split_lines(s: Seq<char>)
    requires
        has_no_crlf(s),
    ensures
        (if s.len() > 0 && s.last() == '\n' {
            join(split_lines(s), "\n"@).push('\n')
        } else {
            join(split_lines(s), "\n"@)
        }) == s,
    decreases s.len(),
{
    reveal_strlit("\n");
    let nl: Seq<char> = seq!['\n'];
    assert("\n"@ =~= nl);
    if s.len() == 0 {
        assert(join(split_lines(s), "\n"@) =~= s);
    } else {
        let k = find_char(s, '\n');
        lemma_find_char_bounds(s, '\n');
        lemma_find_char_prefix(s, '\n');
        lemma_find_char_found(s, '\n');
        if k < s.len() {
            let a = s.subrange(0, k);
            let rest = s.subrange(k + 1, s.len() as int);
            if k > 0 {
                assert(s[k - 1] != '\r' || s[k] != '\n');
                assert(a.last() == s[k - 1]);
            }
            assert(strip_cr(a) == a);
            assert(split_lines(s) == seq![a] + split_lines(rest));
            assert(s =~= a + nl + rest);
            if rest.len() == 0 {
                assert(split_lines(rest) =~= Seq::<Seq<char>>::empty());
                assert(split_lines(s) =~= seq![a]);
                assert(s.last() == '\n');
                assert(a.push('\n') =~= s);
            } else {
                assert(has_no_crlf(rest)) by {
                    assert forall|i: int| 0 <= i < rest.len() - 1 implies !(#[trigger] rest[i] == '\r' && rest[i + 1] == '\n') by {
                        assert(rest[i] == s[k + 1 + i] && rest[i + 1] == s[k + 2 + i]);
                    }
                }
                lemma_join_split_lines(rest);
                let r = split_lines(rest);
                lemma_find_char_bounds(rest, '\n');
                assert(r.len() >= 1);
                let l = seq![a] + r;
                assert(l.drop_first() =~= r);
                lemma_join_front(l, "\n"@);
                assert(s.last() == rest.last());
                if s.last() == '\n' {
                    assert((a + nl + join(r, "\n"@)).push('\n') =~= a + nl + join(r, "\n"@).push('\n'));
                }
            }
        } else {
            assert(s.last() != '\n') by {
                assert(s[s.len() - 1] != '\n');
            }
            lemma_find_char_is(s, '\n', s.len() as int);
            assert(split_lines(s) =~= seq![s]);
        }
    }
}

// ---------------------------------------------------------------------------
// Decimal formatting
// ---------------------------------------------------------------------------

/// The ASCII digit for `d` (`0 <= d < 10`).
pub open spec fn digit_char(d: nat) -> char {
    ((d + 48) as u8) as char
}

/// The decimal representation of `n`, as `Display` writes it.
pub open spec fn decimal(n: nat) -> Seq<char>
    decreases n,
{
    if n < 10 {
        seq![digit_char(n)]
    } else {
        decimal(n / 10) + seq![digit_char(n % 10)]
    }
}

/// The decimal representation of a signed integer, with a leading `-` when
/// negative.
pub open spec fn signed_decimal(n: int) -> Seq<char> {
    if n < 0 {
        seq!['-'] + decimal((-n) as nat)
    } else {
        decimal(n as nat)
    }
}

fn digit(d: u64) -> (c: char)
    requires
        d < 10,
    ensures
        c == digit_char(d as nat),
{
    let b: u8 = (d as u8) + 48;
    b as char
}

/// Appends the decimal representation of `n` to `out`.
pub fn push_decimal(out: &mut Vec<char>, n: u64)
    ensures
        final(out)@ == old(out)@ + decimal(n as nat),
    decreases n,
{
    if n >= 10 {
        push_decimal(out, n / 10);
    }
    out.push(digit(n % 10));
}

/// Appends the decimal representation of `n` to `out`.
pub fn push_signed_decimal(out: &mut Vec<char>, n: i64)
    ensures
        final(out)@ == old(out)@ + signed_decimal(n as int),
{
    if n < 0 {
        out.push('-');
        let m: u64 = if n == i64::MIN {
            9223372036854775808u64
        } else {
            (-n) as u64
        };
        push_decimal(out, m);
    } else {
        push_decimal(out, n as u64);
    }
}

// ---------------------------------------------------------------------------
// Ordering
// ---------------------------------------------------------------------------

/// Lexicographic order on strings by code point, which is the order `Ord`
/// gives `str` (UTF-8 preserves code point order).
pub open spec fn seq_le(a: Seq<char>, b: Seq<char>) -> bool
    decreases a.len(),
{
    if a.len() == 0 {
        true
    } else if b.len() == 0 {
        false
    } else if a[0] < b[0] {
        true
    } else if a[0] > b[0] {
        false
    } else {
        seq_le(a.drop_first(), b.drop_first())
    }
}

/// Every string is ordered against every other.
pub proof fn lemma_seq_le_total(a: Seq<char>, b: Seq<char>)
    ensures
        seq_le(a, b) || seq_le(b, a),
    decreases a.len(),
{
    if a.len() > 0 && b.len() > 0 && a[0] == b[0] {
        lemma_seq_le_total(a.drop_first(), b.drop_first());
    }
}

/// The order is transitive.
pub proof fn lemma_seq_le_transitive(a: Seq<char>, b: Seq<char>, c: Seq<char>)
    requires
        seq_le(a, b),
        seq_le(b, c),
    ensures
        seq_le(a, c),
    decreases a.len(),
{
    if a.len() > 0 && b.len() > 0 && c.len() > 0 && a[0] == b[0] && b[0] == c[0] {
        lemma_seq_le_transitive(a.drop_first(), b.drop_first(), c.drop_first());
    }
}

/// Whether `a` sorts before or equal to `b`.
pub fn chars_le(a: &Vec<char>, b: &Vec<char>) -> (r: bool)
    ensures
        r == seq_le(a@, b@),
{
    let mut i: usize = 0;
    assert(a@.subrange(0, a@.len() as int) =~= a@);
    assert(b@.subrange(0, b@.len() as int) =~= b@);
    while i < a.len() && i < b.len() && a[i] == b[i]
        invariant
            i <= a.len(),
            i <= b.len(),
            seq_le(a@, b@) == seq_le(a@.subrange(i as int, a@.len() as int), b@.subrange(i as int, b@.len() as int)),
        decreases a.len() - i,
    {
        let ghost sa = a@.subrange(i as int, a@.len() as int);
        let ghost sb = b@.subrange(i as int, b@.len() as int);
        assert(sa.drop_first() =~= a@.subrange(i + 1, a@.len() as int));
        assert(sb.drop_first() =~= b@.subrange(i + 1, b@.len() as int));
        i = i + 1;
    }
    let ghost sa = a@.subrange(i as int, a@.len() as int);
    let ghost sb = b@.subrange(i as int, b@.len() as int);
    if i == a.len() {
        assert(sa.len() == 0);
        true
    } else if i == b.len() {
        false
    } else {
        assert(sa[0] == a@[i as int] && sb[0] == b@[i as int]);
        a[i] < b[i]
    }
}

/// Whether `a` sorts before or equal to `b`.
pub fn str_le(a: &str, b: &str) -> (r: bool)
    ensures
        r == seq_le(a@, b@),
{
    let va = chars_of(a);
    let vb = chars_of(b);
    chars_le(&va, &vb)
}

} // verus!
