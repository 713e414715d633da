//! Character-level helpers shared by the parsers: splitting into lines,
//! trimming Unicode white space, ASCII case folding and substring search.
use vstd::prelude::*;

verus! {

/// `String::push` appends one character.
pub assume_specification[ String::push ](s: &mut String, ch: char)
    ensures
        final(s)@ == old(s)@.push(ch),
;

// ---------------------------------------------------------------------------
// Specifications
// ---------------------------------------------------------------------------

/// The characters Unicode gives the `White_Space` property, which is what
/// `str::trim` removes.
pub open spec fn is_white_space(c: char) -> bool {
    let u = c as u32;
    ||| 0x09 <= u <= 0x0d
    ||| u == 0x20
    ||| u == 0x85
    ||| u == 0xa0
    ||| u == 0x1680
    ||| 0x2000 <= u <= 0x200a
    ||| u == 0x2028
    ||| u == 0x2029
    ||| u == 0x202f
    ||| u == 0x205f
    ||| u == 0x3000
}

pub open spec fn is_ascii_digit(c: char) -> bool {
    0x30 <= (c as u32) <= 0x39
}

pub open spec fn is_ascii_upper(c: char) -> bool {
    0x41 <= (c as u32) <= 0x5a
}

pub open spec fn is_ascii_lower(c: char) -> bool {
    0x61 <= (c as u32) <= 0x7a
}

pub open spec fn is_ascii_alphanumeric(c: char) -> bool {
    is_ascii_digit(c) || is_ascii_upper(c) || is_ascii_lower(c)
}

/// ASCII lower-casing of one character; every other character is unchanged.
pub open spec fn lower_char(c: char) -> char {
    if is_ascii_upper(c) {
        ((c as u32) + 32) as char
    } else {
        c
    }
}

pub open spec fn lower(s: Seq<char>) -> Seq<char> {
    s.map_values(|c: char| lower_char(c))
}

/// `s` without its leading white space.
pub open spec fn trim_start(s: Seq<char>) -> Seq<char>
    decreases s.len(),
{
    if s.len() > 0 && is_white_space(s[0]) {
        trim_start(s.drop_first())
    } else {
        s
    }
}

/// `s` without its trailing white space.
pub open spec fn trim_end(s: Seq<char>) -> Seq<char>
    decreases s.len(),
{
    if s.len() > 0 && is_white_space(s.last()) {
        trim_end(s.drop_last())
    } else {
        s
    }
}

/// What `str::trim` leaves of `s`.
pub open spec fn trim(s: Seq<char>) -> Seq<char> {
    trim_end(trim_start(s))
}

/// The first index at or after `i` that holds `c`, or the length of `s`.
pub open spec fn find_from(s: Seq<char>, c: char, i: int) -> int
    decreases s.len() - i,
{
    if i >= s.len() {
        s.len() as int
    } else if s[i] == c {
        i
    } else {
        find_from(s, c, i + 1)
    }
}

/// A line with the carriage return of a `\r\n` ending taken off.
pub open spec fn strip_cr(line: Seq<char>) -> Seq<char> {
    if line.len() > 0 && line.last() == '\r' {
        line.drop_last()
    } else {
        line
    }
}

/// The lines of `s` from index `i` on, as `str::lines` yields them: split at
/// `\n`, a `\r` before the `\n` dropped, and no empty line after a final `\n`.
pub open spec fn lines_from(s: Seq<char>, i: int) -> Seq<Seq<char>>
    decreases s.len() - i,
{
    if i < 0 || i >= s.len() {
        Seq::empty()
    } else {
        let k = find_from(s, '\n', i);
        proof {
            lemma_find_from_bounds(s, '\n', i);
        }
        if k >= s.len() {
            seq![s.subrange(i, s.len() as int)]
        } else {
            seq![strip_cr(s.subrange(i, k))] + lines_from(s, k + 1)
        }
    }
}

/// The lines of `s`.
pub open spec fn lines(s: Seq<char>) -> Seq<Seq<char>> {
    lines_from(s, 0)
}

/// `needle` occurs in `hay` starting at index `i`.
pub open spec fn occurs_at(hay: Seq<char>, needle: Seq<char>, i: int) -> bool {
    0 <= i && i + needle.len() <= hay.len() && hay.subrange(i, i + needle.len()) =~= needle
}

/// `needle` occurs somewhere in `hay`.
pub open spec fn contains(hay: Seq<char>, needle: Seq<char>) -> bool {
    exists|i: int| occurs_at(hay, needle, i)
}

/// The first index at or after `i` where `needle` occurs in `hay`, or
/// `hay.len() + 1` when there is none.
pub open spec fn first_occurrence(hay: Seq<char>, needle: Seq<char>, i: int) -> int
    decreases hay.len() + 1 - i,
{
    if i > hay.len() {
        hay.len() + 1int
    } else if occurs_at(hay, needle, i) {
        i
    } else {
        first_occurrence(hay, needle, i + 1)
    }
}

/// The views of a list of character vectors.
pub open spec fn views(v: Seq<Vec<char>>) -> Seq<Seq<char>> {
    Seq::new(v.len(), |i: int| v[i]@)
}

// ---------------------------------------------------------------------------
// Lemmas
// ---------------------------------------------------------------------------

pub proof fn lemma_find_from_bounds(s: Seq<char>, c: char, i: int)
    ensures
        i <= s.len() ==> i <= find_from(s, c, i),
        find_from(s, c, i) <= s.len(),
        i >= 0 ==> find_from(s, c, i) >= 0,
        0 <= find_from(s, c, i) < s.len() ==> s[find_from(s, c, i)] == c,
        forall|j: int| i <= j < find_from(s, c, i) ==> s[j] != c,
    decreases s.len() - i,
{
    if i >= s.len() {
    } else if s[i] == c {
    } else {
        lemma_find_from_bounds(s, c, i + 1);
    }
}

/// `find_from` is the first occurrence: a position with `c` and none before it.
pub proof fn lemma_find_from_is(s: Seq<char>, c: char, i: int, k: int)
    requires
        0 <= i <= k <= s.len(),
        forall|j: int| i <= j < k ==> s[j] != c,
        k == s.len() || s[k] == c,
    ensures
        find_from(s, c, i) == k,
    decreases k - i,
{
    if i < k {
        lemma_find_from_is(s, c, i + 1, k);
    }
}

/// `trim_start` drops exactly the white-space prefix.
pub proof fn lemma_trim_start_is(s: Seq<char>, k: int)
    requires
        0 <= k <= s.len(),
        forall|j: int| 0 <= j < k ==> is_white_space(s[j]),
        k == s.len() || !is_white_space(s[k]),
    ensures
        trim_start(s) =~= s.subrange(k, s.len() as int),
    decreases k,
{
    if k > 0 {
        let t = s.drop_first();
        assert forall|j: int| 0 <= j < k - 1 implies is_white_space(t[j]) by {
            assert(t[j] == s[j + 1]);
        }
        lemma_trim_start_is(t, k - 1);
        assert(t.subrange(k - 1, t.len() as int) =~= s.subrange(k, s.len() as int));
    }
}

/// `trim_end` drops exactly the white-space suffix.
pub proof fn lemma_trim_end_is(s: Seq<char>, k: int)
    requires
        0 <= k <= s.len(),
        forall|j: int| k <= j < s.len() ==> is_white_space(s[j]),
        k == 0 || !is_white_space(s[k - 1]),
    ensures
        trim_end(s) =~= s.subrange(0, k),
    decreases s.len() - k,
{
    if k < s.len() {
        let t = s.drop_last();
        lemma_trim_end_is(t, k);
        assert(t.subrange(0, k) =~= s.subrange(0, k));
    } else {
        assert(s.subrange(0, k) =~= s);
    }
}

pub proof fn lemma_first_occurrence_is(hay: Seq<char>, needle: Seq<char>, i: int, k: int)
    requires
        0 <= i <= k <= hay.len() + 1,
        forall|j: int| i <= j < k ==> !occurs_at(hay, needle, j),
        k == hay.len() + 1 || occurs_at(hay, needle, k),
    ensures
        first_occurrence(hay, needle, i) == k,
    decreases k - i,
{
    if i < k {
        lemma_first_occurrence_is(hay, needle, i + 1, k);
    }
}

// ---------------------------------------------------------------------------
// Executable helpers
// ---------------------------------------------------------------------------

/// The characters of `s`, in order.
pub fn chars_of(s: &str) -> (r: Vec<char>)
    ensures
        r@ == s@,
{
    let mut r: Vec<char> = Vec::new();
    for c in it: s.chars()
        invariant
            r@ == it.seq().take(it.index() as int),
            it.seq() == s@,
    {
        r.push(c);
    }
    r
}

/// A `String` holding the characters of `v`.
pub fn string_of(v: &[char]) -> (r: String)
    ensures
        r@ == v@,
{
    let mut r = String::new();
    let mut i: usize = 0;
    while i < v.len()
        invariant
            i <= v.len(),
            r@ == v@.take(i as int),
        decreases v.len() - i,
    {
        r.push(v[i]);
        i += 1;
        assert(r@ =~= v@.take(i as int));
    }
    assert(v@.take(i as int) =~= v@);
    r
}

pub fn is_white_space_char(c: char) -> (r: bool)
    ensures
        r == is_white_space(c),
{
    let u = c as u32;
    (0x09 <= u && u <= 0x0d) || u == 0x20 || u == 0x85 || u == 0xa0 || u == 0x1680 || (0x2000
        <= u && u <= 0x200a) || u == 0x2028 || u == 0x2029 || u == 0x202f || u == 0x205f || u
        == 0x3000
}

pub fn is_digit_char(c: char) -> (r: bool)
    ensures
        r == is_ascii_digit(c),
{
    let u = c as u32;
    0x30 <= u && u <= 0x39
}

pub fn is_alphanumeric_char(c: char) -> (r: bool)
    ensures
        r == is_ascii_alphanumeric(c),
{
    let u = c as u32;
    (0x30 <= u && u <= 0x39) || (0x41 <= u && u <= 0x5a) || (0x61 <= u && u <= 0x7a)
}

pub fn lower_char_of(c: char) -> (r: char)
    ensures
        r == lower_char(c),
{
    let u = c as u32;
    if 0x41 <= u && u <= 0x5a {
        let b = (u + 32) as u8;
        b as char
    } else {
        c
    }
}

/// ASCII lower-cased copy of `s`.
pub fn lower_of(s: &[char]) -> (r: Vec<char>)
    ensures
        r@ == lower(s@),
{
    let mut r: Vec<char> = Vec::new();
    let mut i: usize = 0;
    while i < s.len()
        invariant
            i <= s.len(),
            r@ =~= lower(s@.take(i as int)),
        decreases s.len() - i,
    {
        r.push(lower_char_of(s[i]));
        i += 1;
        assert(r@ =~= lower(s@.take(i as int)));
    }
    assert(s@.take(i as int) =~= s@);
    r
}

/// The characters `s[lo..hi]`.
pub fn slice_of(s: &[char], lo: usize, hi: usize) -> (r: Vec<char>)
    requires
        lo <= hi <= s.len(),
    ensures
        r@ == s@.subrange(lo as int, hi as int),
{
    let mut r: Vec<char> = Vec::new();
    let mut i: usize = lo;
    while i < hi
        invariant
            lo <= i <= hi <= s.len(),
            r@ =~= s@.subrange(lo as int, i as int),
        decreases hi - i,
    {
        r.push(s[i]);
        i += 1;
    }
    r
}

/// The first index at or after `from` that holds `c`, or `s.len()`.
pub fn find_char(s: &[char], c: char, from: usize) -> (r: usize)
    requires
        from <= s.len(),
    ensures
        r == find_from(s@, c, from as int),
{
    let mut i = from;
    while i < s.len()
        invariant
            from <= i <= s.len(),
            forall|j: int| from <= j < i ==> s@[j] != c,
        decreases s.len() - i,
    {
        if s[i] == c {
            proof {
                lemma_find_from_is(s@, c, from as int, i as int);
            }
            return i;
        }
        i += 1;
    }
    proof {
        lemma_find_from_is(s@, c, from as int, i as int);
    }
    i
}

/// `s` without leading and trailing white space.
pub fn trim_of(s: &[char]) -> (r: Vec<char>)
    ensures
        r@ == trim(s@),
{
    let mut lo: usize = 0;
    while lo < s.len() && is_white_space_char(s[lo])
        invariant
            lo <= s.len(),
            forall|j: int| 0 <= j < lo ==> is_white_space(s@[j]),
        decreases s.len() - lo,
    {
        lo += 1;
    }
    proof {
        lemma_trim_start_is(s@, lo as int);
    }
    let mut hi: usize = s.len();
    while hi > lo && is_white_space_char(s[hi - 1])
        invariant
            lo <= hi <= s.len(),
            forall|j: int| hi <= j < s.len() ==> is_white_space(s@[j]),
        decreases hi,
    {
        hi -= 1;
    }
    let ghost t = s@.subrange(lo as int, s.len() as int);
    proof {
        assert forall|j: int| hi - lo <= j < t.len() implies is_white_space(t[j]) by {
            assert(t[j] == s@[j + lo]);
        }
        if hi > lo {
            assert(t[hi - lo - 1] == s@[hi - 1]);
        }
        lemma_trim_end_is(t, hi - lo);
        assert(t.subrange(0, hi - lo) =~= s@.subrange(lo as int, hi as int));
    }
    slice_of(s, lo, hi)
}

/// Whether every character of `s` is white space, i.e. `s.trim()` is empty.
pub fn is_blank(s: &[char]) -> (r: bool)
    ensures
        r == (trim(s@).len() == 0),
{
    let t = trim_of(s);
    t.len() == 0
}

/// Whether `needle` occurs in `hay` at index `i`.
pub fn occurs_at_exec(hay: &[char], needle: &[char], i: usize) -> (r: bool)
    ensures
        r == occurs_at(hay@, needle@, i as int),
{
    if i > hay.len() || needle.len() > hay.len() - i {
        return false;
    }
    let mut j: usize = 0;
    while j < needle.len()
        invariant
            j <= needle.len(),
            i + needle.len() <= hay.len(),
            forall|k: int| 0 <= k < j ==> hay@[i + k] == needle@[k],
        decreases needle.len() - j,
    {
        if hay[i + j] != needle[j] {
            assert(hay@.subrange(i as int, i + needle.len())[j as int] != needle@[j as int]);
            return false;
        }
        j += 1;
    }
    assert(hay@.subrange(i as int, i + needle.len()) =~= needle@);
    true
}

/// The first index at or after `from` where `needle` occurs in `hay`.
pub fn find_seq(hay: &[char], needle: &[char], from: usize) -> (r: Option<usize>)
    ensures
        match r {
            Some(i) => from <= i && occurs_at(hay@, needle@, i as int) && forall|j: int|
                from <= j < i ==> !occurs_at(hay@, needle@, j),
            None => forall|j: int| from <= j ==> !occurs_at(hay@, needle@, j),
        },
        from <= hay.len() ==> match r {
            Some(i) => first_occurrence(hay@, needle@, from as int) == i,
            None => first_occurrence(hay@, needle@, from as int) == hay.len() + 1,
        },
{
    let mut i = from;
    while i < hay.len()
        invariant
            from <= i,
            forall|j: int| from <= j < i ==> !occurs_at(hay@, needle@, j),
        decreases hay.len() - i,
    {
        if occurs_at_exec(hay, needle, i) {
            proof {
                lemma_first_occurrence_is(hay@, needle@, from as int, i as int);
            }
            return Some(i);
        }
        i += 1;
    }
    if i == hay.len() && occurs_at_exec(hay, needle, i) {
        proof {
            lemma_first_occurrence_is(hay@, needle@, from as int, i as int);
        }
        return Some(i);
    }
    if from <= hay.len() {
        proof {
            lemma_first_occurrence_is(hay@, needle@, from as int, hay.len() + 1);
        }
    }
    assert forall|j: int| from <= j implies !occurs_at(hay@, needle@, j) by {
        if j < i {
        } else if j == i {
        }
    }
    None
}

/// Whether `needle` occurs in `hay`.
pub fn contains_exec(hay: &[char], needle: &[char]) -> (r: bool)
    ensures
        r == contains(hay@, needle@),
{
    match find_seq(hay, needle, 0) {
        Some(i) => true,
        None => {
            assert forall|j: int| !occurs_at(hay@, needle@, j) by {
                if j < 0 {
                }
            }
            false
        },
    }
}

/// The lines of `s`, as `str::lines` yields them.
pub fn split_lines(s: &[char]) -> (r: Vec<Vec<char>>)
    ensures
        views(r@) == lines(s@),
{
    let mut r: Vec<Vec<char>> = Vec::new();
    let mut start: usize = 0;
    let mut i: usize = 0;
    while i < s.len()
        invariant
            start <= i <= s.len(),
            forall|j: int| start <= j < i ==> s@[j] != '\n',
            views(r@) + lines_from(s@, start as int) == lines(s@),
        decreases s.len() - i,
    {
        if s[i] == '\n' {
            proof {
                lemma_find_from_is(s@, '\n', start as int, i as int);
            }
            let mut line = slice_of(s, start, i);
            if line.len() > 0 && line[line.len() - 1] == '\r' {
                line.pop();
            }
            assert(line@ == strip_cr(s@.subrange(start as int, i as int)));
            let ghost before = r@;
            r.push(line);
            assert(views(r@) =~= views(before).push(line@));
            assert(lines_from(s@, start as int) == seq![line@] + lines_from(s@, i + 1));
            assert(views(r@) + lines_from(s@, i + 1) =~= views(before) + lines_from(
                s@,
                start as int,
            ));
            start = i + 1;
        }
        i += 1;
    }
    if start < s.len() {
        proof {
            lemma_find_from_is(s@, '\n', start as int, s.len() as int);
        }
        let line = slice_of(s, start, s.len());
        let ghost before = r@;
        r.push(line);
        assert(views(r@) =~= views(before).push(line@));
        assert(views(r@) =~= views(before) + lines_from(s@, start as int));
    } else {
        assert(views(r@) =~= views(r@) + lines_from(s@, start as int));
    }
    r
}


// ---------------------------------------------------------------------------
// Prefixes, suffixes, separators and ASCII case
// ---------------------------------------------------------------------------

pub open spec fn starts_with(s: Seq<char>, prefix: Seq<char>) -> bool {
    occurs_at(s, prefix, 0)
}

pub open spec fn ends_with(s: Seq<char>, suffix: Seq<char>) -> bool {
    occurs_at(s, suffix, s.len() - suffix.len())
}

/// Equal up to ASCII case, as `str::eq_ignore_ascii_case` compares.
pub open spec fn eq_ignore_case(a: Seq<char>, b: Seq<char>) -> bool {
    lower(a) =~= lower(b)
}

pub open spec fn is_separator(c: char) -> bool {
    c == '-' || c == '_' || c == ' '
}

/// `s` without its `-`, `_` and space characters.
pub open spec fn strip_separators(s: Seq<char>) -> Seq<char>
    decreases s.len(),
{
    if s.len() == 0 {
        s
    } else if is_separator(s.last()) {
        strip_separators(s.drop_last())
    } else {
        strip_separators(s.drop_last()).push(s.last())
    }
}

pub fn starts_with_exec(s: &[char], prefix: &[char]) -> (r: bool)
    ensures
        r == starts_with(s@, prefix@),
{
    occurs_at_exec(s, prefix, 0)
}

pub fn ends_with_exec(s: &[char], suffix: &[char]) -> (r: bool)
    ensures
        r == ends_with(s@, suffix@),
{
    if suffix.len() > s.len() {
        return false;
    }
    occurs_at_exec(s, suffix, s.len() - suffix.len())
}

/// Whether `a` and `b` are equal up to ASCII case.
pub fn eq_ignore_case_exec(a: &[char], b: &[char]) -> (r: bool)
    ensures
        r == eq_ignore_case(a@, b@),
{
    let la = lower_of(a);
    let lb = lower_of(b);
    if la.len() != lb.len() {
        return false;
    }
    let mut i: usize = 0;
    while i < la.len()
        invariant
            i <= la.len(),
            la.len() == lb.len(),
            la@ == lower(a@),
            lb@ == lower(b@),
            forall|k: int| 0 <= k < i ==> la@[k] == lb@[k],
        decreases la.len() - i,
    {
        if la[i] != lb[i] {
            return false;
        }
        i += 1;
    }
    assert(la@ =~= lb@);
    true
}

/// `s` without its `-`, `_` and space characters.
pub fn strip_separators_of(s: &[char]) -> (r: Vec<char>)
    ensures
        r@ == strip_separators(s@),
{
    let mut r: Vec<char> = Vec::new();
    let mut i: usize = 0;
    while i < s.len()
        invariant
            i <= s.len(),
            r@ == strip_separators(s@.take(i as int)),
        decreases s.len() - i,
    {
        proof {
            assert(s@.take(i + 1).drop_last() =~= s@.take(i as int));
        }
        let c = s[i];
        if !(c == '-' || c == '_' || c == ' ') {
            r.push(c);
        }
        i += 1;
    }
    assert(s@.take(i as int) =~= s@);
    r
}

// ---------------------------------------------------------------------------
// Replacing
// ---------------------------------------------------------------------------

/// `rep` before, between and after the characters of `s`, which is what
/// `str::replace` makes of an empty pattern.
pub open spec fn interleave(s: Seq<char>, rep: Seq<char>) -> Seq<char>
    decreases s.len(),
{
    if s.len() == 0 {
        rep
    } else {
        interleave(s.drop_last(), rep) + seq![s.last()] + rep
    }
}

/// `s` from `i` on with the occurrences of the non-empty `pat`, found left to
/// right without overlapping, replaced by `rep`.
pub open spec fn replace_from(s: Seq<char>, pat: Seq<char>, rep: Seq<char>, i: int) -> Seq<char>
    decreases s.len() - i,
{
    if i < 0 || i >= s.len() || pat.len() == 0 {
        if 0 <= i <= s.len() {
            s.subrange(i, s.len() as int)
        } else {
            Seq::empty()
        }
    } else if occurs_at(s, pat, i) {
        rep + replace_from(s, pat, rep, i + pat.len())
    } else {
        seq![s[i]] + replace_from(s, pat, rep, i + 1)
    }
}

/// What `str::replace(s, pat, rep)` returns.
pub open spec fn replace_all(s: Seq<char>, pat: Seq<char>, rep: Seq<char>) -> Seq<char> {
    if pat.len() == 0 {
        interleave(s, rep)
    } else {
        replace_from(s, pat, rep, 0)
    }
}

/// `s` with every occurrence of `pat` replaced by `rep`, as `str::replace`.
pub fn replace_all_of(s: &[char], pat: &[char], rep: &[char]) -> (r: Vec<char>)
    ensures
        r@ == replace_all(s@, pat@, rep@),
{
    let mut out: Vec<char> = Vec::new();
    if pat.len() == 0 {
        push_chars(&mut out, rep);
        let mut i: usize = 0;
        while i < s.len()
            invariant
                i <= s.len(),
                out@ == interleave(s@.take(i as int), rep@),
            decreases s.len() - i,
        {
            proof {
                assert(s@.take(i + 1).drop_last() =~= s@.take(i as int));
            }
            out.push(s[i]);
            push_chars(&mut out, rep);
            i += 1;
        }
        assert(s@.take(i as int) =~= s@);
        return out;
    }
    let mut i: usize = 0;
    while i < s.len()
        invariant
            i <= s.len(),
            pat.len() > 0,
            out@ + replace_from(s@, pat@, rep@, i as int) == replace_from(s@, pat@, rep@, 0),
        decreases s.len() - i,
    {
        if occurs_at_exec(s, pat, i) {
            let ghost before = out@;
            push_chars(&mut out, rep);
            assert(out@ + replace_from(s@, pat@, rep@, i + pat.len()) =~= before + replace_from(
                s@,
                pat@,
                rep@,
                i as int,
            ));
            i += pat.len();
        } else {
            let ghost before = out@;
            out.push(s[i]);
            assert(out@ + replace_from(s@, pat@, rep@, i + 1) =~= before + replace_from(
                s@,
                pat@,
                rep@,
                i as int,
            ));
            i += 1;
        }
    }
    assert(out@ + replace_from(s@, pat@, rep@, i as int) =~= out@);
    out
}

/// Appends the characters of `s` to `out`.
pub fn push_chars(out: &mut Vec<char>, s: &[char])
    ensures
        final(out)@ == old(out)@ + s@,
{
    let mut i: usize = 0;
    while i < s.len()
        invariant
            i <= s.len(),
            out@ == old(out)@ + s@.take(i as int),
        decreases s.len() - i,
    {
        out.push(s[i]);
        i += 1;
        assert(out@ =~= old(out)@ + s@.take(i as int));
    }
    assert(s@.take(i as int) =~= s@);
}

/// Whether two texts hold the same characters.
pub fn same_chars(a: &[char], b: &[char]) -> (r: bool)
    ensures
        r == (a@ == b@),
{
    if a.len() != b.len() {
        return false;
    }
    let mut i: usize = 0;
    while i < a.len()
        invariant
            i <= a.len(),
            a.len() == b.len(),
            forall|k: int| 0 <= k < i ==> a@[k] == b@[k],
        decreases a.len() - i,
    {
        if a[i] != b[i] {
            return false;
        }
        i += 1;
    }
    assert(a@ =~= b@);
    true
}

} // verus!
