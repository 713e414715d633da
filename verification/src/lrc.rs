//! LRC lyrics: timestamp tags, timed lines, the synced/plain distinction,
//! title matching and the audit that flags suspicious lyric files.
//!
//! Times are whole milliseconds. A tag is `[m:s]`: `m` is a decimal count of
//! minutes (an optional `+`, then digits, at most `u64::MAX`), `s` is a
//! finite decimal number of seconds from 0 up to (not including) 60, written
//! as `f64::from_str` reads one (an optional sign, digits with at most one
//! `.`, an optional exponent such as `e1` or `E-2`); the time is rounded to
//! the nearest millisecond.
use vstd::prelude::*;
use crate::text::{
    chars_of, contains, contains_exec, find_char, find_from, find_seq, first_occurrence,
    is_alphanumeric_char, is_ascii_alphanumeric, is_ascii_digit, is_blank, is_digit_char,
    lemma_find_from_bounds, lines, lower, lower_char, lower_char_of, lower_of, slice_of,
    split_lines, string_of, trim, trim_of, views,
};

verus! {

// ---------------------------------------------------------------------------
// Numbers
// ---------------------------------------------------------------------------

pub open spec fn digit_value(c: char) -> nat {
    ((c as u32) - 0x30) as nat
}

pub open spec fn all_digits(s: Seq<char>) -> bool {
    forall|i: int| 0 <= i < s.len() ==> is_ascii_digit(#[trigger] s[i])
}

/// The value of a string of decimal digits; 0 for the empty string.
pub open spec fn digits_value(s: Seq<char>) -> nat
    decreases s.len(),
{
    if s.len() == 0 {
        0
    } else {
        digits_value(s.drop_last()) * 10 + digit_value(s.last())
    }
}

/// `s` without one leading `+`.
pub open spec fn unsigned_body(s: Seq<char>) -> Seq<char> {
    if s.len() > 0 && s[0] == '+' {
        s.drop_first()
    } else {
        s
    }
}

/// What `u64::from_str` reads from `s`.
pub open spec fn parse_u64(s: Seq<char>) -> Option<u64> {
    let body = unsigned_body(s);
    if body.len() > 0 && all_digits(body) && digits_value(body) <= u64::MAX {
        Some(digits_value(body) as u64)
    } else {
        None
    }
}

/// 10 to the power `e`.
pub open spec fn ten_pow(e: nat) -> nat
    decreases e,
{
    if e == 0 {
        1
    } else {
        10 * ten_pow((e - 1) as nat)
    }
}

/// `s` without one leading sign, and whether that sign was `-`.
pub open spec fn sign_split(s: Seq<char>) -> (bool, Seq<char>) {
    if s.len() > 0 && (s[0] == '+' || s[0] == '-') {
        (s[0] == '-', s.drop_first())
    } else {
        (false, s)
    }
}

/// The value of an exponent: an optional sign, then at least one digit.
pub open spec fn exponent_value(s: Seq<char>) -> Option<int> {
    let (neg, digits) = sign_split(s);
    if digits.len() > 0 && all_digits(digits) {
        Some(if neg { -(digits_value(digits) as int) } else { digits_value(digits) as int })
    } else {
        None
    }
}

/// Where the exponent mark (`e` or `E`) of `s` stands: its first one, or
/// `s.len()` when there is none.
pub open spec fn exponent_mark(s: Seq<char>) -> int {
    let lower_e = find_from(s, 'e', 0);
    let upper_e = find_from(s, 'E', 0);
    if lower_e <= upper_e {
        lower_e
    } else {
        upper_e
    }
}

/// A decimal number written as `f64::from_str` reads finite numbers: an
/// optional sign; digits with at most one `.` and at least one digit in
/// all; then optionally `e` or `E`, an optional sign and at least one digit.
/// Gives whether it is negative, all its digits read as one integer `m`,
/// and the power of ten `e` that scales it: its value is `m × 10^e`.
pub open spec fn decimal_parts(s: Seq<char>) -> Option<(bool, nat, int)> {
    let (neg, body) = sign_split(s);
    let mark = exponent_mark(body);
    let mantissa = body.subrange(0, mark);
    let dot = find_from(mantissa, '.', 0);
    let int_part = mantissa.subrange(0, dot);
    let frac = if dot < mantissa.len() {
        mantissa.subrange(dot + 1, mantissa.len() as int)
    } else {
        Seq::<char>::empty()
    };
    let exponent = if mark < body.len() {
        exponent_value(body.subrange(mark + 1, body.len() as int))
    } else {
        Some(0int)
    };
    if all_digits(int_part) && all_digits(frac) && int_part.len() + frac.len() > 0 && exponent is Some {
        Some((neg, digits_value(int_part + frac), exponent->0 - frac.len()))
    } else {
        None
    }
}

/// Whether `m × 10^e` is below 60.
pub open spec fn below_sixty(m: nat, e: int) -> bool {
    if e >= 0 {
        m * ten_pow(e as nat) < 60
    } else {
        m < 60 * ten_pow((-e) as nat)
    }
}

/// `m × 10^e` seconds in milliseconds, rounded to the nearest (halves up).
pub open spec fn rounded_ms(m: nat, e: int) -> nat {
    let k = e + 3;
    if k >= 0 {
        m * ten_pow(k as nat)
    } else {
        ((2 * m + ten_pow((-k) as nat)) / (2 * ten_pow((-k) as nat))) as nat
    }
}

/// Milliseconds of a seconds field: a finite decimal number at least 0
/// (`-0` counts) and below 60, or `None`.
pub open spec fn seconds_ms(s: Seq<char>) -> Option<nat> {
    match decimal_parts(s) {
        Some((neg, m, e)) => if (m == 0 || !neg) && below_sixty(m, e) {
            Some(rounded_ms(m, e))
        } else {
            None
        },
        None => None,
    }
}

/// The time of a tag's contents `m:s`, in milliseconds.
pub open spec fn timestamp_ms(tag: Seq<char>) -> Option<u128> {
    let colon = find_from(tag, ':', 0);
    if colon >= tag.len() {
        None
    } else {
        match (parse_u64(tag.subrange(0, colon)), seconds_ms(tag.subrange(colon + 1, tag.len() as int))) {
            (Some(m), Some(sec)) => Some((m * 60000 + sec) as u128),
            _ => None,
        }
    }
}

// ---------------------------------------------------------------------------
// Tags, lines and sorting
// ---------------------------------------------------------------------------

/// The contents of the `[..]` tags of `line` from index `i` on, read left to
/// right: each tag runs from a `[` to the next `]`; scanning stops at a `[`
/// that is never closed.
pub open spec fn tags_from(line: Seq<char>, i: int) -> Seq<Seq<char>>
    decreases line.len() - i,
{
    if i < 0 || i >= line.len() {
        Seq::empty()
    } else {
        let open = find_from(line, '[', i);
        proof {
            lemma_find_from_bounds(line, '[', i);
        }
        if open >= line.len() {
            Seq::empty()
        } else {
            let close = find_from(line, ']', open);
            proof {
                lemma_find_from_bounds(line, ']', open);
            }
            if close >= line.len() {
                Seq::empty()
            } else {
                seq![line.subrange(open + 1, close)] + tags_from(line, close + 1)
            }
        }
    }
}

/// The times of the tags that read as times, in order.
pub open spec fn tag_times(tags: Seq<Seq<char>>) -> Seq<u128>
    decreases tags.len(),
{
    if tags.len() == 0 {
        Seq::empty()
    } else {
        let rest = tag_times(tags.drop_last());
        match timestamp_ms(tags.last()) {
            Some(t) => rest.push(t),
            None => rest,
        }
    }
}

/// The times of all tags of the given lines, line by line.
pub open spec fn lines_times(ls: Seq<Seq<char>>) -> Seq<u128>
    decreases ls.len(),
{
    if ls.len() == 0 {
        Seq::empty()
    } else {
        lines_times(ls.drop_last()) + tag_times(tags_from(ls.last(), 0))
    }
}

/// `s` with `x` inserted after every element not greater than it.
pub open spec fn insert_asc(s: Seq<u128>, x: u128) -> Seq<u128>
    decreases s.len(),
{
    if s.len() == 0 || s.last() <= x {
        s.push(x)
    } else {
        insert_asc(s.drop_last(), x).push(s.last())
    }
}

/// `s` in ascending order.
pub open spec fn sort_asc(s: Seq<u128>) -> Seq<u128>
    decreases s.len(),
{
    if s.len() == 0 {
        s
    } else {
        insert_asc(sort_asc(s.drop_last()), s.last())
    }
}

/// Every time tag of `text`, in ascending order.
pub open spec fn timestamps(text: Seq<char>) -> Seq<u128> {
    sort_asc(lines_times(lines(text)))
}

/// Synchronized lyrics carry at least three time tags.
pub open spec fn synced(text: Seq<char>) -> bool {
    timestamps(text).len() >= 3
}

pub open spec fn sorted_asc(s: Seq<u128>) -> bool {
    forall|i: int, j: int| 0 <= i <= j < s.len() ==> s[i] <= s[j]
}

// ---------------------------------------------------------------------------
// Lemmas
// ---------------------------------------------------------------------------

proof fn lemma_digits_monotone(s: Seq<char>, j: int, k: int)
    requires
        0 <= j <= k <= s.len(),
    ensures
        digits_value(s.take(j)) <= digits_value(s.take(k)),
    decreases k - j,
{
    if j < k {
        lemma_digits_monotone(s, j, k - 1);
        assert(s.take(k).drop_last() =~= s.take(k - 1));
    }
}

proof fn lemma_ten_pow_add(a: nat, b: nat)
    ensures
        ten_pow(a + b) == ten_pow(a) * ten_pow(b),
        ten_pow(a) >= 1,
    decreases a,
{
    if a > 0 {
        let a1 = (a - 1) as nat;
        lemma_ten_pow_add(a1, b);
        assert(ten_pow(a) == 10 * ten_pow(a1));
        assert(((a + b) - 1) as nat == a1 + b);
        assert(ten_pow(a + b) == 10 * ten_pow(a1 + b));
        assert(10 * (ten_pow(a1) * ten_pow(b)) == (10 * ten_pow(a1)) * ten_pow(b)) by (nonlinear_arith);
    } else {
        assert(a + b == b);
        assert(ten_pow(a) == 1);
    }
}

proof fn lemma_ten_pow_mono(a: nat, b: nat)
    requires
        a <= b,
    ensures
        ten_pow(a) <= ten_pow(b),
{
    lemma_ten_pow_add(a, (b - a) as nat);
    lemma_ten_pow_add((b - a) as nat, 0);
    assert(ten_pow(a) * ten_pow((b - a) as nat) >= ten_pow(a)) by (nonlinear_arith)
        requires
            ten_pow((b - a) as nat) >= 1,
    ;
}

/// The digits of `a` then `b` read as one number.
proof fn lemma_digits_concat(a: Seq<char>, b: Seq<char>)
    ensures
        digits_value(a + b) == digits_value(a) * ten_pow(b.len()) + digits_value(b),
    decreases b.len(),
{
    if b.len() == 0 {
        assert(a + b =~= a);
        assert(ten_pow(b.len()) == 1);
        assert(digits_value(b) == 0);
        assert(digits_value(a) * 1 == digits_value(a));
    } else {
        let b1 = b.drop_last();
        lemma_digits_concat(a, b1);
        assert((a + b).drop_last() =~= a + b1);
        assert((a + b).last() == b.last());
        let x = digits_value(a);
        let y = ten_pow(b1.len());
        let z = digits_value(b1);
        let dl = digit_value(b.last());
        assert(ten_pow(b.len()) == 10 * y);
        assert(digits_value(a + b) == digits_value(a + b1) * 10 + dl);
        assert(digits_value(a + b1) == x * y + z);
        assert(digits_value(b) == z * 10 + dl);
        assert(digits_value(a + b) == x * ten_pow(b.len()) + digits_value(b)) by (nonlinear_arith)
            requires
                digits_value(a + b) == (x * y + z) * 10 + dl,
                ten_pow(b.len()) == 10 * y,
                digits_value(b) == z * 10 + dl,
        ;
    }
}

/// A string of `n` digits reads below `10^n`.
proof fn lemma_digits_bound(s: Seq<char>)
    requires
        all_digits(s),
    ensures
        digits_value(s) < ten_pow(s.len()),
    decreases s.len(),
{
    if s.len() > 0 {
        let t = s.drop_last();
        assert(all_digits(t)) by {
            assert forall|i: int| 0 <= i < t.len() implies is_ascii_digit(#[trigger] t[i]) by {
                assert(t[i] == s[i]);
            }
        }
        lemma_digits_bound(t);
        assert(is_ascii_digit(s[s.len() - 1]));
        assert(digit_value(s.last()) <= 9);
        assert(digits_value(t) * 10 + digit_value(s.last()) < 10 * ten_pow(t.len())) by (nonlinear_arith)
            requires
                digits_value(t) < ten_pow(t.len()),
                digit_value(s.last()) <= 9,
        ;
    }
}

/// Zeros read as 0.
proof fn lemma_zeros_value(s: Seq<char>)
    requires
        forall|i: int| 0 <= i < s.len() ==> digit_value(#[trigger] s[i]) == 0,
    ensures
        digits_value(s) == 0,
    decreases s.len(),
{
    if s.len() > 0 {
        lemma_zeros_value(s.drop_last());
    }
}

/// A string of digits read through its first digit.
proof fn lemma_leading_digit(s: Seq<char>)
    requires
        all_digits(s),
        s.len() >= 1,
    ensures
        digit_value(s[0]) <= 9,
        digits_value(s) == digit_value(s[0]) * ten_pow((s.len() - 1) as nat) + digits_value(s.skip(1)),
        digits_value(s.skip(1)) < ten_pow((s.len() - 1) as nat),
{
    assert(is_ascii_digit(s[0]));
    lemma_digits_concat(s.take(1), s.skip(1));
    assert(s.take(1) + s.skip(1) =~= s);
    assert(s.take(1).drop_last() =~= Seq::<char>::empty());
    assert(s.take(1).last() == s[0]);
    assert(digits_value(Seq::<char>::empty()) == 0);
    assert(digits_value(s.take(1)) == digits_value(s.take(1).drop_last()) * 10 + digit_value(s[0]));
    assert(digits_value(s.take(1)) == digit_value(s[0]));
    let t = s.skip(1);
    assert(all_digits(t)) by {
        assert forall|i: int| 0 <= i < t.len() implies is_ascii_digit(#[trigger] t[i]) by {
            assert(t[i] == s[i + 1]);
        }
    }
    lemma_digits_bound(t);
}

/// How a number of `len` significant digits, first digit `d0`, compares
/// with 60 once scaled by `10^e`.
proof fn lemma_below_sixty(m: nat, d0: nat, len: nat, e: int)
    requires
        len >= 1,
        1 <= d0 <= 9,
        d0 * ten_pow((len - 1) as nat) <= m < (d0 + 1) * ten_pow((len - 1) as nat),
    ensures
        len + e >= 3 ==> !below_sixty(m, e),
        len + e <= 1 ==> below_sixty(m, e),
        len + e == 2 ==> (below_sixty(m, e) <==> d0 <= 5),
{
    let p = ten_pow((len - 1) as nat);
    lemma_ten_pow_add(0, 0);
    assert(ten_pow(1) == 10);
    assert(ten_pow(2) == 100) by {
        assert(ten_pow(2) == 10 * ten_pow(1));
    }
    if e >= 0 {
        let q = ten_pow(e as nat);
        lemma_ten_pow_add(e as nat, 0);
        lemma_ten_pow_add((len - 1) as nat, e as nat);
        let r = ten_pow((len - 1 + e) as nat);
        assert(r == p * q);
        assert(d0 * r <= m * q < (d0 + 1) * r) by (nonlinear_arith)
            requires
                d0 * p <= m < (d0 + 1) * p,
                r == p * q,
                q >= 1,
        ;
        if len + e >= 3 {
            lemma_ten_pow_mono(2, (len - 1 + e) as nat);
            assert(d0 * r >= r) by (nonlinear_arith)
                requires
                    d0 >= 1,
            ;
        } else if len + e <= 1 {
            assert((len - 1 + e) as nat == 0);
            assert((d0 + 1) * r <= 10 * r) by (nonlinear_arith)
                requires
                    d0 <= 9,
            ;
        } else {
            assert((len - 1 + e) as nat == 1);
        }
    } else {
        let q = ten_pow((-e) as nat);
        lemma_ten_pow_add((-e) as nat, 0);
        if len + e >= 3 {
            lemma_ten_pow_add((len - 1 + e) as nat, (-e) as nat);
            assert(((len - 1 + e) as nat + (-e) as nat) as nat == (len - 1) as nat);
            lemma_ten_pow_mono(2, (len - 1 + e) as nat);
            assert(m >= 60 * q) by (nonlinear_arith)
                requires
                    d0 * p <= m,
                    d0 >= 1,
                    p == ten_pow((len - 1 + e) as nat) * q,
                    ten_pow((len - 1 + e) as nat) >= 100,
                    q >= 1,
            ;
        } else if len + e <= 1 {
            lemma_ten_pow_mono(len, (1 - e) as nat);
            lemma_ten_pow_add(1, (-e) as nat);
            assert(((1 as nat) + (-e) as nat) as nat == (1 - e) as nat);
            lemma_ten_pow_add((len - 1) as nat, 1);
            assert((((len - 1) as nat) + 1) as nat == len);
            assert(m < 60 * q) by (nonlinear_arith)
                requires
                    m < (d0 + 1) * p,
                    d0 <= 9,
                    p * 10 == ten_pow(len),
                    ten_pow(len) <= 10 * q,
            ;
        } else {
            lemma_ten_pow_add(1, (-e) as nat);
            assert(((1 as nat) + (-e) as nat) as nat == (len - 1) as nat);
            assert(p == 10 * q);
            assert(m < 60 * q <==> d0 <= 5) by (nonlinear_arith)
                requires
                    d0 * p <= m < (d0 + 1) * p,
                    p == 10 * q,
                    q >= 1,
            ;
        }
    }
}

/// `(y * d + x) / d` for `0 <= x < d`.
proof fn lemma_div_split(y: int, d: int, x: int)
    requires
        d > 0,
        0 <= x < d,
    ensures
        (y * d + x) / d == y,
{
    vstd::arithmetic::div_mod::lemma_fundamental_div_mod_converse(y * d + x, d, y, x);
}

/// Rounding `m × 10^e` seconds to milliseconds when `10^-(e + 3)` leaves
/// `j` of the `len` digits of `digits` before the point.
proof fn lemma_rounded_ms(digits: Seq<char>, e: int)
    requires
        all_digits(digits),
        digits.len() >= 1,
        e + 3 < 0,
        digits.len() + e + 3 >= 0,
    ensures
        ({
            let j = digits.len() + e + 3;
            rounded_ms(digits_value(digits), e) == digits_value(digits.take(j)) + if digit_value(digits[j]) >= 5 {
                1nat
            } else {
                0nat
            }
        }),
{
    let j = digits.len() + e + 3;
    let k = (-(e + 3)) as nat;
    let a = digits.take(j);
    let b = digits.skip(j);
    assert(a + b =~= digits);
    lemma_digits_concat(a, b);
    assert(b.len() == k);
    assert(all_digits(b)) by {
        assert forall|i: int| 0 <= i < b.len() implies is_ascii_digit(#[trigger] b[i]) by {
            assert(b[i] == digits[i + j]);
        }
    }
    lemma_leading_digit(b);
    assert(b[0] == digits[j]);
    let q = ten_pow((k - 1) as nat);
    let t = ten_pow(k);
    assert(t == 10 * q);
    lemma_ten_pow_add((k - 1) as nat, 0);
    lemma_ten_pow_add(k, 0);
    let pa = digits_value(a);
    let r = digits_value(b);
    let b0 = digit_value(b[0]);
    let rest = digits_value(b.skip(1));
    assert(r == b0 * q + rest);
    assert(2 * digits_value(digits) + t == pa * (2 * t) + (2 * r + t)) by (nonlinear_arith)
        requires
            digits_value(digits) == pa * t + r,
    ;
    if b0 >= 5 {
        assert(2 * t <= 2 * r + t < 4 * t) by (nonlinear_arith)
            requires
                r == b0 * q + rest,
                rest < q,
                5 <= b0 <= 9,
                t == 10 * q,
        ;
        assert(pa * (2 * t) + (2 * r + t) == (pa + 1) * (2 * t) + (2 * r + t - 2 * t)) by (nonlinear_arith);
        lemma_div_split((pa + 1) as int, (2 * t) as int, 2 * r + t - 2 * t);
    } else {
        assert(0 <= 2 * r + t < 2 * t) by (nonlinear_arith)
            requires
                r == b0 * q + rest,
                rest < q,
                b0 <= 4,
                t == 10 * q,
        ;
        lemma_div_split(pa as int, (2 * t) as int, (2 * r + t) as int);
    }
}

/// Rounding to milliseconds leaves nothing of a value far below one.
proof fn lemma_rounded_ms_tiny(m: nat, len: nat, e: int)
    requires
        m < ten_pow(len),
        len + e + 3 < 0,
    ensures
        rounded_ms(m, e) == 0,
{
    let k = (-(e + 3)) as nat;
    let q = ten_pow((k - 1) as nat);
    let t = ten_pow(k);
    assert(t == 10 * q);
    lemma_ten_pow_mono(len, (k - 1) as nat);
    lemma_ten_pow_add((k - 1) as nat, 0);
    assert(0 * (2 * t) + (2 * m + t) == 2 * m + t);
    assert(0 <= 2 * m + t < 2 * t) by (nonlinear_arith)
        requires
            m < q,
            t == 10 * q,
    ;
    lemma_div_split(0, (2 * t) as int, (2 * m + t) as int);
}

/// Inserting at the first position from the back whose predecessor is not
/// greater than `x`.
proof fn lemma_insert_asc_at(s: Seq<u128>, x: u128, j: int)
    requires
        0 <= j <= s.len(),
        forall|k: int| j <= k < s.len() ==> s[k] > x,
        j == 0 || s[j - 1] <= x,
    ensures
        insert_asc(s, x) =~= s.take(j).push(x) + s.skip(j),
    decreases s.len(),
{
    if s.len() == 0 || s.last() <= x {
        if j < s.len() {
            assert(s[s.len() - 1] > x);
        }
        assert(s.skip(j) =~= Seq::<u128>::empty());
        assert(s.take(j) =~= s);
    } else {
        lemma_insert_asc_at(s.drop_last(), x, j);
        assert(s.drop_last().take(j) =~= s.take(j));
        assert(s.drop_last().skip(j).push(s.last()) =~= s.skip(j));
    }
}

/// `insert_asc` keeps a sorted sequence sorted and adds exactly `x`.
pub proof fn lemma_insert_asc_sorted(s: Seq<u128>, x: u128)
    requires
        sorted_asc(s),
    ensures
        sorted_asc(insert_asc(s, x)),
        insert_asc(s, x).len() == s.len() + 1,
        insert_asc(s, x).to_multiset() =~= s.to_multiset().insert(x),
    decreases s.len(),
{
    broadcast use vstd::seq_lib::group_to_multiset_ensures;
    if s.len() == 0 || s.last() <= x {
    } else {
        let t = s.drop_last();
        assert(sorted_asc(t));
        lemma_insert_asc_sorted(t, x);
        let u = insert_asc(t, x);
        assert forall|i: int| 0 <= i < u.len() implies u[i] <= s.last() by {
            assert(u.to_multiset().contains(u[i]));
            assert(t.to_multiset().insert(x).contains(u[i]));
            if u[i] != x {
                assert(t.to_multiset().contains(u[i]));
                assert(t.contains(u[i]));
            }
        }
        assert(s =~= t.push(s.last()));
    }
}

/// `sort_asc` sorts and keeps every element exactly as often.
pub proof fn lemma_sort_asc(s: Seq<u128>)
    ensures
        sorted_asc(sort_asc(s)),
        sort_asc(s).len() == s.len(),
        sort_asc(s).to_multiset() =~= s.to_multiset(),
    decreases s.len(),
{
    broadcast use vstd::seq_lib::group_to_multiset_ensures;
    if s.len() > 0 {
        lemma_sort_asc(s.drop_last());
        lemma_insert_asc_sorted(sort_asc(s.drop_last()), s.last());
        assert(s =~= s.drop_last().push(s.last()));
    }
}

// ---------------------------------------------------------------------------
// Executable parsing
// ---------------------------------------------------------------------------

/// Whether every character of `s` is a decimal digit.
pub fn all_digits_of(s: &[char]) -> (r: bool)
    ensures
        r == all_digits(s@),
{
    let mut j: usize = 0;
    while j < s.len()
        invariant
            j <= s.len(),
            forall|k: int| 0 <= k < j ==> is_ascii_digit(s@[k]),
        decreases s.len() - j,
    {
        if !is_digit_char(s[j]) {
            assert(!is_ascii_digit(s@[j as int]));
            return false;
        }
        j += 1;
    }
    true
}

/// The value of `s` when it is all decimal digits and fits in a `u64`.
pub fn digits_u64(s: &[char]) -> (r: Option<u64>)
    ensures
        r == (if all_digits(s@) && digits_value(s@) <= u64::MAX {
            Some(digits_value(s@) as u64)
        } else {
            None
        }),
{
    let mut acc: u64 = 0;
    let mut i: usize = 0;
    while i < s.len()
        invariant
            i <= s.len(),
            all_digits(s@.take(i as int)),
            acc == digits_value(s@.take(i as int)),
        decreases s.len() - i,
    {
        if !is_digit_char(s[i]) {
            assert(!is_ascii_digit(s@[i as int]));
            return None;
        }
        let d = (s[i] as u32 - 0x30) as u64;
        assert(s@.take(i + 1).drop_last() =~= s@.take(i as int));
        if acc > (u64::MAX - d) / 10 {
            proof {
                assert(digits_value(s@.take(i + 1)) == acc * 10 + d);
                assert(acc * 10 + d > u64::MAX) by (nonlinear_arith)
                    requires
                        acc > (u64::MAX - d) / 10,
                        d <= 9,
                ;
                lemma_digits_monotone(s@, i + 1, s.len() as int);
                assert(s@.take(s.len() as int) =~= s@);
            }
            return None;
        }
        assert(acc * 10 + d <= u64::MAX) by (nonlinear_arith)
            requires
                acc <= (u64::MAX - d) / 10,
                d <= 9,
        ;
        acc = acc * 10 + d;
        i += 1;
    }
    assert(s@.take(i as int) =~= s@);
    Some(acc)
}

/// What `u64::from_str` reads from `s`.
pub fn parse_u64_of(s: &[char]) -> (r: Option<u64>)
    ensures
        r == parse_u64(s@),
{
    let body = if s.len() > 0 && s[0] == '+' {
        slice_of(s, 1, s.len())
    } else {
        slice_of(s, 0, s.len())
    };
    assert(body@ =~= unsigned_body(s@));
    if body.len() == 0 {
        return None;
    }
    digits_u64(&body)
}

/// The value of a string of digits, or `None` once it reaches `2^66`
/// (beyond any exponent that can matter).
fn capped_digits(s: &[char]) -> (r: Option<u128>)
    requires
        all_digits(s@),
    ensures
        match r {
            Some(v) => v == digits_value(s@) && v < 0x4_0000_0000_0000_0000u128,
            None => digits_value(s@) >= 0x4_0000_0000_0000_0000u128,
        },
{
    let mut acc: u128 = 0;
    let mut i: usize = 0;
    while i < s.len()
        invariant
            i <= s.len(),
            all_digits(s@),
            acc == digits_value(s@.take(i as int)),
            acc < 0x4_0000_0000_0000_0000u128,
        decreases s.len() - i,
    {
        assert(is_ascii_digit(s@[i as int]));
        let d = (s[i] as u32 - 0x30) as u128;
        assert(s@.take(i + 1).drop_last() =~= s@.take(i as int));
        let next = acc * 10 + d;
        if next >= 0x4_0000_0000_0000_0000u128 {
            proof {
                lemma_digits_monotone(s@, i + 1, s.len() as int);
                assert(s@.take(s.len() as int) =~= s@);
            }
            return None;
        }
        acc = next;
        i += 1;
    }
    assert(s@.take(i as int) =~= s@);
    Some(acc)
}

/// `10^k` for a small `k`.
fn ten_pow_u64(k: u64) -> (r: u64)
    requires
        k <= 5,
    ensures
        r == ten_pow(k as nat),
{
    let mut acc: u64 = 1;
    let mut i: u64 = 0;
    while i < k
        invariant
            i <= k <= 5,
            acc == ten_pow(i as nat),
            acc <= 100000,
        decreases k - i,
    {
        proof {
            lemma_ten_pow_mono((i + 1) as nat, 5);
            assert(ten_pow(5) == 100000) by {
                reveal_with_fuel(ten_pow, 6);
            }
        }
        acc = acc * 10;
        i += 1;
    }
    acc
}

/// `s` split at a leading sign.
fn sign_split_of(s: &[char]) -> (r: (bool, Vec<char>))
    ensures
        (r.0, r.1@) == sign_split(s@),
{
    if s.len() > 0 && (s[0] == '+' || s[0] == '-') {
        let body = slice_of(s, 1, s.len());
        assert(body@ =~= s@.drop_first());
        (s[0] == '-', body)
    } else {
        let body = slice_of(s, 0, s.len());
        assert(body@ =~= s@);
        (false, body)
    }
}

/// The digits of `int_part` then `frac` without their leading zeros.
fn significant_digits(int_part: &[char], frac: &[char]) -> (r: Vec<char>)
    requires
        all_digits(int_part@),
        all_digits(frac@),
    ensures
        all_digits(r@),
        digits_value(r@) == digits_value(int_part@ + frac@),
        r@.len() > 0 ==> digit_value(r@[0]) >= 1,
{
    let mut all = slice_of(int_part, 0, int_part.len());
    crate::providers::push_all(&mut all, frac);
    assert(all@ =~= int_part@ + frac@);
    assert(all_digits(all@)) by {
        assert forall|i: int| 0 <= i < all@.len() implies is_ascii_digit(#[trigger] all@[i]) by {
            if i < int_part@.len() {
                assert(all@[i] == int_part@[i]);
            } else {
                assert(all@[i] == frac@[i - int_part@.len()]);
            }
        }
    }
    let mut z: usize = 0;
    while z < all.len() && (all[z] as u32) == 0x30
        invariant
            z <= all@.len(),
            forall|i: int| 0 <= i < z ==> digit_value(#[trigger] all@[i]) == 0,
        decreases all.len() - z,
    {
        z += 1;
    }
    let digits = slice_of(&all, z, all.len());
    proof {
        let zeros = all@.take(z as int);
        assert(zeros + digits@ =~= all@);
        lemma_digits_concat(zeros, digits@);
        assert forall|i: int| 0 <= i < zeros.len() implies digit_value(#[trigger] zeros[i]) == 0 by {
            assert(zeros[i] == all@[i]);
        }
        lemma_zeros_value(zeros);
        assert(0 * ten_pow(digits@.len()) == 0);
        assert(all_digits(digits@)) by {
            assert forall|i: int| 0 <= i < digits@.len() implies is_ascii_digit(#[trigger] digits@[i]) by {
                assert(digits@[i] == all@[i + z]);
            }
        }
        if digits@.len() > 0 {
            assert(digits@[0] == all@[z as int]);
            assert(is_ascii_digit(all@[z as int]));
        }
    }
    digits
}

/// Milliseconds of `digits × 10^e` seconds, when that is below 60, for
/// digits without leading zeros whose count plus `e` is `t`.
fn scaled_ms(digits: &[char], t: i128, Ghost(e): Ghost<int>) -> (r: Option<u64>)
    requires
        all_digits(digits@),
        digits@.len() >= 1,
        digit_value(digits@[0]) >= 1,
        t == digits@.len() + e,
    ensures
        below_sixty(digits_value(digits@), e) ==> r == Some(rounded_ms(digits_value(digits@), e) as u64)
            && rounded_ms(digits_value(digits@), e) <= 100000,
        !below_sixty(digits_value(digits@), e) ==> r is None,
{
    let len = digits.len();
    let ghost m = digits_value(digits@);
    proof {
        assert(is_ascii_digit(digits@[0]));
    }
    let d0 = (digits[0] as u32 - 0x30) as u64;
    proof {
        lemma_leading_digit(digits@);
        assert(d0 == digit_value(digits@[0]));
        assert(1 <= d0 <= 9);
        let p = ten_pow((len - 1) as nat);
        let rest = digits_value(digits@.skip(1));
        assert(d0 * p <= m < (d0 + 1) * p) by (nonlinear_arith)
            requires
                m == d0 * p + rest,
                rest < p,
        ;
        lemma_below_sixty(m, d0 as nat, len as nat, e);
        lemma_digits_bound(digits@);
        assert(ten_pow(5) == 100000) by {
            reveal_with_fuel(ten_pow, 6);
        }
    }
    if t >= 3 {
        return None;
    }
    if t == 2 && d0 >= 6 {
        return None;
    }
    let j: i128 = t + 3;
    if j < 0 {
        proof {
            lemma_rounded_ms_tiny(m, len as nat, e);
        }
        return Some(0);
    }
    if j >= len as i128 {
        let k = (j - len as i128) as u64;
        proof {
            lemma_ten_pow_mono(len as nat, 5);
        }
        let mv = match digits_u64(digits) {
            Some(v) => v,
            None => return None,
        };
        let scale = ten_pow_u64(k);
        proof {
            lemma_ten_pow_add(len as nat, k as nat);
            assert((len as nat + k as nat) as nat == j as nat);
            lemma_ten_pow_mono(j as nat, 5);
            assert(mv * scale < 100000) by (nonlinear_arith)
                requires
                    mv < ten_pow(len as nat),
                    ten_pow(len as nat) * scale == ten_pow(j as nat),
                    ten_pow(j as nat) <= 100000,
            ;
            assert(e + 3 == k);
        }
        Some(mv * scale)
    } else {
        let ju = j as usize;
        let head = slice_of(digits, 0, ju);
        proof {
            assert(head@ =~= digits@.take(ju as int));
            lemma_ten_pow_mono(ju as nat, 5);
            assert(all_digits(head@)) by {
                assert forall|i: int| 0 <= i < head@.len() implies is_ascii_digit(#[trigger] head@[i]) by {
                    assert(head@[i] == digits@[i]);
                }
            }
            lemma_digits_bound(head@);
            lemma_rounded_ms(digits@, e);
            assert(is_ascii_digit(digits@[ju as int]));
        }
        let pv = match digits_u64(&head) {
            Some(v) => v,
            None => return None,
        };
        let up: u64 = if (digits[ju] as u32 - 0x30) >= 5 { 1 } else { 0 };
        Some(pv + up)
    }
}

/// Milliseconds of a seconds field: a finite decimal number from 0 up to
/// (not including) 60, rounded to the nearest millisecond.
pub fn seconds_ms_of(s: &[char]) -> (r: Option<u64>)
    ensures
        match seconds_ms(s@) {
            Some(v) => r == Some(v as u64) && v <= 100000,
            None => r is None,
        },
{
    let (neg, body) = sign_split_of(s);
    let lower_e = find_char(&body, 'e', 0);
    let upper_e = find_char(&body, 'E', 0);
    proof {
        lemma_find_from_bounds(body@, 'e', 0);
        lemma_find_from_bounds(body@, 'E', 0);
    }
    let mark = if lower_e <= upper_e { lower_e } else { upper_e };
    let mantissa = slice_of(&body, 0, mark);
    let dot = find_char(&mantissa, '.', 0);
    proof {
        lemma_find_from_bounds(mantissa@, '.', 0);
    }
    let int_part = slice_of(&mantissa, 0, dot);
    let frac = if dot < mantissa.len() {
        slice_of(&mantissa, dot + 1, mantissa.len())
    } else {
        Vec::new()
    };
    assert(frac@ =~= (if dot < mantissa@.len() {
        mantissa@.subrange(dot + 1, mantissa@.len() as int)
    } else {
        Seq::<char>::empty()
    }));
    if !all_digits_of(&int_part) || !all_digits_of(&frac) || int_part.len() + frac.len() == 0 {
        return None;
    }
    let mut exp_neg = false;
    let mut exp_abs: u128 = 0;
    let mut exp_huge = false;
    let ghost mut exp_spec: int = 0;
    if mark < body.len() {
        let es = slice_of(&body, mark + 1, body.len());
        let (en, ed) = sign_split_of(&es);
        if ed.len() == 0 || !all_digits_of(&ed) {
            return None;
        }
        exp_neg = en;
        match capped_digits(&ed) {
            Some(v) => {
                exp_abs = v;
            },
            None => {
                exp_huge = true;
            },
        }
        proof {
            exp_spec = exponent_value(es@)->0;
        }
    }
    let ghost (sign, m, e) = decimal_parts(s@).unwrap();
    assert(decimal_parts(s@) is Some);
    assert(neg == sign);
    assert(e == exp_spec - frac@.len());
    let digits = significant_digits(&int_part, &frac);
    assert(m == digits_value(digits@));
    let len = digits.len();
    if len == 0 {
        proof {
            if e >= 0 {
                assert(0 * ten_pow(e as nat) == 0);
            } else {
                lemma_ten_pow_add((-e) as nat, 0);
            }
            assert(below_sixty(0, e));
            let k = e + 3;
            if k >= 0 {
                assert(0 * ten_pow(k as nat) == 0);
            } else {
                let kk = (-k) as nat;
                lemma_ten_pow_add(kk, 0);
                assert(0 * (2 * ten_pow(kk)) + ten_pow(kk) == ten_pow(kk));
                lemma_div_split(0, (2 * ten_pow(kk)) as int, ten_pow(kk) as int);
                assert(rounded_ms(0, e) == 0);
            }
        }
        return Some(0);
    }
    proof {
        lemma_leading_digit(digits@);
        lemma_ten_pow_add((len - 1) as nat, 0);
        assert(m >= 1) by (nonlinear_arith)
            requires
                m >= digit_value(digits@[0]) * ten_pow((len - 1) as nat),
                digit_value(digits@[0]) >= 1,
                ten_pow((len - 1) as nat) >= 1,
        ;
    }
    if neg {
        return None;
    }
    if exp_huge {
        proof {
            lemma_digits_bound(digits@);
            let d0 = digit_value(digits@[0]);
            let p = ten_pow((len - 1) as nat);
            let rest = digits_value(digits@.skip(1));
            assert(d0 * p <= m < (d0 + 1) * p) by (nonlinear_arith)
                requires
                    m == d0 * p + rest,
                    rest < p,
            ;
            lemma_below_sixty(m, d0, len as nat, e);
        }
        if !exp_neg {
            return None;
        } else {
            proof {
                lemma_rounded_ms_tiny(m, len as nat, e);
            }
            return Some(0);
        }
    }
    let t: i128 = (len as i128) + (if exp_neg { -(exp_abs as i128) } else { exp_abs as i128 }) - (frac.len() as i128);
    scaled_ms(&digits, t, Ghost(e))
}

/// The time of a tag's contents `m:s`, in milliseconds.
pub fn timestamp_of(tag: &[char]) -> (r: Option<u128>)
    ensures
        r == timestamp_ms(tag@),
{
    let colon = find_char(tag, ':', 0);
    proof {
        lemma_find_from_bounds(tag@, ':', 0);
    }
    if colon >= tag.len() {
        return None;
    }
    let minutes = parse_u64_of(&slice_of(tag, 0, colon));
    let seconds = seconds_ms_of(&slice_of(tag, colon + 1, tag.len()));
    match (minutes, seconds) {
        (Some(m), Some(sec)) => Some(m as u128 * 60000 + sec as u128),
        _ => None,
    }
}

/// Inserts `x` into the ascending `v` after every element not greater than it.
fn insert_sorted(v: &mut Vec<u128>, x: u128)
    ensures
        final(v)@ == insert_asc(old(v)@, x),
{
    let mut j = v.len();
    while j > 0 && v[j - 1] > x
        invariant
            j <= v.len(),
            forall|k: int| j <= k < v.len() ==> v@[k] > x,
        decreases j,
    {
        j -= 1;
    }
    proof {
        lemma_insert_asc_at(v@, x, j as int);
    }
    v.insert(j, x);
    assert(v@ =~= old(v)@.take(j as int).push(x) + old(v)@.skip(j as int));
}

/// The times of the tags of one line, in order, appended to `out`.
fn push_line_times(line: &[char], out: &mut Vec<u128>)
    ensures
        final(out)@ == old(out)@ + tag_times(tags_from(line@, 0)),
{
    let ghost start = out@;
    let ghost mut tags: Seq<Seq<char>> = Seq::empty();
    let mut i: usize = 0;
    proof {
        assert(tags_from(line@, 0) =~= tags + tags_from(line@, 0));
    }
    while i < line.len()
        invariant
            i <= line.len(),
            tags + tags_from(line@, i as int) == tags_from(line@, 0),
            out@ == start + tag_times(tags),
        ensures
            tags =~= tags_from(line@, 0),
            out@ == start + tag_times(tags),
        decreases line.len() - i,
    {
        let open = find_char(line, '[', i);
        proof {
            lemma_find_from_bounds(line@, '[', i as int);
        }
        if open >= line.len() {
            assert(tags_from(line@, i as int) =~= Seq::<Seq<char>>::empty());
            assert(tags =~= tags_from(line@, 0));
            break;
        }
        let close = find_char(line, ']', open);
        proof {
            lemma_find_from_bounds(line@, ']', open as int);
        }
        if close >= line.len() {
            assert(tags_from(line@, i as int) =~= Seq::<Seq<char>>::empty());
            assert(tags =~= tags_from(line@, 0));
            break;
        }
        let tag = slice_of(line, open + 1, close);
        let t = timestamp_of(&tag);
        proof {
            let new_tags = tags.push(tag@);
            assert(new_tags.drop_last() =~= tags);
            assert(tags_from(line@, i as int) =~= seq![tag@] + tags_from(line@, close + 1));
            assert(new_tags + tags_from(line@, close + 1) =~= tags + tags_from(line@, i as int));
            tags = new_tags;
        }
        if let Some(v) = t {
            out.push(v);
        }
        i = close + 1;
    }
}

/// Every time tag of `text`, in seconds-since-start milliseconds, ascending.
pub fn parse_timestamps(text: &str) -> (r: Vec<u128>)
    ensures
        r@ == timestamps(text@),
{
    let chars = chars_of(text);
    let ls = split_lines(&chars);
    let mut raw: Vec<u128> = Vec::new();
    let mut k: usize = 0;
    while k < ls.len()
        invariant
            k <= ls.len(),
            views(ls@) == lines(text@),
            raw@ == lines_times(views(ls@).take(k as int)),
        decreases ls.len() - k,
    {
        let ghost before = raw@;
        push_line_times(&ls[k], &mut raw);
        proof {
            let t = views(ls@).take(k + 1);
            assert(t.drop_last() =~= views(ls@).take(k as int));
            assert(t.last() == ls@[k as int]@);
        }
        k += 1;
    }
    assert(views(ls@).take(k as int) =~= views(ls@));
    let mut sorted: Vec<u128> = Vec::new();
    let mut i: usize = 0;
    while i < raw.len()
        invariant
            i <= raw.len(),
            sorted@ == sort_asc(raw@.take(i as int)),
        decreases raw.len() - i,
    {
        insert_sorted(&mut sorted, raw[i]);
        proof {
            let t = raw@.take(i + 1);
            assert(t.drop_last() =~= raw@.take(i as int));
        }
        i += 1;
    }
    assert(raw@.take(i as int) =~= raw@);
    sorted
}

/// Lyrics count as synchronized exactly when they carry at least three time
/// tags: what `is_synced` answers is whether `parse_timestamps` finds three.
pub proof fn synced_means_three_time_tags(text: Seq<char>)
    ensures
        synced(text) == (timestamps(text).len() >= 3),
{
}

/// Whether `text` is synchronized lyrics: at least three time tags.
pub fn is_synced(text: &str) -> (r: bool)
    ensures
        r == synced(text@),
{
    parse_timestamps(text).len() >= 3
}

/// Laws of the timestamp list: ascending, and holding every tag's time
/// exactly as often as the text does.
pub proof fn timestamps_are_sorted(text: Seq<char>)
    ensures
        sorted_asc(timestamps(text)),
        timestamps(text).to_multiset() =~= lines_times(lines(text)).to_multiset(),
{
    lemma_sort_asc(lines_times(lines(text)));
}

// ---------------------------------------------------------------------------
// Timed lines
// ---------------------------------------------------------------------------

/// One line of synchronized lyrics: the time its tag gives and its text.
pub struct LrcLine {
    pub timestamp_ms: u128,
    pub text: String,
}

impl View for LrcLine {
    type V = (u128, Seq<char>);

    open spec fn view(&self) -> (u128, Seq<char>) {
        (self.timestamp_ms, self.text@)
    }
}

pub open spec fn lrc_views(v: Seq<LrcLine>) -> Seq<(u128, Seq<char>)> {
    Seq::new(v.len(), |i: int| v[i]@)
}

/// The timed entry of one line: the tag that runs from its first character
/// to its first `]`, read as a time, and the rest of the line trimmed. A
/// line that starts with its `]`, or with a character longer than one byte,
/// has none.
pub open spec fn line_entry(line: Seq<char>) -> Option<(u128, Seq<char>)> {
    let close = find_from(line, ']', 0);
    if close >= line.len() || close < 1 || (line[0] as u32) >= 0x80 {
        None
    } else {
        match timestamp_ms(line.subrange(1, close)) {
            Some(t) => Some((t, trim(line.subrange(close + 1, line.len() as int)))),
            None => None,
        }
    }
}

pub open spec fn lines_entries(ls: Seq<Seq<char>>) -> Seq<(u128, Seq<char>)>
    decreases ls.len(),
{
    if ls.len() == 0 {
        Seq::empty()
    } else {
        let rest = lines_entries(ls.drop_last());
        match line_entry(ls.last()) {
            Some(e) => rest.push(e),
            None => rest,
        }
    }
}

/// `s` with `x` placed after every entry whose time is not later than its own.
pub open spec fn insert_by_time(s: Seq<(u128, Seq<char>)>, x: (u128, Seq<char>)) -> Seq<
    (u128, Seq<char>),
>
    decreases s.len(),
{
    if s.len() == 0 || s.last().0 <= x.0 {
        s.push(x)
    } else {
        insert_by_time(s.drop_last(), x).push(s.last())
    }
}

/// `s` ordered by time, entries with equal times in the order they came.
pub open spec fn sort_by_time(s: Seq<(u128, Seq<char>)>) -> Seq<(u128, Seq<char>)>
    decreases s.len(),
{
    if s.len() == 0 {
        s
    } else {
        insert_by_time(sort_by_time(s.drop_last()), s.last())
    }
}

/// The timed lines of `text`, ordered by time.
pub open spec fn timed_lines(text: Seq<char>) -> Seq<(u128, Seq<char>)> {
    sort_by_time(lines_entries(lines(text)))
}

/// Entries ordered by time: no later entry has an earlier time.
pub open spec fn by_time(s: Seq<(u128, Seq<char>)>) -> bool {
    forall|i: int, j: int| 0 <= i <= j < s.len() ==> (#[trigger] s[i]).0 <= (#[trigger] s[j]).0
}

proof fn lemma_insert_by_time_sorted(s: Seq<(u128, Seq<char>)>, x: (u128, Seq<char>))
    requires
        by_time(s),
    ensures
        by_time(insert_by_time(s, x)),
        insert_by_time(s, x).to_multiset() =~= s.to_multiset().insert(x),
        insert_by_time(s, x).len() == s.len() + 1,
    decreases s.len(),
{
    broadcast use vstd::seq_lib::group_to_multiset_ensures;
    if s.len() == 0 || s.last().0 <= x.0 {
    } else {
        let t = s.drop_last();
        lemma_insert_by_time_sorted(t, x);
        let u = insert_by_time(t, x);
        assert forall|i: int| 0 <= i < u.len() implies u[i].0 <= s.last().0 by {
            assert(u.to_multiset().contains(u[i]));
            assert(t.to_multiset().insert(x).contains(u[i]));
            if u[i] != x {
                assert(t.to_multiset().contains(u[i]));
                assert(t.contains(u[i]));
            }
        }
        assert(s =~= t.push(s.last()));
    }
}

proof fn lemma_sort_by_time(s: Seq<(u128, Seq<char>)>)
    ensures
        by_time(sort_by_time(s)),
        sort_by_time(s).to_multiset() =~= s.to_multiset(),
        sort_by_time(s).len() == s.len(),
    decreases s.len(),
{
    broadcast use vstd::seq_lib::group_to_multiset_ensures;
    if s.len() > 0 {
        lemma_sort_by_time(s.drop_last());
        lemma_insert_by_time_sorted(sort_by_time(s.drop_last()), s.last());
        assert(s =~= s.drop_last().push(s.last()));
    }
}

/// The timed lines of a text come in time order, and hold every timed
/// entry of its lines exactly as often as the text does.
pub proof fn timed_lines_are_in_time_order(text: Seq<char>)
    ensures
        by_time(timed_lines(text)),
        timed_lines(text).to_multiset() =~= lines_entries(lines(text)).to_multiset(),
{
    lemma_sort_by_time(lines_entries(lines(text)));
}

proof fn lemma_insert_by_time_at(s: Seq<(u128, Seq<char>)>, x: (u128, Seq<char>), j: int)
    requires
        0 <= j <= s.len(),
        forall|k: int| j <= k < s.len() ==> s[k].0 > x.0,
        j == 0 || s[j - 1].0 <= x.0,
    ensures
        insert_by_time(s, x) =~= s.take(j).push(x) + s.skip(j),
    decreases s.len(),
{
    if s.len() == 0 || s.last().0 <= x.0 {
        if j < s.len() {
            assert(s[s.len() - 1].0 > x.0);
        }
        assert(s.skip(j) =~= Seq::<(u128, Seq<char>)>::empty());
        assert(s.take(j) =~= s);
    } else {
        lemma_insert_by_time_at(s.drop_last(), x, j);
        assert(s.drop_last().take(j) =~= s.take(j));
        assert(s.drop_last().skip(j).push(s.last()) =~= s.skip(j));
    }
}

fn insert_line_sorted(v: &mut Vec<LrcLine>, x: LrcLine)
    ensures
        lrc_views(final(v)@) == insert_by_time(lrc_views(old(v)@), x@),
{
    let mut j = v.len();
    while j > 0 && v[j - 1].timestamp_ms > x.timestamp_ms
        invariant
            j <= v.len(),
            forall|k: int| j <= k < v.len() ==> v@[k].timestamp_ms > x.timestamp_ms,
        decreases j,
    {
        j -= 1;
    }
    let ghost xv = x@;
    proof {
        lemma_insert_by_time_at(lrc_views(v@), xv, j as int);
    }
    v.insert(j, x);
    assert(lrc_views(v@) =~= lrc_views(old(v)@).take(j as int).push(xv) + lrc_views(
        old(v)@,
    ).skip(j as int));
}

/// The timed entry of one line, as `line_entry` gives it.
fn line_entry_of(line: &[char]) -> (r: Option<LrcLine>)
    ensures
        match line_entry(line@) {
            Some(e) => r is Some && r->0@ == e,
            None => r is None,
        },
{
    let close = find_char(line, ']', 0);
    proof {
        lemma_find_from_bounds(line@, ']', 0);
    }
    if close >= line.len() || close < 1 || (line[0] as u32) >= 0x80 {
        return None;
    }
    match timestamp_of(&slice_of(line, 1, close)) {
        Some(t) => {
            let rest = slice_of(line, close + 1, line.len());
            let trimmed = trim_of(&rest);
            Some(LrcLine { timestamp_ms: t, text: string_of(&trimmed) })
        },
        None => None,
    }
}

/// What the lyrics panel shows for a track: its timed lines when some line
/// is timed after the start, the text as it is when it is not blank, and
/// nothing otherwise.
pub enum LyricsPanel {
    Synced(Vec<LrcLine>),
    Plain(String),
    Missing,
}

/// The lyrics panel for a lyrics file whose text is `contents` (`None`
/// when it could not be read).
pub fn lyrics_panel(contents: Option<&str>) -> (r: LyricsPanel)
    ensures
        match contents {
            None => r is Missing,
            Some(c) => if exists|i: int| 0 <= i < timed_lines(c@).len() && (#[trigger] timed_lines(c@)[i]).0 > 0 {
                r matches LyricsPanel::Synced(v) && lrc_views(v@) == timed_lines(c@)
            } else if trim(c@).len() > 0 {
                r matches LyricsPanel::Plain(t) && t@ == c@
            } else {
                r is Missing
            },
        },
{
    let c = match contents {
        None => return LyricsPanel::Missing,
        Some(c) => c,
    };
    let ls = parse_lines(c);
    let ghost tl = timed_lines(c@);
    let mut i: usize = 0;
    while i < ls.len()
        invariant
            i <= ls@.len(),
            contents == Some(c),
            tl == timed_lines(c@),
            lrc_views(ls@) == tl,
            forall|j: int| 0 <= j < i ==> (#[trigger] tl[j]).0 == 0,
        decreases ls.len() - i,
    {
        assert(tl[i as int] == ls@[i as int]@);
        if ls[i].timestamp_ms > 0 {
            return LyricsPanel::Synced(ls);
        }
        i += 1;
    }
    if is_blank(&chars_of(c)) {
        LyricsPanel::Missing
    } else {
        LyricsPanel::Plain(string_of(&chars_of(c)))
    }
}

/// The timed lines of `text`, ordered by time (lines with equal times keep
/// their order). A line that cannot be read for a timed entry (one that
/// starts with its `]`, or with a character longer than one byte) is
/// skipped like any other untimed line.
pub fn parse_lines(text: &str) -> (r: Vec<LrcLine>)
    ensures
        lrc_views(r@) == timed_lines(text@),
{
    let chars = chars_of(text);
    let ls = split_lines(&chars);
    let mut sorted: Vec<LrcLine> = Vec::new();
    let mut k: usize = 0;
    while k < ls.len()
        invariant
            k <= ls.len(),
            views(ls@) == lines(text@),
            lrc_views(sorted@) == sort_by_time(lines_entries(views(ls@).take(k as int))),
        decreases ls.len() - k,
    {
        let e = line_entry_of(&ls[k]);
        proof {
            let t = views(ls@).take(k + 1);
            assert(t.drop_last() =~= views(ls@).take(k as int));
            assert(t.last() == ls@[k as int]@);
        }
        match e {
            Some(entry) => {
                let ghost prev = lines_entries(views(ls@).take(k as int));
                proof {
                    assert(prev.push(entry@).drop_last() =~= prev);
                }
                insert_line_sorted(&mut sorted, entry);
            },
            None => {},
        }
        k += 1;
    }
    assert(views(ls@).take(k as int) =~= views(ls@));
    sorted
}

// ---------------------------------------------------------------------------
// Titles
// ---------------------------------------------------------------------------

/// A title reduced to its ASCII letters and digits, lower-cased.
pub open spec fn normalize_title(s: Seq<char>) -> Seq<char>
    decreases s.len(),
{
    if s.len() == 0 {
        Seq::empty()
    } else {
        let rest = normalize_title(s.drop_last());
        let c = lower_char(s.last());
        if is_ascii_alphanumeric(c) {
            rest.push(c)
        } else {
            rest
        }
    }
}

/// How many of the first `n` positions hold the same character in `l` and `r`.
pub open spec fn matching(l: Seq<char>, r: Seq<char>, n: int) -> int
    decreases n,
{
    if n <= 0 {
        0
    } else {
        matching(l, r, n - 1) + if l[n - 1] == r[n - 1] {
            1int
        } else {
            0int
        }
    }
}

pub open spec fn min_len(l: Seq<char>, r: Seq<char>) -> int {
    if l.len() <= r.len() {
        l.len() as int
    } else {
        r.len() as int
    }
}

/// Two normalized titles are alike: position-wise agreement of more than 80%
/// of their combined length, counted twice.
pub open spec fn similar(l: Seq<char>, r: Seq<char>) -> bool {
    5 * matching(l, r, min_len(l, r)) > 2 * (l.len() + r.len())
}

/// Two titles name the same song: neither is empty once normalized, and one
/// contains the other or they are alike.
pub open spec fn titles_agree(left: Seq<char>, right: Seq<char>) -> bool {
    let l = normalize_title(left);
    let r = normalize_title(right);
    l.len() > 0 && r.len() > 0 && (contains(l, r) || contains(r, l) || similar(l, r))
}

proof fn lemma_matching_symmetric(l: Seq<char>, r: Seq<char>, n: int)
    ensures
        matching(l, r, n) == matching(r, l, n),
    decreases n,
{
    if n > 0 {
        lemma_matching_symmetric(l, r, n - 1);
    }
}

/// Title matching does not depend on which title comes first.
pub proof fn titles_match_is_symmetric(left: Seq<char>, right: Seq<char>)
    ensures
        titles_agree(left, right) == titles_agree(right, left),
{
    let l = normalize_title(left);
    let r = normalize_title(right);
    lemma_matching_symmetric(l, r, min_len(l, r));
}

/// A title whose normalized form is not empty matches itself.
pub proof fn titles_match_is_reflexive(title: Seq<char>)
    requires
        normalize_title(title).len() > 0,
    ensures
        titles_agree(title, title),
{
    let l = normalize_title(title);
    assert(l.subrange(0, l.len() as int) =~= l);
    assert(crate::text::occurs_at(l, l, 0));
}

/// `s` reduced to its lower-cased ASCII letters and digits.
pub fn normalize_title_of(s: &[char]) -> (r: Vec<char>)
    ensures
        r@ == normalize_title(s@),
{
    let mut r: Vec<char> = Vec::new();
    let mut i: usize = 0;
    while i < s.len()
        invariant
            i <= s.len(),
            r@ == normalize_title(s@.take(i as int)),
        decreases s.len() - i,
    {
        let c = lower_char_of(s[i]);
        proof {
            let t = s@.take(i + 1);
            assert(t.drop_last() =~= s@.take(i as int));
        }
        if is_alphanumeric_char(c) {
            r.push(c);
        }
        i += 1;
    }
    assert(s@.take(i as int) =~= s@);
    r
}

fn matching_of(l: &[char], r: &[char]) -> (m: usize)
    ensures
        m == matching(l@, r@, min_len(l@, r@)),
        m <= min_len(l@, r@),
{
    let n = if l.len() <= r.len() { l.len() } else { r.len() };
    let mut m: usize = 0;
    let mut i: usize = 0;
    while i < n
        invariant
            i <= n,
            n == min_len(l@, r@),
            m == matching(l@, r@, i as int),
            m <= i,
        decreases n - i,
    {
        if l[i] == r[i] {
            m += 1;
        }
        i += 1;
    }
    m
}

/// Whether two titles name the same song, ignoring case, punctuation and
/// release noise such as "(Live)".
pub fn titles_match(left: &str, right: &str) -> (r: bool)
    ensures
        r == titles_agree(left@, right@),
{
    let l = normalize_title_of(&chars_of(left));
    let r = normalize_title_of(&chars_of(right));
    if l.len() == 0 || r.len() == 0 {
        return false;
    }
    if contains_exec(&l, &r) || contains_exec(&r, &l) {
        return true;
    }
    let m = matching_of(&l, &r);
    5 * (m as u128) > 2 * (l.len() as u128 + r.len() as u128)
}

// ---------------------------------------------------------------------------
// Metadata title
// ---------------------------------------------------------------------------

pub open spec fn title_tag() -> Seq<char> {
    seq!['[', 't', 'i', ':']
}

/// The `[ti:...]` title a line declares: after the first `[ti:` (in any case)
/// up to the next `]`, trimmed.
pub open spec fn line_title(line: Seq<char>) -> Option<Seq<char>> {
    let p = first_occurrence(lower(line), title_tag(), 0);
    if p > line.len() {
        None
    } else {
        let end = find_from(line, ']', p + 4);
        if end >= line.len() {
            None
        } else {
            Some(trim(line.subrange(p + 4, end)))
        }
    }
}

/// The first title any of `ls` declares.
pub open spec fn lines_title(ls: Seq<Seq<char>>) -> Option<Seq<char>>
    decreases ls.len(),
{
    if ls.len() == 0 {
        None
    } else {
        match line_title(ls[0]) {
            Some(t) => Some(t),
            None => lines_title(ls.drop_first()),
        }
    }
}

fn line_title_of(line: &[char]) -> (r: Option<Vec<char>>)
    ensures
        match line_title(line@) {
            Some(t) => r is Some && r->0@ == t,
            None => r is None,
        },
{
    let low = lower_of(line);
    let tag = vec!['[', 't', 'i', ':'];
    assert(tag@ =~= title_tag());
    match find_seq(&low, &tag, 0) {
        None => None,
        Some(p) => {
            assert(low@.len() == line@.len());
            assert(title_tag().len() == 4);
            assert(p + 4 <= line.len());
            let end = find_char(line, ']', p + 4);
            proof {
                lemma_find_from_bounds(line@, ']', p + 4);
            }
            if end >= line.len() {
                None
            } else {
                Some(trim_of(&slice_of(line, p + 4, end)))
            }
        },
    }
}

// ---------------------------------------------------------------------------
// Audit
// ---------------------------------------------------------------------------

/// What is wrong with a lyrics file.
#[derive(Debug, Clone, Copy, PartialEq, Eq, Structural)]
pub enum LrcIssue {
    Empty,
    NotSynced,
    TooFewTimestamps,
    TooLong,
    EndsTooEarly,
    TitleMismatch,
}

/// Milliseconds past the end of the audio that the last line may sit.
pub const PAST_END_TOLERANCE_MS: u128 = 5000;

/// Milliseconds before the end that the lyrics may stop, once they stop
/// before 55% of the audio.
pub const EARLY_END_GAP_MS: u128 = 15000;

/// The audit of lyrics `text` against the audio's duration and title, first
/// failing check first.
pub open spec fn audit(text: Seq<char>, duration_ms: Option<u64>, title: Seq<char>) -> Option<
    LrcIssue,
> {
    let ts = timestamps(text);
    if trim(text).len() == 0 {
        Some(LrcIssue::Empty)
    } else if ts.len() == 0 {
        Some(LrcIssue::NotSynced)
    } else if ts.len() < 3 {
        Some(LrcIssue::TooFewTimestamps)
    } else if duration_ms matches Some(d) && d > 0 && ts.last() > d + PAST_END_TOLERANCE_MS {
        Some(LrcIssue::TooLong)
    } else if duration_ms matches Some(d) && d > 0 && 100 * ts.last() < 55 * d && d
        - ts.last() > EARLY_END_GAP_MS {
        Some(LrcIssue::EndsTooEarly)
    } else {
        match lines_title(lines(text)) {
            Some(t) => if title.len() > 0 && !titles_agree(title, t) {
                Some(LrcIssue::TitleMismatch)
            } else {
                None
            },
            None => None,
        }
    }
}

/// The audit's title check: once the text has passed the other checks (it
/// is not blank and carries at least three time tags, and there is no
/// duration to measure it against), it is reported as a title mismatch
/// exactly when the track has a title, the text declares one in a `[ti:]`
/// tag, and the two do not match; a text declaring the track's own title
/// never is. A title mismatch is only ever reported on those grounds.
pub proof fn a_title_mismatch_means_the_titles_differ(text: Seq<char>, duration_ms: Option<u64>, title: Seq<char>)
    ensures
        audit(text, duration_ms, title) == Some(LrcIssue::TitleMismatch) ==> title.len() > 0 && (lines_title(
            lines(text),
        ) matches Some(t) && !titles_agree(title, t)),
        trim(text).len() > 0 && timestamps(text).len() >= 3 && duration_ms is None ==> (audit(
            text,
            duration_ms,
            title,
        ) == Some(LrcIssue::TitleMismatch) <==> title.len() > 0 && (lines_title(lines(text)) matches Some(
            t,
        ) && !titles_agree(title, t))),
        trim(text).len() > 0 && timestamps(text).len() >= 3 && duration_ms is None ==> (audit(
            text,
            duration_ms,
            title,
        ) is None || audit(text, duration_ms, title) == Some(LrcIssue::TitleMismatch)),
        lines_title(lines(text)) == Some(title) && normalize_title(title).len() > 0 ==> audit(
            text,
            duration_ms,
            title,
        ) != Some(LrcIssue::TitleMismatch),
{
    if normalize_title(title).len() > 0 {
        titles_match_is_reflexive(title);
    }
}

/// The audit's verdicts, each on its grounds, checked in this order: blank
/// text is empty; text without a time tag is not synced; one or two tags
/// are too few; with a known length, a last tag more than 5 s past the end
/// is too long, and one before 55% of the length and more than 15 s short of
/// the end ends too early (a length of 0 counts as unknown); synchronized
/// text that passes all of these, and declares no title of its own, audits
/// clean.
pub proof fn each_audit_verdict_has_its_grounds(text: Seq<char>, duration_ms: Option<u64>, title: Seq<char>)
    ensures
        ({
            let a = audit(text, duration_ms, title);
            let ts = timestamps(text);
            let d: int = match duration_ms {
                Some(v) => v as int,
                None => 0,
            };
            let too_long = d > 0 && ts.last() > d + 5000;
            let too_early = d > 0 && ts.last() <= d + 5000 && 100 * ts.last() < 55 * d && d - ts.last() > 15000;
            &&& (a == Some(LrcIssue::Empty)) <==> trim(text).len() == 0
            &&& trim(text).len() > 0 ==> ((a == Some(LrcIssue::NotSynced)) <==> ts.len() == 0)
            &&& trim(text).len() > 0 ==> ((a == Some(LrcIssue::TooFewTimestamps)) <==> 1 <= ts.len() <= 2)
            &&& a == Some(LrcIssue::TooLong) ==> too_long
            &&& a == Some(LrcIssue::EndsTooEarly) ==> too_early
            &&& trim(text).len() > 0 && ts.len() >= 3 && too_long ==> a == Some(LrcIssue::TooLong)
            &&& trim(text).len() > 0 && ts.len() >= 3 && too_early ==> a == Some(LrcIssue::EndsTooEarly)
            &&& trim(text).len() > 0 && ts.len() >= 3 && !too_long && !too_early && lines_title(lines(text)) is None
                ==> a is None
        }),
{
}

fn title_of_text(ls: &Vec<Vec<char>>) -> (r: Option<Vec<char>>)
    ensures
        match lines_title(views(ls@)) {
            Some(t) => r is Some && r->0@ == t,
            None => r is None,
        },
{
    let mut k: usize = 0;
    assert(views(ls@).skip(0) =~= views(ls@));
    while k < ls.len()
        invariant
            k <= ls.len(),
            lines_title(views(ls@)) == lines_title(views(ls@).skip(k as int)),
        decreases ls.len() - k,
    {
        let t = line_title_of(&ls[k]);
        proof {
            let rest = views(ls@).skip(k as int);
            assert(rest[0] == ls@[k as int]@);
            assert(rest.drop_first() =~= views(ls@).skip(k + 1));
        }
        if t.is_some() {
            return t;
        }
        k += 1;
    }
    assert(views(ls@).skip(k as int) =~= Seq::<Seq<char>>::empty());
    None
}

/// The first problem with lyrics `text` for audio of `duration_ms` titled
/// `title`, or `None` when it passes.
pub fn audit_lrc(text: &str, duration_ms: Option<u64>, title: &str) -> (r: Option<LrcIssue>)
    ensures
        r == audit(text@, duration_ms, title@),
{
    let chars = chars_of(text);
    if is_blank(&chars) {
        return Some(LrcIssue::Empty);
    }
    let ts = parse_timestamps(text);
    if ts.len() == 0 {
        return Some(LrcIssue::NotSynced);
    }
    if ts.len() < 3 {
        return Some(LrcIssue::TooFewTimestamps);
    }
    let last = ts[ts.len() - 1];
    if let Some(d) = duration_ms {
        if d > 0 {
            let dd = d as u128;
            if last > dd + PAST_END_TOLERANCE_MS {
                return Some(LrcIssue::TooLong);
            }
            if last < dd && 100 * last < 55 * dd && dd - last > EARLY_END_GAP_MS {
                return Some(LrcIssue::EndsTooEarly);
            }
        }
    }
    let ls = split_lines(&chars);
    match title_of_text(&ls) {
        Some(t) => {
            let title_chars = chars_of(title);
            if title_chars.len() > 0 && !titles_match(title, &string_of(&t)) {
                Some(LrcIssue::TitleMismatch)
            } else {
                None
            }
        },
        None => None,
    }
}

// ---------------------------------------------------------------------------
// Plain text from synchronized lyrics
// ---------------------------------------------------------------------------

/// `r` without its leading `[..]` tags; an unclosed `[` stops the stripping.
pub open spec fn strip_leading_tags(r: Seq<char>) -> Seq<char>
    decreases r.len(),
{
    if r.len() > 0 && r[0] == '[' {
        let e = find_from(r, ']', 0);
        proof {
            lemma_find_from_bounds(r, ']', 0);
        }
        if e >= r.len() {
            r
        } else {
            strip_leading_tags(r.subrange(e + 1, r.len() as int))
        }
    } else {
        r
    }
}

/// The non-empty lines of lyric text left once tags and white space are gone.
pub open spec fn lyric_lines(ls: Seq<Seq<char>>) -> Seq<Seq<char>>
    decreases ls.len(),
{
    if ls.len() == 0 {
        Seq::empty()
    } else {
        let rest = lyric_lines(ls.drop_last());
        let t = trim(strip_leading_tags(ls.last()));
        if t.len() > 0 {
            rest.push(t)
        } else {
            rest
        }
    }
}

/// Lines joined with `\n` between them.
pub open spec fn join_lines(ls: Seq<Seq<char>>) -> Seq<char>
    decreases ls.len(),
{
    if ls.len() == 0 {
        Seq::empty()
    } else if ls.len() == 1 {
        ls[0]
    } else {
        join_lines(ls.drop_last()) + seq!['\n'] + ls.last()
    }
}

/// The plain text of synchronized lyrics.
pub open spec fn plain_text(text: Seq<char>) -> Seq<char> {
    join_lines(lyric_lines(lines(text)))
}

fn strip_leading_tags_of(line: &[char]) -> (r: Vec<char>)
    ensures
        r@ == strip_leading_tags(line@),
{
    let mut lo: usize = 0;
    assert(line@.subrange(0, line.len() as int) =~= line@);
    while lo < line.len() && line[lo] == '['
        invariant
            lo <= line.len(),
            strip_leading_tags(line@) == strip_leading_tags(line@.subrange(lo as int, line.len() as int)),
        decreases line.len() - lo,
    {
        let ghost rest = line@.subrange(lo as int, line.len() as int);
        let e = find_char(line, ']', lo);
        proof {
            lemma_find_from_bounds(line@, ']', lo as int);
            lemma_find_from_bounds(rest, ']', 0);
            crate::text::lemma_find_from_is(rest, ']', 0, e - lo);
        }
        if e >= line.len() {
            return slice_of(line, lo, line.len());
        }
        assert(rest.subrange(e - lo + 1, rest.len() as int) =~= line@.subrange(e + 1, line.len() as int));
        lo = e + 1;
    }
    slice_of(line, lo, line.len())
}

/// The plain text of synchronized lyrics: every line stripped of its leading
/// tags and surrounding white space, empty lines dropped, joined with `\n`.
pub fn strip_timestamps(text: &str) -> (r: String)
    ensures
        r@ == plain_text(text@),
{
    let chars = chars_of(text);
    let ls = split_lines(&chars);
    let mut out: Vec<char> = Vec::new();
    let ghost mut kept: Seq<Seq<char>> = Seq::empty();
    let mut any = false;
    let mut k: usize = 0;
    while k < ls.len()
        invariant
            k <= ls.len(),
            views(ls@) == lines(text@),
            kept == lyric_lines(views(ls@).take(k as int)),
            out@ == join_lines(kept),
            any == (kept.len() > 0),
        decreases ls.len() - k,
    {
        let t = trim_of(&strip_leading_tags_of(&ls[k]));
        proof {
            let tk = views(ls@).take(k + 1);
            assert(tk.drop_last() =~= views(ls@).take(k as int));
            assert(tk.last() == ls@[k as int]@);
        }
        if t.len() > 0 {
            if any {
                out.push('\n');
            }
            let mut j: usize = 0;
            let ghost base = out@;
            while j < t.len()
                invariant
                    j <= t.len(),
                    out@ == base + t@.take(j as int),
                decreases t.len() - j,
            {
                out.push(t[j]);
                j += 1;
                assert(out@ =~= base + t@.take(j as int));
            }
            proof {
                assert(t@.take(j as int) =~= t@);
                let nk = kept.push(t@);
                assert(nk.drop_last() =~= kept);
                if kept.len() == 0 {
                    assert(out@ =~= join_lines(nk));
                } else {
                    assert(out@ =~= join_lines(kept) + seq!['\n'] + t@);
                }
                kept = nk;
            }
            any = true;
        }
        k += 1;
    }
    assert(views(ls@).take(k as int) =~= views(ls@));
    string_of(&out)
}

} // verus!
