//! Character level helpers on statement cells: whitespace trimming, cell
//! access, equality and prefix tests, number-cell cleaning and integer parsing.

use vstd::prelude::*;

verus! {

// ------------------------------------------------------------------
// Specifications
// ------------------------------------------------------------------

/// Unicode `White_Space`, the property behind `char::is_whitespace`.
pub open spec fn is_ws(c: char) -> bool {
    ||| ('\u{9}' <= c && c <= '\u{d}')
    ||| c == ' '
    ||| c == '\u{85}'
    ||| c == '\u{a0}'
    ||| c == '\u{1680}'
    ||| ('\u{2000}' <= c && c <= '\u{200a}')
    ||| c == '\u{2028}'
    ||| c == '\u{2029}'
    ||| c == '\u{202f}'
    ||| c == '\u{205f}'
    ||| c == '\u{3000}'
}

/// `s` without its leading whitespace.
pub open spec fn trim_left(s: Seq<char>) -> Seq<char>
    decreases s.len(),
{
    if s.len() > 0 && is_ws(s[0]) {
        trim_left(s.drop_first())
    } else {
        s
    }
}

/// `s` without its trailing whitespace.
pub open spec fn trim_right(s: Seq<char>) -> Seq<char>
    decreases s.len(),
{
    if s.len() > 0 && is_ws(s.last()) {
        trim_right(s.drop_last())
    } else {
        s
    }
}

/// `s` without leading and trailing whitespace (what `str::trim` returns).
pub open spec fn trimmed(s: Seq<char>) -> Seq<char> {
    trim_right(trim_left(s))
}

/// `s` with every occurrence of `c` taken out.
pub open spec fn without_char(s: Seq<char>, c: char) -> Seq<char>
    decreases s.len(),
{
    if s.len() == 0 {
        s
    } else if s.last() == c {
        without_char(s.drop_last(), c)
    } else {
        without_char(s.drop_last(), c).push(s.last())
    }
}

/// `s` without any trailing `c` (what `str::trim_end_matches(c)` returns).
pub open spec fn strip_trailing(s: Seq<char>, c: char) -> Seq<char>
    decreases s.len(),
{
    if s.len() > 0 && s.last() == c {
        strip_trailing(s.drop_last(), c)
    } else {
        s
    }
}

/// Whether `p` is a prefix of `s`.
pub open spec fn has_prefix(s: Seq<char>, p: Seq<char>) -> bool {
    p.len() <= s.len() && s.subrange(0, p.len() as int) == p
}

/// The cell `i` of a row, or the empty text when the row is shorter.
pub open spec fn cell(row: Seq<String>, i: int) -> Seq<char> {
    if 0 <= i < row.len() {
        row[i]@
    } else {
        Seq::empty()
    }
}

/// The content of an optional text cell: `None` when the trimmed cell is
/// empty or `-` (not applicable).
pub open spec fn spec_opt_str(s: Seq<char>) -> Option<Seq<char>> {
    let t = trimmed(s);
    if t.len() == 0 || t == seq!['-'] {
        None
    } else {
        Some(t)
    }
}

/// The number text of a numeric cell, ready for a float parser: the trimmed
/// cell without thousands separators and without trailing percent signs.
/// `None` for an empty cell and for `--`; with `dash_is_empty` also for `-`.
pub open spec fn spec_number_text(s: Seq<char>, dash_is_empty: bool) -> Option<Seq<char>> {
    let t = trimmed(s);
    if t.len() == 0 || t == seq!['-', '-'] || (dash_is_empty && t == seq!['-']) {
        None
    } else {
        Some(strip_trailing(without_char(t, ','), '%'))
    }
}

pub open spec fn is_digit(c: char) -> bool {
    '0' <= c && c <= '9'
}

pub open spec fn all_digits(s: Seq<char>) -> bool {
    forall|i: int| 0 <= i < s.len() ==> is_digit(#[trigger] s[i])
}

pub open spec fn digit_value(c: char) -> int {
    c as int - '0' as int
}

/// The value of a run of decimal digits.
pub open spec fn digits_value(s: Seq<char>) -> int
    decreases s.len(),
{
    if s.len() == 0 {
        0
    } else {
        digits_value(s.drop_last()) * 10 + digit_value(s.last())
    }
}

/// What `str::parse::<i64>` gives: an optional sign, then one or more ASCII
/// digits, and a value in the range of `i64`.
pub open spec fn spec_parse_i64(s: Seq<char>) -> Option<int> {
    let signed = s.len() > 0 && (s[0] == '-' || s[0] == '+');
    let body = if signed {
        s.drop_first()
    } else {
        s
    };
    let v = if signed && s[0] == '-' {
        -digits_value(body)
    } else {
        digits_value(body)
    };
    if body.len() == 0 || !all_digits(body) || v < i64::MIN || v > i64::MAX {
        None
    } else {
        Some(v)
    }
}

/// What the integer cells of a statement read as: the trimmed cell without
/// thousands separators, parsed as `i64`, and 0 where that fails.
pub open spec fn spec_iv(s: Seq<char>) -> int {
    match spec_parse_i64(without_char(trimmed(s), ',')) {
        Some(v) => v,
        None => 0,
    }
}

/// Index of the first `", "` in `s`, or -1.
pub open spec fn first_sep(s: Seq<char>) -> int
    decreases s.len(),
{
    if s.len() < 2 {
        -1
    } else if s[0] == ',' && s[1] == ' ' {
        0
    } else {
        let r = first_sep(s.drop_first());
        if r < 0 {
            -1
        } else {
            r + 1
        }
    }
}

pub proof fn lemma_first_sep_bounds(s: Seq<char>)
    ensures
        -1 <= first_sep(s),
        first_sep(s) >= 0 ==> first_sep(s) <= s.len() - 2,
        first_sep(s) >= 0 ==> s[first_sep(s)] == ',' && s[first_sep(s) + 1] == ' ',
    decreases s.len(),
{
    if s.len() >= 2 && !(s[0] == ',' && s[1] == ' ') {
        lemma_first_sep_bounds(s.drop_first());
    }
}

/// The parts of `s` between the separators `", "` (what `str::split(", ")` yields).
pub open spec fn split_parts(s: Seq<char>) -> Seq<Seq<char>>
    decreases s.len(),
{
    let i = first_sep(s);
    if i < 0 {
        seq![s]
    } else {
        proof {
            lemma_first_sep_bounds(s);
        }
        seq![s.take(i)] + split_parts(s.skip(i + 2))
    }
}

// ------------------------------------------------------------------
// Executable helpers
// ------------------------------------------------------------------

/// The characters of `s`, in order.
pub fn chars_of(s: &str) -> (v: Vec<char>)
    ensures
        v@ == s@,
{
    let mut v: Vec<char> = Vec::new();
    for ch in it: s.chars()
        invariant
            v@ == it.seq().take(it.index() as int),
            it.seq() == s@,
    {
        v.push(ch);
    }
    v
}

/// Appends one character (`String::push`).
#[verifier::external_body]
fn push_char(s: &mut String, c: char)
    ensures
        final(s)@ == old(s)@.push(c),
{
    s.push(c)
}

/// A `String` holding the characters of `v`.
pub fn string_of(v: &Vec<char>) -> (s: String)
    ensures
        s@ == v@,
{
    let mut s = String::new();
    let mut i: usize = 0;
    while i < v.len()
        invariant
            i <= v.len(),
            s@ == v@.take(i as int),
        decreases v.len() - i,
    {
        push_char(&mut s, v[i]);
        i = i + 1;
        assert(s@ =~= v@.take(i as int));
    }
    assert(v@.take(i as int) =~= v@);
    s
}

/// Whether `c` is whitespace (`char::is_whitespace`).
pub fn is_whitespace(c: char) -> (b: bool)
    ensures
        b == is_ws(c),
{
    ('\u{9}' <= c && c <= '\u{d}') || c == ' ' || c == '\u{85}' || c == '\u{a0}' || c
        == '\u{1680}' || ('\u{2000}' <= c && c <= '\u{200a}') || c == '\u{2028}' || c
        == '\u{2029}' || c == '\u{202f}' || c == '\u{205f}' || c == '\u{3000}'
}

proof fn lemma_trim_left_skip(s: Seq<char>, i: int)
    requires
        0 <= i <= s.len(),
        forall|k: int| 0 <= k < i ==> is_ws(#[trigger] s[k]),
    ensures
        trim_left(s) == trim_left(s.skip(i)),
    decreases i,
{
    if i > 0 {
        assert(s.skip(1) =~= s.drop_first());
        lemma_trim_left_skip(s.drop_first(), i - 1);
        assert(s.drop_first().skip(i - 1) =~= s.skip(i));
    } else {
        assert(s.skip(0) =~= s);
    }
}

proof fn lemma_trim_right_take(s: Seq<char>, j: int)
    requires
        0 <= j <= s.len(),
        forall|k: int| j <= k < s.len() ==> is_ws(#[trigger] s[k]),
    ensures
        trim_right(s) == trim_right(s.take(j)),
    decreases s.len() - j,
{
    if j < s.len() {
        lemma_trim_right_take(s.drop_last(), j);
        assert(s.drop_last().take(j) =~= s.take(j));
    } else {
        assert(s.take(j) =~= s);
    }
}

/// `s` without leading and trailing whitespace (`str::trim`).
pub fn trim(s: &str) -> (r: &str)
    ensures
        r@ == trimmed(s@),
{
    let v = chars_of(s);
    let n = v.len();
    let mut i: usize = 0;
    while i < n && is_whitespace(v[i])
        invariant
            n == v@.len(),
            v@ == s@,
            i <= n,
            forall|k: int| 0 <= k < i ==> is_ws(#[trigger] v@[k]),
        decreases n - i,
    {
        i = i + 1;
    }
    proof {
        lemma_trim_left_skip(s@, i as int);
    }
    let mut j: usize = n;
    while j > i && is_whitespace(v[j - 1])
        invariant
            n == v@.len(),
            v@ == s@,
            i <= j <= n,
            forall|k: int| j <= k < n ==> is_ws(#[trigger] v@[k]),
        decreases j,
    {
        j = j - 1;
    }
    proof {
        let t = s@.skip(i as int);
        if i < n {
            assert(t[0] == s@[i as int]);
            assert(!is_ws(t[0]));
            assert(trim_left(t) == t);
        } else {
            assert(t.len() == 0);
        }
        assert forall|k: int| j - i <= k < t.len() implies is_ws(#[trigger] t[k]) by {
            assert(t[k] == s@[k + i]);
        }
        lemma_trim_right_take(t, j - i);
        assert(t.take(j - i) =~= s@.subrange(i as int, j as int));
        let u = s@.subrange(i as int, j as int);
        if j > i {
            assert(u.last() == s@[j - 1]);
        }
        assert(trim_right(u) == u);
    }
    s.substring_char(i, j)
}

/// Whether `a` and `b` hold the same characters.
pub fn str_eq(a: &str, b: &str) -> (r: bool)
    ensures
        r == (a@ == b@),
{
    let va = chars_of(a);
    let vb = chars_of(b);
    vec_eq(&va, &vb)
}

/// Whether two character vectors are equal.
pub fn vec_eq(va: &Vec<char>, vb: &Vec<char>) -> (r: bool)
    ensures
        r == (va@ == vb@),
{
    if va.len() != vb.len() {
        return false;
    }
    let mut i: usize = 0;
    while i < va.len()
        invariant
            va.len() == vb.len(),
            i <= va.len(),
            forall|k: int| 0 <= k < i ==> va@[k] == vb@[k],
        decreases va.len() - i,
    {
        if va[i] != vb[i] {
            return false;
        }
        i = i + 1;
    }
    assert(va@ =~= vb@);
    true
}

/// Whether `s` starts with `prefix` (`str::starts_with`).
pub fn starts_with(s: &str, prefix: &str) -> (r: bool)
    ensures
        r == has_prefix(s@, prefix@),
{
    let vs = chars_of(s);
    let vp = chars_of(prefix);
    if vp.len() > vs.len() {
        return false;
    }
    let mut i: usize = 0;
    while i < vp.len()
        invariant
            vp.len() <= vs.len(),
            i <= vp.len(),
            vs@ == s@,
            vp@ == prefix@,
            forall|k: int| 0 <= k < i ==> vs@[k] == vp@[k],
        decreases vp.len() - i,
    {
        if vs[i] != vp[i] {
            assert(s@.subrange(0, prefix@.len() as int)[i as int] != prefix@[i as int]);
            return false;
        }
        i = i + 1;
    }
    assert(s@.subrange(0, prefix@.len() as int) =~= prefix@);
    true
}

/// The cell `i` of `row`, or `""` when the row is shorter.
pub fn c(row: &[String], i: usize) -> (r: &str)
    ensures
        r@ == cell(row@, i as int),
{
    if i < row.len() {
        row[i].as_str()
    } else {
        proof {
            reveal_strlit("");
        }
        ""
    }
}

/// The content of an optional text cell: `None` for an empty cell or `-`.
pub fn opt_str(s: &str) -> (r: Option<String>)
    ensures
        r matches Some(t) ==> spec_opt_str(s@) == Some(t@),
        r is None ==> spec_opt_str(s@) is None,
{
    let t = trim(s);
    proof {
        reveal_strlit("-");
        assert("-"@ =~= seq!['-']);
    }
    if t.unicode_len() == 0 || str_eq(t, "-") {
        None
    } else {
        Some(t.to_owned())
    }
}

/// `v` with every `c` taken out.
pub fn remove_char(v: &Vec<char>, c: char) -> (r: Vec<char>)
    ensures
        r@ == without_char(v@, c),
{
    let mut r: Vec<char> = Vec::new();
    let mut i: usize = 0;
    while i < v.len()
        invariant
            i <= v.len(),
            r@ == without_char(v@.take(i as int), c),
        decreases v.len() - i,
    {
        assert(v@.take(i + 1).drop_last() =~= v@.take(i as int));
        if v[i] != c {
            r.push(v[i]);
        }
        i = i + 1;
    }
    assert(v@.take(i as int) =~= v@);
    r
}

proof fn lemma_strip_trailing_take(s: Seq<char>, j: int, c: char)
    requires
        0 <= j <= s.len(),
        forall|k: int| j <= k < s.len() ==> #[trigger] s[k] == c,
    ensures
        strip_trailing(s, c) == strip_trailing(s.take(j), c),
    decreases s.len() - j,
{
    if j < s.len() {
        lemma_strip_trailing_take(s.drop_last(), j, c);
        assert(s.drop_last().take(j) =~= s.take(j));
    } else {
        assert(s.take(j) =~= s);
    }
}

/// The number text of a numeric cell, for a float parser: `None` for an
/// empty cell and `--` (and `-` when `dash_is_empty`); otherwise the trimmed
/// cell without `,` and without trailing `%`.
pub fn number_text(s: &str, dash_is_empty: bool) -> (r: Option<String>)
    ensures
        r matches Some(t) ==> spec_number_text(s@, dash_is_empty) == Some(t@),
        r is None ==> spec_number_text(s@, dash_is_empty) is None,
{
    let t = trim(s);
    proof {
        reveal_strlit("--");
        reveal_strlit("-");
        assert("-"@ =~= seq!['-']);
        assert("--"@ =~= seq!['-', '-']);
    }
    if t.unicode_len() == 0 || str_eq(t, "--") || (dash_is_empty && str_eq(t, "-")) {
        return None;
    }
    let v = chars_of(t);
    let w = remove_char(&v, ',');
    let mut j: usize = w.len();
    while j > 0 && w[j - 1] == '%'
        invariant
            j <= w.len(),
            forall|k: int| j <= k < w.len() ==> #[trigger] w@[k] == '%',
        decreases j,
    {
        j = j - 1;
    }
    proof {
        lemma_strip_trailing_take(w@, j as int, '%');
        let u = w@.take(j as int);
        if j > 0 {
            assert(u.last() == w@[j - 1]);
        }
        assert(strip_trailing(u, '%') == u);
    }
    let mut out: Vec<char> = Vec::new();
    let mut k: usize = 0;
    while k < j
        invariant
            k <= j <= w.len(),
            out@ == w@.take(k as int),
        decreases j - k,
    {
        out.push(w[k]);
        k = k + 1;
        assert(out@ =~= w@.take(k as int));
    }
    Some(string_of(&out))
}

pub proof fn lemma_digits_value_nonneg(s: Seq<char>)
    requires
        all_digits(s),
    ensures
        digits_value(s) >= 0,
    decreases s.len(),
{
    if s.len() > 0 {
        assert(is_digit(s[s.len() - 1]));
        lemma_digits_value_nonneg(s.drop_last());
    }
}

pub proof fn lemma_digits_value_prefix(s: Seq<char>, k: int)
    requires
        all_digits(s),
        0 <= k <= s.len(),
    ensures
        digits_value(s.take(k)) <= digits_value(s),
    decreases s.len() - k,
{
    if k < s.len() {
        assert(s.drop_last().take(k) =~= s.take(k));
        lemma_digits_value_prefix(s.drop_last(), k);
        lemma_digits_value_nonneg(s.drop_last());
        assert(is_digit(s[s.len() - 1]));
    } else {
        assert(s.take(k) =~= s);
    }
}

/// `str::parse::<i64>` on a character vector.
pub fn parse_i64_chars(v: &Vec<char>) -> (r: Option<i64>)
    ensures
        r matches Some(x) ==> spec_parse_i64(v@) == Some(x as int),
        r is None ==> spec_parse_i64(v@) is None,
{
    let n = v.len();
    let signed = n > 0 && (v[0] == '-' || v[0] == '+');
    let neg = signed && v[0] == '-';
    let start: usize = if signed {
        1
    } else {
        0
    };
    let ghost body = if signed {
        v@.drop_first()
    } else {
        v@
    };
    assert(body =~= v@.skip(start as int));
    if start == n {
        return None;
    }
    let mut acc: i128 = 0;
    let mut i: usize = start;
    while i < n
        invariant
            start <= i <= n,
            n == v@.len(),
            body == v@.skip(start as int),
            body.len() == n - start,
            signed == (v@.len() > 0 && (v@[0] == '-' || v@[0] == '+')),
            body == (if signed { v@.drop_first() } else { v@ }),
            all_digits(body.take(i - start)),
            acc as int == digits_value(body.take(i - start)),
            0 <= acc <= 92233720368547758089,
        decreases n - i,
    {
        if acc > 9223372036854775808 {
            // Every further digit only makes the value larger.
            assert forall|k: int| 0 <= k < i - start implies is_digit(#[trigger] body[k]) by {
                assert(body.take(i - start)[k] == body[k]);
            }
            let mut m: usize = i;
            while m < n
                invariant
                    start <= i <= m <= n,
                    n == v@.len(),
                    body == v@.skip(start as int),
                    body.len() == n - start,
                    signed == (v@.len() > 0 && (v@[0] == '-' || v@[0] == '+')),
                    body == (if signed { v@.drop_first() } else { v@ }),
                    forall|k: int| 0 <= k < m - start ==> is_digit(#[trigger] body[k]),
                decreases n - m,
            {
                let ghost k = (m - start) as int;
                assert(body[k] == v@[m as int]);
                if !('0' <= v[m] && v[m] <= '9') {
                    assert(!is_digit(body[k]));
                    return None;
                }
                m = m + 1;
            }
            proof {
                assert(all_digits(body));
                lemma_digits_value_prefix(body, i - start);
            }
            return None;
        }
        let ch = v[i];
        let ghost k = (i - start) as int;
        assert(body[k] == ch);
        if !('0' <= ch && ch <= '9') {
            assert(!is_digit(body[k]));
            return None;
        }
        proof {
            assert(body.take(k + 1).drop_last() =~= body.take(k));
            assert(body.take(k + 1).last() == ch);
            assert(forall|j: int| 0 <= j < k + 1 ==> #[trigger] body.take(k + 1)[j] == body[j]);
            assert(forall|j: int| 0 <= j < k ==> #[trigger] body.take(k)[j] == body[j]);
        }
        let d = (ch as u32 - '0' as u32) as i128;
        acc = acc * 10 + d;
        i = i + 1;
    }
    proof {
        assert(body.take(n - start) =~= body);
    }
    if acc > 9223372036854775808 {
        return None;
    }
    if neg {
        if acc == 9223372036854775808 {
            Some(i64::MIN)
        } else {
            Some(-(acc as i64))
        }
    } else {
        if acc == 9223372036854775808 {
            None
        } else {
            Some(acc as i64)
        }
    }
}

/// An integer cell: the trimmed text without `,` parsed as `i64`, 0 where
/// that fails.
pub fn iv(s: &str) -> (r: i64)
    ensures
        r as int == spec_iv(s@),
{
    let t = trim(s);
    let v = chars_of(t);
    let w = remove_char(&v, ',');
    match parse_i64_chars(&w) {
        Some(x) => x,
        None => 0,
    }
}


/// The character of a decimal digit `d` (0 to 9).
pub open spec fn digit_of(d: int) -> char {
    ('0' as int + d) as char
}

/// The decimal digits of `m`, without leading zeros.
pub open spec fn decimal_digits(m: nat) -> Seq<char>
    decreases m,
{
    if m < 10 {
        seq![digit_of(m as int)]
    } else {
        decimal_digits(m / 10).push(digit_of((m % 10) as int))
    }
}

/// The text of an integer: a `-` for a negative one, then its digits
/// (what `i64::to_string` writes).
pub open spec fn int_text(n: int) -> Seq<char> {
    if n < 0 {
        seq!['-'] + decimal_digits((-n) as nat)
    } else {
        decimal_digits(n as nat)
    }
}

proof fn lemma_decimal_digits(m: nat)
    ensures
        decimal_digits(m).len() >= 1,
        all_digits(decimal_digits(m)),
        digits_value(decimal_digits(m)) == m,
    decreases m,
{
    let last = (m % 10) as int;
    assert(digit_value(digit_of(last)) == last) by {
        assert(0 <= last < 10);
        assert((('0' as int + last) as char) as int == '0' as int + last);
    }
    if m < 10 {
        let s = seq![digit_of(m as int)];
        assert(s.drop_last() =~= Seq::<char>::empty());
        assert(last == m);
        assert(s.last() == digit_of(last));
        assert(digits_value(s.drop_last()) == 0);
        assert(digits_value(s) == digits_value(s.drop_last()) * 10 + digit_value(s.last()));
        assert(decimal_digits(m) == s);
    } else {
        lemma_decimal_digits(m / 10);
        let p = decimal_digits(m / 10);
        let s = p.push(digit_of(last));
        assert(s.drop_last() =~= p);
        assert((m / 10) * 10 + last == m);
        assert(s.last() == digit_of(last));
        assert(digits_value(s) == digits_value(p) * 10 + digit_value(digit_of(last)));
        assert(decimal_digits(m) == s);
        assert forall|i: int| 0 <= i < s.len() implies is_digit(#[trigger] s[i]) by {
            if i < p.len() {
                assert(s[i] == p[i]);
            }
        }
    }
}

proof fn lemma_without_absent(s: Seq<char>, c: char)
    requires
        forall|i: int| 0 <= i < s.len() ==> #[trigger] s[i] != c,
    ensures
        without_char(s, c) == s,
    decreases s.len(),
{
    if s.len() > 0 {
        let p = s.drop_last();
        assert forall|i: int| 0 <= i < p.len() implies #[trigger] p[i] != c by {
            assert(p[i] == s[i]);
        }
        lemma_without_absent(p, c);
        assert(p.push(s.last()) =~= s);
    }
}

/// The text of an `i64` reads back as that number.
pub proof fn lemma_iv_of_int_text(n: int)
    requires
        i64::MIN <= n <= i64::MAX,
    ensures
        spec_iv(int_text(n)) == n,
{
    let m: nat = if n < 0 {
        (-n) as nat
    } else {
        n as nat
    };
    lemma_decimal_digits(m);
    let d = decimal_digits(m);
    let s = int_text(n);
    assert forall|i: int| 0 <= i < s.len() implies #[trigger] s[i] != ',' && !is_ws(s[i]) by {
        if n < 0 {
            if i > 0 {
                assert(s[i] == d[i - 1]);
                assert(is_digit(d[i - 1]));
            }
        } else {
            assert(is_digit(d[i]));
        }
    }
    assert(trim_left(s) == s);
    assert(trim_right(s) == s);
    lemma_without_absent(s, ',');
    if n < 0 {
        assert(s.drop_first() =~= d);
        assert(s[0] == '-');
    } else {
        assert(is_digit(s[0]));
    }
}

} // verus!
