//! Identifiers inside statement descriptions: the symbol and ISIN at the
//! start of a dividend description, and the jurisdiction at the end of a
//! withholding tax description.

use vstd::prelude::*;

use crate::error::Error;
use crate::text::{chars_of, is_digit, string_of};

verus! {

/// `[A-Za-z0-9.]`
pub open spec fn is_symbol_char(c: char) -> bool {
    ('a' <= c && c <= 'z') || ('A' <= c && c <= 'Z') || is_digit(c) || c == '.'
}

/// `[A-Z0-9]`
pub open spec fn is_isin_char(c: char) -> bool {
    ('A' <= c && c <= 'Z') || is_digit(c)
}

/// Length of the longest prefix of `s` whose characters are symbol characters.
pub open spec fn symbol_run(s: Seq<char>) -> int
    decreases s.len(),
{
    if s.len() > 0 && is_symbol_char(s[0]) {
        1 + symbol_run(s.drop_first())
    } else {
        0
    }
}

/// Length of the longest prefix of `s` made of spaces.
pub open spec fn space_run(s: Seq<char>) -> int
    decreases s.len(),
{
    if s.len() > 0 && s[0] == ' ' {
        1 + space_run(s.drop_first())
    } else {
        0
    }
}

/// Length of the longest prefix of `s` made of ISIN characters.
pub open spec fn isin_run(s: Seq<char>) -> int
    decreases s.len(),
{
    if s.len() > 0 && is_isin_char(s[0]) {
        1 + isin_run(s.drop_first())
    } else {
        0
    }
}

/// The captures of `^([A-Za-z0-9.]*) *\(([A-Z0-9]*)\)`: the symbol at the
/// start of `s` and the ISIN in the parentheses after it. Each part is the
/// longest run of its characters; nothing else can match.
pub open spec fn asset_ids_match(s: Seq<char>) -> Option<(Seq<char>, Seq<char>)> {
    let a = symbol_run(s);
    let b = a + space_run(s.skip(a));
    if b >= s.len() || s[b] != '(' {
        None
    } else {
        let c = b + 1 + isin_run(s.skip(b + 1));
        if c >= s.len() || s[c] != ')' {
            None
        } else {
            Some((s.take(a), s.subrange(b + 1, c)))
        }
    }
}

/// The two characters in `- XY <word>` at the end of `s`, where `word` is
/// `Steuer` or `TAX`: the capture of `- (.{2}) <word>$`. `.` is any character but
/// a line feed.
pub open spec fn code_before(s: Seq<char>, word: Seq<char>) -> Option<Seq<char>> {
    let n = s.len();
    let w = word.len();
    if n < w + 5 {
        None
    } else {
        let p = n - w - 5;
        if s[p] == '-' && s[p + 1] == ' ' && s[p + 2] != '\n' && s[p + 3] != '\n' && s[p + 4] == ' '
            && s.skip(n - w) == word {
            Some(s.subrange(p + 2, p + 4))
        } else {
            None
        }
    }
}

proof fn lemma_symbol_run(s: Seq<char>, k: int)
    requires
        0 <= k <= s.len(),
        forall|a: int| 0 <= a < k ==> is_symbol_char(#[trigger] s[a]),
        k == s.len() || !is_symbol_char(s[k]),
    ensures
        symbol_run(s) == k,
    decreases k,
{
    if k > 0 {
        assert forall|a: int| 0 <= a < k - 1 implies is_symbol_char(#[trigger] s.drop_first()[a]) by {
            assert(s.drop_first()[a] == s[a + 1]);
        }
        if k < s.len() {
            assert(s.drop_first()[k - 1] == s[k]);
        }
        lemma_symbol_run(s.drop_first(), k - 1);
    }
}

proof fn lemma_space_run(s: Seq<char>, k: int)
    requires
        0 <= k <= s.len(),
        forall|a: int| 0 <= a < k ==> #[trigger] s[a] == ' ',
        k == s.len() || s[k] != ' ',
    ensures
        space_run(s) == k,
    decreases k,
{
    if k > 0 {
        assert forall|a: int| 0 <= a < k - 1 implies #[trigger] s.drop_first()[a] == ' ' by {
            assert(s.drop_first()[a] == s[a + 1]);
        }
        if k < s.len() {
            assert(s.drop_first()[k - 1] == s[k]);
        }
        lemma_space_run(s.drop_first(), k - 1);
    }
}

proof fn lemma_isin_run(s: Seq<char>, k: int)
    requires
        0 <= k <= s.len(),
        forall|a: int| 0 <= a < k ==> is_isin_char(#[trigger] s[a]),
        k == s.len() || !is_isin_char(s[k]),
    ensures
        isin_run(s) == k,
    decreases k,
{
    if k > 0 {
        assert forall|a: int| 0 <= a < k - 1 implies is_isin_char(#[trigger] s.drop_first()[a]) by {
            assert(s.drop_first()[a] == s[a + 1]);
        }
        if k < s.len() {
            assert(s.drop_first()[k - 1] == s[k]);
        }
        lemma_isin_run(s.drop_first(), k - 1);
    }
}

fn symbol_char(c: char) -> (b: bool)
    ensures
        b == is_symbol_char(c),
{
    ('a' <= c && c <= 'z') || ('A' <= c && c <= 'Z') || ('0' <= c && c <= '9') || c == '.'
}

fn isin_char(c: char) -> (b: bool)
    ensures
        b == is_isin_char(c),
{
    ('A' <= c && c <= 'Z') || ('0' <= c && c <= '9')
}

/// The characters `v[from..to]` as a `String`.
fn sub_string(v: &Vec<char>, from: usize, to: usize) -> (r: String)
    requires
        from <= to <= v.len(),
    ensures
        r@ == v@.subrange(from as int, to as int),
{
    let mut w: Vec<char> = Vec::new();
    let mut k: usize = from;
    while k < to
        invariant
            from <= k <= to <= v.len(),
            w@ == v@.subrange(from as int, k as int),
        decreases to - k,
    {
        w.push(v[k]);
        k = k + 1;
        assert(w@ =~= v@.subrange(from as int, k as int));
    }
    string_of(&w)
}

/// Symbol and ISIN at the start of a description such as
/// `AAPL(US0378331005) Bardividende ...`.
pub fn parse_asset_ids(beschreibung: &str) -> (r: Result<(String, String), Error>)
    ensures
        r matches Ok((sym, isin)) ==> asset_ids_match(beschreibung@) == Some((sym@, isin@)),
        r is Err ==> asset_ids_match(beschreibung@) is None,
        r matches Err(e) ==> e == Error::FailedToParseSymbolsFromDescription,
{
    let v = chars_of(beschreibung);
    let ghost s = beschreibung@;
    let n = v.len();
    let mut a: usize = 0;
    while a < n && symbol_char(v[a])
        invariant
            a <= n,
            n == s.len(),
            v@ == s,
            forall|k: int| 0 <= k < a ==> is_symbol_char(#[trigger] s[k]),
        decreases n - a,
    {
        a = a + 1;
    }
    proof {
        lemma_symbol_run(s, a as int);
    }
    let mut b: usize = a;
    while b < n && v[b] == ' '
        invariant
            a <= b <= n,
            n == s.len(),
            v@ == s,
            forall|k: int| a <= k < b ==> #[trigger] s[k] == ' ',
        decreases n - b,
    {
        b = b + 1;
    }
    proof {
        let t = s.skip(a as int);
        assert forall|k: int| 0 <= k < b - a implies #[trigger] t[k] == ' ' by {
            assert(t[k] == s[k + a]);
        }
        if b < n {
            assert(t[b - a] == s[b as int]);
        }
        lemma_space_run(t, b - a);
    }
    if b >= n || v[b] != '(' {
        return Err(Error::FailedToParseSymbolsFromDescription);
    }
    let mut c: usize = b + 1;
    while c < n && isin_char(v[c])
        invariant
            b + 1 <= c <= n,
            n == s.len(),
            v@ == s,
            forall|k: int| b + 1 <= k < c ==> is_isin_char(#[trigger] s[k]),
        decreases n - c,
    {
        c = c + 1;
    }
    proof {
        let t = s.skip(b + 1);
        assert forall|k: int| 0 <= k < c - b - 1 implies is_isin_char(#[trigger] t[k]) by {
            assert(t[k] == s[k + b + 1]);
        }
        if c < n {
            assert(t[c - b - 1] == s[c as int]);
        }
        lemma_isin_run(t, c - b - 1);
    }
    if c >= n || v[c] != ')' {
        return Err(Error::FailedToParseSymbolsFromDescription);
    }
    let sym = sub_string(&v, 0, a);
    let isin = sub_string(&v, b + 1, c);
    assert(s.subrange(0, a as int) =~= s.take(a as int));
    Ok((sym, isin))
}

/// The two characters before `word` at the end of `v`, after `- `.
fn code_before_word(v: &Vec<char>, word: &str) -> (r: Option<String>)
    ensures
        r matches Some(t) ==> code_before(v@, word@) == Some(t@),
        r is None ==> code_before(v@, word@) is None,
{
    let wv = chars_of(word);
    let n = v.len();
    let w = wv.len();
    if n < 5 || n - 5 < w {
        return None;
    }
    let p = n - w - 5;
    if !(v[p] == '-' && v[p + 1] == ' ' && v[p + 2] != '\n' && v[p + 3] != '\n' && v[p + 4]
        == ' ') {
        return None;
    }
    let mut k: usize = 0;
    while k < w
        invariant
            k <= w,
            w == wv@.len(),
            wv@ == word@,
            n == v@.len(),
            n >= w + 5,
            forall|a: int| 0 <= a < k ==> v@[n - w + a] == wv@[a],
        decreases w - k,
    {
        if v[n - w + k] != wv[k] {
            assert(v@.skip(n - w)[k as int] == v@[n - w + k]);
            return None;
        }
        k = k + 1;
    }
    assert(v@.skip(n - w) =~= word@);
    Some(sub_string(v, p + 2, p + 4))
}

/// The jurisdiction code in a withholding tax description ending in
/// `- XY Steuer` or `- XY TAX`.
pub fn parse_jurisdiction(beschreibung: &str) -> (r: Result<String, Error>)
    ensures
        code_before(beschreibung@, "Steuer"@) matches Some(t) ==> r matches Ok(j) && j@ == t,
        code_before(beschreibung@, "Steuer"@) is None ==> match code_before(
            beschreibung@,
            "TAX"@,
        ) {
            Some(t) => r matches Ok(j) && j@ == t,
            None => r matches Err(e) && e matches Error::FailedToParseJurisdiction(d) && d@
                == beschreibung@,
        },
{
    let v = chars_of(beschreibung);
    match code_before_word(&v, "Steuer") {
        Some(t) => {
            return Ok(t);
        },
        None => {},
    }
    match code_before_word(&v, "TAX") {
        Some(t) => Ok(t),
        None => Err(Error::FailedToParseJurisdiction(beschreibung.to_owned())),
    }
}

/// A description that starts with a symbol, optional spaces and an ISIN in
/// parentheses gives back that symbol and ISIN, whatever follows.
pub proof fn lemma_asset_ids_read_back(sym: Seq<char>, spaces: nat, isin: Seq<char>, rest: Seq<char>)
    requires
        forall|i: int| 0 <= i < sym.len() ==> is_symbol_char(#[trigger] sym[i]),
        forall|i: int| 0 <= i < isin.len() ==> is_isin_char(#[trigger] isin[i]),
    ensures
        asset_ids_match(
            sym + Seq::new(spaces, |i: int| ' ') + seq!['('] + isin + seq![')'] + rest,
        ) == Some((sym, isin)),
{
    let sp = Seq::new(spaces, |i: int| ' ');
    let s = sym + sp + seq!['('] + isin + seq![')'] + rest;
    let a = sym.len() as int;
    assert forall|i: int| 0 <= i < a implies is_symbol_char(#[trigger] s[i]) by {
        assert(s[i] == sym[i]);
    }
    if spaces > 0 {
        assert(s[a] == ' ');
    } else {
        assert(s[a] == '(');
    }
    lemma_symbol_run(s, a);
    let t = s.skip(a);
    assert forall|i: int| 0 <= i < spaces implies #[trigger] t[i] == ' ' by {
        assert(t[i] == s[a + i]);
    }
    assert(t[spaces as int] == s[a + spaces]);
    lemma_space_run(t, spaces as int);
    let b = a + spaces;
    assert(s[b] == '(');
    let u = s.skip(b + 1);
    let n = isin.len() as int;
    assert forall|i: int| 0 <= i < n implies is_isin_char(#[trigger] u[i]) by {
        assert(u[i] == s[b + 1 + i]);
        assert(s[b + 1 + i] == isin[i]);
    }
    assert(u[n] == s[b + 1 + n]);
    assert(s[b + 1 + n] == ')');
    lemma_isin_run(u, n);
    assert(s.take(a) =~= sym);
    assert(s.subrange(b + 1, b + 1 + n) =~= isin);
}

/// A withholding tax description that ends in `- XY <word>` (two characters
/// other than a line feed) gives back the jurisdiction `XY`, whatever comes
/// before.
pub proof fn lemma_jurisdiction_read_back(prefix: Seq<char>, code: Seq<char>, word: Seq<char>)
    requires
        code.len() == 2,
        code[0] != '\n',
        code[1] != '\n',
    ensures
        code_before(prefix + seq!['-', ' '] + code + seq![' '] + word, word) == Some(code),
{
    let s = prefix + seq!['-', ' '] + code + seq![' '] + word;
    let n = s.len();
    let w = word.len();
    let p = n - w - 5;
    assert(p == prefix.len());
    assert(s[p] == '-');
    assert(s[p + 1] == ' ');
    assert(s[p + 2] == code[0]);
    assert(s[p + 3] == code[1]);
    assert(s[p + 4] == ' ');
    assert(s.skip(n - w) =~= word);
    assert(s.subrange(p + 2, p + 4) =~= code);
}

} // verus!
