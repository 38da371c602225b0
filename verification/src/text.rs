//! Character-level text helpers shared by the parsers and sanitisers.
//!
//! Whitespace follows the Unicode `White_Space` property, which is what
//! `char::is_whitespace` (and therefore `str::trim`) implements.

use vstd::prelude::*;

verus! {

/// The Unicode `White_Space` property.
pub open spec fn is_ws(c: char) -> bool {
    ||| ('\u{9}' <= c && c <= '\u{d}')
    ||| c == ' '
    ||| c == '\u{85}'
    ||| c == '\u{a0}'
    ||| c == '\u{1680}'
    ||| ('\u{2000}' <= c && c <= '\u{200a}')
    ||| c == '\u{2028}'
    ||| c == '\u{2029}'
    ||| c == '\u{202f}'
    ||| c == '\u{205f}'
    ||| c == '\u{3000}'
}

/// `s` without its leading whitespace.
pub open spec fn trim_start(s: Seq<char>) -> Seq<char>
    decreases s.len(),
{
    if s.len() > 0 && is_ws(s[0]) {
        trim_start(s.drop_first())
    } else {
        s
    }
}

/// `s` without its trailing whitespace.
pub open spec fn trim_end(s: Seq<char>) -> Seq<char>
    decreases s.len(),
{
    if s.len() > 0 && is_ws(s.last()) {
        trim_end(s.drop_last())
    } else {
        s
    }
}

/// `s` without leading and trailing whitespace (`str::trim`).
pub open spec fn trim(s: Seq<char>) -> Seq<char> {
    trim_end(trim_start(s))
}

/// Whether `c` is whitespace.
pub fn is_whitespace(c: char) -> (r: bool)
    ensures
        r == is_ws(c),
{
    ('\u{9}' <= c && c <= '\u{d}') || c == ' ' || c == '\u{85}' || c == '\u{a0}' || c
        == '\u{1680}' || ('\u{2000}' <= c && c <= '\u{200a}') || c == '\u{2028}' || c
        == '\u{2029}' || c == '\u{202f}' || c == '\u{205f}' || c == '\u{3000}'
}

pub proof fn lemma_trim_start_at(s: Seq<char>, a: int)
    requires
        0 <= a <= s.len(),
        forall|j: int| 0 <= j < a ==> is_ws(#[trigger] s[j]),
        a == s.len() || !is_ws(s[a]),
    ensures
        trim_start(s) == s.subrange(a, s.len() as int),
    decreases a,
{
    if a == 0 {
        assert(s.subrange(0, s.len() as int) =~= s);
    } else {
        let t = s.drop_first();
        assert forall|j: int| 0 <= j < a - 1 implies is_ws(#[trigger] t[j]) by {
            assert(t[j] == s[j + 1]);
        }
        if a - 1 < t.len() {
            assert(t[a - 1] == s[a]);
        }
        lemma_trim_start_at(t, a - 1);
        assert(t.subrange(a - 1, t.len() as int) =~= s.subrange(a, s.len() as int));
    }
}

pub proof fn lemma_trim_end_at(s: Seq<char>, b: int)
    requires
        0 <= b <= s.len(),
        forall|j: int| b <= j < s.len() ==> is_ws(#[trigger] s[j]),
        b == 0 || !is_ws(s[b - 1]),
    ensures
        trim_end(s) == s.subrange(0, b),
    decreases s.len() - b,
{
    if b == s.len() {
        assert(s.subrange(0, b) =~= s);
    } else {
        let t = s.drop_last();
        assert forall|j: int| b <= j < t.len() implies is_ws(#[trigger] t[j]) by {
            assert(t[j] == s[j]);
        }
        if b > 0 {
            assert(t[b - 1] == s[b - 1]);
        }
        lemma_trim_end_at(t, b);
        assert(t.subrange(0, b) =~= s.subrange(0, b));
    }
}

/// Bounds `(a, b)` such that `v[a..b]` is `v` trimmed of whitespace on both ends.
pub fn trim_bounds(v: &Vec<char>) -> (r: (usize, usize))
    ensures
        r.0 <= r.1 <= v.len(),
        v@.subrange(r.0 as int, r.1 as int) == trim(v@),
        forall|j: int| 0 <= j < r.0 ==> is_ws(#[trigger] v@[j]),
        forall|j: int| r.1 <= j < v@.len() ==> is_ws(#[trigger] v@[j]),
        r.0 < r.1 ==> !is_ws(v@[r.0 as int]) && !is_ws(v@[r.1 - 1]),
{
    let mut a: usize = 0;
    while a < v.len() && is_whitespace(v[a])
        invariant
            a <= v.len(),
            forall|j: int| 0 <= j < a ==> is_ws(#[trigger] v@[j]),
        decreases v.len() - a,
    {
        a = a + 1;
    }
    proof {
        lemma_trim_start_at(v@, a as int);
    }
    let mut b: usize = v.len();
    while b > a && is_whitespace(v[b - 1])
        invariant
            a <= b <= v.len(),
            forall|j: int| 0 <= j < a ==> is_ws(#[trigger] v@[j]),
            a < v.len() ==> !is_ws(v@[a as int]),
            forall|j: int| b <= j < v.len() ==> is_ws(#[trigger] v@[j]),
        decreases b,
    {
        b = b - 1;
    }
    proof {
        let t = v@.subrange(a as int, v.len() as int);
        assert forall|j: int| (b - a) <= j < t.len() implies is_ws(#[trigger] t[j]) by {
            assert(t[j] == v@[j + a]);
        }
        if b > a {
            assert(t[b - a - 1] == v@[b - 1]);
        }
        lemma_trim_end_at(t, (b - a) as int);
        assert(t.subrange(0, (b - a) as int) =~= v@.subrange(a as int, b as int));
    }
    (a, b)
}

/// The characters of `s`, in order.
pub fn chars_of(s: &str) -> (v: Vec<char>)
    ensures
        v@ == s@,
{
    broadcast use vstd::string::group_string_axioms;

    let mut v: Vec<char> = Vec::new();
    for c in it: s.chars()
        invariant
            v@ == it.seq().take(it.index() as int),
            it.seq() == s@,
    {
        v.push(c);
    }
    v
}

/// Appends one character (`String::push`).
#[verifier::external_body]
pub(crate) fn push_char(s: &mut String, c: char)
    ensures
        final(s)@ == old(s)@.push(c),
{
    s.push(c);
}

/// The string holding `v[a..b]`.
pub fn string_from_range(v: &Vec<char>, a: usize, b: usize) -> (s: String)
    requires
        a <= b <= v.len(),
    ensures
        s@ == v@.subrange(a as int, b as int),
{
    let mut s = String::new();
    let mut i = a;
    while i < b
        invariant
            a <= i <= b <= v.len(),
            s@ == v@.subrange(a as int, i as int),
        decreases b - i,
    {
        push_char(&mut s, v[i]);
        assert(v@.subrange(a as int, i + 1) =~= v@.subrange(a as int, i as int).push(v@[i as int]));
        i = i + 1;
    }
    s
}

/// The string holding all of `v`.
pub fn string_from_chars(v: &Vec<char>) -> (s: String)
    ensures
        s@ == v@,
{
    let s = string_from_range(v, 0, v.len());
    assert(v@.subrange(0, v@.len() as int) =~= v@);
    s
}

/// The Unicode lowercase mapping of a string (`str::to_lowercase`), as the
/// standard library's case tables define it.
pub uninterp spec fn unicode_lowercase(s: Seq<char>) -> Seq<char>;

/// `str::to_lowercase`: the string in lowercase, by the Unicode
/// `Lowercase_Mapping` of each character.
#[verifier::external_body]
fn to_lowercase(s: &str) -> (r: String)
    ensures
        r@ == unicode_lowercase(s@),
{
    s.to_lowercase()
}

/// Every character of `s` is ASCII.
pub open spec fn is_ascii_text(s: Seq<char>) -> bool {
    forall|i: int| 0 <= i < s.len() ==> #[trigger] s[i] <= '\u{7f}'
}

/// `A`..`Z` to `a`..`z`; any other character unchanged.
pub open spec fn ascii_lower_char(c: char) -> char {
    if 'A' <= c && c <= 'Z' {
        ((c as u32) + 32) as char
    } else {
        c
    }
}

/// Lowercase of a string: ASCII text maps `A`..`Z` to `a`..`z` and keeps every
/// other character (the Unicode mapping agrees there, and `str::to_lowercase`
/// takes that path for ASCII); other text takes the full Unicode mapping.
pub open spec fn lowercase(s: Seq<char>) -> Seq<char> {
    if is_ascii_text(s) {
        s.map_values(|c: char| ascii_lower_char(c))
    } else {
        unicode_lowercase(s)
    }
}

fn ascii_lower(c: char) -> (r: char)
    ensures
        r == ascii_lower_char(c),
{
    if 'A' <= c && c <= 'Z' {
        let b: u8 = (c as u8) + 32;
        b as char
    } else {
        c
    }
}

/// The characters of `v[a..b]`, lowercased.
pub fn lowercase_range(v: &Vec<char>, a: usize, b: usize) -> (r: Vec<char>)
    requires
        a <= b <= v.len(),
    ensures
        r@ == lowercase(v@.subrange(a as int, b as int)),
{
    let ghost w = v@.subrange(a as int, b as int);
    let mut i = a;
    while i < b
        invariant
            a <= i <= b <= v.len(),
            w == v@.subrange(a as int, b as int),
            forall|j: int| a <= j < i ==> #[trigger] v@[j] <= '\u{7f}',
        decreases b - i,
    {
        if v[i] > '\u{7f}' {
            assert(!is_ascii_text(w)) by {
                assert(w[i - a] == v@[i as int]);
            }
            let s = string_from_range(v, a, b);
            let lowered = to_lowercase(s.as_str());
            return chars_of(lowered.as_str());
        }
        i = i + 1;
    }
    assert(is_ascii_text(w)) by {
        assert forall|j: int| 0 <= j < w.len() implies #[trigger] w[j] <= '\u{7f}' by {
            assert(w[j] == v@[j + a]);
        }
    }
    let mut r: Vec<char> = Vec::new();
    let mut k = a;
    while k < b
        invariant
            a <= k <= b <= v.len(),
            w == v@.subrange(a as int, b as int),
            r@ == w.take(k - a).map_values(|c: char| ascii_lower_char(c)),
        decreases b - k,
    {
        r.push(ascii_lower(v[k]));
        proof {
            assert(w[k - a] == v@[k as int]);
            assert(w.take(k + 1 - a) =~= w.take(k - a).push(v@[k as int]));
        }
        k = k + 1;
    }
    assert(w.take(b - a) =~= w);
    r
}

/// Whether `w` spells `lit`.
pub fn word_is(w: &Vec<char>, lit: &[char]) -> (r: bool)
    ensures
        r == (w@ == lit@),
{
    if w.len() != lit.len() {
        return false;
    }
    let mut i: usize = 0;
    while i < w.len()
        invariant
            w.len() == lit@.len(),
            i <= w.len(),
            forall|j: int| 0 <= j < i ==> w@[j] == lit@[j],
        decreases w.len() - i,
    {
        if w[i] != lit[i] {
            return false;
        }
        i = i + 1;
    }
    assert(w@ =~= lit@);
    true
}

/// The characters `v[a..b]`.
pub fn vec_range(v: &Vec<char>, a: usize, b: usize) -> (r: Vec<char>)
    requires
        a <= b <= v.len(),
    ensures
        r@ == v@.subrange(a as int, b as int),
{
    let mut r: Vec<char> = Vec::new();
    let mut i = a;
    while i < b
        invariant
            a <= i <= b <= v.len(),
            r@ == v@.subrange(a as int, i as int),
        decreases b - i,
    {
        r.push(v[i]);
        assert(v@.subrange(a as int, i + 1) =~= v@.subrange(a as int, i as int).push(v@[i as int]));
        i = i + 1;
    }
    r
}

/// The decimal digits of `n`, most significant first, without leading
/// zeros (`"0"` for zero).
pub open spec fn decimal(n: nat) -> Seq<char>
    decreases n,
{
    if n < 10 {
        seq![(('0' as int) + n) as char]
    } else {
        decimal(n / 10).push((('0' as int) + (n % 10)) as char)
    }
}

/// The decimal digits of `n` (`n.to_string()`).
pub fn decimal_chars(n: u64) -> (r: Vec<char>)
    ensures
        r@ == decimal(n as nat),
    decreases n,
{
    let d: u8 = (n % 10) as u8;
    let c: char = (48u8 + d) as char;
    if n < 10 {
        let mut r: Vec<char> = Vec::new();
        r.push(c);
        assert(r@ =~= seq![c]);
        r
    } else {
        let mut r = decimal_chars(n / 10);
        r.push(c);
        r
    }
}

/// `String::pop`: drops the last character, if any.
#[verifier::external_body]
pub(crate) fn pop_char(s: &mut String)
    ensures
        final(s)@ == if old(s)@.len() > 0 {
            old(s)@.drop_last()
        } else {
            old(s)@
        },
{
    s.pop();
}

} // verus!
