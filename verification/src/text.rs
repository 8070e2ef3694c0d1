//! Character-level helpers on strings, with their models over `Seq<char>`.
//!
//! Strings are handled as sequences of Unicode scalar values.  Rust orders
//! `String`s by their UTF-8 bytes, which is the same order as comparing the
//! code points one after the other, so `lex_lt` below is the order of `<` on
//! `String`.
use vstd::prelude::*;

verus! {

broadcast use vstd::string::axiom_spec_iter;

/// Appends `c` to `s`.  Calls `String::push`, which std documents as
/// appending the given char to the end of the string; the contract says just that.
#[verifier::external_body]
pub(crate) fn push_char(s: &mut String, c: char)
    ensures
        final(s)@ == old(s)@.push(c),
{
    s.push(c);
}

/// The characters of `s`, in order.
pub fn chars_of(s: &str) -> (r: Vec<char>)
    ensures
        r@ == s@,
{
    let mut out: Vec<char> = Vec::new();
    for c in it: s.chars()
        invariant
            it.seq() == s@,
            out@ == it.seq().take(it.index() as int),
    {
        out.push(c);
    }
    out
}

/// A `String` made of the characters of `cs`.
pub fn string_from_chars(cs: &[char]) -> (r: String)
    ensures
        r@ == cs@,
{
    let mut out = String::new();
    let n = cs.len();
    for i in 0..n
        invariant
            n == cs@.len(),
            out@ == cs@.take(i as int),
    {
        push_char(&mut out, cs[i]);
        assert(cs@.take(i + 1) == cs@.take(i as int).push(cs@[i as int]));
    }
    assert(cs@.take(n as int) == cs@);
    out
}

/// Appends the characters of `t` to `out`.
pub fn push_text(out: &mut String, t: &str)
    ensures
        final(out)@ == old(out)@ + t@,
{
    let cs = chars_of(t);
    let n = cs.len();
    for i in 0..n
        invariant
            n == cs@.len(),
            cs@ == t@,
            out@ == old(out)@ + cs@.take(i as int),
    {
        push_char(out, cs[i]);
        assert(cs@.take(i + 1) == cs@.take(i as int).push(cs@[i as int]));
    }
    assert(cs@.take(n as int) == cs@);
}

/// The digit `d` (below 10).
pub open spec fn decimal_digit(d: nat) -> char {
    ((d + 48) as u8) as char
}

/// `n` in decimal.
pub open spec fn decimal(n: nat) -> Seq<char>
    decreases n,
{
    if n < 10 {
        seq![decimal_digit(n)]
    } else {
        decimal(n / 10).push(decimal_digit(n % 10))
    }
}

/// Appends `n` in decimal to `out`.
pub fn push_decimal(out: &mut String, n: usize)
    ensures
        final(out)@ == old(out)@ + decimal(n as nat),
    decreases n,
{
    if n >= 10 {
        push_decimal(out, n / 10);
    }
    let d = n % 10;
    let c = ((d + 48) as u8) as char;
    push_char(out, c);
    if n < 10 {
        assert(decimal(n as nat) =~= seq![decimal_digit(n as nat)]);
    } else {
        assert(decimal(n as nat) =~= decimal((n / 10) as nat).push(decimal_digit((n % 10) as nat)));
    }
}

/// The lower-case hexadecimal digit for `d` (below 16).
pub open spec fn hex_digit(d: nat) -> char {
    if d < 10 {
        ((d + 48) as u8) as char
    } else {
        ((d + 87) as u8) as char
    }
}

/// Characters with the Unicode `White_Space` property, the set that
/// `char::is_whitespace` (and so `str::trim`) uses.
pub open spec fn is_white_space(c: char) -> bool {
    ||| ('\t' <= c && c <= '\r')
    ||| c == ' '
    ||| c == '\u{85}'
    ||| c == '\u{a0}'
    ||| c == '\u{1680}'
    ||| ('\u{2000}' <= c && c <= '\u{200a}')
    ||| c == '\u{2028}'
    ||| c == '\u{2029}'
    ||| c == '\u{202f}'
    ||| c == '\u{205f}'
    ||| c == '\u{3000}'
}

pub fn is_white_space_char(c: char) -> (r: bool)
    ensures
        r == is_white_space(c),
{
    ('\t' <= c && c <= '\r') || c == ' ' || c == '\u{85}' || c == '\u{a0}' || c == '\u{1680}'
        || ('\u{2000}' <= c && c <= '\u{200a}') || c == '\u{2028}' || c == '\u{2029}'
        || c == '\u{202f}' || c == '\u{205f}' || c == '\u{3000}'
}

/// `s` without its leading characters satisfying `is_white_space`.
pub open spec fn trim_start_ws(s: Seq<char>) -> Seq<char>
    decreases s.len(),
{
    if s.len() > 0 && is_white_space(s[0]) {
        trim_start_ws(s.drop_first())
    } else {
        s
    }
}

/// `s` without its trailing characters satisfying `is_white_space`.
pub open spec fn trim_end_ws(s: Seq<char>) -> Seq<char>
    decreases s.len(),
{
    if s.len() > 0 && is_white_space(s.last()) {
        trim_end_ws(s.drop_last())
    } else {
        s
    }
}

/// What `str::trim` leaves of `s`.
pub open spec fn trim_ws(s: Seq<char>) -> Seq<char> {
    trim_end_ws(trim_start_ws(s))
}

/// `s` without all of its leading `c`, as `str::trim_start_matches(c)` leaves it.
pub open spec fn trim_start_char(s: Seq<char>, c: char) -> Seq<char>
    decreases s.len(),
{
    if s.len() > 0 && s[0] == c {
        trim_start_char(s.drop_first(), c)
    } else {
        s
    }
}

/// How many times `c` repeats at the start of `s`.
pub open spec fn leading_count(s: Seq<char>, c: char) -> nat
    decreases s.len(),
{
    if s.len() > 0 && s[0] == c {
        1 + leading_count(s.drop_first(), c)
    } else {
        0
    }
}

pub proof fn lemma_trim_start_char_skip(s: Seq<char>, c: char)
    ensures
        leading_count(s, c) <= s.len(),
        trim_start_char(s, c) == s.skip(leading_count(s, c) as int),
        forall|i: int| 0 <= i < leading_count(s, c) ==> s[i] == c,
        leading_count(s, c) < s.len() ==> s[leading_count(s, c) as int] != c,
    decreases s.len(),
{
    if s.len() > 0 && s[0] == c {
        lemma_trim_start_char_skip(s.drop_first(), c);
        assert(s.drop_first().skip(leading_count(s.drop_first(), c) as int) == s.skip(
            leading_count(s, c) as int,
        ));
        assert forall|i: int| 0 <= i < leading_count(s, c) implies s[i] == c by {
            if i > 0 {
                assert(s[i] == s.drop_first()[i - 1]);
            }
        }
    } else {
        assert(s.skip(0) == s);
    }
}

/// The number of leading `c` in `cs`.
pub fn count_leading(cs: &[char], c: char) -> (r: usize)
    ensures
        r == leading_count(cs@, c),
{
    let n = cs.len();
    let mut i: usize = 0;
    assert(cs@.skip(0) == cs@);
    while i < n && cs[i] == c
        invariant
            i <= n,
            n == cs@.len(),
            leading_count(cs@, c) == i + leading_count(cs@.skip(i as int), c),
        decreases n - i,
    {
        assert(cs@.skip(i as int).drop_first() == cs@.skip(i + 1));
        i = i + 1;
    }
    assert(cs@.skip(i as int).len() == 0 || cs@.skip(i as int)[0] != c);
    i
}

/// `cs` with surrounding white space removed, as `str::trim` does.
pub fn trim_chars(cs: &[char]) -> (r: Vec<char>)
    ensures
        r@ == trim_ws(cs@),
{
    let n = cs.len();
    let mut a: usize = 0;
    assert(cs@.skip(0) == cs@);
    while a < n && is_white_space_char(cs[a])
        invariant
            a <= n,
            n == cs@.len(),
            trim_start_ws(cs@) == trim_start_ws(cs@.skip(a as int)),
        decreases n - a,
    {
        assert(cs@.skip(a as int).drop_first() == cs@.skip(a + 1));
        a = a + 1;
    }
    let ghost rest = cs@.skip(a as int);
    assert(trim_start_ws(rest) == rest);
    let mut b: usize = n;
    while b > a && is_white_space_char(cs[b - 1])
        invariant
            a <= b <= n,
            n == cs@.len(),
            trim_end_ws(rest) == trim_end_ws(cs@.subrange(a as int, b as int)),
        decreases b,
    {
        assert(cs@.subrange(a as int, b as int).drop_last() == cs@.subrange(a as int, b - 1));
        b = b - 1;
    }
    assert(rest == cs@.subrange(a as int, n as int));
    let mut out: Vec<char> = Vec::new();
    let mut k: usize = a;
    while k < b
        invariant
            a <= k <= b <= n,
            n == cs@.len(),
            out@ == cs@.subrange(a as int, k as int),
        decreases b - k,
    {
        out.push(cs[k]);
        assert(cs@.subrange(a as int, k + 1) == cs@.subrange(a as int, k as int).push(
            cs@[k as int],
        ));
        k = k + 1;
    }
    out
}

/// Whether two character slices hold the same characters.
pub fn chars_eq(a: &[char], b: &[char]) -> (r: bool)
    ensures
        r == (a@ == b@),
{
    if a.len() != b.len() {
        return false;
    }
    let n = a.len();
    for i in 0..n
        invariant
            n == a@.len(),
            n == b@.len(),
            forall|j: int| 0 <= j < i ==> a@[j] == b@[j],
    {
        if a[i] != b[i] {
            return false;
        }
    }
    assert(a@ =~= b@);
    true
}

/// `s` ends with `suffix`.
pub open spec fn ends_with(s: Seq<char>, suffix: Seq<char>) -> bool {
    suffix.len() <= s.len() && s.skip(s.len() - suffix.len()) == suffix
}

/// `s` starts with `prefix`.
pub open spec fn starts_with(s: Seq<char>, prefix: Seq<char>) -> bool {
    prefix.len() <= s.len() && s.take(prefix.len() as int) == prefix
}

pub fn chars_ends_with(s: &[char], suffix: &[char]) -> (r: bool)
    ensures
        r == ends_with(s@, suffix@),
{
    if suffix.len() > s.len() {
        return false;
    }
    let off = s.len() - suffix.len();
    let n = suffix.len();
    for i in 0..n
        invariant
            n == suffix@.len(),
            off + n == s@.len(),
            off + n == s.len(),
            forall|j: int| 0 <= j < i ==> s@[off + j] == suffix@[j],
    {
        if s[off + i] != suffix[i] {
            assert(s@.skip(off as int)[i as int] != suffix@[i as int]);
            return false;
        }
    }
    assert(s@.skip(off as int) =~= suffix@);
    true
}

pub fn chars_starts_with(s: &[char], prefix: &[char]) -> (r: bool)
    ensures
        r == starts_with(s@, prefix@),
{
    if prefix.len() > s.len() {
        return false;
    }
    let n = prefix.len();
    for i in 0..n
        invariant
            n == prefix@.len(),
            n <= s@.len(),
            forall|j: int| 0 <= j < i ==> s@[j] == prefix@[j],
    {
        if s[i] != prefix[i] {
            assert(s@.take(n as int)[i as int] != prefix@[i as int]);
            return false;
        }
    }
    assert(s@.take(n as int) =~= prefix@);
    true
}

/// Whether `c` occurs in `cs`.
pub fn chars_contain(cs: &[char], c: char) -> (r: bool)
    ensures
        r == cs@.contains(c),
{
    let n = cs.len();
    for i in 0..n
        invariant
            n == cs@.len(),
            forall|j: int| 0 <= j < i ==> cs@[j] != c,
    {
        if cs[i] == c {
            assert(cs@[i as int] == c);
            return true;
        }
    }
    false
}

/// `s` occurs in `text` as a contiguous run.
pub open spec fn contains_seq(text: Seq<char>, s: Seq<char>) -> bool {
    exists|i: int| 0 <= i && i + s.len() <= text.len() && #[trigger] text.subrange(i, i + s.len()) == s
}

pub fn chars_contain_seq(text: &[char], s: &[char]) -> (r: bool)
    ensures
        r == contains_seq(text@, s@),
{
    if s.len() > text.len() {
        return false;
    }
    if s.len() == 0 {
        assert(text@.subrange(0int, 0int + s@.len()) =~= s@);
        return true;
    }
    let last = text.len() - s.len();
    let m = s.len();
    let mut i: usize = 0;
    while i <= last
        invariant
            last + m == text@.len(),
            last + m == text.len(),
            m > 0,
            m == s@.len(),
            forall|k: int| 0 <= k < i ==> #[trigger] text@.subrange(k, k + m) != s@,
        decreases last + 1 - i,
    {
        let mut j: usize = 0;
        let mut same = true;
        while j < m
            invariant
                i <= last,
                last + m == text@.len(),
                last + m == text.len(),
                m == s@.len(),
                j <= m,
                same == (forall|q: int| 0 <= q < j ==> text@[i + q] == s@[q]),
            decreases m - j,
        {
            if text[i + j] != s[j] {
                same = false;
            }
            j = j + 1;
        }
        if same {
            assert(text@.subrange(i as int, i + m) =~= s@);
            return true;
        }
        assert(text@.subrange(i as int, i + m) != s@) by {
            let q = choose|q: int| 0 <= q < m && text@[i + q] != s@[q];
            assert(text@.subrange(i as int, i + m)[q] == text@[i + q]);
        }
        i = i + 1;
    }
    assert forall|k: int| 0 <= k && k + m <= text@.len() implies #[trigger] text@.subrange(k, k + m) != s@ by {
        assert(k < i);
    }
    false
}

/// `s` with every `from` replaced by `to`.
pub open spec fn replace_char(s: Seq<char>, from: char, to: char) -> Seq<char> {
    s.map_values(|c: char| if c == from { to } else { c })
}

pub fn chars_replace(cs: &[char], from: char, to: char) -> (r: Vec<char>)
    ensures
        r@ == replace_char(cs@, from, to),
{
    let mut out: Vec<char> = Vec::new();
    let n = cs.len();
    for i in 0..n
        invariant
            n == cs@.len(),
            out@ == replace_char(cs@.take(i as int), from, to),
    {
        let c = cs[i];
        out.push(if c == from { to } else { c });
        assert(replace_char(cs@.take(i + 1), from, to) =~= replace_char(cs@.take(i as int), from, to).push(
            if c == from { to } else { c },
        ));
    }
    assert(cs@.take(n as int) == cs@);
    out
}

/// Strict lexicographic order on character sequences: the order of `<` on `String`.
pub open spec fn lex_lt(a: Seq<char>, b: Seq<char>) -> bool
    decreases a.len(),
{
    if a.len() == 0 {
        b.len() > 0
    } else if b.len() == 0 {
        false
    } else if a[0] != b[0] {
        a[0] < b[0]
    } else {
        lex_lt(a.drop_first(), b.drop_first())
    }
}

pub proof fn lemma_lex_irreflexive(a: Seq<char>)
    ensures
        !lex_lt(a, a),
    decreases a.len(),
{
    if a.len() > 0 {
        lemma_lex_irreflexive(a.drop_first());
    }
}

pub proof fn lemma_lex_asymmetric(a: Seq<char>, b: Seq<char>)
    ensures
        !(lex_lt(a, b) && lex_lt(b, a)),
    decreases a.len(),
{
    if a.len() > 0 && b.len() > 0 && a[0] == b[0] {
        lemma_lex_asymmetric(a.drop_first(), b.drop_first());
    }
}

pub proof fn lemma_lex_total(a: Seq<char>, b: Seq<char>)
    ensures
        a != b ==> lex_lt(a, b) || lex_lt(b, a),
    decreases a.len(),
{
    if a.len() > 0 && b.len() > 0 && a[0] == b[0] {
        lemma_lex_total(a.drop_first(), b.drop_first());
        if a.drop_first() == b.drop_first() {
            assert(a =~= seq![a[0]] + a.drop_first());
            assert(b =~= seq![b[0]] + b.drop_first());
        }
    } else if a.len() > 0 && b.len() > 0 {
    } else if a.len() == 0 && b.len() == 0 {
        assert(a =~= b);
    }
}

pub proof fn lemma_lex_transitive(a: Seq<char>, b: Seq<char>, c: Seq<char>)
    requires
        lex_lt(a, b),
        lex_lt(b, c),
    ensures
        lex_lt(a, c),
    decreases a.len(),
{
    if a.len() > 0 && b.len() > 0 && c.len() > 0 && a[0] == b[0] && b[0] == c[0] {
        lemma_lex_transitive(a.drop_first(), b.drop_first(), c.drop_first());
    }
}

/// Three-way comparison of `a` and `b`: negative, zero or positive as `a`
/// comes before, equals, or comes after `b`.
pub fn compare_chars(a: &[char], b: &[char]) -> (r: i8)
    ensures
        r < 0 <==> lex_lt(a@, b@),
        r == 0 <==> a@ == b@,
        r > 0 <==> lex_lt(b@, a@),
{
    proof {
        lemma_lex_asymmetric(a@, b@);
        lemma_lex_total(a@, b@);
        lemma_lex_irreflexive(a@);
    }
    let n = if a.len() < b.len() { a.len() } else { b.len() };
    let mut i: usize = 0;
    assert(a@.skip(0) == a@);
    assert(b@.skip(0) == b@);
    while i < n
        invariant
            n <= a@.len(),
            n <= b@.len(),
            n == a@.len() || n == b@.len(),
            i <= n,
            lex_lt(a@, b@) == lex_lt(a@.skip(i as int), b@.skip(i as int)),
            lex_lt(b@, a@) == lex_lt(b@.skip(i as int), a@.skip(i as int)),
            a@.take(i as int) == b@.take(i as int),
        decreases n - i,
    {
        let x = a[i];
        let y = b[i];
        if x != y {
            assert(a@.skip(i as int)[0] == x);
            assert(b@.skip(i as int)[0] == y);
            if x < y {
                return -1;
            } else {
                return 1;
            }
        }
        assert(a@.skip(i as int).drop_first() == a@.skip(i + 1));
        assert(b@.skip(i as int).drop_first() == b@.skip(i + 1));
        assert(a@.take(i + 1) == a@.take(i as int).push(x));
        assert(b@.take(i + 1) == b@.take(i as int).push(y));
        i = i + 1;
    }
    if a.len() < b.len() {
        assert(a@.skip(i as int).len() == 0);
        -1
    } else if a.len() > b.len() {
        assert(b@.skip(i as int).len() == 0);
        1
    } else {
        assert(a@ == a@.take(i as int));
        assert(b@ == b@.take(i as int));
        0
    }
}

} // verus!
