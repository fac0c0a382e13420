//! Text handling: whitespace, words, lines, trimming, lower case and decimal
//! numbers, over the characters of strings.
use vstd::prelude::*;

verus! {

/// The characters of a string, in order.
pub fn chars_of(s: &str) -> (v: Vec<char>)
    ensures
        v@ == s@,
{
    let mut v: Vec<char> = Vec::new();
    for c in it: s.chars()
        invariant
            v@ == it.seq().take(it.index()),
    {
        v.push(c);
    }
    v
}

/// The characters with the Unicode `White_Space` property, those that
/// `char::is_whitespace` accepts and that `str::split_whitespace`,
/// `str::trim` and their kin split at or strip.
pub open spec fn is_white_space(c: char) -> bool {
    ||| '\u{9}' <= c <= '\u{d}'
    ||| c == ' '
    ||| c == '\u{85}'
    ||| c == '\u{a0}'
    ||| c == '\u{1680}'
    ||| '\u{2000}' <= c <= '\u{200a}'
    ||| c == '\u{2028}'
    ||| c == '\u{2029}'
    ||| c == '\u{202f}'
    ||| c == '\u{205f}'
    ||| c == '\u{3000}'
}

/// Whether `c` is white space in the sense of [`is_white_space`].
pub fn is_whitespace_char(c: char) -> (r: bool)
    ensures
        r == is_white_space(c),
{
    ('\u{9}' <= c && c <= '\u{d}') || c == ' ' || c == '\u{85}' || c == '\u{a0}'
        || c == '\u{1680}' || ('\u{2000}' <= c && c <= '\u{200a}') || c == '\u{2028}'
        || c == '\u{2029}' || c == '\u{202f}' || c == '\u{205f}' || c == '\u{3000}'
}

/// Appends one character with `String::push`, which std documents as
/// appending the character to the end of the string.
#[verifier::external_body]
pub(crate) fn push_char(s: &mut String, c: char)
    ensures
        final(s)@ == old(s)@.push(c),
{
    s.push(c)
}

/// A string holding the characters of `v`, in order.
pub fn string_of_chars(v: &[char]) -> (r: String)
    ensures
        r@ == v@,
{
    let mut r = String::new();
    let mut i: usize = 0;
    while i < v.len()
        invariant
            0 <= i <= v.len(),
            r@ == v@.subrange(0, i as int),
        decreases v.len() - i,
    {
        push_char(&mut r, v[i]);
        assert(v@.subrange(0, i + 1) =~= v@.subrange(0, i as int).push(v@[i as int]));
        i = i + 1;
    }
    assert(v@.subrange(0, v@.len() as int) =~= v@);
    r
}

/// The characters of each string in `v`.
pub open spec fn views(v: Seq<String>) -> Seq<Seq<char>> {
    v.map_values(|w: String| w@)
}

/// How many characters at the start of `s` are not white space.
pub open spec fn word_len(s: Seq<char>) -> nat
    decreases s.len(),
{
    if s.len() > 0 && !is_white_space(s[0]) {
        1 + word_len(s.drop_first())
    } else {
        0
    }
}

/// A word is no longer than what it starts, and at least one character long
/// where that starts with a character that is not white space.
pub proof fn lemma_word_len_bound(s: Seq<char>)
    ensures
        word_len(s) <= s.len(),
        s.len() > 0 && !is_white_space(s[0]) ==> word_len(s) >= 1,
    decreases s.len(),
{
    if s.len() > 0 && !is_white_space(s[0]) {
        lemma_word_len_bound(s.drop_first());
    }
}

/// The words of `s`: its maximal runs of characters that are not white space,
/// in order, as `str::split_whitespace` yields them.
pub open spec fn words(s: Seq<char>) -> Seq<Seq<char>>
    decreases s.len(),
{
    if s.len() == 0 {
        seq![]
    } else if is_white_space(s[0]) {
        words(s.drop_first())
    } else {
        proof {
            lemma_word_len_bound(s);
        }
        seq![s.take(word_len(s) as int)] + words(s.skip(word_len(s) as int))
    }
}

proof fn lemma_word_len_exact(t: Seq<char>, k: int)
    requires
        0 <= k <= t.len(),
        forall|m: int| 0 <= m < k ==> !is_white_space(#[trigger] t[m]),
        k == t.len() || is_white_space(t[k]),
    ensures
        word_len(t) == k,
    decreases k,
{
    if k > 0 {
        let u = t.drop_first();
        assert forall|m: int| 0 <= m < k - 1 implies !is_white_space(#[trigger] u[m]) by {
            assert(u[m] == t[m + 1]);
        }
        assert(k - 1 == u.len() || u[k - 1] == t[k]);
        lemma_word_len_exact(u, k - 1);
    } else {
        assert(!(t.len() > 0 && !is_white_space(t[0])));
    }
}

/// The words of `s`, as `str::split_whitespace` yields them.
pub fn split_words(s: &str) -> (r: Vec<String>)
    ensures
        views(r@) == words(s@),
{
    let cs = chars_of(s);
    let ghost full = cs@;
    let n = cs.len();
    let mut r: Vec<String> = Vec::new();
    let mut i: usize = 0;
    assert(full.skip(0) =~= full);
    while i < n
        invariant
            n == cs.len(),
            full == cs@,
            0 <= i <= n,
            words(full) == views(r@) + words(full.skip(i as int)),
        decreases n - i,
    {
        let ghost rest = full.skip(i as int);
        if is_whitespace_char(cs[i]) {
            assert(rest.drop_first() =~= full.skip(i + 1));
            i = i + 1;
        } else {
            let mut j: usize = i;
            let mut w: Vec<char> = Vec::new();
            while j < n && !is_whitespace_char(cs[j])
                invariant
                    n == cs.len(),
                    full == cs@,
                    i <= j <= n,
                    w@ == full.subrange(i as int, j as int),
                    forall|m: int| i <= m < j ==> !is_white_space(#[trigger] full[m]),
                decreases n - j,
            {
                w.push(cs[j]);
                assert(full.subrange(i as int, j + 1) =~= full.subrange(i as int, j as int).push(full[j as int]));
                j = j + 1;
            }
            proof {
                let k: int = j - i;
                assert forall|m: int| 0 <= m < k implies !is_white_space(#[trigger] rest[m]) by {
                    assert(rest[m] == full[i + m]);
                }
                assert(k == rest.len() || rest[k] == full[j as int]);
                lemma_word_len_exact(rest, k);
                assert(rest.take(k) =~= w@);
                assert(rest.skip(k) =~= full.skip(j as int));
            }
            let word = string_of_chars(w.as_slice());
            let ghost before = r@;
            r.push(word);
            assert(views(r@) =~= views(before) + seq![word@]);
            i = j;
        }
    }
    assert(full.skip(n as int) =~= Seq::<char>::empty());
    assert(views(r@) + words(Seq::<char>::empty()) =~= views(r@));
    r
}

/// How many characters at the start of `s` come before its first `'\n'`.
pub open spec fn line_len(s: Seq<char>) -> nat
    decreases s.len(),
{
    if s.len() > 0 && s[0] != '\n' {
        1 + line_len(s.drop_first())
    } else {
        0
    }
}

/// A line without the `'\r'` that ends it, if one does.
pub open spec fn strip_cr(l: Seq<char>) -> Seq<char> {
    if l.len() > 0 && l.last() == '\r' {
        l.drop_last()
    } else {
        l
    }
}

/// A line is no longer than the text it starts.
pub proof fn lemma_line_len_bound(s: Seq<char>)
    ensures
        line_len(s) <= s.len(),
    decreases s.len(),
{
    if s.len() > 0 && s[0] != '\n' {
        lemma_line_len_bound(s.drop_first());
    }
}

/// The lines of `s` as `str::lines` yields them: split at each `'\n'`, with a
/// `'\r'` right before a `'\n'` dropped too, and no empty line after a final
/// `'\n'`.
pub open spec fn lines(s: Seq<char>) -> Seq<Seq<char>>
    decreases s.len(),
{
    if s.len() == 0 {
        seq![]
    } else {
        proof {
            lemma_line_len_bound(s);
        }
        let k = line_len(s);
        if k == s.len() {
            seq![s]
        } else {
            seq![strip_cr(s.take(k as int))] + lines(s.skip(k + 1 as int))
        }
    }
}

proof fn lemma_line_len_exact(t: Seq<char>, k: int)
    requires
        0 <= k <= t.len(),
        forall|m: int| 0 <= m < k ==> #[trigger] t[m] != '\n',
        k == t.len() || t[k] == '\n',
    ensures
        line_len(t) == k,
    decreases k,
{
    if k > 0 {
        let u = t.drop_first();
        assert forall|m: int| 0 <= m < k - 1 implies #[trigger] u[m] != '\n' by {
            assert(u[m] == t[m + 1]);
        }
        assert(k - 1 == u.len() || u[k - 1] == t[k]);
        lemma_line_len_exact(u, k - 1);
    }
}

/// The lines of `s`, as `str::lines` yields them.
pub fn split_lines(s: &str) -> (r: Vec<String>)
    ensures
        views(r@) == lines(s@),
{
    let cs = chars_of(s);
    let ghost full = cs@;
    let n = cs.len();
    let mut r: Vec<String> = Vec::new();
    let mut i: usize = 0;
    assert(full.skip(0) =~= full);
    while i < n
        invariant
            n == cs.len(),
            full == cs@,
            0 <= i <= n,
            lines(full) == views(r@) + lines(full.skip(i as int)),
        decreases n - i,
    {
        let ghost rest = full.skip(i as int);
        let mut j: usize = i;
        let mut l: Vec<char> = Vec::new();
        while j < n && cs[j] != '\n'
            invariant
                n == cs.len(),
                full == cs@,
                i <= j <= n,
                l@ == full.subrange(i as int, j as int),
                forall|m: int| i <= m < j ==> #[trigger] full[m] != '\n',
            decreases n - j,
        {
            l.push(cs[j]);
            assert(full.subrange(i as int, j + 1) =~= full.subrange(i as int, j as int).push(full[j as int]));
            j = j + 1;
        }
        proof {
            let k: int = j - i;
            assert forall|m: int| 0 <= m < k implies #[trigger] rest[m] != '\n' by {
                assert(rest[m] == full[i + m]);
            }
            assert(k == rest.len() || rest[k] == full[j as int]);
            lemma_line_len_exact(rest, k);
            assert(rest.take(k) =~= l@);
        }
        if j < n {
            if l.len() > 0 && l[l.len() - 1] == '\r' {
                l.pop();
            }
        }
        let line = string_of_chars(l.as_slice());
        let ghost before = r@;
        r.push(line);
        assert(views(r@) =~= views(before) + seq![line@]);
        if j < n {
            proof {
                assert(rest.skip(j - i + 1) =~= full.skip(j + 1));
            }
            i = j + 1;
        } else {
            proof {
                assert(rest =~= full.subrange(i as int, j as int));
                assert(full.skip(n as int) =~= Seq::<char>::empty());
            }
            i = n;
        }
    }
    assert(full.skip(n as int) =~= Seq::<char>::empty());
    assert(views(r@) + lines(Seq::<char>::empty()) =~= views(r@));
    r
}

/// The first line of `s`, or `None` where `s` is empty and so has no line.
pub fn first_line(s: &str) -> (r: Option<String>)
    ensures
        lines(s@).len() == 0 ==> r is None,
        lines(s@).len() > 0 ==> (r matches Some(l) && l@ == lines(s@)[0]),
{
    let ls = split_lines(s);
    if ls.len() > 0 {
        assert(views(ls@)[0] == ls@[0]@);
        Some(ls[0].clone())
    } else {
        None
    }
}

/// A text has lines exactly when it is not empty.
pub proof fn lemma_lines_empty(s: Seq<char>)
    ensures
        lines(s).len() == 0 <==> s.len() == 0,
{
    if s.len() > 0 {
        lemma_line_len_bound(s);
    }
}

/// `s` without the white space it starts with.
pub open spec fn trim_start(s: Seq<char>) -> Seq<char>
    decreases s.len(),
{
    if s.len() > 0 && is_white_space(s[0]) {
        trim_start(s.drop_first())
    } else {
        s
    }
}

/// `s` without the white space it ends with.
pub open spec fn trim_end(s: Seq<char>) -> Seq<char>
    decreases s.len(),
{
    if s.len() > 0 && is_white_space(s.last()) {
        trim_end(s.drop_last())
    } else {
        s
    }
}

/// `s` without white space at either end, as `str::trim` returns it.
pub open spec fn trim(s: Seq<char>) -> Seq<char> {
    trim_end(trim_start(s))
}

proof fn lemma_trim_start_exact(t: Seq<char>, a: int)
    requires
        0 <= a <= t.len(),
        forall|m: int| 0 <= m < a ==> is_white_space(#[trigger] t[m]),
        a == t.len() || !is_white_space(t[a]),
    ensures
        trim_start(t) == t.skip(a),
    decreases a,
{
    if a > 0 {
        let u = t.drop_first();
        assert forall|m: int| 0 <= m < a - 1 implies is_white_space(#[trigger] u[m]) by {
            assert(u[m] == t[m + 1]);
        }
        assert(a - 1 == u.len() || u[a - 1] == t[a]);
        lemma_trim_start_exact(u, a - 1);
        assert(u.skip(a - 1) =~= t.skip(a));
    } else {
        assert(t.skip(0) =~= t);
    }
}

proof fn lemma_trim_end_exact(t: Seq<char>, b: int)
    requires
        0 <= b <= t.len(),
        forall|m: int| b <= m < t.len() ==> is_white_space(#[trigger] t[m]),
        b == 0 || !is_white_space(t[b - 1]),
    ensures
        trim_end(t) == t.take(b),
    decreases t.len() - b,
{
    if b < t.len() {
        let u = t.drop_last();
        assert(is_white_space(t.last()));
        assert forall|m: int| b <= m < u.len() implies is_white_space(#[trigger] u[m]) by {
            assert(u[m] == t[m]);
        }
        assert(b == 0 || u[b - 1] == t[b - 1]);
        lemma_trim_end_exact(u, b);
        assert(u.take(b) =~= t.take(b));
    } else {
        assert(t.take(b) =~= t);
    }
}

proof fn lemma_trim_start_shape(s: Seq<char>) -> (a: int)
    ensures
        0 <= a <= s.len(),
        trim_start(s) == s.skip(a),
        forall|m: int| 0 <= m < a ==> is_white_space(#[trigger] s[m]),
        a < s.len() ==> !is_white_space(s[a]),
    decreases s.len(),
{
    if s.len() > 0 && is_white_space(s[0]) {
        let u = s.drop_first();
        let k = lemma_trim_start_shape(u);
        assert(u.skip(k) =~= s.skip(k + 1));
        assert forall|m: int| 0 <= m < k + 1 implies is_white_space(#[trigger] s[m]) by {
            if m > 0 {
                assert(s[m] == u[m - 1]);
            }
        }
        if k + 1 < s.len() {
            assert(s[k + 1] == u[k]);
        }
        k + 1
    } else {
        assert(s.skip(0) =~= s);
        0
    }
}

proof fn lemma_trim_end_shape(t: Seq<char>) -> (b: int)
    ensures
        0 <= b <= t.len(),
        trim_end(t) == t.take(b),
        forall|m: int| b <= m < t.len() ==> is_white_space(#[trigger] t[m]),
        b > 0 ==> !is_white_space(t[b - 1]),
    decreases t.len(),
{
    if t.len() > 0 && is_white_space(t.last()) {
        let u = t.drop_last();
        let k = lemma_trim_end_shape(u);
        assert(u.take(k) =~= t.take(k));
        assert forall|m: int| k <= m < t.len() implies is_white_space(#[trigger] t[m]) by {
            if m < u.len() {
                assert(t[m] == u[m]);
            }
        }
        if k > 0 {
            assert(t[k - 1] == u[k - 1]);
        }
        k
    } else {
        assert(t.take(t.len() as int) =~= t);
        t.len() as int
    }
}

/// What trimming removes and keeps: the trimmed text is the part of `s`
/// between a run of white space at the start and a run at the end, and
/// where it is not empty it neither starts nor ends with white space; where
/// it is empty, `s` is white space throughout.
pub proof fn lemma_trim_shape(s: Seq<char>) -> (r: (int, int))
    ensures
        0 <= r.0 <= r.1 <= s.len(),
        trim(s) == s.subrange(r.0, r.1),
        forall|m: int| 0 <= m < r.0 ==> is_white_space(#[trigger] s[m]),
        forall|m: int| r.1 <= m < s.len() ==> is_white_space(#[trigger] s[m]),
        r.0 < r.1 ==> !is_white_space(s[r.0]) && !is_white_space(s[r.1 - 1]),
        trim(s).len() > 0 ==> !is_white_space(trim(s)[0]) && !is_white_space(trim(s).last()),
{
    let a = lemma_trim_start_shape(s);
    let t = s.skip(a);
    let b = lemma_trim_end_shape(t);
    assert(t.take(b) =~= s.subrange(a, a + b));
    assert forall|m: int| a + b <= m < s.len() implies is_white_space(#[trigger] s[m]) by {
        assert(s[m] == t[m - a]);
    }
    if b > 0 {
        assert(s[a + b - 1] == t[b - 1]);
        assert(trim(s)[0] == s[a]);
        assert(trim(s).last() == s[a + b - 1]);
    }
    (a, a + b)
}

/// `s` without white space at either end, as `str::trim` returns it.
pub fn trim_whitespace(s: &str) -> (r: String)
    ensures
        r@ == trim(s@),
{
    let cs = chars_of(s);
    let n = cs.len();
    let mut a: usize = 0;
    while a < n && is_whitespace_char(cs[a])
        invariant
            n == cs.len(),
            0 <= a <= n,
            forall|m: int| 0 <= m < a ==> is_white_space(#[trigger] cs@[m]),
        decreases n - a,
    {
        a = a + 1;
    }
    let mut b: usize = n;
    while b > a && is_whitespace_char(cs[b - 1])
        invariant
            n == cs.len(),
            a <= b <= n,
            forall|m: int| b <= m < n ==> is_white_space(#[trigger] cs@[m]),
        decreases b - a,
    {
        b = b - 1;
    }
    let mut v: Vec<char> = Vec::new();
    let mut i: usize = a;
    while i < b
        invariant
            n == cs.len(),
            a <= i <= b <= n,
            v@ == cs@.subrange(a as int, i as int),
        decreases b - i,
    {
        v.push(cs[i]);
        assert(cs@.subrange(a as int, i + 1) =~= cs@.subrange(a as int, i as int).push(cs@[i as int]));
        i = i + 1;
    }
    proof {
        lemma_trim_start_exact(cs@, a as int);
        let t = cs@.skip(a as int);
        let k: int = b - a;
        assert forall|m: int| k <= m < t.len() implies is_white_space(#[trigger] t[m]) by {
            assert(t[m] == cs@[a + m]);
        }
        if k > 0 {
            assert(t[k - 1] == cs@[b - 1]);
        }
        lemma_trim_end_exact(t, k);
        assert(t.take(k) =~= v@);
    }
    string_of_chars(v.as_slice())
}

/// The character of a decimal digit.
pub open spec fn digit_char(d: nat) -> char
    recommends
        d < 10,
{
    ((48 + d) as u8) as char
}

/// The decimal numeral of `n`, without sign or leading zeros, as `{}` formats it.
pub open spec fn decimal(n: nat) -> Seq<char>
    decreases n,
{
    if n < 10 {
        seq![digit_char(n)]
    } else {
        decimal(n / 10).push(digit_char(n % 10))
    }
}

/// Appends the decimal numeral of `n` to `out`.
pub fn push_decimal(out: &mut String, n: u64)
    ensures
        final(out)@ == old(out)@ + decimal(n as nat),
    decreases n,
{
    if n >= 10 {
        push_decimal(out, n / 10);
    }
    let d: u8 = (n % 10) as u8;
    push_char(out, (48u8 + d) as char);
    assert(old(out)@ + decimal(n as nat) =~= if n >= 10 {
        (old(out)@ + decimal((n / 10) as nat)).push(digit_char((n % 10) as nat))
    } else {
        old(out)@.push(digit_char(n as nat))
    });
}

/// The lower-case form of a string, as `str::to_lowercase` gives it under the
/// Unicode case mappings.
pub uninterp spec fn lowercase(s: Seq<char>) -> Seq<char>;

/// Calls `str::to_lowercase`. Its result is a function of the string alone
/// (the Unicode case mappings, with no locale); this contract names that
/// result and says nothing more of it.
#[verifier::external_body]
pub(crate) fn to_lowercase(s: &str) -> (r: String)
    ensures
        r@ == lowercase(s@),
{
    s.to_lowercase()
}

/// Whether the characters of `v` are those of `k`.
pub fn chars_equal(v: &[char], k: &str) -> (r: bool)
    ensures
        r == (v@ == k@),
{
    let kc = chars_of(k);
    if v.len() != kc.len() {
        return false;
    }
    let mut i: usize = 0;
    while i < v.len()
        invariant
            v.len() == kc.len(),
            kc@ == k@,
            0 <= i <= v.len(),
            forall|m: int| 0 <= m < i ==> v@[m] == kc@[m],
        decreases v.len() - i,
    {
        if v[i] != kc[i] {
            assert(v@[i as int] != kc@[i as int]);
            return false;
        }
        i = i + 1;
    }
    assert(v@ =~= kc@);
    true
}

/// The number that a string of decimal digits spells, most significant
/// digit first.
pub open spec fn digits_value(s: Seq<char>) -> int
    decreases s.len(),
{
    if s.len() == 0 {
        0
    } else {
        digits_value(s.drop_last()) * 10 + (s.last() as int - '0' as int)
    }
}

/// A decimal numeral is made of the digits `'0'` to `'9'`, spells its
/// number, and has no leading zero (zero itself is the single digit `'0'`).
pub proof fn lemma_decimal_spells(n: nat)
    ensures
        decimal(n).len() >= 1,
        forall|i: int| 0 <= i < decimal(n).len() ==> '0' <= #[trigger] decimal(n)[i] <= '9',
        digits_value(decimal(n)) == n,
        decimal(n)[0] == '0' ==> n == 0 && decimal(n).len() == 1,
    decreases n,
{
    let d = n % 10;
    assert(digit_char(d) as int == 48 + d);
    if n < 10 {
        assert(decimal(n) == seq![digit_char(n)]);
        assert(seq![digit_char(n)].drop_last() =~= Seq::<char>::empty());
        assert(digits_value(Seq::<char>::empty()) == 0);
        assert(digits_value(decimal(n)) == 0 * 10 + (digit_char(n) as int - 48));
    } else {
        lemma_decimal_spells(n / 10);
        let prev = decimal(n / 10);
        assert(decimal(n) == prev.push(digit_char(d)));
        assert(prev.push(digit_char(d)).drop_last() =~= prev);
        assert(digits_value(decimal(n)) == digits_value(prev) * 10 + (digit_char(d) as int - 48));
        assert((n / 10) * 10 + d == n);
        assert forall|i: int| 0 <= i < decimal(n).len() implies '0' <= #[trigger] decimal(n)[i] <= '9' by {
            if i < prev.len() {
                assert(decimal(n)[i] == prev[i]);
            }
        }
        assert(decimal(n)[0] == prev[0]);
        assert(n / 10 > 0);
    }
}

/// Each word is a non-empty run of characters none of which is white space;
/// a text has no words exactly when it is white space throughout.
pub proof fn lemma_words_shape(s: Seq<char>)
    ensures
        forall|i: int| 0 <= i < words(s).len() ==> #[trigger] words(s)[i].len() > 0,
        forall|i: int, j: int| 0 <= i < words(s).len() && 0 <= j < words(s)[i].len()
            ==> !is_white_space(#[trigger] words(s)[i][j]),
        words(s).len() == 0 <==> forall|m: int| 0 <= m < s.len() ==> is_white_space(#[trigger] s[m]),
    decreases s.len(),
{
    if s.len() == 0 {
    } else if is_white_space(s[0]) {
        let u = s.drop_first();
        lemma_words_shape(u);
        if words(s).len() == 0 {
            assert forall|m: int| 0 <= m < s.len() implies is_white_space(#[trigger] s[m]) by {
                if m > 0 {
                    assert(s[m] == u[m - 1]);
                }
            }
        }
        if forall|m: int| 0 <= m < s.len() ==> is_white_space(#[trigger] s[m]) {
            assert forall|m: int| 0 <= m < u.len() implies is_white_space(#[trigger] u[m]) by {
                assert(u[m] == s[m + 1]);
            }
        }
    } else {
        lemma_word_len_bound(s);
        let k = word_len(s);
        let w = s.take(k as int);
        let u = s.skip(k as int);
        lemma_words_shape(u);
        lemma_word_chars(s);
        assert(words(s) == seq![w] + words(u));
        assert forall|i: int| 0 <= i < words(s).len() implies #[trigger] words(s)[i].len() > 0 by {
            if i > 0 {
                assert(words(s)[i] == words(u)[i - 1]);
            }
        }
        assert forall|i: int, j: int| 0 <= i < words(s).len() && 0 <= j < words(s)[i].len()
            implies !is_white_space(#[trigger] words(s)[i][j]) by {
            if i > 0 {
                assert(words(s)[i] == words(u)[i - 1]);
            } else {
                assert(words(s)[0] == w);
                assert(w[j] == s[j]);
            }
        }
        assert(!is_white_space(s[0]));
    }
}

proof fn lemma_word_chars(s: Seq<char>)
    ensures
        forall|j: int| 0 <= j < word_len(s) ==> !is_white_space(#[trigger] s[j]),
    decreases s.len(),
{
    if s.len() > 0 && !is_white_space(s[0]) {
        let u = s.drop_first();
        lemma_word_chars(u);
        lemma_word_len_bound(u);
        assert forall|j: int| 0 <= j < word_len(s) implies !is_white_space(#[trigger] s[j]) by {
            if j > 0 {
                assert(s[j] == u[j - 1]);
            }
        }
    }
}

/// How lines split: a line without a newline is the whole text; a line
/// followed by a newline is cut there, with a carriage return just before the
/// newline dropped, and the rest of the text goes on to the next lines.
pub proof fn lemma_lines_split(a: Seq<char>, b: Seq<char>)
    requires
        forall|i: int| 0 <= i < a.len() ==> a[i] != '\n',
    ensures
        a.len() > 0 ==> lines(a) == seq![a],
        lines(a + seq!['\n'] + b) == seq![strip_cr(a)] + lines(b),
        strip_cr(a) == (if a.len() > 0 && a.last() == '\r' { a.take(a.len() - 1) } else { a }),
{
    let s = a + seq!['\n'] + b;
    lemma_line_len_exact(s, a.len() as int);
    assert(s.take(a.len() as int) =~= a);
    assert(s.skip(a.len() + 1 as int) =~= b);
    if a.len() > 0 {
        lemma_line_len_exact(a, a.len() as int);
        assert(a.take(a.len() - 1) =~= a.drop_last());
    }
}

} // verus!
