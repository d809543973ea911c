//! Character-level text handling: the model of the few `str` operations the
//! parsers of this crate are built from (lines, trimming, whitespace splitting,
//! unsigned decimal parsing and rendering), with executable versions proved
//! against that model.
use vstd::prelude::*;

verus! {

// ---------------------------------------------------------------------------
// Model
// ---------------------------------------------------------------------------

/// The characters Unicode classifies as `White_Space`: the set that
/// `char::is_whitespace` tests.
pub open spec fn is_ws(c: char) -> bool {
    ||| c == '\t' || c == '\n' || c == '\u{0B}' || c == '\u{0C}' || c == '\r' || c == ' '
    ||| c == '\u{85}' || c == '\u{A0}' || c == '\u{1680}'
    ||| ('\u{2000}' <= c && c <= '\u{200A}')
    ||| c == '\u{2028}' || c == '\u{2029}' || c == '\u{202F}' || c == '\u{205F}' || c == '\u{3000}'
}

/// `s` without its leading whitespace.
pub open spec fn trim_start(s: Seq<char>) -> Seq<char>
    decreases s.len(),
{
    if s.len() > 0 && is_ws(s[0]) {
        trim_start(s.drop_first())
    } else {
        s
    }
}

/// `s` without its trailing whitespace.
pub open spec fn trim_end(s: Seq<char>) -> Seq<char>
    decreases s.len(),
{
    if s.len() > 0 && is_ws(s.last()) {
        trim_end(s.drop_last())
    } else {
        s
    }
}

/// `s` without leading and trailing whitespace (`str::trim`).
pub open spec fn trim(s: Seq<char>) -> Seq<char> {
    trim_end(trim_start(s))
}

/// Index of the first `'\n'` in `s`, or `s.len()` when there is none.
pub open spec fn line_end(s: Seq<char>) -> nat
    decreases s.len(),
{
    if s.len() == 0 || s[0] == '\n' {
        0
    } else {
        1 + line_end(s.drop_first())
    }
}

/// `s` without one trailing `'\r'`.
pub open spec fn strip_cr(s: Seq<char>) -> Seq<char> {
    if s.len() > 0 && s.last() == '\r' {
        s.drop_last()
    } else {
        s
    }
}

/// The lines of `s` as `str::lines` yields them: split at `'\n'`, a `'\r'`
/// just before a `'\n'` dropped, and no empty line after a final `'\n'`.
pub open spec fn lines(s: Seq<char>) -> Seq<Seq<char>>
    decreases s.len(),
{
    if s.len() == 0 {
        seq![]
    } else if line_end(s) < s.len() {
        seq![strip_cr(s.take(line_end(s) as int))] + lines(s.skip(line_end(s) + 1 as int))
    } else {
        seq![s]
    }
}

/// Index of the first whitespace character in `s`, or `s.len()`.
pub open spec fn word_end(s: Seq<char>) -> nat
    decreases s.len(),
{
    if s.len() == 0 || is_ws(s[0]) {
        0
    } else {
        1 + word_end(s.drop_first())
    }
}

/// The whitespace-separated words of `s` (`str::split_whitespace`).
pub open spec fn words(s: Seq<char>) -> Seq<Seq<char>>
    decreases s.len(),
{
    if s.len() == 0 {
        seq![]
    } else if is_ws(s[0]) {
        words(s.drop_first())
    } else {
        proof {
            lemma_word_end_bound(s);
        }
        seq![s.take(word_end(s) as int)] + words(s.skip(word_end(s) as int))
    }
}

/// The lines of `v`, each taken by its view.
pub open spec fn seqs_of(v: Seq<Vec<char>>) -> Seq<Seq<char>> {
    v.map_values(|x: Vec<char>| x@)
}

pub open spec fn is_digit(c: char) -> bool {
    '0' <= c && c <= '9'
}

pub open spec fn all_digits(s: Seq<char>) -> bool {
    forall|i: int| 0 <= i < s.len() ==> is_digit(#[trigger] s[i])
}

pub open spec fn digit_value(c: char) -> nat {
    (c as int - '0' as int) as nat
}

/// The number that the decimal digits `s` write.
pub open spec fn digits_value(s: Seq<char>) -> nat
    decreases s.len(),
{
    if s.len() == 0 {
        0
    } else {
        digits_value(s.drop_last()) * 10 + digit_value(s.last())
    }
}

/// What `str::parse` gives for an unsigned integer type whose largest value is
/// `max`: an optional `'+'`, then one or more ASCII digits whose value is at
/// most `max`; anything else is an error (`None`).
pub open spec fn parse_unsigned(s: Seq<char>, max: nat) -> Option<nat> {
    let d = if s.len() > 0 && s[0] == '+' {
        s.drop_first()
    } else {
        s
    };
    if d.len() > 0 && all_digits(d) && digits_value(d) <= max {
        Some(digits_value(d))
    } else {
        None
    }
}

pub open spec fn digit_char(d: nat) -> char {
    (48 + d) as char
}

/// The decimal representation of `n`, as `format!("{n}")` writes it.
pub open spec fn decimal(n: nat) -> Seq<char>
    decreases n,
{
    if n < 10 {
        seq![digit_char(n)]
    } else {
        decimal(n / 10).push(digit_char(n % 10))
    }
}

/// The words `ws` joined with one space between consecutive words.
pub open spec fn join_spaced(ws: Seq<Seq<char>>) -> Seq<char>
    decreases ws.len(),
{
    if ws.len() == 0 {
        seq![]
    } else if ws.len() == 1 {
        ws[0]
    } else {
        join_spaced(ws.drop_last()) + seq![' '] + ws.last()
    }
}

/// Whether `s` begins with `p`.
pub open spec fn has_prefix(s: Seq<char>, p: Seq<char>) -> bool {
    p.len() <= s.len() && s.take(p.len() as int) == p
}

// ---------------------------------------------------------------------------
// Lemmas
// ---------------------------------------------------------------------------

proof fn lemma_line_end(s: Seq<char>, j: int)
    requires
        0 <= j <= s.len(),
        forall|k: int| 0 <= k < j ==> s[k] != '\n',
        j == s.len() || s[j] == '\n',
    ensures
        line_end(s) == j,
    decreases j,
{
    if j > 0 {
        lemma_line_end(s.drop_first(), j - 1);
    }
}

pub proof fn lemma_word_end_bound(s: Seq<char>)
    ensures
        word_end(s) <= s.len(),
        s.len() > 0 && !is_ws(s[0]) ==> word_end(s) >= 1,
    decreases s.len(),
{
    if s.len() > 0 && !is_ws(s[0]) {
        lemma_word_end_bound(s.drop_first());
    }
}

proof fn lemma_word_end(s: Seq<char>, j: int)
    requires
        0 <= j <= s.len(),
        forall|k: int| 0 <= k < j ==> !is_ws(s[k]),
        j == s.len() || is_ws(s[j]),
    ensures
        word_end(s) == j,
    decreases j,
{
    if j > 0 {
        lemma_word_end(s.drop_first(), j - 1);
    }
}

pub proof fn lemma_trim_start_len(s: Seq<char>)
    ensures
        trim_start(s).len() <= s.len(),
    decreases s.len(),
{
    if s.len() > 0 && is_ws(s[0]) {
        lemma_trim_start_len(s.drop_first());
    }
}

pub proof fn lemma_decimal_len(n: nat)
    ensures
        decimal(n).len() >= 1,
    decreases n,
{
    if n >= 10 {
        lemma_decimal_len(n / 10);
    }
}

proof fn lemma_digits_value_monotone(s: Seq<char>, k: int)
    requires
        0 <= k <= s.len(),
    ensures
        digits_value(s.take(k)) <= digits_value(s),
    decreases s.len() - k,
{
    if k < s.len() {
        lemma_digits_value_monotone(s, k + 1);
        assert(s.take(k + 1).drop_last() =~= s.take(k));
    } else {
        assert(s.take(k) =~= s);
    }
}

/// `s` has no whitespace at either end.
pub open spec fn trimmed(s: Seq<char>) -> bool {
    s.len() == 0 || (!is_ws(s[0]) && !is_ws(s.last()))
}

proof fn lemma_trim_start_no_ws(s: Seq<char>)
    ensures
        trim_start(s).len() == 0 || !is_ws(trim_start(s)[0]),
    decreases s.len(),
{
    if s.len() > 0 && is_ws(s[0]) {
        lemma_trim_start_no_ws(s.drop_first());
    }
}

proof fn lemma_trim_end_prefix(s: Seq<char>)
    ensures
        trim_end(s).len() <= s.len(),
        trim_end(s) =~= s.take(trim_end(s).len() as int),
        trim_end(s).len() == 0 || !is_ws(trim_end(s).last()),
    decreases s.len(),
{
    if s.len() > 0 && is_ws(s.last()) {
        lemma_trim_end_prefix(s.drop_last());
        assert(s.drop_last().take(trim_end(s).len() as int) =~= s.take(trim_end(s).len() as int));
    }
}

/// Trimming leaves no whitespace at either end.
pub proof fn lemma_trim_trimmed(s: Seq<char>)
    ensures
        trimmed(trim(s)),
{
    lemma_trim_start_no_ws(s);
    lemma_trim_end_prefix(trim_start(s));
    if trim(s).len() > 0 {
        assert(trim(s)[0] == trim_start(s)[0]);
    }
}

/// A word followed by a space and more text is the first word of it.
pub proof fn lemma_words_cons(w: Seq<char>, r: Seq<char>)
    requires
        w.len() > 0,
        forall|k: int| 0 <= k < w.len() ==> !is_ws(#[trigger] w[k]),
    ensures
        words(w + seq![' '] + r) == seq![w] + words(r),
{
    let s = w + seq![' '] + r;
    assert(forall|k: int| 0 <= k < w.len() ==> s[k] == w[k]);
    assert(s[w.len() as int] == ' ');
    lemma_word_end(s, w.len() as int);
    assert(s.take(w.len() as int) =~= w);
    let rest = s.skip(w.len() as int);
    assert(rest.drop_first() =~= r);
    assert(is_ws(rest[0]));
    assert(words(rest) == words(rest.drop_first()));
}

/// The words `ws`, each after a space.
pub open spec fn spaced(ws: Seq<Seq<char>>) -> Seq<char>
    decreases ws.len(),
{
    if ws.len() == 0 {
        seq![]
    } else {
        seq![' '] + ws[0] + spaced(ws.drop_first())
    }
}

/// `w` is a word: not empty, and without whitespace.
pub open spec fn is_word(w: Seq<char>) -> bool {
    w.len() > 0 && forall|k: int| 0 <= k < w.len() ==> !is_ws(#[trigger] w[k])
}

proof fn lemma_words_single(w: Seq<char>)
    requires
        is_word(w),
    ensures
        words(w) == seq![w],
{
    lemma_word_end(w, w.len() as int);
    assert(w.take(w.len() as int) =~= w);
    assert(w.skip(w.len() as int) =~= Seq::<char>::empty());
    assert(words(Seq::<char>::empty()) == Seq::<Seq<char>>::empty());
    assert(seq![w] + Seq::<Seq<char>>::empty() =~= seq![w]);
}

/// A word followed by more words, each after a space, splits into those
/// words.
pub proof fn lemma_words_spaced(w: Seq<char>, rest: Seq<Seq<char>>)
    requires
        is_word(w),
        forall|i: int| 0 <= i < rest.len() ==> is_word(#[trigger] rest[i]),
    ensures
        words(w + spaced(rest)) == seq![w] + rest,
    decreases rest.len(),
{
    if rest.len() == 0 {
        assert(w + spaced(rest) =~= w);
        lemma_words_single(w);
        assert(seq![w] + rest =~= seq![w]);
    } else {
        let r0 = rest[0];
        assert(is_word(rest[0]));
        lemma_words_spaced(r0, rest.drop_first());
        assert(w + spaced(rest) =~= w + seq![' '] + (r0 + spaced(rest.drop_first())));
        lemma_words_cons(w, r0 + spaced(rest.drop_first()));
        assert(seq![w] + (seq![r0] + rest.drop_first()) =~= seq![w] + rest);
    }
}

/// The decimal representation of `n` is made of digits, the last of them
/// the last digit of `n`, and reads back as `n`.
pub proof fn lemma_decimal_digits(n: nat)
    ensures
        decimal(n).len() > 0,
        all_digits(decimal(n)),
        digits_value(decimal(n)) == n,
    decreases n,
{
    if n >= 10 {
        lemma_decimal_digits(n / 10);
        let d = decimal(n / 10);
        assert(decimal(n).drop_last() =~= d);
        assert forall|i: int| 0 <= i < decimal(n).len() implies is_digit(#[trigger] decimal(n)[i]) by {
            if i < d.len() {
                assert(decimal(n)[i] == d[i]);
            }
        }
        assert(decimal(n).last() == digit_char(n % 10));
        assert(digit_value(digit_char(n % 10)) == n % 10);
        assert(digits_value(decimal(n)) == digits_value(d) * 10 + n % 10);
        assert(n == (n / 10) * 10 + n % 10);
    } else {
        assert(digit_value(digit_char(n)) == n);
        assert(decimal(n).drop_last() =~= Seq::<char>::empty());
        assert(digits_value(Seq::<char>::empty()) == 0);
        assert(digits_value(decimal(n)) == digits_value(Seq::<char>::empty()) * 10 + digit_value(
            digit_char(n),
        ));
    }
}

/// The decimal representation of a number up to `max` parses as that number.
pub proof fn lemma_parse_decimal(n: nat, max: nat)
    requires
        n <= max,
    ensures
        parse_unsigned(decimal(n), max) == Some(n),
{
    lemma_decimal_digits(n);
    assert(is_digit(decimal(n)[0]));
}

// ---------------------------------------------------------------------------
// Executable operations
// ---------------------------------------------------------------------------

pub fn char_is_ws(c: char) -> (b: bool)
    ensures
        b == is_ws(c),
{
    c == '\t' || c == '\n' || c == '\u{0B}' || c == '\u{0C}' || c == '\r' || c == ' ' || c
        == '\u{85}' || c == '\u{A0}' || c == '\u{1680}' || ('\u{2000}' <= c && c <= '\u{200A}')
        || c == '\u{2028}' || c == '\u{2029}' || c == '\u{202F}' || c == '\u{205F}' || c
        == '\u{3000}'
}

/// What `str::to_lowercase` gives for the characters `s` (the Unicode
/// lowercase mapping, with the final-sigma rule).
pub uninterp spec fn lowercase(s: Seq<char>) -> Seq<char>;

/// `str::to_lowercase`. The contract states only that the result is the
/// lowercase mapping of the argument, which depends on the argument alone;
/// what that mapping is (Unicode's tables) is not written out.
#[verifier::external_body]
pub(crate) fn to_lowercase(s: &str) -> (r: String)
    ensures
        r@ == lowercase(s@),
{
    s.to_lowercase()
}

/// The characters of `s`, in order.
pub fn chars_of(s: &str) -> (v: Vec<char>)
    ensures
        v@ == s@,
{
    let mut v: Vec<char> = Vec::new();
    for c in it: s.chars()
        invariant
            v@ == it.seq().take(it.index() as int),
    {
        v.push(c);
    }
    v
}

/// Appends `c` to `s` (`String::push`).
#[verifier::external_body]
pub(crate) fn push_char(s: &mut String, c: char)
    ensures
        final(s)@ == old(s)@.push(c),
{
    s.push(c);
}

/// The string made of the characters `v`.
pub fn string_of(v: &[char]) -> (s: String)
    ensures
        s@ == v@,
{
    let mut s = String::new();
    let mut i: usize = 0;
    while i < v.len()
        invariant
            i <= v@.len(),
            s@ == v@.take(i as int),
        decreases v@.len() - i,
    {
        push_char(&mut s, v[i]);
        assert(v@.take(i + 1) =~= v@.take(i as int).push(v@[i as int]));
        i = i + 1;
    }
    assert(v@.take(v@.len() as int) =~= v@);
    s
}

/// The characters `v[from..to]`.
pub fn sub_chars(v: &[char], from: usize, to: usize) -> (r: Vec<char>)
    requires
        from <= to <= v@.len(),
    ensures
        r@ == v@.subrange(from as int, to as int),
{
    let mut r: Vec<char> = Vec::new();
    let mut i = from;
    while i < to
        invariant
            from <= i <= to <= v@.len(),
            r@ == v@.subrange(from as int, i as int),
        decreases to - i,
    {
        r.push(v[i]);
        assert(v@.subrange(from as int, i + 1) =~= v@.subrange(from as int, i as int).push(
            v@[i as int],
        ));
        i = i + 1;
    }
    r
}

/// Appends the characters of `s` to `v`.
pub fn push_str(v: &mut Vec<char>, s: &str)
    ensures
        final(v)@ == old(v)@ + s@,
{
    let cs = chars_of(s);
    push_chars(v, &cs);
}

/// Appends the characters `w` to `v`.
pub fn push_chars(v: &mut Vec<char>, w: &[char])
    ensures
        final(v)@ == old(v)@ + w@,
{
    let ghost start = v@;
    let mut i: usize = 0;
    while i < w.len()
        invariant
            i <= w@.len(),
            v@ == start + w@.take(i as int),
        decreases w@.len() - i,
    {
        v.push(w[i]);
        assert(w@.take(i + 1) =~= w@.take(i as int).push(w@[i as int]));
        i = i + 1;
    }
    assert(w@.take(w@.len() as int) =~= w@);
}

/// Whether the characters `a` are exactly those of `b`.
pub fn eq_str(a: &[char], b: &str) -> (r: bool)
    ensures
        r == (a@ == b@),
{
    let bs = chars_of(b);
    eq_chars(a, &bs)
}

/// Whether `a` and `b` hold the same characters.
pub fn eq_chars(a: &[char], b: &[char]) -> (r: bool)
    ensures
        r == (a@ == b@),
{
    if a.len() != b.len() {
        return false;
    }
    let mut i: usize = 0;
    while i < a.len()
        invariant
            i <= a@.len(),
            a@.len() == b@.len(),
            forall|k: int| 0 <= k < i ==> a@[k] == b@[k],
        decreases a@.len() - i,
    {
        if a[i] != b[i] {
            return false;
        }
        i = i + 1;
    }
    assert(a@ =~= b@);
    true
}

/// Whether `a` begins with the characters of `p`.
pub fn starts_with_str(a: &[char], p: &str) -> (r: bool)
    ensures
        r == has_prefix(a@, p@),
{
    let ps = chars_of(p);
    if ps.len() > a.len() {
        return false;
    }
    let mut i: usize = 0;
    while i < ps.len()
        invariant
            i <= ps@.len() <= a@.len(),
            ps@ == p@,
            forall|k: int| 0 <= k < i ==> a@[k] == ps@[k],
        decreases ps@.len() - i,
    {
        if a[i] != ps[i] {
            assert(a@.take(ps@.len() as int)[i as int] != ps@[i as int]);
            assert(a@.take(ps@.len() as int) != ps@);
            return false;
        }
        i = i + 1;
    }
    assert(a@.take(ps@.len() as int) =~= ps@);
    true
}

/// Whether `c` occurs in `a`.
pub fn contains_char(a: &[char], c: char) -> (r: bool)
    ensures
        r == a@.contains(c),
{
    let mut i: usize = 0;
    while i < a.len()
        invariant
            i <= a@.len(),
            forall|k: int| 0 <= k < i ==> a@[k] != c,
        decreases a@.len() - i,
    {
        if a[i] == c {
            return true;
        }
        i = i + 1;
    }
    false
}

/// `v` without leading and trailing whitespace.
pub fn trim_chars(v: &[char]) -> (r: Vec<char>)
    ensures
        r@ == trim(v@),
{
    let n = v.len();
    let mut a: usize = 0;
    assert(v@.subrange(0, n as int) =~= v@);
    while a < n && char_is_ws(v[a])
        invariant
            a <= n == v@.len(),
            trim_start(v@) == trim_start(v@.subrange(a as int, n as int)),
        decreases n - a,
    {
        assert(v@.subrange(a as int, n as int).drop_first() =~= v@.subrange(a + 1, n as int));
        a = a + 1;
    }
    assert(trim_start(v@.subrange(a as int, n as int)) == v@.subrange(a as int, n as int));
    let mut b: usize = n;
    while b > a && char_is_ws(v[b - 1])
        invariant
            a <= b <= n == v@.len(),
            trim(v@) == trim_end(v@.subrange(a as int, b as int)),
        decreases b - a,
    {
        assert(v@.subrange(a as int, b as int).drop_last() =~= v@.subrange(a as int, b - 1));
        b = b - 1;
    }
    sub_chars(v, a, b)
}

/// The lines of `v` (`str::lines`).
pub fn lines_of(v: &[char]) -> (r: Vec<Vec<char>>)
    ensures
        seqs_of(r@) == lines(v@),
{
    let n = v.len();
    let mut r: Vec<Vec<char>> = Vec::new();
    let mut pos: usize = 0;
    assert(v@.subrange(0, n as int) =~= v@);
    assert(seqs_of(r@) =~= seq![]);
    assert(seq![] + lines(v@) =~= lines(v@));
    assert(seq![] + words(v@) =~= words(v@));
    while pos < n
        invariant
            pos <= n == v@.len(),
            seqs_of(r@) + lines(v@.subrange(pos as int, n as int)) == lines(v@),
        decreases n - pos,
    {
        let ghost rest = v@.subrange(pos as int, n as int);
        let mut j = pos;
        while j < n && v[j] != '\n'
            invariant
                pos <= j <= n == v@.len(),
                forall|k: int| pos <= k < j ==> v@[k] != '\n',
            decreases n - j,
        {
            j = j + 1;
        }
        proof {
            lemma_line_end(rest, j - pos);
        }
        let ghost old_r = seqs_of(r@);
        if j < n {
            let mut e = j;
            if e > pos && v[e - 1] == '\r' {
                e = e - 1;
            }
            let line = sub_chars(v, pos, e);
            assert(line@ == strip_cr(rest.take(j - pos)));
            r.push(line);
            assert(rest.skip(j - pos + 1) =~= v@.subrange(j + 1, n as int));
            assert(seqs_of(r@) =~= old_r.push(line@));
            pos = j + 1;
        } else {
            let line = sub_chars(v, pos, n);
            r.push(line);
            assert(seqs_of(r@) =~= old_r.push(line@));
            assert(lines(v@.subrange(n as int, n as int)) =~= seq![]);
            pos = n;
        }
    }
    assert(lines(v@.subrange(n as int, n as int)) =~= seq![]);
    assert(seqs_of(r@) + seq![] =~= seqs_of(r@));
    r
}

/// The whitespace-separated words of `v` (`str::split_whitespace`).
pub fn words_of(v: &[char]) -> (r: Vec<Vec<char>>)
    ensures
        seqs_of(r@) == words(v@),
{
    let n = v.len();
    let mut r: Vec<Vec<char>> = Vec::new();
    let mut pos: usize = 0;
    assert(v@.subrange(0, n as int) =~= v@);
    assert(seqs_of(r@) =~= seq![]);
    assert(seq![] + lines(v@) =~= lines(v@));
    assert(seq![] + words(v@) =~= words(v@));
    while pos < n
        invariant
            pos <= n == v@.len(),
            seqs_of(r@) + words(v@.subrange(pos as int, n as int)) == words(v@),
        decreases n - pos,
    {
        let ghost rest = v@.subrange(pos as int, n as int);
        if char_is_ws(v[pos]) {
            assert(rest.drop_first() =~= v@.subrange(pos + 1, n as int));
            pos = pos + 1;
        } else {
            let mut j = pos;
            while j < n && !char_is_ws(v[j])
                invariant
                    pos <= j <= n == v@.len(),
                    forall|k: int| pos <= k < j ==> !is_ws(v@[k]),
                decreases n - j,
            {
                j = j + 1;
            }
            proof {
                lemma_word_end(rest, j - pos);
            }
            let ghost old_r = seqs_of(r@);
            let w = sub_chars(v, pos, j);
            assert(w@ =~= rest.take(j - pos));
            r.push(w);
            assert(rest.skip(j - pos) =~= v@.subrange(j as int, n as int));
            assert(seqs_of(r@) =~= old_r.push(w@));
            pos = j;
        }
    }
    assert(words(v@.subrange(n as int, n as int)) =~= seq![]);
    assert(seqs_of(r@) + seq![] =~= seqs_of(r@));
    r
}

/// The value of the decimal digits `v`, or `None` when it exceeds `max`.
fn digits_to_u64(v: &[char], max: u64) -> (r: Option<u64>)
    requires
        all_digits(v@),
    ensures
        match r {
            Some(x) => digits_value(v@) <= max && x == digits_value(v@),
            None => digits_value(v@) > max,
        },
{
    let mut acc: u64 = 0;
    let mut i: usize = 0;
    while i < v.len()
        invariant
            i <= v@.len(),
            all_digits(v@),
            acc == digits_value(v@.take(i as int)),
            acc <= max,
        decreases v@.len() - i,
    {
        let c = v[i];
        assert(is_digit(v@[i as int]));
        let d = (c as u32 - 48) as u64;
        assert(v@.take(i + 1).drop_last() =~= v@.take(i as int));
        assert(v@.take(i + 1).last() == c);
        if d > max || acc > (max - d) / 10 {
            proof {
                assert(acc * 10 + d > max) by (nonlinear_arith)
                    requires
                        d > max || acc > (max - d) / 10,
                ;
                lemma_digits_value_monotone(v@, i + 1);
            }
            return None;
        }
        proof {
            assert(acc * 10 + d <= max) by (nonlinear_arith)
                requires
                    acc <= (max - d) / 10,
                    d <= max,
            ;
        }
        acc = acc * 10 + d;
        i = i + 1;
    }
    assert(v@.take(v@.len() as int) =~= v@);
    Some(acc)
}

/// Parses `v` as an unsigned integer no larger than `max`, as `str::parse`
/// does for the unsigned integer type whose largest value is `max`.
pub fn parse_uint(v: &[char], max: u64) -> (r: Option<u64>)
    ensures
        match parse_unsigned(v@, max as nat) {
            Some(x) => r == Some(x as u64),
            None => r is None,
        },
{
    let start: usize = if v.len() > 0 && v[0] == '+' {
        1
    } else {
        0
    };
    let ghost d = v@.subrange(start as int, v@.len() as int);
    assert(d =~= if v@.len() > 0 && v@[0] == '+' {
        v@.drop_first()
    } else {
        v@
    });
    if start >= v.len() {
        assert(d.len() == 0);
        return None;
    }
    let mut i = start;
    while i < v.len()
        invariant
            start <= i <= v@.len(),
            d == v@.subrange(start as int, v@.len() as int),
            d == (if v@.len() > 0 && v@[0] == '+' {
                v@.drop_first()
            } else {
                v@
            }),
            forall|k: int| start <= k < i ==> is_digit(#[trigger] v@[k]),
        decreases v@.len() - i,
    {
        if !('0' <= v[i] && v[i] <= '9') {
            assert(d[i - start] == v@[i as int]);
            assert(!is_digit(d[i - start]));
            return None;
        }
        i = i + 1;
    }
    let ds = sub_chars(v, start, v.len());
    assert(all_digits(ds@));
    match digits_to_u64(&ds, max) {
        Some(x) => Some(x),
        None => None,
    }
}

/// The decimal representation of `n`.
pub fn decimal_chars(n: u64) -> (v: Vec<char>)
    ensures
        v@ == decimal(n as nat),
    decreases n,
{
    if n < 10 {
        let c = ((48 + n) as u8) as char;
        vec![c]
    } else {
        let mut v = decimal_chars(n / 10);
        let c = ((48 + n % 10) as u8) as char;
        v.push(c);
        v
    }
}

/// The words `ws` joined with single spaces (`[..].join(" ")`).
pub fn join_with_spaces(ws: &Vec<Vec<char>>) -> (r: Vec<char>)
    ensures
        r@ == join_spaced(seqs_of(ws@)),
{
    let mut r: Vec<char> = Vec::new();
    let mut i: usize = 0;
    while i < ws.len()
        invariant
            i <= ws@.len(),
            r@ == join_spaced(seqs_of(ws@).take(i as int)),
        decreases ws@.len() - i,
    {
        let ghost prev = seqs_of(ws@).take(i as int);
        assert(seqs_of(ws@).take(i + 1).drop_last() =~= prev);
        if i > 0 {
            r.push(' ');
        }
        push_chars(&mut r, ws[i].as_slice());
        proof {
            if i == 0 {
                assert(r@ =~= seqs_of(ws@).take(1)[0]);
            } else {
                assert(r@ =~= join_spaced(prev) + seq![' '] + seqs_of(ws@)[i as int]);
            }
        }
        i = i + 1;
    }
    assert(seqs_of(ws@).take(ws@.len() as int) =~= seqs_of(ws@));
    r
}

} // verus!
