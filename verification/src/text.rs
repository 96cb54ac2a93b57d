//! Character-level text primitives: conversion between strings and character
//! vectors, whitespace trimming, line and word splitting, pattern search and
//! joining. Each executable function is stated over `Seq<char>`, the view of
//! a string.

use vstd::prelude::*;

verus! {

/// `String::push` appends exactly one character to the end of the string.
pub assume_specification[ String::push ](s: &mut String, ch: char)
    ensures
        final(s)@ == old(s)@.push(ch),
;

/// The characters of `s`, in order.
pub fn to_chars(s: &str) -> (chars: Vec<char>)
    ensures
        chars@ == s@,
{
    let mut chars: Vec<char> = Vec::new();
    for c in it: s.chars()
        invariant
            chars@ == s@.take(it.index() as int),
            it.seq() == s@,
    {
        chars.push(c);
    }
    chars
}

/// The string made of `chars`, in order.
pub fn from_chars(chars: &[char]) -> (s: String)
    ensures
        s@ == chars@,
{
    let mut s = String::new();
    let mut i: usize = 0;
    while i < chars.len()
        invariant
            i <= chars.len(),
            s@ == chars@.take(i as int),
        decreases chars.len() - i,
    {
        s.push(chars[i]);
        i += 1;
    }
    s
}

/// Appends `chars` to `out`.
pub fn push_chars(out: &mut String, chars: &[char])
    ensures
        final(out)@ == old(out)@ + chars@,
{
    let mut i: usize = 0;
    while i < chars.len()
        invariant
            i <= chars.len(),
            out@ == old(out)@ + chars@.take(i as int),
        decreases chars.len() - i,
    {
        out.push(chars[i]);
        i += 1;
    }
}

/// Whether `a` and `b` hold the same characters.
pub fn same_text(a: &[char], b: &[char]) -> (same: bool)
    ensures
        same == (a@ == b@),
{
    if a.len() != b.len() {
        return false;
    }
    let mut i: usize = 0;
    while i < a.len()
        invariant
            i <= a.len(),
            a.len() == b.len(),
            a@.take(i as int) == b@.take(i as int),
        decreases a.len() - i,
    {
        if a[i] != b[i] {
            return false;
        }
        assert(a@.take(i + 1) == a@.take(i as int).push(a@[i as int]));
        assert(b@.take(i + 1) == b@.take(i as int).push(b@[i as int]));
        i += 1;
    }
    assert(a@ == a@.take(a.len() as int));
    assert(b@ == b@.take(b.len() as int));
    true
}

/// The code points with the Unicode `White_Space` property.
pub open spec fn is_whitespace(c: char) -> bool {
    let n = c as u32;
    ||| 0x09 <= n <= 0x0d
    ||| n == 0x20
    ||| n == 0x85
    ||| n == 0xa0
    ||| n == 0x1680
    ||| 0x2000 <= n <= 0x200a
    ||| n == 0x2028
    ||| n == 0x2029
    ||| n == 0x202f
    ||| n == 0x205f
    ||| n == 0x3000
}

/// An ASCII decimal digit or the decimal point.
pub open spec fn is_numeric(c: char) -> bool {
    ('0' <= c <= '9') || c == '.'
}

/// The three character classes that the report grammar distinguishes.
#[derive(Clone, Copy, PartialEq, Eq, Structural, Debug)]
pub enum CharClass {
    /// Unicode white space.
    Whitespace,
    /// Anything but white space.
    Word,
    /// Decimal digits and the decimal point.
    Numeric,
}

impl CharClass {
    /// Membership of `c` in the class.
    pub open spec fn holds(self, c: char) -> bool {
        match self {
            CharClass::Whitespace => is_whitespace(c),
            CharClass::Word => !is_whitespace(c),
            CharClass::Numeric => is_numeric(c),
        }
    }

    /// Decides membership of `c` in the class.
    pub fn contains(self, c: char) -> (b: bool)
        ensures
            b == self.holds(c),
    {
        let n = c as u32;
        let white = (0x09 <= n && n <= 0x0d) || n == 0x20 || n == 0x85 || n == 0xa0 || n == 0x1680
            || (0x2000 <= n && n <= 0x200a) || n == 0x2028 || n == 0x2029 || n == 0x202f
            || n == 0x205f || n == 0x3000;
        match self {
            CharClass::Whitespace => white,
            CharClass::Word => !white,
            CharClass::Numeric => ('0' <= c && c <= '9') || c == '.',
        }
    }
}

/// Length of the longest prefix of `s` whose characters all belong to `class`.
pub open spec fn prefix_len(s: Seq<char>, class: CharClass) -> nat
    decreases s.len(),
{
    if s.len() > 0 && class.holds(s[0]) {
        1 + prefix_len(s.drop_first(), class)
    } else {
        0
    }
}

/// Length of the longest suffix of `s` whose characters all belong to `class`.
pub open spec fn suffix_len(s: Seq<char>, class: CharClass) -> nat
    decreases s.len(),
{
    if s.len() > 0 && class.holds(s.last()) {
        1 + suffix_len(s.drop_last(), class)
    } else {
        0
    }
}

/// `prefix_len` never exceeds the length of the text.
pub proof fn lemma_prefix_len_bound(s: Seq<char>, class: CharClass)
    ensures
        prefix_len(s, class) <= s.len(),
    decreases s.len(),
{
    if s.len() > 0 && class.holds(s[0]) {
        lemma_prefix_len_bound(s.drop_first(), class);
    }
}

/// `n` is the prefix length exactly when the first `n` characters belong to
/// the class and the one after them, if any, does not.
pub proof fn lemma_prefix_len_is(s: Seq<char>, class: CharClass, n: nat)
    requires
        n <= s.len(),
        forall|k: int| 0 <= k < n ==> class.holds(#[trigger] s[k]),
        n < s.len() ==> !class.holds(s[n as int]),
    ensures
        prefix_len(s, class) == n,
    decreases n,
{
    if n > 0 {
        let rest = s.drop_first();
        assert forall|k: int| 0 <= k < n - 1 implies class.holds(#[trigger] rest[k]) by {
            assert(rest[k] == s[k + 1]);
        }
        if n < s.len() {
            assert(rest[n - 1] == s[n as int]);
        }
        lemma_prefix_len_is(rest, class, (n - 1) as nat);
    }
}

/// `n` is the suffix length exactly when the last `n` characters belong to
/// the class and the one before them, if any, does not.
pub proof fn lemma_suffix_len_is(s: Seq<char>, class: CharClass, n: nat)
    requires
        n <= s.len(),
        forall|k: int| s.len() - n <= k < s.len() ==> class.holds(#[trigger] s[k]),
        n < s.len() ==> !class.holds(s[s.len() - n - 1]),
    ensures
        suffix_len(s, class) == n,
    decreases n,
{
    if n > 0 {
        let rest = s.drop_last();
        assert forall|k: int| rest.len() - (n - 1) <= k < rest.len() implies class.holds(
            #[trigger] rest[k],
        ) by {
            assert(rest[k] == s[k]);
        }
        if n < s.len() {
            assert(rest[rest.len() - (n - 1) - 1] == s[s.len() - n - 1]);
        }
        lemma_suffix_len_is(rest, class, (n - 1) as nat);
    }
}

/// Every character of the prefix belongs to the class, and the character
/// after the prefix does not.
pub proof fn lemma_prefix_len_holds(s: Seq<char>, class: CharClass)
    ensures
        prefix_len(s, class) <= s.len(),
        forall|k: int| 0 <= k < prefix_len(s, class) ==> class.holds(#[trigger] s[k]),
        prefix_len(s, class) < s.len() ==> !class.holds(s[prefix_len(s, class) as int]),
    decreases s.len(),
{
    if s.len() > 0 && class.holds(s[0]) {
        let rest = s.drop_first();
        lemma_prefix_len_holds(rest, class);
        assert forall|k: int| 0 <= k < prefix_len(s, class) implies class.holds(
            #[trigger] s[k],
        ) by {
            if k > 0 {
                assert(s[k] == rest[k - 1]);
            }
        }
        if prefix_len(s, class) < s.len() {
            assert(s[prefix_len(s, class) as int] == rest[prefix_len(rest, class) as int]);
        }
    }
}

/// Counts the leading characters of `s` that belong to `class`.
pub fn scan(s: &[char], class: CharClass) -> (n: usize)
    ensures
        n == prefix_len(s@, class),
        n <= s.len(),
{
    let mut i: usize = 0;
    while i < s.len() && class.contains(s[i])
        invariant
            i <= s.len(),
            forall|k: int| 0 <= k < i ==> class.holds(#[trigger] s@[k]),
        decreases s.len() - i,
    {
        i += 1;
    }
    proof {
        lemma_prefix_len_is(s@, class, i as nat);
    }
    i
}

/// Counts the trailing characters of `s` that belong to `class`.
pub fn scan_back(s: &[char], class: CharClass) -> (n: usize)
    ensures
        n == suffix_len(s@, class),
        n <= s.len(),
{
    let mut i: usize = s.len();
    while i > 0 && class.contains(s[i - 1])
        invariant
            i <= s.len(),
            forall|k: int| i <= k < s.len() ==> class.holds(#[trigger] s@[k]),
        decreases i,
    {
        i -= 1;
    }
    proof {
        lemma_suffix_len_is(s@, class, (s.len() - i) as nat);
    }
    s.len() - i
}

/// `s` without its leading white space.
pub open spec fn trim_start(s: Seq<char>) -> Seq<char> {
    s.skip(prefix_len(s, CharClass::Whitespace) as int)
}

/// `s` without its trailing white space.
pub open spec fn trim_end(s: Seq<char>) -> Seq<char> {
    s.take(s.len() - suffix_len(s, CharClass::Whitespace))
}

/// `s` without leading and trailing white space.
pub open spec fn trim(s: Seq<char>) -> Seq<char> {
    trim_end(trim_start(s))
}

/// The leading run of digits and decimal points of `s`: a token without its
/// unit or percent suffix.
pub open spec fn numeric_prefix(s: Seq<char>) -> Seq<char> {
    s.take(prefix_len(s, CharClass::Numeric) as int)
}

/// Removes leading white space.
pub fn skip_whitespace<'a>(s: &'a [char]) -> (r: &'a [char])
    ensures
        r@ == trim_start(s@),
{
    let n = scan(s, CharClass::Whitespace);
    &s[n..s.len()]
}

/// Removes leading and trailing white space.
pub fn trimmed<'a>(s: &'a [char]) -> (r: &'a [char])
    ensures
        r@ == trim(s@),
{
    let start = skip_whitespace(s);
    let n = scan_back(start, CharClass::Whitespace);
    &start[0..start.len() - n]
}

/// The references of `v` as texts.
pub open spec fn texts(v: Seq<&[char]>) -> Seq<Seq<char>> {
    Seq::new(v.len(), |i: int| v[i]@)
}

/// Whether `s` starts with `prefix`.
pub fn starts_with(s: &[char], prefix: &[char]) -> (b: bool)
    ensures
        b == prefix@.is_prefix_of(s@),
{
    if prefix.len() > s.len() {
        return false;
    }
    let head = &s[0..prefix.len()];
    same_text(head, prefix)
}

/// Position of the first occurrence of `pat` in `s`.
pub open spec fn find(s: Seq<char>, pat: Seq<char>) -> Option<int>
    decreases s.len(),
{
    if pat.is_prefix_of(s) {
        Some(0)
    } else if s.len() == 0 {
        None
    } else {
        match find(s.drop_first(), pat) {
            Some(i) => Some(i + 1),
            None => None,
        }
    }
}

/// A pattern longer than the text does not occur in it.
pub proof fn lemma_find_too_long(s: Seq<char>, pat: Seq<char>)
    requires
        pat.len() > s.len(),
    ensures
        find(s, pat) is None,
    decreases s.len(),
{
    if s.len() > 0 {
        lemma_find_too_long(s.drop_first(), pat);
    }
}

/// Where `pat` starts at none of the first `n` positions, the search
/// continues in the rest of the text.
pub proof fn lemma_find_skip(s: Seq<char>, pat: Seq<char>, n: int)
    requires
        0 <= n <= s.len(),
        forall|k: int| 0 <= k < n ==> !pat.is_prefix_of(#[trigger] s.skip(k)),
    ensures
        find(s, pat) == match find(s.skip(n), pat) {
            Some(i) => Some(i + n),
            None => None,
        },
    decreases n,
{
    if n == 0 {
        assert(s.skip(0) == s);
    } else {
        let rest = s.drop_first();
        assert(s.skip(0) == s);
        assert forall|k: int| 0 <= k < n - 1 implies !pat.is_prefix_of(#[trigger] rest.skip(k)) by {
            assert(rest.skip(k) == s.skip(k + 1));
        }
        lemma_find_skip(rest, pat, n - 1);
        assert(rest.skip(n - 1) == s.skip(n));
    }
}

/// What `find` returns: the least position at which `pat` starts.
pub proof fn lemma_find_is_first(s: Seq<char>, pat: Seq<char>)
    ensures
        match find(s, pat) {
            Some(i) => {
                &&& 0 <= i
                &&& i + pat.len() <= s.len()
                &&& s.subrange(i, i + pat.len()) == pat
                &&& forall|k: int| 0 <= k < i ==> !pat.is_prefix_of(#[trigger] s.skip(k))
            },
            None => forall|k: int| 0 <= k <= s.len() ==> !pat.is_prefix_of(#[trigger] s.skip(k)),
        },
    decreases s.len(),
{
    assert(s.skip(0) == s);
    if pat.is_prefix_of(s) {
    } else if s.len() == 0 {
    } else {
        let rest = s.drop_first();
        lemma_find_is_first(rest, pat);
        match find(rest, pat) {
            Some(i) => {
                assert(s.subrange(i + 1, i + 1 + pat.len()) == rest.subrange(
                    i,
                    i + pat.len() as int,
                ));
                assert forall|k: int| 0 <= k < i + 1 implies !pat.is_prefix_of(
                    #[trigger] s.skip(k),
                ) by {
                    if k > 0 {
                        assert(s.skip(k) == rest.skip(k - 1));
                    }
                }
            },
            None => {
                assert forall|k: int| 0 <= k <= s.len() implies !pat.is_prefix_of(
                    #[trigger] s.skip(k),
                ) by {
                    if k > 0 {
                        assert(s.skip(k) == rest.skip(k - 1));
                    }
                }
            },
        }
    }
}

/// A text that holds the first character of `pat` nowhere, then `pat`, then
/// anything, splits at that `pat`.
pub proof fn lemma_split_once_first(a: Seq<char>, pat: Seq<char>, b: Seq<char>)
    requires
        pat.len() > 0,
        forall|k: int| 0 <= k < a.len() ==> #[trigger] a[k] != pat[0],
    ensures
        split_once(a + pat + b, pat) == Some((a, b)),
{
    let t = a + pat + b;
    let n = a.len() as int;
    assert forall|k: int| 0 <= k < n implies !pat.is_prefix_of(#[trigger] t.skip(k)) by {
        assert(t.skip(k)[0] == a[k]);
        if pat.is_prefix_of(t.skip(k)) {
            assert(t.skip(k).subrange(0, pat.len() as int)[0] == pat[0]);
        }
    }
    lemma_find_skip(t, pat, n);
    assert(pat.is_prefix_of(t.skip(n))) by {
        assert(t.skip(n).subrange(0, pat.len() as int) == pat);
    }
    assert(find(t, pat) == Some(n));
    assert(t.take(n) == a);
    assert(t.skip(n + pat.len()) == b);
}

/// White space around a text that starts and ends with other characters is
/// what trimming removes.
pub proof fn lemma_trim_core(lead: Seq<char>, core: Seq<char>, trail: Seq<char>)
    requires
        forall|k: int| 0 <= k < lead.len() ==> is_whitespace(#[trigger] lead[k]),
        forall|k: int| 0 <= k < trail.len() ==> is_whitespace(#[trigger] trail[k]),
        core.len() > 0,
        !is_whitespace(core[0]),
        !is_whitespace(core.last()),
    ensures
        trim(lead + core + trail) == core,
{
    let t = lead + core + trail;
    assert forall|k: int| 0 <= k < lead.len() implies CharClass::Whitespace.holds(
        #[trigger] t[k],
    ) by {
        assert(t[k] == lead[k]);
    }
    assert(t[lead.len() as int] == core[0]);
    lemma_prefix_len_is(t, CharClass::Whitespace, lead.len());
    let u = t.skip(lead.len() as int);
    assert(u == core + trail);
    assert forall|k: int| u.len() - trail.len() <= k < u.len() implies CharClass::Whitespace.holds(
        #[trigger] u[k],
    ) by {
        assert(u[k] == trail[k - core.len()]);
    }
    assert(u[u.len() - trail.len() - 1] == core.last());
    lemma_suffix_len_is(u, CharClass::Whitespace, trail.len());
    assert(u.take(u.len() - trail.len()) == core);
}

/// The numeric prefix of a numeric text followed by a character that is
/// not numeric, or by nothing, is that text.
pub proof fn lemma_numeric_prefix_of(number: Seq<char>, rest: Seq<char>)
    requires
        forall|k: int| 0 <= k < number.len() ==> is_numeric(#[trigger] number[k]),
        rest.len() == 0 || !is_numeric(rest[0]),
    ensures
        numeric_prefix(number + rest) == number,
{
    let t = number + rest;
    assert forall|k: int| 0 <= k < number.len() implies CharClass::Numeric.holds(
        #[trigger] t[k],
    ) by {
        assert(t[k] == number[k]);
    }
    if rest.len() > 0 {
        assert(t[number.len() as int] == rest[0]);
    }
    lemma_prefix_len_is(t, CharClass::Numeric, number.len());
    assert(t.take(number.len() as int) == number);
}

/// Finds the first occurrence of `pat` in `s`.
pub fn find_first(s: &[char], pat: &[char]) -> (r: Option<usize>)
    ensures
        match r {
            Some(i) => find(s@, pat@) == Some(i as int) && i + pat.len() <= s.len(),
            None => find(s@, pat@) is None,
        },
{
    if pat.len() > s.len() {
        proof {
            lemma_find_too_long(s@, pat@);
        }
        return None;
    }
    let last: usize = s.len() - pat.len();
    let mut i: usize = 0;
    while i <= last
        invariant
            i <= last + 1,
            last == s.len() - pat.len(),
            pat.len() <= s.len(),
            forall|k: int| 0 <= k < i ==> !pat@.is_prefix_of(#[trigger] s@.skip(k)),
        decreases last + 1 - i,
    {
        let window = &s[i..i + pat.len()];
        if same_text(window, pat) {
            proof {
                lemma_find_skip(s@, pat@, i as int);
                assert(s@.skip(i as int).subrange(0, pat@.len() as int) == window@);
            }
            return Some(i);
        }
        proof {
            assert(s@.skip(i as int).subrange(0, pat@.len() as int) == window@);
        }
        i += 1;
    }
    proof {
        lemma_find_skip(s@, pat@, i as int);
        lemma_find_too_long(s@.skip(i as int), pat@);
    }
    None
}

/// The parts of `s` before and after the first occurrence of `pat`.
pub open spec fn split_once(s: Seq<char>, pat: Seq<char>) -> Option<(Seq<char>, Seq<char>)> {
    match find(s, pat) {
        Some(i) => Some((s.take(i), s.skip(i + pat.len()))),
        None => None,
    }
}

/// Splits `s` around the first occurrence of `pat`.
pub fn split_at_first<'a>(s: &'a [char], pat: &[char]) -> (r: Option<(&'a [char], &'a [char])>)
    ensures
        match r {
            Some((before, after)) => split_once(s@, pat@) == Some((before@, after@)),
            None => split_once(s@, pat@) is None,
        },
{
    match find_first(s, pat) {
        Some(i) => Some((&s[0..i], &s[i + pat.len()..s.len()])),
        None => None,
    }
}

/// `line` without one trailing carriage return.
pub open spec fn strip_carriage_return(line: Seq<char>) -> Seq<char> {
    if line.len() > 0 && line.last() == '\r' {
        line.drop_last()
    } else {
        line
    }
}

/// The lines of `s`. A line ends at a line feed, which is removed together
/// with a carriage return directly before it; the last line needs no line
/// feed, and an empty text has no lines.
pub open spec fn lines(s: Seq<char>) -> Seq<Seq<char>>
    decreases s.len(),
{
    if s.len() == 0 {
        Seq::empty()
    } else {
        match find(s, seq!['\n']) {
            Some(i) => {
                proof {
                    lemma_find_is_first(s, seq!['\n']);
                }
                seq![strip_carriage_return(s.take(i))] + lines(s.skip(i + 1))
            },
            None => seq![s],
        }
    }
}

/// Splits `s` into its lines.
pub fn split_lines<'a>(s: &'a [char]) -> (out: Vec<&'a [char]>)
    ensures
        texts(out@) == lines(s@),
{
    let mut pat: Vec<char> = Vec::new();
    pat.push('\n');
    assert(pat@ == seq!['\n']);
    let mut out: Vec<&'a [char]> = Vec::new();
    let mut rest: &'a [char] = s;
    assert(texts(out@) + lines(rest@) == lines(s@));
    while rest.len() > 0
        invariant
            pat@ == seq!['\n'],
            texts(out@) + lines(rest@) == lines(s@),
        decreases rest.len(),
    {
        let ghost before_out = out@;
        let ghost before_rest = rest@;
        proof {
            lemma_find_is_first(rest@, pat@);
        }
        match split_at_first(rest, pat.as_slice()) {
            Some((line, after)) => {
                let line = if line.len() > 0 && line[line.len() - 1] == '\r' {
                    &line[0..line.len() - 1]
                } else {
                    line
                };
                out.push(line);
                rest = after;
                assert(texts(out@) == texts(before_out) + seq![line@]);
            },
            None => {
                out.push(rest);
                rest = &rest[rest.len()..rest.len()];
                assert(texts(out@) == texts(before_out) + seq![before_rest]);
            },
        }
        assert(lines(before_rest) == texts(out@).skip(before_out.len() as int) + lines(rest@));
        assert(texts(out@) + lines(rest@) == texts(before_out) + lines(before_rest));
    }
    assert(texts(out@) + lines(rest@) == texts(out@));
    out
}

/// The words of `s`: its maximal runs of characters that are not white space.
pub open spec fn words(s: Seq<char>) -> Seq<Seq<char>>
    decreases s.len(),
{
    if s.len() == 0 {
        Seq::empty()
    } else if is_whitespace(s[0]) {
        words(s.drop_first())
    } else {
        let n = prefix_len(s, CharClass::Word);
        proof {
            lemma_prefix_len_bound(s, CharClass::Word);
        }
        seq![s.take(n as int)] + words(s.skip(n as int))
    }
}

/// Leading white space holds no word.
pub proof fn lemma_words_skip_whitespace(s: Seq<char>)
    ensures
        words(s) == words(trim_start(s)),
    decreases s.len(),
{
    if s.len() > 0 && is_whitespace(s[0]) {
        lemma_words_skip_whitespace(s.drop_first());
        assert(s.drop_first().skip(prefix_len(s.drop_first(), CharClass::Whitespace) as int)
            == s.skip(prefix_len(s, CharClass::Whitespace) as int)) by {
            lemma_prefix_len_bound(s.drop_first(), CharClass::Whitespace);
        }
    } else {
        assert(s.skip(0) == s);
    }
}

/// Splits `s` into its words.
pub fn split_words<'a>(s: &'a [char]) -> (out: Vec<&'a [char]>)
    ensures
        texts(out@) == words(s@),
{
    let mut out: Vec<&'a [char]> = Vec::new();
    let mut rest: &'a [char] = s;
    assert(texts(out@) + words(rest@) == words(s@));
    loop
        invariant
            texts(out@) + words(rest@) == words(s@),
        ensures
            texts(out@) == words(s@),
        decreases rest.len(),
    {
        let ghost before_out = out@;
        let ghost before_rest = rest@;
        let start = skip_whitespace(rest);
        proof {
            lemma_words_skip_whitespace(rest@);
            lemma_prefix_len_holds(rest@, CharClass::Whitespace);
        }
        if start.len() == 0 {
            assert(texts(out@) + words(start@) == texts(out@));
            break;
        }
        let n = scan(start, CharClass::Word);
        out.push(&start[0..n]);
        rest = &start[n..start.len()];
        proof {
            assert(start@[0] == before_rest[prefix_len(before_rest, CharClass::Whitespace) as int]);
            assert(!is_whitespace(start@[0]));
            assert(texts(out@) == texts(before_out) + seq![start@.take(n as int)]);
            assert(words(start@) == seq![start@.take(n as int)] + words(rest@));
            assert(texts(out@) + words(rest@) == texts(before_out) + words(before_rest));
        }
    }
    out
}

/// The texts of `parts` with `sep` between each two of them.
pub open spec fn join(parts: Seq<Seq<char>>, sep: Seq<char>) -> Seq<char>
    decreases parts.len(),
{
    if parts.len() == 0 {
        Seq::empty()
    } else if parts.len() == 1 {
        parts[0]
    } else {
        join(parts.drop_last(), sep) + sep + parts.last()
    }
}

/// Joins `parts` with `sep` between each two of them.
pub fn join_parts(parts: &[&[char]], sep: &[char]) -> (out: Vec<char>)
    ensures
        out@ == join(texts(parts@), sep@),
{
    let mut out: Vec<char> = Vec::new();
    let mut i: usize = 0;
    while i < parts.len()
        invariant
            i <= parts.len(),
            out@ == join(texts(parts@).take(i as int), sep@),
        decreases parts.len() - i,
    {
        let ghost before = out@;
        if i > 0 {
            out.extend_from_slice(sep);
        }
        out.extend_from_slice(parts[i]);
        proof {
            let now = texts(parts@).take(i + 1);
            assert(now.drop_last() == texts(parts@).take(i as int));
            assert(now.last() == parts@[i as int]@);
            if i == 0 {
                assert(before == Seq::<char>::empty());
                assert(out@ == parts@[0]@);
            }
        }
        i += 1;
    }
    assert(texts(parts@).take(parts.len() as int) == texts(parts@));
    out
}

/// The rest of `line` after `prefix`, where it starts with it.
pub fn strip_prefix<'a>(line: &'a [char], prefix: &str) -> (r: Option<&'a [char]>)
    ensures
        match r {
            Some(rest) => prefix@.is_prefix_of(line@) && rest@ == line@.skip(prefix@.len() as int),
            None => !prefix@.is_prefix_of(line@),
        },
{
    let p = to_chars(prefix);
    if starts_with(line, p.as_slice()) {
        Some(&line[p.len()..line.len()])
    } else {
        None
    }
}

/// Splits `s` around the first occurrence of the text `pat`.
pub fn split_on<'a>(s: &'a [char], pat: &str) -> (r: Option<(&'a [char], &'a [char])>)
    ensures
        match r {
            Some((before, after)) => split_once(s@, pat@) == Some((before@, after@)),
            None => split_once(s@, pat@) is None,
        },
{
    let p = to_chars(pat);
    split_at_first(s, p.as_slice())
}

/// `s` filled up with spaces on the right to `width` characters; a longer
/// text stays as it is.
pub open spec fn padded(s: Seq<char>, width: nat) -> Seq<char> {
    if s.len() >= width {
        s
    } else {
        s + Seq::new((width - s.len()) as nat, |i: int| ' ')
    }
}

/// Appends `s`, filled up with spaces on the right to `width` characters.
pub fn push_padded(out: &mut String, s: &[char], width: usize)
    ensures
        final(out)@ == old(out)@ + padded(s@, width as nat),
{
    push_chars(out, s);
    let mut n: usize = s.len();
    while n < width
        invariant
            s.len() <= n,
            n <= width || n == s.len(),
            out@ == old(out)@ + s@ + Seq::new((n - s.len()) as nat, |i: int| ' '),
        decreases width - n,
    {
        out.push(' ');
        n += 1;
        assert(out@ == old(out)@ + s@ + Seq::new((n - s.len()) as nat, |i: int| ' '));
    }
    assert(out@ == old(out)@ + padded(s@, width as nat)) by {
        if s.len() >= width {
            assert(Seq::new(0nat, |i: int| ' ') == Seq::<char>::empty());
            assert(old(out)@ + s@ + Seq::<char>::empty() == old(out)@ + s@);
        } else {
            assert(old(out)@ + s@ + Seq::new((width - s.len()) as nat, |i: int| ' ') == old(out)@
                + (s@ + Seq::new((width - s.len()) as nat, |i: int| ' ')));
        }
    }
}

} // verus!
