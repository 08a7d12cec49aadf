//! Character-level string primitives shared by the whole library.
//!
//! Strings are specified through their view, the sequence of their
//! characters. The executable helpers here work on `Vec<char>` copies of
//! their inputs and build `String`s one character at a time.
use vstd::prelude::*;

verus! {

// ---------------------------------------------------------------------------
// Character classes
// ---------------------------------------------------------------------------

/// Unicode `White_Space`, the property behind `char::is_whitespace`.
pub open spec fn is_ws(c: char) -> bool {
    ||| c == ' '
    ||| ('\u{9}' <= c && c <= '\u{d}')
    ||| c == '\u{85}'
    ||| c == '\u{a0}'
    ||| c == '\u{1680}'
    ||| ('\u{2000}' <= c && c <= '\u{200a}')
    ||| c == '\u{2028}'
    ||| c == '\u{2029}'
    ||| c == '\u{202f}'
    ||| c == '\u{205f}'
    ||| c == '\u{3000}'
}

/// `char::is_ascii_digit`.
pub open spec fn is_digit(c: char) -> bool {
    '0' <= c && c <= '9'
}

pub fn char_is_ws(c: char) -> (b: bool)
    ensures
        b == is_ws(c),
{
    c == ' ' || ('\u{9}' <= c && c <= '\u{d}') || c == '\u{85}' || c == '\u{a0}' || c
        == '\u{1680}' || ('\u{2000}' <= c && c <= '\u{200a}') || c == '\u{2028}' || c
        == '\u{2029}' || c == '\u{202f}' || c == '\u{205f}' || c == '\u{3000}'
}

pub fn char_is_digit(c: char) -> (b: bool)
    ensures
        b == is_digit(c),
{
    '0' <= c && c <= '9'
}

// ---------------------------------------------------------------------------
// Conversions between `str`, `String` and `Vec<char>`
// ---------------------------------------------------------------------------

/// Appends one character to a string (`String::push`).
#[verifier::external_body]
pub(crate) fn push_char(s: &mut String, c: char)
    ensures
        final(s)@ == old(s)@.push(c),
{
    s.push(c);
}

/// The characters of a string slice, in order.
pub fn chars_of(s: &str) -> (res: Vec<char>)
    ensures
        res@ == s@,
{
    let mut out: Vec<char> = Vec::new();
    for c in it: s.chars()
        invariant
            out@ == it.seq().take(it.index() as int),
            it.seq() == s@,
    {
        out.push(c);
    }
    out
}

/// Appends `v[from..to]` to `out`.
pub fn push_range(out: &mut String, v: &Vec<char>, from: usize, to: usize)
    requires
        from <= to <= v@.len(),
    ensures
        final(out)@ == old(out)@ + v@.subrange(from as int, to as int),
{
    let mut i = from;
    while i < to
        invariant
            from <= i <= to <= v@.len(),
            out@ == old(out)@ + v@.subrange(from as int, i as int),
        decreases to - i,
    {
        push_char(out, v[i]);
        assert(v@.subrange(from as int, i + 1) == v@.subrange(from as int, i as int).push(v@[i as int]));
        i = i + 1;
    }
}

/// Appends all of `v` to `out`.
pub fn push_all(out: &mut String, v: &Vec<char>)
    ensures
        final(out)@ == old(out)@ + v@,
{
    push_range(out, v, 0, v.len());
    assert(v@.subrange(0, v@.len() as int) == v@);
}

/// The string made of `v[from..to]`.
pub fn string_of_range(v: &Vec<char>, from: usize, to: usize) -> (s: String)
    requires
        from <= to <= v@.len(),
    ensures
        s@ == v@.subrange(from as int, to as int),
{
    let mut s = String::new();
    push_range(&mut s, v, from, to);
    s
}

/// A fresh `String` holding the characters of `s`.
pub fn owned(s: &str) -> (res: String)
    ensures
        res@ == s@,
{
    s.to_owned()
}

// ---------------------------------------------------------------------------
// Searching
// ---------------------------------------------------------------------------

/// `pat` occurs in `s` at position `i`.
pub open spec fn occurs_at(s: Seq<char>, pat: Seq<char>, i: int) -> bool {
    0 <= i && i + pat.len() <= s.len() && s.subrange(i, i + pat.len()) == pat
}

/// The leftmost position at or after `i` where `pat` occurs.
pub open spec fn find_from(s: Seq<char>, pat: Seq<char>, i: int) -> Option<int>
    decreases s.len() + 1 - i,
{
    if i < 0 || i + pat.len() > s.len() {
        None
    } else if occurs_at(s, pat, i) {
        Some(i)
    } else {
        find_from(s, pat, i + 1)
    }
}

/// `str::find`: the leftmost position where `pat` occurs.
pub open spec fn find(s: Seq<char>, pat: Seq<char>) -> Option<int> {
    find_from(s, pat, 0)
}

/// The leftmost position of character `c`.
pub open spec fn find_char(s: Seq<char>, c: char) -> Option<int> {
    find(s, seq![c])
}

pub proof fn lemma_find_from_props(s: Seq<char>, pat: Seq<char>, i: int)
    requires
        0 <= i,
    ensures
        match find_from(s, pat, i) {
            Some(k) => i <= k && occurs_at(s, pat, k) && forall|j: int|
                i <= j < k ==> !occurs_at(s, pat, j),
            None => forall|j: int| i <= j ==> !occurs_at(s, pat, j),
        },
    decreases s.len() + 1 - i,
{
    if i + pat.len() > s.len() {
    } else if occurs_at(s, pat, i) {
    } else {
        lemma_find_from_props(s, pat, i + 1);
    }
}

/// `find_char` finds the first place of a character.
pub proof fn lemma_find_char_at(s: Seq<char>, c: char, k: int)
    requires
        0 <= k < s.len(),
        s[k] == c,
        forall|j: int| 0 <= j < k ==> s[j] != c,
    ensures
        find_char(s, c) == Some(k),
{
    assert(s.subrange(k, k + 1) =~= seq![c]);
    assert forall|j: int| 0 <= j < k implies !#[trigger] occurs_at(s, seq![c], j) by {
        if occurs_at(s, seq![c], j) {
            assert(s.subrange(j, j + 1)[0] == s[j]);
        }
    }
    lemma_find_from_unique(s, seq![c], 0, Some(k));
}

/// A character that does not occur is not found.
pub proof fn lemma_find_char_none(s: Seq<char>, c: char)
    requires
        !s.contains(c),
    ensures
        find_char(s, c) is None,
{
    assert forall|j: int| 0 <= j implies !#[trigger] occurs_at(s, seq![c], j) by {
        if occurs_at(s, seq![c], j) {
            assert(s.subrange(j, j + 1)[0] == s[j]);
        }
    }
    lemma_find_from_unique(s, seq![c], 0, None);
}

/// `find_from` is characterised by being the leftmost occurrence.
pub proof fn lemma_find_from_unique(s: Seq<char>, pat: Seq<char>, i: int, k: Option<int>)
    requires
        0 <= i,
        match k {
            Some(k) => i <= k && occurs_at(s, pat, k) && forall|j: int|
                i <= j < k ==> !occurs_at(s, pat, j),
            None => forall|j: int| i <= j ==> !occurs_at(s, pat, j),
        },
    ensures
        find_from(s, pat, i) == k,
    decreases s.len() + 1 - i,
{
    if i + pat.len() > s.len() {
        if let Some(k) = k {
            assert(false);
        }
    } else if occurs_at(s, pat, i) {
    } else {
        lemma_find_from_unique(s, pat, i + 1, k);
    }
}

/// `s[i..i+pat.len()] == pat`.
pub fn matches_at(s: &Vec<char>, i: usize, pat: &Vec<char>) -> (b: bool)
    ensures
        b == occurs_at(s@, pat@, i as int),
{
    if i > s.len() || pat.len() > s.len() - i {
        return false;
    }
    let mut j: usize = 0;
    while j < pat.len()
        invariant
            i + pat.len() <= s.len(),
            j <= pat@.len(),
            forall|k: int| 0 <= k < j ==> s@[i + k] == pat@[k],
        decreases pat.len() - j,
    {
        if s[i + j] != pat[j] {
            assert(s@.subrange(i as int, i + pat@.len())[j as int] != pat@[j as int]);
            return false;
        }
        j = j + 1;
    }
    assert(s@.subrange(i as int, i + pat@.len()) =~= pat@);
    true
}

/// The leftmost position at or after `start` where `pat` occurs.
pub fn find_in(s: &Vec<char>, pat: &Vec<char>, start: usize) -> (res: Option<usize>)
    ensures
        match res {
            Some(k) => find_from(s@, pat@, start as int) == Some(k as int),
            None => find_from(s@, pat@, start as int) is None,
        },
{
    let mut i = start;
    while i < s.len()
        invariant
            start <= i,
            start <= s.len() ==> i <= s.len(),
            forall|j: int| start <= j < i ==> !occurs_at(s@, pat@, j),
        decreases s.len() - i,
    {
        if matches_at(s, i, pat) {
            proof {
                lemma_find_from_unique(s@, pat@, start as int, Some(i as int));
            }
            return Some(i);
        }
        i = i + 1;
    }
    if i == s.len() && matches_at(s, i, pat) {
        proof {
            lemma_find_from_unique(s@, pat@, start as int, Some(i as int));
        }
        return Some(i);
    }
    proof {
        assert forall|j: int| start <= j implies !occurs_at(s@, pat@, j) by {
            if j > i {
                assert(j + pat@.len() > s@.len());
            }
        }
        lemma_find_from_unique(s@, pat@, start as int, None);
    }
    None
}



/// Searching from position `p` is searching the suffix that starts there.
pub proof fn lemma_find_skip(s: Seq<char>, pat: Seq<char>, p: int)
    requires
        0 <= p <= s.len(),
    ensures
        find_from(s, pat, p) == match find(s.skip(p), pat) {
            Some(k) => Some(k + p),
            None => None::<int>,
        },
{
    let r = s.skip(p);
    assert forall|j: int| 0 <= j implies occurs_at(r, pat, j) == occurs_at(s, pat, j + p) by {
        if j + pat.len() <= r.len() {
            assert(r.subrange(j, j + pat.len()) =~= s.subrange(j + p, j + p + pat.len()));
        }
    }
    lemma_find_from_props(r, pat, 0);
    match find(r, pat) {
        Some(k) => {
            assert forall|j: int| p <= j < k + p implies !occurs_at(s, pat, j) by {
                assert(occurs_at(r, pat, j - p) == occurs_at(s, pat, j));
            }
            lemma_find_from_unique(s, pat, p, Some(k + p));
        },
        None => {
            assert forall|j: int| p <= j implies !occurs_at(s, pat, j) by {
                assert(occurs_at(r, pat, j - p) == occurs_at(s, pat, j));
            }
            lemma_find_from_unique(s, pat, p, None);
        },
    }
}

/// The result of `find` lies within the string.
pub proof fn lemma_find_bounds(s: Seq<char>, pat: Seq<char>)
    ensures
        find(s, pat) matches Some(k) ==> 0 <= k && k + pat.len() <= s.len() && occurs_at(
            s,
            pat,
            k,
        ),
        find(s, pat) matches Some(k) ==> forall|j: int| 0 <= j < k ==> !occurs_at(s, pat, j),
        find(s, pat) is None ==> forall|j: int| 0 <= j ==> !occurs_at(s, pat, j),
{
    lemma_find_from_props(s, pat, 0);
}

/// Leftmost occurrence of `pat` in `s[p..]`, as a position in that suffix.
pub fn find_after(s: &Vec<char>, pat: &Vec<char>, p: usize) -> (res: Option<usize>)
    requires
        p <= s@.len(),
    ensures
        match res {
            Some(k) => find(s@.skip(p as int), pat@) == Some(k as int) && p + k + pat.len()
                <= s.len(),
            None => find(s@.skip(p as int), pat@) is None,
        },
{
    proof {
        lemma_find_skip(s@, pat@, p as int);
        lemma_find_bounds(s@.skip(p as int), pat@);
    }
    match find_in(s, pat, p) {
        Some(k) => Some(k - p),
        None => None,
    }
}

/// Leftmost occurrence of `c` in `s[p..]`, as a position in that suffix.
pub fn find_char_after(s: &Vec<char>, c: char, p: usize) -> (res: Option<usize>)
    requires
        p <= s@.len(),
    ensures
        match res {
            Some(k) => find_char(s@.skip(p as int), c) == Some(k as int) && p + k < s.len()
                && s@[p + k] == c,
            None => find_char(s@.skip(p as int), c) is None,
        },
{
    let mut pat: Vec<char> = Vec::new();
    pat.push(c);
    assert(pat@ =~= seq![c]);
    let r = find_after(s, &pat, p);
    proof {
        if let Some(k) = r {
            lemma_find_bounds(s@.skip(p as int), seq![c]);
            assert(s@.skip(p as int).subrange(k as int, k + 1)[0] == c);
        }
    }
    r
}

// ---------------------------------------------------------------------------
// Prefixes, suffixes and trimming
// ---------------------------------------------------------------------------

/// `str::starts_with`.
pub open spec fn starts_with(s: Seq<char>, p: Seq<char>) -> bool {
    p.len() <= s.len() && s.take(p.len() as int) == p
}

/// `str::ends_with`.
pub open spec fn ends_with(s: Seq<char>, p: Seq<char>) -> bool {
    p.len() <= s.len() && s.skip(s.len() - p.len()) == p
}

pub fn starts_with_at(s: &Vec<char>, p: usize, pat: &Vec<char>) -> (b: bool)
    requires
        p <= s@.len(),
    ensures
        b == starts_with(s@.skip(p as int), pat@),
{
    let b = matches_at(s, p, pat);
    proof {
        if pat@.len() <= s@.len() - p {
            assert(s@.skip(p as int).take(pat@.len() as int) =~= s@.subrange(
                p as int,
                p + pat@.len(),
            ));
        }
    }
    b
}

pub fn vec_ends_with(s: &Vec<char>, pat: &Vec<char>) -> (b: bool)
    ensures
        b == ends_with(s@, pat@),
{
    if pat.len() > s.len() {
        return false;
    }
    let b = matches_at(s, s.len() - pat.len(), pat);
    assert(s@.skip(s@.len() - pat@.len()) =~= s@.subrange(
        s@.len() - pat@.len(),
        s@.len() - pat@.len() + pat@.len(),
    ));
    b
}

/// Classes of characters that the library trims or skips.
#[derive(Clone, Copy)]
pub enum CharClass {
    Whitespace,
    Digit,
    NotDigit,
    Backtick,
    Dot,
    /// Neither whitespace nor `,`.
    NotListSep,
    /// None of whitespace, `,`, `)`, `]`, `*`.
    NotRangeSep,
    /// Anything but whitespace.
    NotWhitespace,
}

pub open spec fn in_class(cls: CharClass, c: char) -> bool {
    match cls {
        CharClass::Whitespace => is_ws(c),
        CharClass::Digit => is_digit(c),
        CharClass::NotDigit => !is_digit(c),
        CharClass::Backtick => c == '`',
        CharClass::Dot => c == '.',
        CharClass::NotListSep => !is_ws(c) && c != ',',
        CharClass::NotRangeSep => !is_ws(c) && c != ',' && c != ')' && c != ']' && c != '*',
        CharClass::NotWhitespace => !is_ws(c),
    }
}

pub fn char_in_class(cls: CharClass, c: char) -> (b: bool)
    ensures
        b == in_class(cls, c),
{
    match cls {
        CharClass::Whitespace => char_is_ws(c),
        CharClass::Digit => char_is_digit(c),
        CharClass::NotDigit => !char_is_digit(c),
        CharClass::Backtick => c == '`',
        CharClass::Dot => c == '.',
        CharClass::NotListSep => !char_is_ws(c) && c != ',',
        CharClass::NotRangeSep => !char_is_ws(c) && c != ',' && c != ')' && c != ']' && c != '*',
        CharClass::NotWhitespace => !char_is_ws(c),
    }
}

/// Number of leading characters of `s` in `cls`.
pub open spec fn leading(s: Seq<char>, cls: CharClass) -> nat
    decreases s.len(),
{
    if s.len() > 0 && in_class(cls, s[0]) {
        1 + leading(s.drop_first(), cls)
    } else {
        0
    }
}

/// Number of trailing characters of `s` in `cls`.
pub open spec fn trailing(s: Seq<char>, cls: CharClass) -> nat
    decreases s.len(),
{
    if s.len() > 0 && in_class(cls, s.last()) {
        1 + trailing(s.drop_last(), cls)
    } else {
        0
    }
}

/// `trim_start_matches(cls)`.
pub open spec fn trim_start(s: Seq<char>, cls: CharClass) -> Seq<char> {
    s.skip(leading(s, cls) as int)
}

/// `trim_end_matches(cls)`.
pub open spec fn trim_end(s: Seq<char>, cls: CharClass) -> Seq<char> {
    s.take(s.len() - trailing(s, cls))
}

/// `str::trim`.
pub open spec fn trim(s: Seq<char>) -> Seq<char> {
    trim_end(trim_start(s, CharClass::Whitespace), CharClass::Whitespace)
}

pub proof fn lemma_leading_char(s: Seq<char>, cls: CharClass, i: int)
    requires
        0 <= i <= s.len(),
        forall|k: int| 0 <= k < i ==> in_class(cls, #[trigger] s[k]),
        i == s.len() || !in_class(cls, s[i]),
    ensures
        leading(s, cls) == i,
    decreases i,
{
    if i > 0 {
        assert forall|k: int| 0 <= k < i - 1 implies in_class(cls, #[trigger] s.drop_first()[k]) by {
            assert(s.drop_first()[k] == s[k + 1]);
        }
        lemma_leading_char(s.drop_first(), cls, i - 1);
    }
}

pub proof fn lemma_leading_bounds(s: Seq<char>, cls: CharClass)
    ensures
        leading(s, cls) <= s.len(),
        forall|k: int| 0 <= k < leading(s, cls) ==> in_class(cls, #[trigger] s[k]),
        leading(s, cls) < s.len() ==> !in_class(cls, s[leading(s, cls) as int]),
    decreases s.len(),
{
    if s.len() > 0 && in_class(cls, s[0]) {
        lemma_leading_bounds(s.drop_first(), cls);
        assert forall|k: int| 0 <= k < leading(s, cls) implies in_class(cls, #[trigger] s[k]) by {
            if k > 0 {
                assert(s[k] == s.drop_first()[k - 1]);
            }
        }
    }
}

/// A trailing run is no longer than the text.
pub proof fn lemma_trailing_le(s: Seq<char>, cls: CharClass)
    ensures
        trailing(s, cls) <= s.len(),
    decreases s.len(),
{
    if s.len() > 0 && in_class(cls, s.last()) {
        lemma_trailing_le(s.drop_last(), cls);
    }
}

/// A trailing run stops at a character outside the class.
pub proof fn lemma_trailing_stop(s: Seq<char>, cls: CharClass)
    ensures
        trailing(s, cls) < s.len() ==> !in_class(cls, s[s.len() - trailing(s, cls) - 1]),
    decreases s.len(),
{
    if s.len() > 0 && in_class(cls, s.last()) {
        lemma_trailing_stop(s.drop_last(), cls);
        let t = s.drop_last();
        if trailing(t, cls) < t.len() {
            assert(t[t.len() - trailing(t, cls) - 1] == s[s.len() - trailing(s, cls) - 1]);
        }
    }
}

pub proof fn lemma_trailing_char(s: Seq<char>, cls: CharClass, i: int)
    requires
        0 <= i <= s.len(),
        forall|k: int| s.len() - i <= k < s.len() ==> in_class(cls, #[trigger] s[k]),
        i == s.len() || !in_class(cls, s[s.len() - i - 1]),
    ensures
        trailing(s, cls) == i,
    decreases i,
{
    if i > 0 {
        let t = s.drop_last();
        assert forall|k: int| t.len() - (i - 1) <= k < t.len() implies in_class(
            cls,
            #[trigger] t[k],
        ) by {
            assert(t[k] == s[k]);
        }
        if i - 1 < t.len() {
            assert(t[t.len() - (i - 1) - 1] == s[s.len() - i - 1]);
        }
        lemma_trailing_char(t, cls, i - 1);
    }
}

/// Number of characters of `s[from..to]` in `cls`, counted from the start.
pub fn count_leading(s: &Vec<char>, from: usize, to: usize, cls: CharClass) -> (n: usize)
    requires
        from <= to <= s@.len(),
    ensures
        n == leading(s@.subrange(from as int, to as int), cls),
        from + n <= to,
{
    let ghost t = s@.subrange(from as int, to as int);
    let mut i = from;
    while i < to && char_in_class(cls, s[i])
        invariant
            from <= i <= to <= s@.len(),
            forall|k: int| from <= k < i ==> in_class(cls, #[trigger] s@[k]),
        decreases to - i,
    {
        i = i + 1;
    }
    proof {
        assert forall|k: int| 0 <= k < i - from implies in_class(cls, #[trigger] t[k]) by {
            assert(t[k] == s@[from + k]);
        }
        if i < to {
            assert(t[i - from] == s@[i as int]);
        }
        lemma_leading_char(t, cls, i - from);
    }
    i - from
}

/// Number of characters of `s[from..to]` in `cls`, counted from the end.
pub fn count_trailing(s: &Vec<char>, from: usize, to: usize, cls: CharClass) -> (n: usize)
    requires
        from <= to <= s@.len(),
    ensures
        n == trailing(s@.subrange(from as int, to as int), cls),
        from + n <= to,
{
    let ghost t = s@.subrange(from as int, to as int);
    let mut j = to;
    while j > from && char_in_class(cls, s[j - 1])
        invariant
            from <= j <= to <= s@.len(),
            forall|k: int| j <= k < to ==> in_class(cls, #[trigger] s@[k]),
        decreases j - from,
    {
        j = j - 1;
    }
    proof {
        assert forall|k: int| t.len() - (to - j) <= k < t.len() implies in_class(
            cls,
            #[trigger] t[k],
        ) by {
            assert(t[k] == s@[from + k]);
        }
        if j > from {
            assert(t[t.len() - (to - j) - 1] == s@[j - 1]);
        }
        lemma_trailing_char(t, cls, (to - j) as int);
    }
    to - j
}

/// Bounds `[a, b)` of `s[from..to]` with leading and trailing whitespace removed.
pub fn trim_bounds(s: &Vec<char>, from: usize, to: usize) -> (r: (usize, usize))
    requires
        from <= to <= s@.len(),
    ensures
        from <= r.0 <= r.1 <= to,
        s@.subrange(r.0 as int, r.1 as int) == trim(s@.subrange(from as int, to as int)),
{
    let a = from + count_leading(s, from, to, CharClass::Whitespace);
    let n = count_trailing(s, a, to, CharClass::Whitespace);
    proof {
        let t = s@.subrange(from as int, to as int);
        assert(trim_start(t, CharClass::Whitespace) =~= s@.subrange(a as int, to as int));
        assert(trim(t) =~= s@.subrange(a as int, to - n));
    }
    (a, to - n)
}

/// `str::trim`, returning a new string.
pub fn trimmed(s: &str) -> (res: String)
    ensures
        res@ == trim(s@),
{
    let v = chars_of(s);
    let (a, b) = trim_bounds(&v, 0, v.len());
    assert(v@.subrange(0, v@.len() as int) == v@);
    string_of_range(&v, a, b)
}


/// A copy of `v[from..to]`.
pub fn slice_vec(v: &Vec<char>, from: usize, to: usize) -> (res: Vec<char>)
    requires
        from <= to <= v@.len(),
    ensures
        res@ == v@.subrange(from as int, to as int),
{
    let mut out: Vec<char> = Vec::new();
    let mut i = from;
    while i < to
        invariant
            from <= i <= to <= v@.len(),
            out@ == v@.subrange(from as int, i as int),
        decreases to - i,
    {
        out.push(v[i]);
        assert(v@.subrange(from as int, i + 1) == v@.subrange(from as int, i as int).push(v@[i as int]));
        i = i + 1;
    }
    out
}

// ---------------------------------------------------------------------------
// Lines
// ---------------------------------------------------------------------------

/// A line's content with the `\r` of a `\r\n` ending removed.
pub open spec fn strip_cr(l: Seq<char>) -> Seq<char> {
    if l.len() > 0 && l.last() == '\r' {
        l.drop_last()
    } else {
        l
    }
}

/// `str::lines`: the text split at `\n` (and `\r\n`); a final line ending
/// adds no empty line, and the empty text has no lines.
pub open spec fn lines(s: Seq<char>) -> Seq<Seq<char>>
    decreases s.len(),
{
    if s.len() == 0 {
        seq![]
    } else {
        match find_char(s, '\n') {
            None => seq![s],
            Some(k) => {
                proof {
                    lemma_find_bounds(s, seq!['\n']);
                }
                seq![strip_cr(s.take(k))] + lines(s.skip(k + 1))
            },
        }
    }
}

/// The position just after the first line of `s[pos..]`, and the bounds of
/// that line's content.
pub fn next_line(v: &Vec<char>, pos: usize) -> (r: (usize, usize, usize))
    requires
        pos < v@.len(),
    ensures
        pos <= r.0 <= r.1 <= v@.len(),
        pos < r.2 <= v@.len(),
        lines(v@.skip(pos as int)) == seq![v@.subrange(r.0 as int, r.1 as int)] + lines(
            v@.skip(r.2 as int),
        ),
{
    let ghost t = v@.skip(pos as int);
    match find_char_after(v, '\n', pos) {
        None => {
            assert(v@.skip(v@.len() as int) =~= Seq::<char>::empty());
            assert(lines(v@.skip(v@.len() as int)) =~= Seq::<Seq<char>>::empty());
            assert(t =~= v@.subrange(pos as int, v@.len() as int));
            assert(lines(t) =~= seq![t]);
            (pos, v.len(), v.len())
        },
        Some(k) => {
            let end = pos + k;
            let mut line_end = end;
            if line_end > pos && v[line_end - 1] == '\r' {
                line_end = line_end - 1;
            }
            proof {
                assert(t.skip(k + 1) =~= v@.skip(end + 1));
                assert(t.take(k as int) =~= v@.subrange(pos as int, end as int));
                assert(strip_cr(t.take(k as int)) =~= v@.subrange(pos as int, line_end as int));
            }
            (pos, line_end, end + 1)
        },
    }
}


// ---------------------------------------------------------------------------
// Splitting and comparing
// ---------------------------------------------------------------------------

/// `str::split_once(c)`: the text before and after the first `c`.
pub open spec fn split_once(s: Seq<char>, c: char) -> Option<(Seq<char>, Seq<char>)> {
    match find_char(s, c) {
        Some(k) => Some((s.take(k), s.skip(k + 1))),
        None => None,
    }
}

/// `str::split_once(c)` on a string.
pub fn split_once_char(s: &str, c: char) -> (res: Option<(String, String)>)
    ensures
        match res {
            Some((a, b)) => split_once(s@, c) == Some((a@, b@)),
            None => split_once(s@, c) is None,
        },
{
    let v = chars_of(s);
    assert(v@.skip(0) =~= v@);
    match find_char_after(&v, c, 0) {
        Some(k) => {
            let a = string_of_range(&v, 0, k);
            let b = string_of_range(&v, k + 1, v.len());
            assert(v@.take(k as int) =~= a@);
            assert(v@.skip(k + 1) =~= b@);
            Some((a, b))
        },
        None => None,
    }
}

/// Equality of two character vectors.
pub fn chars_eq(a: &Vec<char>, b: &Vec<char>) -> (r: bool)
    ensures
        r == (a@ == b@),
{
    if a.len() != b.len() {
        return false;
    }
    let r = matches_at(a, 0, b);
    assert(r == (a@ =~= b@)) by {
        assert(a@.subrange(0, b@.len() as int) =~= a@);
    }
    r
}

/// Equality of two strings.
pub fn str_eq(a: &str, b: &str) -> (r: bool)
    ensures
        r == (a@ == b@),
{
    let va = chars_of(a);
    let vb = chars_of(b);
    chars_eq(&va, &vb)
}

/// Concatenation of two strings.
pub fn concat2(a: &str, b: &str) -> (r: String)
    ensures
        r@ == a@ + b@,
{
    let mut s = a.to_owned();
    s.append(b);
    s
}

/// Concatenation of three strings.
pub fn concat3(a: &str, b: &str, c: &str) -> (r: String)
    ensures
        r@ == a@ + b@ + c@,
{
    let mut s = a.to_owned();
    s.append(b);
    s.append(c);
    s
}

// ---------------------------------------------------------------------------
// Decimal numerals
// ---------------------------------------------------------------------------

/// The digit for `d < 10`.
pub open spec fn digit_char(d: nat) -> char {
    if d == 0 {
        '0'
    } else if d == 1 {
        '1'
    } else if d == 2 {
        '2'
    } else if d == 3 {
        '3'
    } else if d == 4 {
        '4'
    } else if d == 5 {
        '5'
    } else if d == 6 {
        '6'
    } else if d == 7 {
        '7'
    } else if d == 8 {
        '8'
    } else {
        '9'
    }
}

/// The decimal numeral of `n`, as `Display` prints an integer.
pub open spec fn decimal(n: nat) -> Seq<char>
    decreases n,
{
    if n < 10 {
        seq![digit_char(n)]
    } else {
        decimal(n / 10).push(digit_char(n % 10))
    }
}

fn digit_of(d: u128) -> (c: char)
    requires
        d < 10,
    ensures
        c == digit_char(d as nat),
{
    if d == 0 {
        '0'
    } else if d == 1 {
        '1'
    } else if d == 2 {
        '2'
    } else if d == 3 {
        '3'
    } else if d == 4 {
        '4'
    } else if d == 5 {
        '5'
    } else if d == 6 {
        '6'
    } else if d == 7 {
        '7'
    } else if d == 8 {
        '8'
    } else {
        '9'
    }
}

/// Appends the decimal numeral of `n` to `out`.
pub fn push_decimal(out: &mut String, n: u128)
    ensures
        final(out)@ == old(out)@ + decimal(n as nat),
    decreases n,
{
    if n >= 10 {
        push_decimal(out, n / 10);
    }
    push_char(out, digit_of(n % 10));
}

// ---------------------------------------------------------------------------
// Replacing and collapsing
// ---------------------------------------------------------------------------

/// `str::replace(from, to)` for a non-empty `from`: every occurrence, found
/// leftmost first and without overlap, replaced.
pub open spec fn replace_all(s: Seq<char>, from: Seq<char>, to: Seq<char>) -> Seq<char>
    decreases s.len(),
{
    if from.len() == 0 {
        s
    } else {
        match find(s, from) {
            None => s,
            Some(k) => {
                proof {
                    lemma_find_bounds(s, from);
                }
                s.take(k) + to + replace_all(s.skip(k + from.len()), from, to)
            },
        }
    }
}

/// `str::replace(from, to)`.
pub fn replace_str(s: &str, from: &str, to: &str) -> (res: String)
    requires
        from@.len() > 0,
    ensures
        res@ == replace_all(s@, from@, to@),
{
    let v = chars_of(s);
    let f = chars_of(from);
    let mut out = String::new();
    let mut pos: usize = 0;
    assert(v@.skip(0) =~= v@);
    loop
        invariant
            pos <= v@.len(),
            v@ == s@,
            f@ == from@,
            f@.len() > 0,
            replace_all(s@, from@, to@) == out@ + replace_all(v@.skip(pos as int), from@, to@),
        decreases v@.len() - pos,
    {
        let ghost t = v@.skip(pos as int);
        match find_after(&v, &f, pos) {
            None => {
                push_range(&mut out, &v, pos, v.len());
                assert(t =~= v@.subrange(pos as int, v@.len() as int));
                return out;
            },
            Some(k) => {
                push_range(&mut out, &v, pos, pos + k);
                assert(t.take(k as int) =~= v@.subrange(pos as int, pos + k));
                out.append(to);
                let next = pos + k + f.len();
                assert(t.skip(k + f@.len()) =~= v@.skip(next as int));
                pos = next;
            },
        }
    }
}

/// Every `from` character replaced by `to`.
pub open spec fn replace_char(s: Seq<char>, from: char, to: char) -> Seq<char> {
    s.map_values(|c: char| if c == from { to } else { c })
}

/// `str::replace(from, to)` for single characters.
pub fn replace_char_str(s: &str, from: char, to: char) -> (res: String)
    ensures
        res@ == replace_char(s@, from, to),
{
    let v = chars_of(s);
    let mut out = String::new();
    let mut i: usize = 0;
    while i < v.len()
        invariant
            i <= v@.len(),
            v@ == s@,
            out@ == replace_char(v@.take(i as int), from, to),
        decreases v.len() - i,
    {
        let c = v[i];
        push_char(&mut out, if c == from { to } else { c });
        assert(replace_char(v@.take(i + 1), from, to) =~= replace_char(v@.take(i as int), from, to).push(
            if c == from { to } else { c },
        ));
        i = i + 1;
    }
    assert(v@.take(v@.len() as int) =~= v@);
    out
}

/// The whitespace-separated words of `s` (`str::split_whitespace`).
pub open spec fn words(s: Seq<char>) -> Seq<Seq<char>>
    decreases s.len(),
{
    let t = trim_start(s, CharClass::Whitespace);
    if t.len() == 0 {
        seq![]
    } else {
        let n = leading(t, CharClass::NotWhitespace);
        proof {
            lemma_leading_bounds(s, CharClass::Whitespace);
            lemma_leading_bounds(t, CharClass::NotWhitespace);
            if n == 0 {
                lemma_leading_bounds(s, CharClass::Whitespace);
                assert(in_class(CharClass::NotWhitespace, t[0]) == !is_ws(t[0]));
            }
        }
        seq![t.take(n as int)] + words(t.skip(n as int))
    }
}

/// Pieces joined with `sep` in between (`[_]::join`).
pub open spec fn join(pieces: Seq<Seq<char>>, sep: Seq<char>) -> Seq<char>
    decreases pieces.len(),
{
    if pieces.len() == 0 {
        seq![]
    } else if pieces.len() == 1 {
        pieces[0]
    } else {
        pieces[0] + sep + join(pieces.drop_first(), sep)
    }
}

/// `s.split_whitespace().collect::<Vec<_>>().join(" ")`.
pub fn collapse_whitespace(s: &str) -> (res: String)
    ensures
        res@ == join(words(s@), " "@),
{
    let v = chars_of(s);
    proof {
        reveal_strlit(" ");
    }
    let mut out = String::new();
    let mut pos: usize = 0;
    let mut first = true;
    assert(v@.skip(0) =~= v@);
    loop
        invariant
            pos <= v@.len(),
            v@ == s@,
            " "@ == seq![' '],
            first ==> out@.len() == 0,
            join(words(s@), " "@) == if first {
                join(words(v@.skip(pos as int)), " "@)
            } else {
                out@ + if words(v@.skip(pos as int)).len() == 0 {
                    seq![]
                } else {
                    " "@ + join(words(v@.skip(pos as int)), " "@)
                }
            },
        decreases v@.len() - pos,
    {
        let ghost t = v@.skip(pos as int);
        let a = pos + count_leading(&v, pos, v.len(), CharClass::Whitespace);
        assert(t =~= v@.subrange(pos as int, v@.len() as int));
        assert(trim_start(t, CharClass::Whitespace) =~= v@.skip(a as int));
        if a == v.len() {
            assert(words(t) =~= Seq::<Seq<char>>::empty());
            return out;
        }
        let n = count_leading(&v, a, v.len(), CharClass::NotWhitespace);
        assert(v@.skip(a as int) =~= v@.subrange(a as int, v@.len() as int));
        proof {
            lemma_leading_bounds(v@.skip(a as int), CharClass::NotWhitespace);
            assert(v@.skip(a as int)[0] == v@[a as int]);
            lemma_leading_bounds(v@.subrange(pos as int, v@.len() as int), CharClass::Whitespace);
        }
        assert(v@.skip(a as int).take(n as int) =~= v@.subrange(a as int, a + n));
        assert(v@.skip(a as int).skip(n as int) =~= v@.skip(a + n));
        let ghost w = v@.subrange(a as int, a + n);
        let ghost rest = words(v@.skip(a + n));
        assert(words(t) == seq![w] + rest);
        assert((seq![w] + rest).drop_first() =~= rest);
        if !first {
            out.append(" ");
        }
        push_range(&mut out, &v, a, a + n);
        proof {
            if rest.len() == 0 {
                assert(join(seq![w] + rest, " "@) == w);
            } else {
                assert(join(seq![w] + rest, " "@) == w + " "@ + join(rest, " "@));
            }
        }
        first = false;
        pos = a + n;
    }
}


/// Words separated by single spaces: every whitespace character is a space
/// that stands between two characters that are not whitespace, so there is
/// no line break, tab, doubled space or space at either end.
pub open spec fn single_spaced(d: Seq<char>) -> bool {
    forall|i: int|
        0 <= i < d.len() && is_ws(#[trigger] d[i]) ==> d[i] == ' ' && 0 < i < d.len() - 1
            && !is_ws(d[i - 1]) && !is_ws(d[i + 1])
}

/// Each word is non-empty and holds no whitespace.
pub proof fn lemma_words_clean(s: Seq<char>)
    ensures
        forall|k: int| 0 <= k < words(s).len() ==> #[trigger] words(s)[k].len() > 0,
        forall|k: int, j: int|
            0 <= k < words(s).len() && 0 <= j < words(s)[k].len() ==> !is_ws(
                #[trigger] words(s)[k][j],
            ),
    decreases s.len(),
{
    let t = trim_start(s, CharClass::Whitespace);
    lemma_leading_bounds(s, CharClass::Whitespace);
    if t.len() > 0 {
        let n = leading(t, CharClass::NotWhitespace);
        lemma_leading_bounds(t, CharClass::NotWhitespace);
        assert(t[0] == s[leading(s, CharClass::Whitespace) as int]);
        assert(n > 0);
        let w = t.take(n as int);
        let r = t.skip(n as int);
        lemma_words_clean(r);
        assert(words(s) == seq![w] + words(r));
        assert forall|k: int| 0 <= k < words(s).len() implies #[trigger] words(s)[k].len() > 0 by {
            if k > 0 {
                assert(words(s)[k] == words(r)[k - 1]);
            }
        }
        assert forall|k: int, j: int|
            0 <= k < words(s).len() && 0 <= j < words(s)[k].len() implies !is_ws(
            #[trigger] words(s)[k][j],
        ) by {
            if k > 0 {
                assert(words(s)[k] == words(r)[k - 1]);
            } else {
                assert(words(s)[0][j] == t[j]);
                assert(in_class(CharClass::NotWhitespace, t[j]));
            }
        }
    }
}

/// Non-empty pieces without whitespace, joined by single spaces, are single
/// spaced, and not empty where there is a piece.
pub proof fn lemma_join_single_spaced(pieces: Seq<Seq<char>>)
    requires
        forall|k: int| 0 <= k < pieces.len() ==> #[trigger] pieces[k].len() > 0,
        forall|k: int, j: int|
            0 <= k < pieces.len() && 0 <= j < pieces[k].len() ==> !is_ws(#[trigger] pieces[k][j]),
    ensures
        single_spaced(join(pieces, " "@)),
        pieces.len() > 0 ==> join(pieces, " "@).len() > 0,
    decreases pieces.len(),
{
    reveal_strlit(" ");
    if pieces.len() == 1 {
        let d = join(pieces, " "@);
        assert(d == pieces[0]);
        assert(pieces[0].len() > 0);
        assert forall|i: int| 0 <= i < d.len() implies !is_ws(#[trigger] d[i]) by {
            assert(!is_ws(pieces[0][i]));
        }
    } else if pieces.len() > 1 {
        let p = pieces[0];
        let rest = pieces.drop_first();
        assert forall|k: int| 0 <= k < rest.len() implies #[trigger] rest[k].len() > 0 by {
            assert(rest[k] == pieces[k + 1]);
        }
        assert forall|k: int, j: int|
            0 <= k < rest.len() && 0 <= j < rest[k].len() implies !is_ws(#[trigger] rest[k][j]) by {
            assert(rest[k] == pieces[k + 1]);
        }
        lemma_join_single_spaced(rest);
        let jr = join(rest, " "@);
        let d = join(pieces, " "@);
        assert(d == p + " "@ + jr);
        assert(p.len() > 0);
        assert(rest[0] == pieces[1]);
        assert forall|i: int| 0 <= i < d.len() && is_ws(#[trigger] d[i]) implies d[i] == ' ' && 0 < i
            < d.len() - 1 && !is_ws(d[i - 1]) && !is_ws(d[i + 1]) by {
            let m = p.len() as int;
            if i < m {
                assert(d[i] == p[i]);
                assert(!is_ws(p[i]));
            } else if i == m {
                assert(d[i - 1] == p[m - 1]);
                assert(!is_ws(p[m - 1]));
                assert(d[i + 1] == jr[0]);
                assert(!is_ws(jr[0]));
            } else {
                let j = i - m - 1;
                assert(d[i] == jr[j]);
                assert(is_ws(jr[j]));
                assert(d[i - 1] == jr[j - 1]);
                assert(d[i + 1] == jr[j + 1]);
            }
        }
    }
}

/// `str::split_whitespace` joined by `" "` is single spaced.
pub proof fn lemma_collapsed_single_spaced(s: Seq<char>)
    ensures
        single_spaced(join(words(s), " "@)),
{
    lemma_words_clean(s);
    lemma_join_single_spaced(words(s));
}


proof fn lemma_join_push(pieces: Seq<Seq<char>>, p: Seq<char>, sep: Seq<char>)
    requires
        pieces.len() > 0,
    ensures
        join(pieces.push(p), sep) == join(pieces, sep) + sep + p,
    decreases pieces.len(),
{
    let q = pieces.push(p);
    assert(q[0] == pieces[0]);
    if pieces.len() == 1 {
        assert(q.drop_first() =~= seq![p]);
        assert(join(seq![p], sep) == p);
        assert(join(q, sep) == pieces[0] + sep + p);
    } else {
        lemma_join_push(pieces.drop_first(), p, sep);
        assert(q.drop_first() =~= pieces.drop_first().push(p));
        assert(join(q, sep) == pieces[0] + sep + join(pieces.drop_first().push(p), sep));
        assert(join(q, sep) =~= pieces[0] + sep + join(pieces.drop_first(), sep) + sep + p);
    }
}

/// `[String]::join(sep)`.
pub fn join_strings(pieces: &Vec<String>, sep: &str) -> (res: String)
    ensures
        res@ == join(pieces.deep_view(), sep@),
{
    let mut out = String::new();
    let mut i: usize = 0;
    while i < pieces.len()
        invariant
            i <= pieces@.len(),
            out@ == join(pieces.deep_view().take(i as int), sep@),
        decreases pieces.len() - i,
    {
        assert(pieces.deep_view().take(i + 1) =~= pieces.deep_view().take(i as int).push(
            pieces@[i as int]@,
        ));
        if i > 0 {
            out.append(sep);
            proof {
                lemma_join_push(pieces.deep_view().take(i as int), pieces@[i as int]@, sep@);
            }
        }
        out.append(pieces[i].as_str());
        i = i + 1;
    }
    assert(pieces.deep_view().take(pieces@.len() as int) =~= pieces.deep_view());
    out
}

/// `str::strip_suffix`.
pub open spec fn strip_suffix(s: Seq<char>, suffix: Seq<char>) -> Option<Seq<char>> {
    if ends_with(s, suffix) {
        Some(s.take(s.len() - suffix.len()))
    } else {
        None
    }
}

/// `str::strip_suffix`, returning an owned string.
pub fn strip_suffix_str(s: &str, suffix: &str) -> (res: Option<String>)
    ensures
        res.deep_view() == strip_suffix(s@, suffix@),
{
    let v = chars_of(s);
    let f = chars_of(suffix);
    if vec_ends_with(&v, &f) {
        let r = string_of_range(&v, 0, v.len() - f.len());
        assert(r@ =~= v@.take(v@.len() - f@.len()));
        Some(r)
    } else {
        None
    }
}

/// `str::starts_with` on strings.
pub fn str_starts_with(s: &str, prefix: &str) -> (b: bool)
    ensures
        b == starts_with(s@, prefix@),
{
    let v = chars_of(s);
    let p = chars_of(prefix);
    assert(v@.skip(0) =~= v@);
    starts_with_at(&v, 0, &p)
}

/// `str::ends_with` on strings.
pub fn str_ends_with(s: &str, suffix: &str) -> (b: bool)
    ensures
        b == ends_with(s@, suffix@),
{
    let v = chars_of(s);
    let p = chars_of(suffix);
    vec_ends_with(&v, &p)
}

/// `str::contains` of a character.
pub fn str_contains_char(s: &str, c: char) -> (b: bool)
    ensures
        b == s@.contains(c),
{
    let v = chars_of(s);
    let mut i: usize = 0;
    while i < v.len()
        invariant
            i <= v@.len(),
            v@ == s@,
            forall|k: int| 0 <= k < i ==> v@[k] != c,
        decreases v.len() - i,
    {
        if v[i] == c {
            return true;
        }
        i = i + 1;
    }
    false
}

/// `str::split_once(pat)` for a string pattern.
pub open spec fn split_once_str(s: Seq<char>, pat: Seq<char>) -> Option<(Seq<char>, Seq<char>)> {
    match find(s, pat) {
        Some(k) => Some((s.take(k), s.skip(k + pat.len()))),
        None => None,
    }
}

/// The text before the first occurrence of `pat`, or all of `s`.
pub fn before_first(s: &str, pat: &str) -> (res: String)
    ensures
        res@ == match split_once_str(s@, pat@) {
            Some((a, _)) => a,
            None => s@,
        },
{
    let v = chars_of(s);
    let p = chars_of(pat);
    assert(v@.skip(0) =~= v@);
    match find_after(&v, &p, 0) {
        Some(k) => {
            let r = string_of_range(&v, 0, k);
            assert(r@ =~= v@.take(k as int));
            r
        },
        None => s.to_owned(),
    }
}

} // verus!
