//! Character sequences: trimming, searching, splitting, and decimal numbers.
//!
//! The functions work on slices of characters, so that a position is a
//! character position and a part of a text is a sub-slice.
use vstd::prelude::*;
use vstd::slice::slice_subrange;

verus! {

/// `String::push` puts the character behind those that the string holds.
pub assume_specification[ String::push ](s: &mut String, c: char)
    ensures
        final(s)@ == old(s)@.push(c),
;

/// A string as the `Debug` format of `str` shows it: in double quotes, with
/// escapes.
pub uninterp spec fn debug_text(s: Seq<char>) -> Seq<char>;

/// `format!` with the `Debug` format of `str`. Which characters are escaped
/// is left to the standard library.
#[verifier::external_body]
pub(crate) fn quoted(s: &str) -> (r: String)
    ensures
        r@ == debug_text(s@),
{
    format!("{:?}", s)
}

/// The characters with the Unicode property White_Space.
pub open spec fn is_white(c: char) -> bool {
    let n = c as u32;
    ||| 0x9 <= n <= 0xd
    ||| n == 0x20
    ||| n == 0x85
    ||| n == 0xa0
    ||| n == 0x1680
    ||| 0x2000 <= n <= 0x200a
    ||| n == 0x2028
    ||| n == 0x2029
    ||| n == 0x202f
    ||| n == 0x205f
    ||| n == 0x3000
}

/// `s` without the white space that it begins with.
pub open spec fn trim_start(s: Seq<char>) -> Seq<char>
    decreases s.len(),
{
    if s.len() > 0 && is_white(s[0]) {
        trim_start(s.drop_first())
    } else {
        s
    }
}

/// `s` without the white space that it ends with.
pub open spec fn trim_end(s: Seq<char>) -> Seq<char>
    decreases s.len(),
{
    if s.len() > 0 && is_white(s.last()) {
        trim_end(s.drop_last())
    } else {
        s
    }
}

/// `s` without the white space at either end.
pub open spec fn trim(s: Seq<char>) -> Seq<char> {
    trim_end(trim_start(s))
}

/// `s` without the run of `c` that it ends with.
pub open spec fn trim_end_char(s: Seq<char>, c: char) -> Seq<char>
    decreases s.len(),
{
    if s.len() > 0 && s.last() == c {
        trim_end_char(s.drop_last(), c)
    } else {
        s
    }
}

/// The number of characters before the first `c`, or the length of `s` where
/// it holds none.
pub open spec fn position(s: Seq<char>, c: char) -> int
    decreases s.len(),
{
    if s.len() == 0 || s[0] == c {
        0
    } else {
        1 + position(s.drop_first(), c)
    }
}

/// The parts before and behind the first `c`.
pub open spec fn split_once(s: Seq<char>, c: char) -> Option<(Seq<char>, Seq<char>)> {
    let p = position(s, c);
    if p < s.len() {
        Some((s.take(p), s.skip(p + 1)))
    } else {
        None
    }
}

/// The parts between the occurrences of `c`, in order; always at least one.
pub open spec fn split(s: Seq<char>, c: char) -> Seq<Seq<char>>
    decreases s.len(),
{
    match split_once(s, c) {
        Some((before, after)) if after.len() < s.len() => seq![before] + split(after, c),
        _ => seq![s],
    }
}

/// The position at which `pat` first occurs in `s`.
pub open spec fn find_text(s: Seq<char>, pat: Seq<char>) -> Option<int>
    decreases s.len(),
{
    if pat.is_prefix_of(s) {
        Some(0)
    } else if s.len() == 0 {
        None
    } else {
        match find_text(s.drop_first(), pat) {
            Some(i) => Some(i + 1),
            None => None,
        }
    }
}

/// Whether `pat` occurs in `s`.
pub open spec fn has_text(s: Seq<char>, pat: Seq<char>) -> bool {
    exists|i: int| #[trigger] occurs_at(s, pat, i)
}

/// Whether `pat` stands in `s` at position `i`.
pub open spec fn occurs_at(s: Seq<char>, pat: Seq<char>, i: int) -> bool {
    0 <= i && i + pat.len() <= s.len() && s.subrange(i, i + pat.len()) == pat
}

/// The content of a text that may be missing.
pub open spec fn text_of(text: Option<String>) -> Option<Seq<char>> {
    match text {
        Some(text) => Some(text@),
        None => None,
    }
}

/// `s` with every `from` turned into `to`.
pub open spec fn replace_char(s: Seq<char>, from: char, to: char) -> Seq<char> {
    s.map_values(|c: char| if c == from { to } else { c })
}

/// `c` with an ASCII capital turned into its small letter.
pub open spec fn lower(c: char) -> char {
    if 'A' <= c <= 'Z' {
        (c as u32 + 32) as char
    } else {
        c
    }
}

/// Whether two texts are the same but for the case of ASCII letters.
pub open spec fn same_ignoring_case(a: Seq<char>, b: Seq<char>) -> bool {
    a.map_values(|c: char| lower(c)) == b.map_values(|c: char| lower(c))
}

pub open spec fn is_digit(c: char) -> bool {
    '0' <= c <= '9'
}

pub open spec fn all_digits(s: Seq<char>) -> bool {
    forall|i: int| 0 <= i < s.len() ==> is_digit(#[trigger] s[i])
}

pub open spec fn digit(d: nat) -> char {
    (48 + d) as char
}

/// The decimal digits of `n`, without leading zeros.
pub open spec fn decimal(n: nat) -> Seq<char>
    decreases n,
{
    if n < 10 {
        seq![digit(n)]
    } else {
        decimal(n / 10).push(digit(n % 10))
    }
}

/// The number that a run of decimal digits stands for.
pub open spec fn digits_value(s: Seq<char>) -> nat
    decreases s.len(),
{
    if s.len() == 0 {
        0
    } else {
        digits_value(s.drop_last()) * 10 + (s.last() as u32 - 48) as nat
    }
}

/// The digits of a number as integers are read: one plus sign may lead.
pub open spec fn unsigned_digits(s: Seq<char>) -> Seq<char> {
    if s.len() > 0 && s[0] == '+' {
        s.skip(1)
    } else {
        s
    }
}

/// The number no larger than `max` that the whole of `s` stands for.
pub open spec fn unsigned(s: Seq<char>, max: nat) -> Option<nat> {
    let digits = unsigned_digits(s);
    if digits.len() > 0 && all_digits(digits) && digits_value(digits) <= max {
        Some(digits_value(digits))
    } else {
        None
    }
}

/// The characters of a string, in order.
pub fn chars_of(s: &str) -> (r: Vec<char>)
    ensures
        r@ == s@,
{
    let mut r: Vec<char> = Vec::new();
    for c in it: s.chars()
        invariant
            r@ == it.seq().take(it.index()),
            it.seq() == s@,
    {
        r.push(c);
    }
    r
}

/// Puts the given characters behind those that the string holds.
pub fn push_chars(out: &mut String, chars: &[char])
    ensures
        final(out)@ == old(out)@ + chars@,
{
    let mut i: usize = 0;
    while i < chars.len()
        invariant
            i <= chars.len(),
            out@ == old(out)@ + chars@.take(i as int),
        decreases chars.len() - i,
    {
        out.push(chars[i]);
        assert(chars@.take(i + 1) == chars@.take(i as int).push(chars@[i as int]));
        i = i + 1;
    }
    assert(chars@.take(i as int) == chars@);
}

/// The string made of the given characters.
pub fn string_of(chars: &[char]) -> (r: String)
    ensures
        r@ == chars@,
{
    let mut r = String::new();
    push_chars(&mut r, chars);
    r
}

/// Whether two slices hold the same characters.
pub fn same(a: &[char], b: &[char]) -> (r: bool)
    ensures
        r == (a@ == b@),
{
    if a.len() != b.len() {
        return false;
    }
    let mut i: usize = 0;
    while i < a.len()
        invariant
            i <= a.len(),
            a.len() == b.len(),
            forall|j: int| 0 <= j < i ==> a@[j] == b@[j],
        decreases a.len() - i,
    {
        if a[i] != b[i] {
            return false;
        }
        i = i + 1;
    }
    assert(a@ == b@);
    true
}

/// Whether two strings hold the same characters.
pub fn same_text(a: &str, b: &str) -> (r: bool)
    ensures
        r == (a@ == b@),
{
    a.to_owned() == b.to_owned()
}

pub fn white(c: char) -> (r: bool)
    ensures
        r == is_white(c),
{
    let n: u32 = c as u32;
    (0x9 <= n && n <= 0xd) || n == 0x20 || n == 0x85 || n == 0xa0 || n == 0x1680 || (0x2000 <= n
        && n <= 0x200a) || n == 0x2028 || n == 0x2029 || n == 0x202f || n == 0x205f || n == 0x3000
}

/// The slice without the white space that it begins with.
pub fn trimmed_start(s: &[char]) -> (r: &[char])
    ensures
        r@ == trim_start(s@),
{
    let mut i: usize = 0;
    assert(s@.skip(0) == s@);
    while i < s.len() && white(s[i])
        invariant
            i <= s.len(),
            trim_start(s@.skip(i as int)) == trim_start(s@),
        decreases s.len() - i,
    {
        assert(s@.skip(i as int).drop_first() == s@.skip(i + 1));
        i = i + 1;
    }
    assert(s@.skip(i as int) == s@.subrange(i as int, s@.len() as int));
    slice_subrange(s, i, s.len())
}

/// The slice without the white space that it ends with.
pub fn trimmed_end(s: &[char]) -> (r: &[char])
    ensures
        r@ == trim_end(s@),
{
    let mut n: usize = s.len();
    assert(s@.take(n as int) == s@);
    while n > 0 && white(s[n - 1])
        invariant
            n <= s.len(),
            trim_end(s@.take(n as int)) == trim_end(s@),
        decreases n,
    {
        assert(s@.take(n as int).drop_last() == s@.take(n - 1));
        n = n - 1;
    }
    assert(s@.take(n as int) == s@.subrange(0, n as int));
    slice_subrange(s, 0, n)
}

/// The slice without the white space at either end.
pub fn trimmed(s: &[char]) -> (r: &[char])
    ensures
        r@ == trim(s@),
{
    trimmed_end(trimmed_start(s))
}

/// The slice without the run of `c` that it ends with.
pub fn trimmed_end_char(s: &[char], c: char) -> (r: &[char])
    ensures
        r@ == trim_end_char(s@, c),
{
    let mut n: usize = s.len();
    assert(s@.take(n as int) == s@);
    while n > 0 && s[n - 1] == c
        invariant
            n <= s.len(),
            trim_end_char(s@.take(n as int), c) == trim_end_char(s@, c),
        decreases n,
    {
        assert(s@.take(n as int).drop_last() == s@.take(n - 1));
        n = n - 1;
    }
    assert(s@.take(n as int) == s@.subrange(0, n as int));
    slice_subrange(s, 0, n)
}

/// `s` without the white space that it ends with.
pub fn trim_text_end(s: &str) -> (r: &str)
    ensures
        r@ == trim_end(s@),
{
    let mut n: usize = s.unicode_len();
    assert(s@.take(n as int) == s@);
    while n > 0 && white(s.get_char(n - 1))
        invariant
            n <= s@.len(),
            trim_end(s@.take(n as int)) == trim_end(s@),
        decreases n,
    {
        assert(s@.take(n as int).drop_last() == s@.take(n - 1));
        n = n - 1;
    }
    assert(s@.take(n as int) == s@.subrange(0, n as int));
    s.substring_char(0, n)
}

/// `s` without the white space that it begins with.
fn trim_text_start(s: &str) -> (r: &str)
    ensures
        r@ == trim_start(s@),
{
    let len: usize = s.unicode_len();
    let mut i: usize = 0;
    assert(s@.skip(0) == s@);
    while i < len && white(s.get_char(i))
        invariant
            i <= len,
            len == s@.len(),
            trim_start(s@.skip(i as int)) == trim_start(s@),
        decreases len - i,
    {
        assert(s@.skip(i as int).drop_first() == s@.skip(i + 1));
        i = i + 1;
    }
    assert(s@.skip(i as int) == s@.subrange(i as int, s@.len() as int));
    s.substring_char(i, len)
}

/// `s` without the white space around it.
pub fn trim_text(s: &str) -> (r: &str)
    ensures
        r@ == trim(s@),
{
    trim_text_end(trim_text_start(s))
}

/// A copy of a text that may be missing.
pub fn copy_text(text: &Option<String>) -> (r: Option<String>)
    ensures
        text_of(r) == text_of(*text),
{
    match text {
        Some(text) => Some(text.clone()),
        None => None,
    }
}

/// `position(s, c)` marks the first `c`: none stands before it.
pub proof fn lemma_position(s: Seq<char>, c: char)
    ensures
        0 <= position(s, c) <= s.len(),
        position(s, c) < s.len() ==> s[position(s, c)] == c,
        forall|i: int| 0 <= i < position(s, c) ==> s[i] != c,
        s.contains(c) <==> position(s, c) < s.len(),
    decreases s.len(),
{
    if s.len() == 0 || s[0] == c {
    } else {
        let t = s.drop_first();
        lemma_position(t, c);
        assert forall|i: int| 0 <= i < position(s, c) implies s[i] != c by {
            if i > 0 {
                assert(s[i] == t[i - 1]);
            }
        }
        if position(s, c) < s.len() {
            assert(s[position(s, c)] == c);
        }
    }
}

/// Only the first `c` is at `position(s, c)`.
pub proof fn lemma_position_is(s: Seq<char>, c: char, p: int)
    requires
        0 <= p <= s.len(),
        p < s.len() ==> s[p] == c,
        forall|i: int| 0 <= i < p ==> s[i] != c,
    ensures
        position(s, c) == p,
{
    lemma_position(s, c);
    if position(s, c) < p {
        assert(s[position(s, c)] == c);
    }
    if p < position(s, c) {
        assert(s[p] == c);
    }
}

/// The position of the first `c`, or the length where there is none.
pub fn find_char(s: &[char], c: char) -> (r: usize)
    ensures
        r == position(s@, c),
        r <= s.len(),
        r < s.len() ==> s@[r as int] == c,
{
    let mut i: usize = 0;
    while i < s.len() && s[i] != c
        invariant
            i <= s.len(),
            forall|j: int| 0 <= j < i ==> s@[j] != c,
        decreases s.len() - i,
    {
        i = i + 1;
    }
    proof {
        lemma_position_is(s@, c, i as int);
    }
    i
}

/// Whether the slice holds `c`.
pub fn has_char(s: &[char], c: char) -> (r: bool)
    ensures
        r == s@.contains(c),
{
    proof {
        lemma_position(s@, c);
    }
    find_char(s, c) < s.len()
}

/// Whether the slice begins with `pat`.
pub fn starts_with(s: &[char], pat: &[char]) -> (r: bool)
    ensures
        r == pat@.is_prefix_of(s@),
        r ==> pat.len() <= s.len(),
{
    if pat.len() > s.len() {
        return false;
    }
    same(slice_subrange(s, 0, pat.len()), pat)
}

/// Whether the slice ends with `pat`.
pub fn ends_with(s: &[char], pat: &[char]) -> (r: bool)
    ensures
        r == pat@.is_suffix_of(s@),
        r ==> pat.len() <= s.len(),
{
    if pat.len() > s.len() {
        return false;
    }
    same(slice_subrange(s, s.len() - pat.len(), s.len()), pat)
}

/// What stands behind the first `n` characters.
pub fn skipped(s: &[char], n: usize) -> (r: &[char])
    requires
        n <= s.len(),
    ensures
        r@ == s@.skip(n as int),
{
    assert(s@.skip(n as int) == s@.subrange(n as int, s@.len() as int));
    slice_subrange(s, n, s.len())
}

/// The first `n` characters.
pub fn taken(s: &[char], n: usize) -> (r: &[char])
    requires
        n <= s.len(),
    ensures
        r@ == s@.take(n as int),
{
    assert(s@.take(n as int) == s@.subrange(0, n as int));
    slice_subrange(s, 0, n)
}

/// The parts between the occurrences of `c`, in order.
pub fn parts(s: &[char], c: char) -> (r: Vec<&[char]>)
    ensures
        r@.map_values(|p: &[char]| p@) == split(s@, c),
{
    let mut out: Vec<&[char]> = Vec::new();
    let mut rest = s;
    loop
        invariant
            out@.map_values(|p: &[char]| p@) + split(rest@, c) == split(s@, c),
        decreases rest.len(),
    {
        let p: usize = find_char(rest, c);
        let ghost done = out@.map_values(|p: &[char]| p@);
        if p < rest.len() {
            let before = taken(rest, p);
            out.push(before);
            assert(out@.map_values(|p: &[char]| p@) == done.push(before@));
            let ghost whole = rest@;
            rest = skipped(rest, p + 1);
            assert(split(whole, c) == seq![before@] + split(rest@, c));
            assert(done.push(before@) + split(rest@, c) == done + split(whole, c));
        } else {
            out.push(rest);
            assert(split(rest@, c) == seq![rest@]);
            assert(out@.map_values(|p: &[char]| p@) == done + split(rest@, c));
            return out;
        }
    }
}

/// What is split at a `c` between two texts is split in each of them.
pub proof fn lemma_split_join(a: Seq<char>, b: Seq<char>, c: char)
    ensures
        split(a.push(c) + b, c) == split(a, c) + split(b, c),
    decreases a.len(),
{
    let whole = a.push(c) + b;
    let p = position(a, c);
    lemma_position(a, c);
    assert(whole[p] == c);
    assert forall|i: int| 0 <= i < p implies whole[i] != c by {
        assert(whole[i] == a[i]);
    }
    lemma_position_is(whole, c, p);
    if p < a.len() {
        let rest = a.skip(p + 1);
        assert(whole.skip(p + 1) == rest.push(c) + b);
        assert(whole.take(p) == a.take(p));
        lemma_split_join(rest, b, c);
        assert(seq![a.take(p)] + (split(rest, c) + split(b, c)) == seq![a.take(p)] + split(rest, c)
            + split(b, c));
    } else {
        assert(whole.skip(p + 1) == b);
        assert(whole.take(p) == a);
    }
}

/// `find_text` finds the first occurrence, and finds one where there is one.
pub proof fn lemma_find_text(s: Seq<char>, pat: Seq<char>)
    ensures
        match find_text(s, pat) {
            Some(i) => occurs_at(s, pat, i) && forall|j: int|
                0 <= j < i ==> !#[trigger] occurs_at(s, pat, j),
            None => forall|j: int| !#[trigger] occurs_at(s, pat, j),
        },
        has_text(s, pat) <==> find_text(s, pat) is Some,
    decreases s.len(),
{
    if pat.is_prefix_of(s) {
        assert(occurs_at(s, pat, 0));
    } else if s.len() == 0 {
        assert forall|j: int| !#[trigger] occurs_at(s, pat, j) by {
            if occurs_at(s, pat, j) {
                assert(s.subrange(0, 0) == s);
            }
        }
    } else {
        let t = s.drop_first();
        lemma_find_text(t, pat);
        assert forall|j: int| 1 <= j implies occurs_at(s, pat, j) == #[trigger] occurs_at(
            t,
            pat,
            j - 1,
        ) by {
            if j + pat.len() <= s.len() {
                assert(s.subrange(j, j + pat.len()) == t.subrange(j - 1, j - 1 + pat.len()));
            }
        }
        assert(!occurs_at(s, pat, 0)) by {
            if occurs_at(s, pat, 0) {
                assert(s.subrange(0, pat.len() as int) == pat);
                assert(pat.is_prefix_of(s));
            }
        }
        match find_text(t, pat) {
            Some(i) => {
                assert(occurs_at(s, pat, i + 1) == occurs_at(t, pat, i + 1 - 1));
                assert forall|j: int| 0 <= j < i + 1 implies !#[trigger] occurs_at(s, pat, j) by {
                    if j > 0 {
                        assert(occurs_at(s, pat, j) == occurs_at(t, pat, j - 1));
                    }
                }
            },
            None => {
                assert forall|j: int| !#[trigger] occurs_at(s, pat, j) by {
                    if j > 0 {
                        assert(occurs_at(s, pat, j) == occurs_at(t, pat, j - 1));
                    }
                }
            },
        }
    }
}

/// The position at which `pat` first occurs.
pub fn find(s: &[char], pat: &[char]) -> (r: Option<usize>)
    ensures
        match r {
            Some(i) => find_text(s@, pat@) == Some(i as int) && i + pat.len() <= s.len(),
            None => find_text(s@, pat@) is None,
        },
        r is Some <==> has_text(s@, pat@),
{
    let mut i: usize = 0;
    proof {
        lemma_find_text(s@, pat@);
    }
    assert(s@.skip(0) == s@);
    loop
        invariant
            i <= s.len(),
            match find_text(s@.skip(i as int), pat@) {
                Some(k) => find_text(s@, pat@) == Some(k + i),
                None => find_text(s@, pat@) is None,
            },
            has_text(s@, pat@) <==> find_text(s@, pat@) is Some,
        decreases s.len() - i,
    {
        if starts_with(skipped(s, i), pat) {
            return Some(i);
        }
        if i == s.len() {
            return None;
        }
        assert(s@.skip(i as int).drop_first() == s@.skip(i + 1));
        i = i + 1;
    }
}

/// Whether `pat` occurs in `s`.
pub fn contains(s: &str, pat: &str) -> (r: bool)
    ensures
        r == has_text(s@, pat@),
{
    let a = chars_of(s);
    let b = chars_of(pat);
    find(a.as_slice(), b.as_slice()).is_some()
}

/// The characters with every `from` turned into `to`.
pub fn replaced(s: &[char], from: char, to: char) -> (r: Vec<char>)
    ensures
        r@ == replace_char(s@, from, to),
{
    let mut out: Vec<char> = Vec::new();
    let mut i: usize = 0;
    while i < s.len()
        invariant
            i <= s.len(),
            out@ == replace_char(s@.take(i as int), from, to),
        decreases s.len() - i,
    {
        let c = s[i];
        if c == from {
            out.push(to);
        } else {
            out.push(c);
        }
        assert(replace_char(s@.take(i + 1), from, to) == out@);
        i = i + 1;
    }
    assert(s@.take(i as int) == s@);
    out
}

pub fn lowered(c: char) -> (r: char)
    ensures
        r == lower(c),
{
    if 'A' <= c && c <= 'Z' {
        let n: u8 = c as u8;
        (n + 32) as char
    } else {
        c
    }
}

/// Whether two slices are the same but for the case of ASCII letters.
pub fn same_but_case(a: &[char], b: &[char]) -> (r: bool)
    ensures
        r == same_ignoring_case(a@, b@),
{
    let ghost la = a@.map_values(|c: char| lower(c));
    let ghost lb = b@.map_values(|c: char| lower(c));
    if a.len() != b.len() {
        assert(la.len() != lb.len());
        return false;
    }
    let mut i: usize = 0;
    while i < a.len()
        invariant
            i <= a.len(),
            a.len() == b.len(),
            la == a@.map_values(|c: char| lower(c)),
            lb == b@.map_values(|c: char| lower(c)),
            forall|j: int| 0 <= j < i ==> la[j] == lb[j],
        decreases a.len() - i,
    {
        if lowered(a[i]) != lowered(b[i]) {
            assert(la[i as int] != lb[i as int]);
            return false;
        }
        i = i + 1;
    }
    assert(la == lb);
    true
}

/// Writes `n` in decimal behind what the string holds.
pub fn push_decimal(out: &mut String, n: u64)
    ensures
        final(out)@ == old(out)@ + decimal(n as nat),
    decreases n,
{
    if n >= 10 {
        push_decimal(out, n / 10);
    }
    let d: u8 = (n % 10) as u8;
    out.push((48 + d) as char);
}

/// `n` in decimal.
pub fn decimal_text(n: u64) -> (r: String)
    ensures
        r@ == decimal(n as nat),
{
    let mut out = String::new();
    push_decimal(&mut out, n);
    out
}

/// More digits never make the number smaller.
proof fn lemma_digits_grow(s: Seq<char>, n: int)
    requires
        0 <= n <= s.len(),
        all_digits(s),
    ensures
        digits_value(s.take(n)) <= digits_value(s),
    decreases s.len() - n,
{
    if n < s.len() {
        lemma_digits_grow(s, n + 1);
        assert(s.take(n + 1).drop_last() == s.take(n));
        assert(is_digit(s[n]));
    } else {
        assert(s.take(n) == s);
    }
}

/// The number no larger than `max` that the whole slice stands for.
pub fn parse_unsigned(s: &[char], max: u64) -> (r: Option<u64>)
    ensures
        match r {
            Some(n) => unsigned(s@, max as nat) == Some(n as nat),
            None => unsigned(s@, max as nat) is None,
        },
{
    let digits = if s.len() > 0 && s[0] == '+' {
        skipped(s, 1)
    } else {
        s
    };
    assert(digits@ == unsigned_digits(s@));
    if digits.len() == 0 {
        return None;
    }
    let mut value: u64 = 0;
    let mut i: usize = 0;
    while i < digits.len()
        invariant
            i <= digits.len(),
            digits@ == unsigned_digits(s@),
            all_digits(digits@.take(i as int)),
            value == digits_value(digits@.take(i as int)),
            value <= max,
        decreases digits.len() - i,
    {
        let c = digits[i];
        if !('0' <= c && c <= '9') {
            assert(!is_digit(digits@[i as int]));
            return None;
        }
        let d: u64 = (c as u32 - 48) as u64;
        let ghost next = digits@.take(i + 1);
        assert(next.drop_last() == digits@.take(i as int));
        assert(all_digits(next)) by {
            assert forall|j: int| 0 <= j < next.len() implies is_digit(#[trigger] next[j]) by {
                if j < i {
                    assert(digits@.take(i as int)[j] == next[j]);
                }
            }
        }
        assert(digits_value(next) == value * 10 + d);
        if d > max || value > (max - d) / 10 {
            proof {
                assert(digits_value(next) > max);
                if all_digits(digits@) {
                    lemma_digits_grow(digits@, i + 1);
                }
            }
            return None;
        }
        value = value * 10 + d;
        i = i + 1;
    }
    assert(digits@.take(i as int) == digits@);
    Some(value)
}

/// A number written in decimal reads back as itself, and needs no sign.
pub proof fn lemma_decimal_reads_back(n: nat)
    ensures
        decimal(n).len() > 0,
        all_digits(decimal(n)),
        digits_value(decimal(n)) == n,
        forall|max: nat| n <= max ==> #[trigger] unsigned(decimal(n), max) == Some(n),
        forall|max: nat| n > max ==> #[trigger] unsigned(decimal(n), max) is None,
    decreases n,
{
    if n < 10 {
        assert(seq![digit(n)].drop_last() == Seq::<char>::empty());
        assert(digits_value(Seq::<char>::empty()) == 0);
    } else {
        lemma_decimal_reads_back(n / 10);
        assert(decimal(n).drop_last() == decimal(n / 10));
        assert forall|j: int| 0 <= j < decimal(n).len() implies is_digit(
            #[trigger] decimal(n)[j],
        ) by {
            if j < decimal(n / 10).len() {
                assert(decimal(n)[j] == decimal(n / 10)[j]);
            }
        }
    }
    assert(is_digit(decimal(n)[0]));
}

/// Text that neither begins nor ends with white space is not trimmed.
pub proof fn lemma_trim_nothing(s: Seq<char>)
    requires
        s.len() > 0 ==> !is_white(s[0]) && !is_white(s.last()),
    ensures
        trim(s) == s,
{
}

/// White space put around a text is trimmed off again.
pub proof fn lemma_trim_padding(before: Seq<char>, s: Seq<char>, after: Seq<char>)
    requires
        forall|i: int| 0 <= i < before.len() ==> is_white(#[trigger] before[i]),
        forall|i: int| 0 <= i < after.len() ==> is_white(#[trigger] after[i]),
    ensures
        trim(before + s + after) == trim(s),
    decreases before.len() + after.len(),
{
    let whole = before + s + after;
    if before.len() > 0 {
        assert(whole[0] == before[0]);
        assert(whole.drop_first() == before.drop_first() + s + after);
        lemma_trim_padding(before.drop_first(), s, after);
    } else if after.len() > 0 {
        let shorter = before + s + after.drop_last();
        lemma_trim_padding(before, s, after.drop_last());
        assert(whole.drop_last() == shorter);
        assert(is_white(after[after.len() - 1]));
        lemma_trim_last(whole);
    } else {
        assert(whole == s);
    }
}

/// A white last character does not matter.
proof fn lemma_trim_last(s: Seq<char>)
    requires
        s.len() > 0,
        is_white(s.last()),
    ensures
        trim(s) == trim(s.drop_last()),
    decreases s.len(),
{
    if is_white(s[0]) {
        if s.len() > 1 {
            lemma_trim_last(s.drop_first());
            assert(s.drop_first().drop_last() == s.drop_last().drop_first());
        } else {
            assert(s.drop_first() == s.drop_last());
        }
    } else {
        assert(s.len() > 1);
    }
}

/// A number below 2^64 has at most twenty digits.
pub proof fn lemma_decimal_len(n: nat)
    requires
        n <= u64::MAX,
    ensures
        1 <= decimal(n).len() <= 20,
{
    reveal_with_fuel(power_of_ten, 21);
    lemma_decimal_len_below(n, 20, power_of_ten(20));
}

proof fn lemma_decimal_len_below(n: nat, k: nat, bound: nat)
    requires
        k >= 1,
        n < bound,
        k == 1 ==> bound == 10,
        k > 1 ==> bound % 10 == 0 && bound / 10 >= 10,
        bound == power_of_ten(k),
    ensures
        1 <= decimal(n).len() <= k,
    decreases k,
{
    if n >= 10 {
        assert(k > 1);
        let less = (k - 1) as nat;
        assert(power_of_ten(k) == 10 * power_of_ten(less));
        lemma_power_of_ten(less);
        lemma_decimal_len_below(n / 10, less, power_of_ten(less));
    }
}

spec fn power_of_ten(k: nat) -> nat
    decreases k,
{
    if k == 0 {
        1
    } else {
        10 * power_of_ten((k - 1) as nat)
    }
}

proof fn lemma_power_of_ten(k: nat)
    requires
        k >= 1,
    ensures
        k == 1 ==> power_of_ten(k) == 10,
        k > 1 ==> power_of_ten(k) % 10 == 0 && power_of_ten(k) / 10 >= 10,
    decreases k,
{
    reveal_with_fuel(power_of_ten, 2);
    if k > 1 {
        lemma_power_of_ten((k - 1) as nat);
    }
}

/// What is trimmed from the front is white, and what stays does not begin so.
pub proof fn lemma_trim_start_cut(s: Seq<char>)
    ensures
        trim_start(s).len() <= s.len(),
        trim_start(s) == s.skip(s.len() - trim_start(s).len()),
        forall|k: int|
            0 <= k < s.len() - trim_start(s).len() ==> is_white(#[trigger] s[k]),
        trim_start(s).len() > 0 ==> !is_white(trim_start(s)[0]),
    decreases s.len(),
{
    if s.len() > 0 && is_white(s[0]) {
        let rest = s.drop_first();
        lemma_trim_start_cut(rest);
        assert(rest.skip(rest.len() - trim_start(rest).len()) == s.skip(
            s.len() - trim_start(rest).len(),
        ));
        assert forall|k: int| 0 <= k < s.len() - trim_start(s).len() implies is_white(
            #[trigger] s[k],
        ) by {
            if k > 0 {
                assert(s[k] == rest[k - 1]);
            }
        }
    } else {
        assert(s.skip(0) == s);
    }
}

/// What is trimmed from the back is white, and what stays does not end so.
pub proof fn lemma_trim_end_cut(s: Seq<char>)
    ensures
        trim_end(s).len() <= s.len(),
        trim_end(s) == s.take(trim_end(s).len() as int),
        forall|k: int| trim_end(s).len() <= k < s.len() ==> is_white(#[trigger] s[k]),
        trim_end(s).len() > 0 ==> !is_white(trim_end(s).last()),
    decreases s.len(),
{
    if s.len() > 0 && is_white(s.last()) {
        let rest = s.drop_last();
        lemma_trim_end_cut(rest);
        assert(rest.take(trim_end(rest).len() as int) == s.take(trim_end(rest).len() as int));
        assert forall|k: int| trim_end(s).len() <= k < s.len() implies is_white(#[trigger] s[k]) by {
            if k < rest.len() {
                assert(s[k] == rest[k]);
            }
        }
    } else {
        assert(s.take(s.len() as int) == s);
    }
}

/// A trimmed text is a stretch of the text: it neither begins nor ends with
/// white space, and nothing but white space stands around it.
pub proof fn lemma_trim_cut(s: Seq<char>)
    ensures
        trim(s).len() > 0 ==> !is_white(trim(s)[0]) && !is_white(trim(s).last()),
        exists|i: int| #[trigger] occurs_at(s, trim(s), i) && (forall|k: int|
            0 <= k < i ==> is_white(#[trigger] s[k])) && (forall|k: int|
            i + trim(s).len() <= k < s.len() ==> is_white(#[trigger] s[k])),
{
    let inner = trim_start(s);
    let i = s.len() - inner.len();
    lemma_trim_start_cut(s);
    lemma_trim_end_cut(inner);
    let t = trim(s);
    assert(s.subrange(i, i + t.len()) == inner.take(t.len() as int));
    assert(occurs_at(s, t, i));
    assert forall|k: int| i + t.len() <= k < s.len() implies is_white(#[trigger] s[k]) by {
        assert(s[k] == inner[k - i]);
    }
}

/// What is trimmed of a character at the end is nothing but that character, and
/// all of it.
pub proof fn lemma_trim_end_char_cut(s: Seq<char>, c: char)
    ensures
        trim_end_char(s, c).len() <= s.len(),
        trim_end_char(s, c) == s.take(trim_end_char(s, c).len() as int),
        forall|k: int| trim_end_char(s, c).len() <= k < s.len() ==> #[trigger] s[k] == c,
        trim_end_char(s, c).len() > 0 ==> trim_end_char(s, c).last() != c,
    decreases s.len(),
{
    if s.len() > 0 && s.last() == c {
        let rest = s.drop_last();
        lemma_trim_end_char_cut(rest, c);
        assert(rest.take(trim_end_char(rest, c).len() as int) == s.take(
            trim_end_char(rest, c).len() as int,
        ));
        assert forall|k: int| trim_end_char(s, c).len() <= k < s.len() implies #[trigger] s[k]
            == c by {
            if k < rest.len() {
                assert(s[k] == rest[k]);
            }
        }
    } else {
        assert(s.take(s.len() as int) == s);
    }
}

/// Parts put together again, with a character between them.
pub open spec fn joined_with(parts: Seq<Seq<char>>, c: char) -> Seq<char>
    decreases parts.len(),
{
    if parts.len() == 0 {
        seq![]
    } else if parts.len() == 1 {
        parts[0]
    } else {
        parts[0].push(c) + joined_with(parts.drop_first(), c)
    }
}

/// A text that is split holds its parts with the character between them, and no
/// part holds the character.
pub proof fn lemma_split_parts(s: Seq<char>, c: char)
    ensures
        split(s, c).len() > 0,
        joined_with(split(s, c), c) == s,
        forall|i: int| 0 <= i < split(s, c).len() ==> !(#[trigger] split(s, c)[i]).contains(c),
    decreases s.len(),
{
    lemma_position(s, c);
    let p = position(s, c);
    if p < s.len() {
        let before = s.take(p);
        let after = s.skip(p + 1);
        lemma_split_parts(after, c);
        let parts = split(s, c);
        assert(parts == seq![before] + split(after, c));
        assert(parts.drop_first() == split(after, c));
        assert(before.push(c) + after == s);
        assert forall|i: int| 0 <= i < parts.len() implies !(#[trigger] parts[i]).contains(c) by {
            if i > 0 {
                assert(parts[i] == split(after, c)[i - 1]);
            }
        }
    }
}

/// The parts that a text is split into are the only ones without the character
/// that make up the text.
pub proof fn lemma_split_is_unique(parts: Seq<Seq<char>>, c: char)
    requires
        parts.len() > 0,
        forall|i: int| 0 <= i < parts.len() ==> !(#[trigger] parts[i]).contains(c),
    ensures
        split(joined_with(parts, c), c) == parts,
    decreases parts.len(),
{
    let first = parts[0];
    lemma_position(first, c);
    assert(split(first, c) == seq![first]);
    if parts.len() == 1 {
        assert(parts == seq![first]);
    } else {
        let rest = parts.drop_first();
        assert forall|i: int| 0 <= i < rest.len() implies !(#[trigger] rest[i]).contains(c) by {
            assert(rest[i] == parts[i + 1]);
        }
        lemma_split_is_unique(rest, c);
        lemma_split_join(first, joined_with(rest, c), c);
        assert(seq![first] + rest == parts);
    }
}

/// A text is replaced character by character, and nothing else of it changes.
pub proof fn lemma_replaced(s: Seq<char>, from: char, to: char)
    ensures
        replace_char(s, from, to).len() == s.len(),
        forall|i: int|
            0 <= i < s.len() ==> #[trigger] replace_char(s, from, to)[i] == if s[i] == from {
                to
            } else {
                s[i]
            },
        from != to ==> !replace_char(s, from, to).contains(from),
{
}

/// Texts that are the same but for case are as long, and differ only where one
/// has a capital and the other its small letter.
pub proof fn lemma_same_but_case(a: Seq<char>, b: Seq<char>)
    ensures
        same_ignoring_case(a, b) <==> a.len() == b.len() && forall|i: int|
            0 <= i < a.len() ==> {
                ||| #[trigger] a[i] == b[i]
                ||| 'A' <= a[i] <= 'Z' && b[i] as int == a[i] as int + 32
                ||| 'A' <= b[i] <= 'Z' && a[i] as int == b[i] as int + 32
            },
{
    let x = a.map_values(|c: char| lower(c));
    let y = b.map_values(|c: char| lower(c));
    if same_ignoring_case(a, b) {
        assert(x.len() == a.len() && y.len() == b.len());
        assert forall|i: int| 0 <= i < a.len() implies {
            ||| #[trigger] a[i] == b[i]
            ||| 'A' <= a[i] <= 'Z' && b[i] as int == a[i] as int + 32
            ||| 'A' <= b[i] <= 'Z' && a[i] as int == b[i] as int + 32
        } by {
            assert(x[i] == y[i]);
        }
    }
    if a.len() == b.len() && forall|i: int|
        0 <= i < a.len() ==> {
            ||| #[trigger] a[i] == b[i]
            ||| 'A' <= a[i] <= 'Z' && b[i] as int == a[i] as int + 32
            ||| 'A' <= b[i] <= 'Z' && a[i] as int == b[i] as int + 32
        } {
        assert forall|i: int| 0 <= i < x.len() implies x[i] == y[i] by {
            assert(a[i] == a[i]);
        }
        assert(x == y);
    }
}

/// A number is read from digits, with or without one plus sign before them, and
/// from nothing else; it is no larger than allowed.
pub proof fn lemma_unsigned(s: Seq<char>, n: nat, max: nat)
    ensures
        n <= max ==> unsigned(decimal(n), max) == Some(n) && unsigned(
            seq!['+'] + decimal(n),
            max,
        ) == Some(n),
        n > max ==> unsigned(decimal(n), max) is None && unsigned(seq!['+'] + decimal(n), max) is None,
        unsigned(s, max) matches Some(value) ==> {
            &&& value <= max
            &&& s.len() > 0
            &&& '0' <= s.last() <= '9'
            &&& s[0] == '+' || '0' <= s[0] <= '9'
            &&& forall|i: int| 1 <= i < s.len() ==> '0' <= #[trigger] s[i] <= '9'
        },
{
    lemma_decimal_reads_back(n);
    let signed = seq!['+'] + decimal(n);
    assert(signed.skip(1) == decimal(n));
    if unsigned(s, max) is Some {
        let digits = unsigned_digits(s);
        assert(is_digit(digits[0]) && is_digit(digits.last()));
        assert forall|i: int| 1 <= i < s.len() implies '0' <= #[trigger] s[i] <= '9' by {
            if s[0] == '+' {
                assert(s[i] == digits[i - 1]);
                assert(is_digit(digits[i - 1]));
            } else {
                assert(is_digit(digits[i]));
            }
        }
    }
}

/// A number written in decimal has no leading zero, and is as long as its size
/// asks for: one digit more for each power of ten.
pub proof fn lemma_decimal_shape(n: nat)
    ensures
        n >= 10 ==> decimal(n)[0] != '0',
        n < 10 ==> decimal(n).len() == 1 && decimal(n)[0] as int == 48 + n,
        n >= 10 ==> decimal(n).len() == decimal(n / 10).len() + 1 && decimal(n).drop_last()
            == decimal(n / 10) && decimal(n).last() as int == 48 + n % 10,
    decreases n,
{
    if n >= 10 {
        lemma_decimal_shape(n / 10);
        lemma_decimal_reads_back(n / 10);
        assert(decimal(n)[0] == decimal(n / 10)[0]);
        assert(decimal(n).drop_last() == decimal(n / 10));
    }
}

/// The white characters: there are twenty-five of them.
pub proof fn lemma_white_chars(c: char)
    ensures
        is_white(c) <==> seq![
            9int, 10, 11, 12, 13, 32, 133, 160, 5760, 8192, 8193, 8194, 8195, 8196, 8197, 8198,
            8199, 8200, 8201, 8202, 8232, 8233, 8239, 8287, 12288,
        ].contains(c as int),
{
    let codes = seq![
        9int, 10, 11, 12, 13, 32, 133, 160, 5760, 8192, 8193, 8194, 8195, 8196, 8197, 8198,
        8199, 8200, 8201, 8202, 8232, 8233, 8239, 8287, 12288,
    ];
    let n = c as int;
    if is_white(c) {
        let at: int = if n <= 13 {
            n - 9
        } else if n == 32 {
            5
        } else if n == 133 {
            6
        } else if n == 160 {
            7
        } else if n == 5760 {
            8
        } else if n <= 8202 {
            n - 8192 + 9
        } else if n == 8232 {
            20
        } else if n == 8233 {
            21
        } else if n == 8239 {
            22
        } else if n == 8287 {
            23
        } else {
            24
        };
        assert(codes[0] == 9 && codes[1] == 10 && codes[2] == 11 && codes[3] == 12 && codes[4] == 13);
        assert(codes[9] == 8192 && codes[10] == 8193 && codes[11] == 8194 && codes[12] == 8195
            && codes[13] == 8196 && codes[14] == 8197 && codes[15] == 8198 && codes[16] == 8199
            && codes[17] == 8200 && codes[18] == 8201 && codes[19] == 8202);
        assert(codes[at] == n);
    }
}

}
