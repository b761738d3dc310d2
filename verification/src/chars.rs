//! Text as a sequence of characters: the searching, trimming and splitting
//! that every log reader rests on.
//!
//! Executable functions work on `&[char]`, so a piece of a text is a
//! sub-slice; the spec functions beside them say what each piece is.

use vstd::prelude::*;
use vstd::slice::{slice_subrange, slice_to_vec};

verus! {

/// The characters with the Unicode property `White_Space`.
pub open spec fn is_space(c: char) -> bool {
    ||| '\t' <= c <= '\r'
    ||| c == ' '
    ||| c == '\u{85}'
    ||| c == '\u{a0}'
    ||| c == '\u{1680}'
    ||| '\u{2000}' <= c <= '\u{200a}'
    ||| c == '\u{2028}'
    ||| c == '\u{2029}'
    ||| c == '\u{202f}'
    ||| c == '\u{205f}'
    ||| c == '\u{3000}'
}

/// `part` stands in `whole` at position `i`.
pub open spec fn occurs_at(whole: Seq<char>, part: Seq<char>, i: int) -> bool {
    0 <= i && i + part.len() <= whole.len() && whole.subrange(i, i + part.len()) == part
}

/// `part` stands somewhere in `whole`.
pub open spec fn contains(whole: Seq<char>, part: Seq<char>) -> bool {
    exists|i: int| occurs_at(whole, part, i)
}

pub open spec fn starts_with(whole: Seq<char>, part: Seq<char>) -> bool {
    occurs_at(whole, part, 0)
}

pub open spec fn ends_with(whole: Seq<char>, part: Seq<char>) -> bool {
    occurs_at(whole, part, whole.len() - part.len())
}

/// What is left of `whole` behind the prefix `part`.
pub open spec fn after_prefix(whole: Seq<char>, part: Seq<char>) -> Option<Seq<char>> {
    if starts_with(whole, part) {
        Some(whole.skip(part.len() as int))
    } else {
        None
    }
}

/// What is left of `whole` before the suffix `part`.
pub open spec fn before_suffix(whole: Seq<char>, part: Seq<char>) -> Option<Seq<char>> {
    if ends_with(whole, part) {
        Some(whole.take(whole.len() - part.len()))
    } else {
        None
    }
}

/// `c` is one of `set`, or a space where spaces are to go too.
pub open spec fn goes(c: char, set: Seq<char>, space: bool) -> bool {
    set.contains(c) || (space && is_space(c))
}

/// `s` without the characters at its front that go.
pub open spec fn front_trimmed(s: Seq<char>, set: Seq<char>, space: bool) -> Seq<char>
    decreases s.len(),
{
    if s.len() > 0 && goes(s[0], set, space) {
        front_trimmed(s.skip(1), set, space)
    } else {
        s
    }
}

/// `s` without the characters at its back that go.
pub open spec fn back_trimmed(s: Seq<char>, set: Seq<char>, space: bool) -> Seq<char>
    decreases s.len(),
{
    if s.len() > 0 && goes(s.last(), set, space) {
        back_trimmed(s.drop_last(), set, space)
    } else {
        s
    }
}

/// `s` without the spaces around it.
pub open spec fn trimmed(s: Seq<char>) -> Seq<char> {
    back_trimmed(front_trimmed(s, Seq::empty(), true), Seq::empty(), true)
}

/// Nothing but spaces.
pub open spec fn blank(s: Seq<char>) -> bool {
    forall|i: int| 0 <= i < s.len() ==> is_space(#[trigger] s[i])
}

/// `s` without the copies of `part` at its back.
pub open spec fn without_suffixes(s: Seq<char>, part: Seq<char>) -> Seq<char>
    decreases s.len(),
{
    if part.len() > 0 && ends_with(s, part) {
        without_suffixes(s.take(s.len() - part.len()), part)
    } else {
        s
    }
}

/// How many characters stand before the first `c` (all of them, if there is none).
pub open spec fn index_of(s: Seq<char>, c: char) -> nat
    decreases s.len(),
{
    if s.len() == 0 || s[0] == c {
        0
    } else {
        1 + index_of(s.skip(1), c)
    }
}

/// How many characters stand before the first space.
pub open spec fn word_len(s: Seq<char>) -> nat
    decreases s.len(),
{
    if s.len() == 0 || is_space(s[0]) {
        0
    } else {
        1 + word_len(s.skip(1))
    }
}

/// The maximal runs of characters that are not spaces, in order.
pub open spec fn words(s: Seq<char>) -> Seq<Seq<char>>
    decreases s.len(),
{
    if s.len() == 0 {
        Seq::empty()
    } else if is_space(s[0]) {
        words(s.skip(1))
    } else {
        let n = 1 + word_len(s.skip(1));
        if n >= s.len() {
            seq![s]
        } else {
            seq![s.take(n as int)] + words(s.skip(n as int))
        }
    }
}

/// A line without the carriage return of its line ending.
pub open spec fn without_return(line: Seq<char>) -> Seq<char> {
    if line.len() > 0 && line.last() == '\r' {
        line.drop_last()
    } else {
        line
    }
}

/// The lines of a text, without their endings (`\n` or `\r\n`).
pub open spec fn lines(s: Seq<char>) -> Seq<Seq<char>>
    decreases s.len(),
{
    let n = index_of(s, '\n');
    if s.len() == 0 {
        Seq::empty()
    } else if n >= s.len() {
        seq![s]
    } else {
        seq![without_return(s.take(n as int))] + lines(s.skip((n + 1) as int))
    }
}

/// The lines of a text, each with its `\n`.
pub open spec fn whole_lines(s: Seq<char>) -> Seq<Seq<char>>
    decreases s.len(),
{
    let n = index_of(s, '\n');
    if s.len() == 0 {
        Seq::empty()
    } else if n >= s.len() {
        seq![s]
    } else {
        seq![s.take((n + 1) as int)] + whole_lines(s.skip((n + 1) as int))
    }
}

/// The pieces between the occurrences of `c`; always at least one.
pub open spec fn pieces(s: Seq<char>, c: char) -> Seq<Seq<char>>
    decreases s.len(),
{
    let n = index_of(s, c);
    if n >= s.len() {
        seq![s]
    } else {
        seq![s.take(n as int)] + pieces(s.skip((n + 1) as int), c)
    }
}

/// `s` without any `c`.
pub open spec fn without(s: Seq<char>, c: char) -> Seq<char>
    decreases s.len(),
{
    if s.len() == 0 {
        s
    } else if s.last() == c {
        without(s.drop_last(), c)
    } else {
        without(s.drop_last(), c).push(s.last())
    }
}

/// `s` with each character of `set` replaced by `to`.
pub open spec fn replaced(s: Seq<char>, set: Seq<char>, to: char) -> Seq<char> {
    Seq::new(
        s.len(),
        |i: int|
            if set.contains(s[i]) {
                to
            } else {
                s[i]
            },
    )
}

/// `s` read from the left, each `cc` replaced by one `c`.
pub open spec fn pairs_merged(s: Seq<char>, c: char) -> Seq<char>
    decreases s.len(),
{
    if s.len() >= 2 && s[0] == c && s[1] == c {
        seq![c] + pairs_merged(s.skip(2), c)
    } else if s.len() >= 1 {
        seq![s[0]] + pairs_merged(s.skip(1), c)
    } else {
        s
    }
}

/// The lower-case form of an ASCII letter; other characters stay.
pub open spec fn ascii_lower(c: char) -> char {
    if 'A' <= c <= 'Z' {
        ((c as u8) + 32) as u8 as char
    } else {
        c
    }
}

/// `s` with its ASCII letters in lower case.
pub open spec fn ascii_lowered(s: Seq<char>) -> Seq<char> {
    Seq::new(s.len(), |i: int| ascii_lower(s[i]))
}

/// The contents of a list of slices.
pub open spec fn views(v: Seq<&[char]>) -> Seq<Seq<char>> {
    Seq::new(v.len(), |i: int| v[i]@)
}

/// The contents of an optional string.
pub open spec fn opt_text(o: Option<String>) -> Option<Seq<char>> {
    match o {
        Some(s) => Some(s@),
        None => None,
    }
}

/// The contents of an optional slice.
pub open spec fn opt_view(o: Option<&[char]>) -> Option<Seq<char>> {
    match o {
        Some(s) => Some(s@),
        None => None,
    }
}

/// The characters of a string.
pub fn chars_of(s: &str) -> (out: Vec<char>)
    ensures
        out@ == s@,
{
    let mut out: Vec<char> = Vec::new();
    for c in it: s.chars()
        invariant
            out@ == it.seq().take(it.index()),
            it.seq() == s@,
    {
        out.push(c);
        assert(it.seq().take(it.index() + 1) =~= it.seq().take(it.index()).push(
            it.seq()[it.index()],
        ));
    }
    assert(s@.take(s@.len() as int) =~= s@);
    out
}

/// Calls `String::from_iter`, which puts the characters that an iterator
/// hands out into a string, in their order.
#[verifier::external_body]
pub(crate) fn string_of(s: &[char]) -> (out: String)
    ensures
        out@ == s@,
{
    String::from_iter(s)
}

/// The lower-case form of a text, by the rules of Unicode.
pub uninterp spec fn lowercase(s: Seq<char>) -> Seq<char>;

pub open spec fn is_ascii(s: Seq<char>) -> bool {
    forall|i: int| 0 <= i < s.len() ==> (#[trigger] s[i]) < '\u{80}'
}

/// Calls `str::to_lowercase`, whose result depends on the text alone. Of ASCII
/// text it lowers the letters and keeps the rest.
#[verifier::external_body]
fn lower_text(s: &str) -> (out: String)
    ensures
        out@ == lowercase(s@),
        is_ascii(s@) ==> out@ == ascii_lowered(s@),
{
    s.to_lowercase()
}

/// The lower-case form of `s`.
pub fn to_lowercase(s: &[char]) -> (out: Vec<char>)
    ensures
        out@ == lowercase(s@),
        is_ascii(s@) ==> out@ == ascii_lowered(s@),
{
    let text = string_of(s);
    let low = lower_text(text.as_str());
    chars_of(low.as_str())
}

/// Whether a character has the Unicode property `Alphabetic`.
pub uninterp spec fn alphabetic(c: char) -> bool;

/// Calls `char::is_alphabetic`, whose result depends on the character alone.
/// Of the ASCII characters it holds of the letters.
#[verifier::external_body]
pub(crate) fn is_alphabetic(c: char) -> (out: bool)
    ensures
        out == alphabetic(c),
        c <= '\u{7f}' ==> out == ('a' <= c <= 'z' || 'A' <= c <= 'Z'),
{
    c.is_alphabetic()
}

/// The part of `s` from `i` on.
pub fn from(s: &[char], i: usize) -> (out: &[char])
    requires
        i <= s@.len(),
    ensures
        out@ == s@.skip(i as int),
{
    slice_subrange(s, i, s.len())
}

/// The part of `s` before `i`.
pub fn upto(s: &[char], i: usize) -> (out: &[char])
    requires
        i <= s@.len(),
    ensures
        out@ == s@.take(i as int),
{
    slice_subrange(s, 0, i)
}

/// Whether `c` is white space.
pub fn space(c: char) -> (out: bool)
    ensures
        out == is_space(c),
{
    ('\t' <= c && c <= '\r') || c == ' ' || c == '\u{85}' || c == '\u{a0}' || c == '\u{1680}' || (
    '\u{2000}' <= c && c <= '\u{200a}') || c == '\u{2028}' || c == '\u{2029}' || c == '\u{202f}' || c
        == '\u{205f}' || c == '\u{3000}'
}

/// Whether `part` stands in `whole` at `i`.
fn found_at(whole: &[char], part: &[char], i: usize) -> (out: bool)
    requires
        i <= whole@.len(),
    ensures
        out == occurs_at(whole@, part@, i as int),
{
    if part.len() > whole.len() - i {
        return false;
    }
    let n: usize = whole.len();
    let mut k: usize = 0;
    while k < part.len()
        invariant
            n == whole@.len(),
            k <= part@.len(),
            i + part@.len() <= n,
            forall|j: int| 0 <= j < k ==> whole@[i + j] == part@[j],
        decreases part@.len() - k,
    {
        if whole[i + k] != part[k] {
            assert(whole@.subrange(i as int, i + part@.len())[k as int] != part@[k as int]);
            return false;
        }
        k = k + 1;
    }
    assert(whole@.subrange(i as int, i + part@.len()) =~= part@);
    true
}

/// The first place where `part` stands in `whole`.
fn find_part(whole: &[char], part: &[char]) -> (out: Option<usize>)
    ensures
        out is Some <==> contains(whole@, part@),
        out matches Some(i) ==> occurs_at(whole@, part@, i as int) && forall|j: int|
            0 <= j < i ==> !occurs_at(whole@, part@, j),
{
    if part.len() > whole.len() {
        return None;
    }
    let last: usize = whole.len() - part.len();
    let mut i: usize = 0;
    while i <= last
        invariant
            last == whole@.len() - part@.len(),
            i <= last + 1,
            forall|j: int| 0 <= j < i ==> !occurs_at(whole@, part@, j),
        decreases last + 1 - i,
    {
        if found_at(whole, part, i) {
            return Some(i);
        }
        if i == last {
            return None;
        }
        i = i + 1;
    }
    None
}

/// Whether `part` stands somewhere in `whole`.
pub fn has(whole: &[char], part: &str) -> (out: bool)
    ensures
        out == contains(whole@, part@),
{
    let part = chars_of(part);
    find_part(whole, part.as_slice()).is_some()
}

/// Whether `whole` starts with `part`.
pub fn begins(whole: &[char], part: &str) -> (out: bool)
    ensures
        out == starts_with(whole@, part@),
{
    let part = chars_of(part);
    found_at(whole, part.as_slice(), 0)
}

/// Whether `whole` ends with `part`.
pub fn closes(whole: &[char], part: &str) -> (out: bool)
    ensures
        out == ends_with(whole@, part@),
{
    let part = chars_of(part);
    if part.len() > whole.len() {
        return false;
    }
    found_at(whole, part.as_slice(), whole.len() - part.len())
}

/// Whether `whole` is `part`.
pub fn same(whole: &[char], part: &str) -> (out: bool)
    ensures
        out == (whole@ == part@),
{
    let part = chars_of(part);
    let out = part.len() == whole.len() && found_at(whole, part.as_slice(), 0);
    proof {
        if whole@.len() == part@.len() {
            assert(whole@.subrange(0, part@.len() as int) =~= whole@);
        }
    }
    out
}

/// What follows the prefix `part`.
pub fn strip_front<'a>(whole: &'a [char], part: &str) -> (out: Option<&'a [char]>)
    ensures
        opt_view(out) == after_prefix(whole@, part@),
{
    let part = chars_of(part);
    if found_at(whole, part.as_slice(), 0) {
        Some(from(whole, part.len()))
    } else {
        None
    }
}

/// What precedes the suffix `part`.
pub fn strip_back<'a>(whole: &'a [char], part: &str) -> (out: Option<&'a [char]>)
    ensures
        opt_view(out) == before_suffix(whole@, part@),
{
    let part = chars_of(part);
    if part.len() <= whole.len() && found_at(whole, part.as_slice(), whole.len() - part.len()) {
        Some(upto(whole, whole.len() - part.len()))
    } else {
        None
    }
}

/// Whether `c` is one of `set`.
fn member(set: &[char], c: char) -> (out: bool)
    ensures
        out == set@.contains(c),
{
    let mut i: usize = 0;
    while i < set.len()
        invariant
            i <= set@.len(),
            forall|j: int| 0 <= j < i ==> set@[j] != c,
        decreases set@.len() - i,
    {
        if set[i] == c {
            return true;
        }
        i = i + 1;
    }
    false
}

/// `s` without the characters of `set` (and spaces, if `spaces`) at its front.
pub fn trim_front<'a>(s: &'a [char], set: &str, spaces: bool) -> (out: &'a [char])
    ensures
        out@ == front_trimmed(s@, set@, spaces),
{
    let set = chars_of(set);
    let mut i: usize = 0;
    assert(s@.skip(0) =~= s@);
    while i < s.len() && (member(set.as_slice(), s[i]) || (spaces && space(s[i])))
        invariant
            i <= s@.len(),
            front_trimmed(s@.skip(i as int), set@, spaces) == front_trimmed(s@, set@, spaces),
        decreases s@.len() - i,
    {
        assert(s@.skip(i as int).skip(1) =~= s@.skip(i + 1));
        i = i + 1;
    }
    from(s, i)
}

/// `s` without the characters of `set` (and spaces, if `spaces`) at its back.
pub fn trim_back<'a>(s: &'a [char], set: &str, spaces: bool) -> (out: &'a [char])
    ensures
        out@ == back_trimmed(s@, set@, spaces),
{
    let set = chars_of(set);
    let mut i: usize = s.len();
    assert(s@.take(i as int) =~= s@);
    while i > 0 && (member(set.as_slice(), s[i - 1]) || (spaces && space(s[i - 1])))
        invariant
            i <= s@.len(),
            back_trimmed(s@.take(i as int), set@, spaces) == back_trimmed(s@, set@, spaces),
        decreases i,
    {
        assert(s@.take(i as int).drop_last() =~= s@.take(i - 1));
        i = i - 1;
    }
    upto(s, i)
}

/// `s` without the spaces around it.
pub fn trim(s: &[char]) -> (out: &[char])
    ensures
        out@ == trimmed(s@),
{
    proof {
        reveal_strlit("");
        assert(""@ =~= Seq::empty());
    }
    trim_back(trim_front(s, "", true), "", true)
}

/// Whether there is nothing but spaces in `s`.
pub fn is_blank(s: &[char]) -> (out: bool)
    ensures
        out == blank(s@),
{
    let mut i: usize = 0;
    while i < s.len()
        invariant
            i <= s@.len(),
            forall|j: int| 0 <= j < i ==> is_space(#[trigger] s@[j]),
        decreases s@.len() - i,
    {
        if !space(s[i]) {
            return false;
        }
        i = i + 1;
    }
    true
}

/// `s` without the copies of `part` at its back.
pub fn trim_suffixes<'a>(s: &'a [char], part: &str) -> (out: &'a [char])
    ensures
        out@ == without_suffixes(s@, part@),
{
    let part = chars_of(part);
    let mut i: usize = s.len();
    assert(s@.take(i as int) =~= s@);
    while part.len() > 0 && part.len() <= i && found_at(upto(s, i), part.as_slice(), i - part.len())
        invariant
            i <= s@.len(),
            without_suffixes(s@.take(i as int), part@) == without_suffixes(s@, part@),
        decreases i,
    {
        assert(s@.take(i as int).take(i - part@.len()) =~= s@.take(i - part@.len()));
        i = i - part.len();
    }
    upto(s, i)
}

/// The position of the first `c` at or after `start` (the length, if there is none).
pub fn find_char(s: &[char], start: usize, c: char) -> (k: usize)
    requires
        start <= s@.len(),
    ensures
        start <= k <= s@.len(),
        index_of(s@.skip(start as int), c) == k - start,
{
    let mut k: usize = start;
    while k < s.len() && s[k] != c
        invariant
            start <= k <= s@.len(),
            index_of(s@.skip(start as int), c) == k - start + index_of(s@.skip(k as int), c),
        decreases s@.len() - k,
    {
        assert(s@.skip(k as int).skip(1) =~= s@.skip(k + 1));
        k = k + 1;
    }
    k
}

/// Cuts `s` at each `c`.
pub fn split_on(s: &[char], c: char) -> (out: Vec<&[char]>)
    ensures
        views(out@) == pieces(s@, c),
{
    let mut out: Vec<&[char]> = Vec::new();
    let mut start: usize = 0;
    assert(s@.skip(0) =~= s@);
    assert(views(out@) + pieces(s@, c) =~= pieces(s@, c));
    loop
        invariant
            start <= s@.len(),
            views(out@) + pieces(s@.skip(start as int), c) == pieces(s@, c),
        decreases s@.len() - start,
    {
        let k: usize = find_char(s, start, c);
        let ghost before = views(out@);
        let ghost rest = s@.skip(start as int);
        let piece = slice_subrange(s, start, k);
        out.push(piece);
        assert(views(out@) =~= before.push(piece@));
        if k == s.len() {
            assert(piece@ =~= rest);
            assert(views(out@) =~= before + seq![rest]);
            return out;
        }
        assert(piece@ =~= rest.take(k - start));
        assert(rest.skip(k - start + 1) =~= s@.skip(k + 1));
        assert(before + (seq![piece@] + pieces(s@.skip(k + 1), c)) =~= before.push(piece@) + pieces(
            s@.skip(k + 1),
            c,
        ));
        start = k + 1;
    }
}

/// The lines of `s`, without their endings.
pub fn split_lines(s: &[char]) -> (out: Vec<&[char]>)
    ensures
        views(out@) == lines(s@),
{
    let mut out: Vec<&[char]> = Vec::new();
    let mut start: usize = 0;
    assert(s@.skip(0) =~= s@);
    assert(views(out@) + lines(s@) =~= lines(s@));
    while start < s.len()
        invariant
            start <= s@.len(),
            views(out@) + lines(s@.skip(start as int)) == lines(s@),
        decreases s@.len() - start,
    {
        let k: usize = find_char(s, start, '\n');
        let ghost before = views(out@);
        let ghost rest = s@.skip(start as int);
        if k == s.len() {
            let piece = slice_subrange(s, start, k);
            out.push(piece);
            assert(piece@ =~= rest);
            assert(views(out@) =~= before + seq![rest]);
            return out;
        }
        let mut end: usize = k;
        if end > start && s[end - 1] == '\r' {
            end = end - 1;
        }
        let piece = slice_subrange(s, start, end);
        out.push(piece);
        assert(piece@ =~= without_return(rest.take(k - start)));
        assert(rest.skip(k - start + 1) =~= s@.skip(k + 1));
        assert(views(out@) =~= before.push(piece@));
        assert(before + (seq![piece@] + lines(s@.skip(k + 1))) =~= before.push(piece@) + lines(
            s@.skip(k + 1),
        ));
        start = k + 1;
    }
    assert(s@.skip(start as int) =~= Seq::empty());
    assert(views(out@) + Seq::<Seq<char>>::empty() =~= views(out@));
    out
}

/// The lines of `s`, each with its `\n`.
pub fn split_whole_lines(s: &[char]) -> (out: Vec<&[char]>)
    ensures
        views(out@) == whole_lines(s@),
{
    let mut out: Vec<&[char]> = Vec::new();
    let mut start: usize = 0;
    assert(s@.skip(0) =~= s@);
    assert(views(out@) + whole_lines(s@) =~= whole_lines(s@));
    while start < s.len()
        invariant
            start <= s@.len(),
            views(out@) + whole_lines(s@.skip(start as int)) == whole_lines(s@),
        decreases s@.len() - start,
    {
        let k: usize = find_char(s, start, '\n');
        let ghost before = views(out@);
        let ghost rest = s@.skip(start as int);
        if k == s.len() {
            let piece = slice_subrange(s, start, k);
            out.push(piece);
            assert(piece@ =~= rest);
            assert(views(out@) =~= before + seq![rest]);
            return out;
        }
        let piece = slice_subrange(s, start, k + 1);
        out.push(piece);
        assert(piece@ =~= rest.take(k - start + 1));
        assert(rest.skip(k - start + 1) =~= s@.skip(k + 1));
        assert(views(out@) =~= before.push(piece@));
        assert(before + (seq![piece@] + whole_lines(s@.skip(k + 1))) =~= before.push(piece@)
            + whole_lines(s@.skip(k + 1)));
        start = k + 1;
    }
    assert(s@.skip(start as int) =~= Seq::empty());
    assert(views(out@) + Seq::<Seq<char>>::empty() =~= views(out@));
    out
}

/// The words of `s`.
pub fn split_words(s: &[char]) -> (out: Vec<&[char]>)
    ensures
        views(out@) == words(s@),
{
    let mut out: Vec<&[char]> = Vec::new();
    let mut start: usize = 0;
    assert(s@.skip(0) =~= s@);
    assert(views(out@) + words(s@) =~= words(s@));
    while start < s.len()
        invariant
            start <= s@.len(),
            views(out@) + words(s@.skip(start as int)) == words(s@),
        decreases s@.len() - start,
    {
        let ghost rest = s@.skip(start as int);
        if space(s[start]) {
            assert(rest.skip(1) =~= s@.skip(start + 1));
            start = start + 1;
        } else {
            let mut k: usize = start + 1;
            assert(rest.skip(1) =~= s@.skip(start + 1));
            while k < s.len() && !space(s[k])
                invariant
                    start < k <= s@.len(),
                    word_len(s@.skip(start + 1)) == k - start - 1 + word_len(s@.skip(k as int)),
                decreases s@.len() - k,
            {
                assert(s@.skip(k as int).skip(1) =~= s@.skip(k + 1));
                k = k + 1;
            }
            let ghost before = views(out@);
            let piece = slice_subrange(s, start, k);
            out.push(piece);
            assert(views(out@) =~= before.push(piece@));
            if k == s.len() {
                assert(piece@ =~= rest);
                assert(views(out@) =~= before + seq![rest]);
                return out;
            }
            assert(piece@ =~= rest.take(k - start));
            assert(rest.skip(k - start) =~= s@.skip(k as int));
            assert(before + (seq![piece@] + words(s@.skip(k as int))) =~= before.push(piece@)
                + words(s@.skip(k as int)));
            start = k;
        }
    }
    assert(s@.skip(start as int) =~= Seq::empty());
    assert(views(out@) + Seq::<Seq<char>>::empty() =~= views(out@));
    out
}

/// `s` without any `c`.
pub fn drop_char(s: &[char], c: char) -> (out: Vec<char>)
    ensures
        out@ == without(s@, c),
{
    let mut out: Vec<char> = Vec::new();
    let mut i: usize = 0;
    while i < s.len()
        invariant
            i <= s@.len(),
            out@ == without(s@.take(i as int), c),
        decreases s@.len() - i,
    {
        assert(s@.take(i + 1).drop_last() =~= s@.take(i as int));
        if s[i] != c {
            out.push(s[i]);
        }
        i = i + 1;
    }
    assert(s@.take(i as int) =~= s@);
    out
}

/// `s` with each character of `set` replaced by `to`.
pub fn replace_chars(s: &[char], set: &str, to: char) -> (out: Vec<char>)
    ensures
        out@ == replaced(s@, set@, to),
{
    let set = chars_of(set);
    let mut out: Vec<char> = Vec::new();
    let mut i: usize = 0;
    while i < s.len()
        invariant
            i <= s@.len(),
            out@ == replaced(s@, set@, to).take(i as int),
        decreases s@.len() - i,
    {
        let c = if member(set.as_slice(), s[i]) {
            to
        } else {
            s[i]
        };
        out.push(c);
        assert(replaced(s@, set@, to).take(i + 1) =~= replaced(s@, set@, to).take(i as int).push(c));
        i = i + 1;
    }
    assert(replaced(s@, set@, to).take(i as int) =~= replaced(s@, set@, to));
    out
}

/// `s` read from the left, each `cc` replaced by one `c`.
pub fn merge_pairs(s: &[char], c: char) -> (out: Vec<char>)
    ensures
        out@ == pairs_merged(s@, c),
{
    let mut out: Vec<char> = Vec::new();
    let mut i: usize = 0;
    assert(s@.skip(0) =~= s@);
    assert(out@ + pairs_merged(s@, c) =~= pairs_merged(s@, c));
    while i < s.len()
        invariant
            i <= s@.len(),
            out@ + pairs_merged(s@.skip(i as int), c) == pairs_merged(s@, c),
        decreases s@.len() - i,
    {
        let ghost before = out@;
        let ghost rest = s@.skip(i as int);
        out.push(s[i]);
        if i + 1 < s.len() && s[i] == c && s[i + 1] == c {
            assert(rest.skip(2) =~= s@.skip(i + 2));
            assert(before + (seq![c] + pairs_merged(s@.skip(i + 2), c)) =~= out@ + pairs_merged(
                s@.skip(i + 2),
                c,
            ));
            i = i + 2;
        } else {
            assert(rest.skip(1) =~= s@.skip(i + 1));
            assert(before + (seq![rest[0]] + pairs_merged(s@.skip(i + 1), c)) =~= out@
                + pairs_merged(s@.skip(i + 1), c));
            i = i + 1;
        }
    }
    assert(s@.skip(i as int) =~= Seq::empty());
    assert(out@ + Seq::<char>::empty() =~= out@);
    out
}

/// The lower-case form of an ASCII letter; other characters stay.
fn lower_char(c: char) -> (out: char)
    ensures
        out == ascii_lower(c),
{
    if 'A' <= c && c <= 'Z' {
        ((c as u8) + 32) as char
    } else {
        c
    }
}

/// `s` with its ASCII letters in lower case.
pub fn lower(s: &[char]) -> (out: Vec<char>)
    ensures
        out@ == ascii_lowered(s@),
{
    let mut out: Vec<char> = Vec::new();
    let mut i: usize = 0;
    while i < s.len()
        invariant
            i <= s@.len(),
            out@ == ascii_lowered(s@).take(i as int),
        decreases s@.len() - i,
    {
        let c = lower_char(s[i]);
        out.push(c);
        assert(ascii_lowered(s@).take(i + 1) =~= ascii_lowered(s@).take(i as int).push(c));
        i = i + 1;
    }
    assert(ascii_lowered(s@).take(i as int) =~= ascii_lowered(s@));
    out
}

/// A copy of the characters of `s`, with those of `more` behind them.
pub fn join(s: &[char], more: &str) -> (out: Vec<char>)
    ensures
        out@ == s@ + more@,
{
    let mut out = slice_to_vec(s);
    append(&mut out, more);
    out
}

/// Puts the characters of a slice behind those of `out`.
pub fn extend(out: &mut Vec<char>, more: &[char])
    ensures
        final(out)@ == old(out)@ + more@,
{
    let ghost before = out@;
    let mut i: usize = 0;
    assert(before + more@.take(0) =~= before);
    while i < more.len()
        invariant
            i <= more@.len(),
            out@ == before + more@.take(i as int),
        decreases more@.len() - i,
    {
        out.push(more[i]);
        assert(more@.take(i + 1) =~= more@.take(i as int).push(more@[i as int]));
        i = i + 1;
    }
    assert(more@.take(i as int) =~= more@);
}

/// Puts the characters of a string behind those of `out`.
pub fn append(out: &mut Vec<char>, more: &str)
    ensures
        final(out)@ == old(out)@ + more@,
{
    let more = chars_of(more);
    extend(out, more.as_slice());
}

} // verus!
