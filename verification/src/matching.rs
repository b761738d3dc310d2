//! Searching text with regular expressions.
//!
//! The `regex` crate does the searching. What it finds is named by spec
//! functions of the pattern and the text; what the library makes of the
//! findings is stated over those names.

use crate::chars;
use crate::numbers;
use crate::quantity;
use crate::quantity::{Real, RealView, Unit};
use vstd::prelude::*;

verus! {

/// The groups of the first match of a pattern in a text: group 0 is the whole
/// match, and a group that took no part is `None`. Nothing, where the pattern
/// does not match or is no regular expression.
pub uninterp spec fn regex_captures(pattern: Seq<char>, text: Seq<char>) -> Option<
    Seq<Option<Seq<char>>>,
>;

/// The groups of each match of a pattern in a text, in the order of the
/// matches, which do not overlap.
pub uninterp spec fn regex_captures_iter(pattern: Seq<char>, text: Seq<char>) -> Seq<
    Seq<Option<Seq<char>>>,
>;

/// The first match of a pattern in a text, and the text behind it.
pub uninterp spec fn regex_find(pattern: Seq<char>, text: Seq<char>) -> Option<
    (Seq<char>, Seq<char>),
>;

/// The groups of a match.
pub type Groups = Seq<Option<Seq<char>>>;

/// The groups of one match.
#[derive(Debug, PartialEq)]
pub struct Captures {
    pub groups: Vec<Option<String>>,
}

impl View for Captures {
    type V = Seq<Option<Seq<char>>>;

    open spec fn view(&self) -> Seq<Option<Seq<char>>> {
        Seq::new(self.groups@.len(), |i: int| chars::opt_text(self.groups@[i]))
    }
}

pub open spec fn opt_groups(o: Option<Captures>) -> Option<Groups> {
    match o {
        Some(c) => Some(c@),
        None => None,
    }
}

pub open spec fn all_groups(v: Seq<Captures>) -> Seq<Groups> {
    Seq::new(v.len(), |i: int| v[i]@)
}

/// Calls `Regex::captures` of the `regex` crate on the pattern compiled by
/// `Regex::new`: the groups of the first match, each as its text. What the
/// match is, is left to the crate; a pattern that does not compile finds nothing.
#[verifier::external_body]
pub(crate) fn captures(pattern: &str, text: &str) -> (out: Option<Captures>)
    ensures
        opt_groups(out) == regex_captures(pattern@, text@),
{
    let found = regex::Regex::new(pattern).ok()?.captures(text)?;
    let groups = found.iter().map(|g| g.map(|m| m.as_str().to_string())).collect();
    Some(Captures { groups })
}

/// Calls `Regex::captures_iter` of the `regex` crate on the pattern compiled
/// by `Regex::new`: the groups of every match, in order, each as its text.
/// What the matches are, is left to the crate; a pattern that does not
/// compile finds nothing.
#[verifier::external_body]
pub(crate) fn captures_iter(pattern: &str, text: &str) -> (out: Vec<Captures>)
    ensures
        all_groups(out@) == regex_captures_iter(pattern@, text@),
{
    let Ok(re) = regex::Regex::new(pattern) else {
        return Vec::new();
    };
    re.captures_iter(text)
        .map(|c| Captures {
            groups: c.iter().map(|g| g.map(|m| m.as_str().to_string())).collect(),
        })
        .collect()
}

/// Calls `Regex::find` of the `regex` crate on the pattern compiled by
/// `Regex::new`: the text of the first match, and the text from its end on.
/// Where the match lies, is left to the crate; a pattern that does not
/// compile finds nothing.
#[verifier::external_body]
pub(crate) fn find(pattern: &str, text: &str) -> (out: Option<(String, String)>)
    ensures
        (match out {
            Some(p) => Some((p.0@, p.1@)),
            None => None,
        }) == regex_find(pattern@, text@),
{
    let m = regex::Regex::new(pattern).ok()?.find(text)?;
    Some((m.as_str().to_string(), text[m.end()..].to_string()))
}

/// The characters that mean something in a regular expression.
pub open spec fn is_meta(c: char) -> bool {
    c == '\\' || c == '.' || c == '+' || c == '*' || c == '?' || c == '(' || c == ')' || c == '|'
        || c == '[' || c == ']' || c == '{' || c == '}' || c == '^' || c == '$' || c == '#' || c
        == '&' || c == '-' || c == '~'
}

/// `s` with a backslash before each character that means something in a
/// regular expression.
pub open spec fn escaped(s: Seq<char>) -> Seq<char>
    decreases s.len(),
{
    if s.len() == 0 {
        s
    } else if is_meta(s.last()) {
        escaped(s.drop_last()).push('\\').push(s.last())
    } else {
        escaped(s.drop_last()).push(s.last())
    }
}

/// Calls `regex::escape`, which puts a backslash before each meta character
/// of the text and leaves the rest as it is.
#[verifier::external_body]
pub(crate) fn escape(text: &str) -> (out: String)
    ensures
        out@ == escaped(text@),
{
    regex::escape(text)
}

/// The text of group `i`, if that group took part.
pub open spec fn group(m: Groups, i: int) -> Option<Seq<char>> {
    if 0 <= i < m.len() {
        m[i]
    } else {
        None
    }
}

/// The text of group `i`, empty if that group took no part.
pub open spec fn part(m: Groups, i: int) -> Seq<char> {
    match group(m, i) {
        Some(s) => s,
        None => Seq::empty(),
    }
}

/// The text of group `i` of what was found.
pub open spec fn text_at(m: Option<Groups>, i: int) -> Option<Seq<char>> {
    match m {
        Some(g) => group(g, i),
        None => None,
    }
}

/// The text of group `i`, without the spaces around it.
pub open spec fn trimmed_at(m: Option<Groups>, i: int) -> Option<Seq<char>> {
    match text_at(m, i) {
        Some(s) => Some(chars::trimmed(s)),
        None => None,
    }
}

/// The number that group `i` writes.
pub open spec fn u64_at(m: Option<Groups>, i: int) -> Option<u64> {
    match text_at(m, i) {
        Some(s) => numbers::u64_of(s),
        None => None,
    }
}

pub open spec fn u32_at(m: Option<Groups>, i: int) -> Option<u32> {
    match text_at(m, i) {
        Some(s) => numbers::u32_of(s),
        None => None,
    }
}

/// The number that group `i` writes, commas aside.
pub open spec fn count_at(m: Option<Groups>, i: int) -> Option<u64> {
    match text_at(m, i) {
        Some(s) => numbers::u64_of(chars::without(s, ',')),
        None => None,
    }
}

/// The real number that group `i` writes.
pub open spec fn real_at(m: Option<Groups>, i: int) -> Option<RealView> {
    match text_at(m, i) {
        Some(s) => quantity::real_of(s),
        None => None,
    }
}

/// The real number that group `i` writes between spaces.
pub open spec fn spaced_real_at(m: Option<Groups>, i: int) -> Option<RealView> {
    match trimmed_at(m, i) {
        Some(s) => quantity::real_of(s),
        None => None,
    }
}

/// The number that group `i` writes between spaces, commas aside.
pub open spec fn spaced_count_at(m: Option<Groups>, i: int) -> Option<u64> {
    match trimmed_at(m, i) {
        Some(s) => numbers::u64_of(chars::without(s, ',')),
        None => None,
    }
}

/// The real number that group `i` writes in percent.
pub open spec fn percent_at(m: Option<Groups>, i: int) -> Option<RealView> {
    match text_at(m, i) {
        Some(s) => quantity::real_in(s, Unit::Percent),
        None => None,
    }
}

impl Captures {
    /// The text of group `i`, if that group took part.
    pub fn group(&self, i: usize) -> (out: Option<String>)
        ensures
            chars::opt_text(out) == group(self@, i as int),
    {
        if i < self.groups.len() {
            match &self.groups[i] {
                Some(s) => Some(s.clone()),
                None => None,
            }
        } else {
            None
        }
    }

    /// The characters of group `i`, none if that group took no part.
    pub fn part(&self, i: usize) -> (out: Vec<char>)
        ensures
            out@ == part(self@, i as int),
    {
        if i < self.groups.len() {
            match &self.groups[i] {
                Some(s) => chars::chars_of(s.as_str()),
                None => Vec::new(),
            }
        } else {
            Vec::new()
        }
    }
}

/// The characters of group `i` of what was found.
pub fn found(m: &Option<Captures>, i: usize) -> (out: Option<Vec<char>>)
    ensures
        (match out {
            Some(v) => Some(v@),
            None => None,
        }) == text_at(opt_groups(*m), i as int),
{
    match m {
        Some(c) => match c.group(i) {
            Some(s) => Some(chars::chars_of(s.as_str())),
            None => None,
        },
        None => None,
    }
}

pub fn found_text(m: &Option<Captures>, i: usize) -> (out: Option<String>)
    ensures
        chars::opt_text(out) == text_at(opt_groups(*m), i as int),
{
    match m {
        Some(c) => c.group(i),
        None => None,
    }
}

pub fn found_trimmed(m: &Option<Captures>, i: usize) -> (out: Option<String>)
    ensures
        chars::opt_text(out) == trimmed_at(opt_groups(*m), i as int),
{
    match found(m, i) {
        Some(s) => Some(chars::string_of(chars::trim(s.as_slice()))),
        None => None,
    }
}

pub fn found_u64(m: &Option<Captures>, i: usize) -> (out: Option<u64>)
    ensures
        out == u64_at(opt_groups(*m), i as int),
{
    match found(m, i) {
        Some(s) => numbers::read_u64(s.as_slice()),
        None => None,
    }
}

pub fn found_u32(m: &Option<Captures>, i: usize) -> (out: Option<u32>)
    ensures
        out == u32_at(opt_groups(*m), i as int),
{
    match found(m, i) {
        Some(s) => numbers::read_u32(s.as_slice()),
        None => None,
    }
}

pub fn found_count(m: &Option<Captures>, i: usize) -> (out: Option<u64>)
    ensures
        out == count_at(opt_groups(*m), i as int),
{
    match found(m, i) {
        Some(s) => {
            let digits = chars::drop_char(s.as_slice(), ',');
            numbers::read_u64(digits.as_slice())
        },
        None => None,
    }
}

pub fn found_real(m: &Option<Captures>, i: usize) -> (out: Option<Real>)
    ensures
        quantity::opt_real(out) == real_at(opt_groups(*m), i as int),
{
    match found(m, i) {
        Some(s) => Real::read(s.as_slice()),
        None => None,
    }
}

pub fn found_spaced_real(m: &Option<Captures>, i: usize) -> (out: Option<Real>)
    ensures
        quantity::opt_real(out) == spaced_real_at(opt_groups(*m), i as int),
{
    match found(m, i) {
        Some(s) => Real::read(chars::trim(s.as_slice())),
        None => None,
    }
}

pub fn found_spaced_count(m: &Option<Captures>, i: usize) -> (out: Option<u64>)
    ensures
        out == spaced_count_at(opt_groups(*m), i as int),
{
    match found(m, i) {
        Some(s) => {
            let digits = chars::drop_char(chars::trim(s.as_slice()), ',');
            numbers::read_u64(digits.as_slice())
        },
        None => None,
    }
}

pub fn found_percent(m: &Option<Captures>, i: usize) -> (out: Option<Real>)
    ensures
        quantity::opt_real(out) == percent_at(opt_groups(*m), i as int),
{
    match found(m, i) {
        Some(s) => Real::read_in(s.as_slice(), Unit::Percent),
        None => None,
    }
}

/// The matches of a pattern in those lines in which it matches.
pub open spec fn line_matches(pattern: Seq<char>, lines: Seq<Seq<char>>) -> Seq<Groups>
    decreases lines.len(),
{
    if lines.len() == 0 {
        Seq::empty()
    } else {
        let before = line_matches(pattern, lines.drop_last());
        match regex_captures(pattern, lines.last()) {
            Some(g) => before.push(g),
            None => before,
        }
    }
}

pub proof fn lemma_all_groups_push(v: Seq<Captures>, c: Captures)
    ensures
        all_groups(v.push(c)) == all_groups(v).push(c@),
{
    assert(all_groups(v.push(c)) =~= all_groups(v).push(c@));
}

/// Searches each of the lines.
pub fn match_lines(pattern: &str, lines: &Vec<&[char]>) -> (out: Vec<Captures>)
    ensures
        all_groups(out@) == line_matches(pattern@, chars::views(lines@)),
{
    let mut out: Vec<Captures> = Vec::new();
    let mut i: usize = 0;
    let ghost all = chars::views(lines@);
    assert(all_groups(out@) =~= Seq::empty());
    while i < lines.len()
        invariant
            i <= lines@.len(),
            all == chars::views(lines@),
            all_groups(out@) == line_matches(pattern@, all.take(i as int)),
        decreases lines@.len() - i,
    {
        let line = chars::string_of(lines[i]);
        assert(all.take(i + 1).drop_last() =~= all.take(i as int));
        assert(all.take(i + 1).last() == line@);
        match captures(pattern, line.as_str()) {
            Some(c) => {
                proof {
                    lemma_all_groups_push(out@, c);
                }
                out.push(c);
            },
            None => {},
        }
        i = i + 1;
    }
    assert(all.take(i as int) =~= all);
    out
}

/// How far a line has to be indented to belong to a block.
#[derive(Clone, Copy, PartialEq, Eq, Structural)]
pub enum Margin {
    /// Not at all.
    Free,
    /// It starts with a space of any kind.
    Space,
    /// It starts with two blanks.
    TwoBlanks,
}

/// Whether a line with something in it stands too far left for its block.
pub open spec fn outside(line: Seq<char>, margin: Margin) -> bool {
    match margin {
        Margin::Free => false,
        Margin::Space => line.len() > 0 && !chars::is_space(line[0]),
        Margin::TwoBlanks => !chars::starts_with(line, "  "@),
    }
}

/// The lines of a block: it ends before the first line that stands outside,
/// and, if `blank_ends`, before the first blank line. Blank lines are no part of it.
pub open spec fn block_lines(lines: Seq<Seq<char>>, blank_ends: bool, margin: Margin) -> Seq<
    Seq<char>,
>
    decreases lines.len(),
{
    if lines.len() == 0 {
        Seq::empty()
    } else if chars::blank(lines[0]) {
        if blank_ends {
            Seq::empty()
        } else {
            block_lines(lines.skip(1), blank_ends, margin)
        }
    } else if outside(lines[0], margin) {
        Seq::empty()
    } else {
        seq![lines[0]] + block_lines(lines.skip(1), blank_ends, margin)
    }
}

/// The first `n` of the items, or all of them if there are fewer.
pub open spec fn at_most<T>(s: Seq<T>, n: int) -> Seq<T> {
    if s.len() <= n {
        s
    } else {
        s.take(n)
    }
}

/// The items behind the first one.
pub open spec fn behind_first<T>(s: Seq<T>) -> Seq<T> {
    if s.len() == 0 {
        s
    } else {
        s.skip(1)
    }
}

/// The block behind a header: the lines that follow the line on which the
/// header ends, at most `limit` of them.
pub open spec fn block(rest: Seq<char>, limit: int, blank_ends: bool, margin: Margin) -> Seq<
    Seq<char>,
> {
    block_lines(at_most(behind_first(chars::lines(rest)), limit), blank_ends, margin)
}

/// Reads the block behind a header.
pub fn read_block<'a>(rest: &'a [char], limit: usize, blank_ends: bool, margin: Margin) -> (out:
    Vec<&'a [char]>)
    ensures
        chars::views(out@) == block(rest@, limit as int, blank_ends, margin),
{
    let all = chars::split_lines(rest);
    let ghost whole = chars::lines(rest@);
    let ghost kept = at_most(behind_first(whole), limit as int);
    let mut out: Vec<&[char]> = Vec::new();
    let mut taken: usize = 0;
    assert(chars::views(all@).len() == all@.len());
    assert(kept.skip(0) =~= kept);
    assert(chars::views(out@) + block_lines(kept, blank_ends, margin) =~= block_lines(
        kept,
        blank_ends,
        margin,
    ));
    while taken < limit && 1 + taken < all.len()
        invariant
            taken <= limit,
            taken <= kept.len(),
            chars::views(all@) == whole,
            whole == chars::lines(rest@),
            all@.len() == whole.len(),
            kept == at_most(behind_first(whole), limit as int),
            chars::views(out@) + block_lines(kept.skip(taken as int), blank_ends, margin)
                == block_lines(kept, blank_ends, margin),
        decreases limit - taken,
    {
        let line = all[1 + taken];
        let ghost rest_lines = kept.skip(taken as int);
        assert(line@ == whole[1 + taken]);
        assert(rest_lines[0] == line@);
        assert(rest_lines.skip(1) =~= kept.skip(taken + 1));
        if chars::is_blank(line) {
            if blank_ends {
                assert(chars::views(out@) + Seq::<Seq<char>>::empty() =~= chars::views(out@));
                return out;
            }
        } else {
            let far_left = match margin {
                Margin::Free => false,
                Margin::Space => line.len() > 0 && !chars::space(line[0]),
                Margin::TwoBlanks => !chars::begins(line, "  "),
            };
            if far_left {
                assert(chars::views(out@) + Seq::<Seq<char>>::empty() =~= chars::views(out@));
                return out;
            }
            let ghost before = chars::views(out@);
            out.push(line);
            assert(chars::views(out@) =~= before.push(line@));
            let ghost more = block_lines(kept.skip(taken + 1), blank_ends, margin);
            assert(before + (seq![line@] + more) =~= before.push(line@) + more);
        }
        taken = taken + 1;
    }
    assert(kept.skip(taken as int) =~= Seq::empty());
    assert(chars::views(out@) + Seq::<Seq<char>>::empty() =~= chars::views(out@));
    out
}

/// The matches of a row pattern in the lines of the block behind the header.
pub open spec fn block_rows(
    header: Seq<char>,
    row: Seq<char>,
    limit: int,
    blank_ends: bool,
    margin: Margin,
    text: Seq<char>,
) -> Seq<Groups> {
    match regex_find(header, text) {
        Some(hit) => line_matches(row, block(hit.1, limit, blank_ends, margin)),
        None => Seq::empty(),
    }
}

/// Finds the header, reads the block behind it and searches its lines.
pub fn match_block(
    header: &str,
    row: &str,
    limit: usize,
    blank_ends: bool,
    margin: Margin,
    text: &str,
) -> (out: Vec<Captures>)
    ensures
        all_groups(out@) == block_rows(
            header@,
            row@,
            limit as int,
            blank_ends,
            margin,
            text@,
        ),
{
    match find(header, text) {
        Some(hit) => {
            let rest = chars::chars_of(hit.1.as_str());
            let lines = read_block(rest.as_slice(), limit, blank_ends, margin);
            match_lines(row, &lines)
        },
        None => {
            let out: Vec<Captures> = Vec::new();
            assert(all_groups(out@) =~= Seq::empty());
            out
        },
    }
}

/// The first `n` lines of a text.
pub fn first_lines(text: &[char], n: usize) -> (out: Vec<&[char]>)
    ensures
        chars::views(out@) == at_most(chars::lines(text@), n as int),
{
    let mut out = chars::split_lines(text);
    let ghost all = chars::lines(text@);
    assert(chars::views(out@).len() == out@.len());
    if out.len() > n {
        out.truncate(n);
        assert(chars::views(out@) =~= all.take(n as int));
    }
    out
}

} // verus!
