//! The bytes of a log file as text, and logs of several runs in one text.

use crate::chars;
use vstd::prelude::*;
use vstd::utf8;

verus! {

/// Why the bytes of a file are no text.
#[derive(Debug, PartialEq, Eq)]
pub enum DecodeError {
    /// The bytes are no gzip data; holds what the decompressor says of them.
    Gzip(String),
    /// The bytes, decompressed where they have to be, are not UTF-8.
    NotUtf8,
}

pub enum DecodeErrorView {
    Gzip(Seq<char>),
    NotUtf8,
}

impl View for DecodeError {
    type V = DecodeErrorView;

    open spec fn view(&self) -> DecodeErrorView {
        match *self {
            DecodeError::Gzip(m) => DecodeErrorView::Gzip(m@),
            DecodeError::NotUtf8 => DecodeErrorView::NotUtf8,
        }
    }
}

impl DecodeError {
    /// The error in words.
    pub fn message(&self) -> (out: String)
        ensures
            out@ == (match self@ {
                DecodeErrorView::Gzip(m) => m,
                DecodeErrorView::NotUtf8 => "stream did not contain valid UTF-8"@,
            }),
    {
        match self {
            DecodeError::Gzip(m) => m.clone(),
            DecodeError::NotUtf8 => "stream did not contain valid UTF-8".to_owned(),
        }
    }
}

/// What the first member of gzip data holds; else what is wrong with the data,
/// in words.
pub uninterp spec fn gunzipped(bytes: Seq<u8>) -> Result<Seq<u8>, Seq<char>>;

/// Reads a `GzDecoder` of the `flate2` crate over the bytes to its end: the
/// decompressed bytes of the first gzip member, or the message of the error.
/// Both depend on the bytes alone. What they are, is left to the crate.
#[verifier::external_body]
pub(crate) fn gunzip(bytes: &[u8]) -> (out: Result<Vec<u8>, String>)
    ensures
        (match out {
            Ok(plain) => Ok(plain@),
            Err(message) => Err(message@),
        }) == gunzipped(bytes@),
{
    let mut plain = Vec::new();
    match std::io::Read::read_to_end(&mut flate2::read::GzDecoder::new(bytes), &mut plain) {
        Ok(_) => Ok(plain),
        Err(e) => Err(e.to_string()),
    }
}

/// Calls `String::from_utf8`, which takes the bytes as a text where they are
/// valid UTF-8 and refuses them otherwise.
#[verifier::external_body]
pub(crate) fn from_utf8(bytes: Vec<u8>) -> (out: Option<String>)
    ensures
        chars::opt_text(out) == utf8_text(bytes@),
{
    String::from_utf8(bytes).ok()
}

/// The text that bytes spell in UTF-8, if they do.
pub open spec fn utf8_text(bytes: Seq<u8>) -> Option<Seq<char>> {
    if utf8::valid_utf8(bytes) {
        Some(utf8::decode_utf8(bytes))
    } else {
        None
    }
}

/// The text that plain bytes hold.
pub open spec fn plain_text(bytes: Seq<u8>) -> Result<Seq<char>, DecodeErrorView> {
    match utf8_text(bytes) {
        Some(t) => Ok(t),
        None => Err(DecodeErrorView::NotUtf8),
    }
}

/// The text that gzip data hold, where `unzipped` is what gzip makes of them.
pub open spec fn unzipped_text(unzipped: Result<Seq<u8>, Seq<char>>) -> Result<
    Seq<char>,
    DecodeErrorView,
> {
    match unzipped {
        Ok(plain) => plain_text(plain),
        Err(message) => Err(DecodeErrorView::Gzip(message)),
    }
}

/// The text in a file with this extension and these bytes, where `unzipped` is
/// what gzip makes of the bytes. Only the extension `gz`, in lower case, says
/// that the file is compressed.
pub open spec fn text_in(
    extension: Option<Seq<char>>,
    bytes: Seq<u8>,
    unzipped: Result<Seq<u8>, Seq<char>>,
) -> Result<Seq<char>, DecodeErrorView> {
    if extension == Some("gz"@) {
        unzipped_text(unzipped)
    } else {
        plain_text(bytes)
    }
}

pub open spec fn decoded(out: Result<String, DecodeError>) -> Result<Seq<char>, DecodeErrorView> {
    match out {
        Ok(t) => Ok(t@),
        Err(e) => Err(e@),
    }
}

/// Takes plain bytes as a text.
pub fn read_plain(bytes: Vec<u8>) -> (out: Result<String, DecodeError>)
    ensures
        decoded(out) == plain_text(bytes@),
{
    match from_utf8(bytes) {
        Some(t) => Ok(t),
        None => Err(DecodeError::NotUtf8),
    }
}

/// Takes what gzip made of the bytes of a file as a text.
pub fn read_unzipped(unzipped: Result<Vec<u8>, String>) -> (out: Result<String, DecodeError>)
    ensures
        decoded(out) == unzipped_text(
            match unzipped {
                Ok(plain) => Ok(plain@),
                Err(message) => Err(message@),
            },
        ),
{
    match unzipped {
        Ok(plain) => read_plain(plain),
        Err(message) => Err(DecodeError::Gzip(message)),
    }
}

/// Takes the bytes of a log file as text, decompressing them where the
/// extension of the file is `gz`.
pub fn decode(extension: Option<&str>, bytes: Vec<u8>) -> (out: Result<String, DecodeError>)
    ensures
        decoded(out) == text_in(
            match extension {
                Some(e) => Some(e@),
                None => None,
            },
            bytes@,
            gunzipped(bytes@),
        ),
{
    let zipped = match extension {
        Some(e) => chars::same(chars::chars_of(e).as_slice(), "gz"),
        None => false,
    };
    if zipped {
        read_unzipped(gunzip(bytes.as_slice()))
    } else {
        read_plain(bytes)
    }
}

/// One run out of a text that holds several.
#[derive(Debug, Clone, PartialEq, Eq)]
pub struct ConcatEntry {
    /// Which instance was run, as the driver script names it.
    pub instance: String,
    /// The whole text of the run, its marker line first.
    pub text: String,
}

pub struct EntryView {
    pub instance: Seq<char>,
    pub text: Seq<char>,
}

impl View for ConcatEntry {
    type V = EntryView;

    open spec fn view(&self) -> EntryView {
        EntryView { instance: self.instance@, text: self.text@ }
    }
}

/// What a list of entries holds.
pub open spec fn entries_of(v: Seq<ConcatEntry>) -> Seq<EntryView> {
    Seq::new(v.len(), |i: int| v[i]@)
}

/// The line that starts a run.
pub open spec fn is_marker(line: Seq<char>) -> bool {
    chars::starts_with(line, "@01 "@)
}

/// The instance that a marker line names: what stands between the marker and
/// the equals signs at the end.
pub open spec fn instance_of(line: Seq<char>) -> Seq<char> {
    chars::trimmed(
        chars::back_trimmed(
            chars::back_trimmed(line.skip("@01 "@.len() as int), "\n"@, false),
            "="@,
            true,
        ),
    )
}

/// The runs in a list of lines, each line with its ending. What stands before
/// the first marker line belongs to none.
pub open spec fn runs_in(lines: Seq<Seq<char>>) -> Seq<EntryView>
    decreases lines.len(),
{
    if lines.len() == 0 {
        Seq::empty()
    } else {
        let before = runs_in(lines.drop_last());
        let line = lines.last();
        if is_marker(line) {
            before.push(EntryView { instance: instance_of(line), text: line })
        } else if before.len() == 0 {
            before
        } else {
            before.update(
                before.len() - 1,
                EntryView { text: before.last().text + line, ..before.last() },
            )
        }
    }
}

/// Splits a text that holds the logs of several runs. Each run starts with a
/// line of the form `@01 <instance> ====`, which is kept as the first line of
/// its text.
pub fn split_concatenated(text: &str) -> (out: Vec<ConcatEntry>)
    ensures
        entries_of(out@) == runs_in(chars::whole_lines(text@)),
{
    let all = chars::chars_of(text);
    let lines = chars::split_whole_lines(all.as_slice());
    let ghost whole = chars::whole_lines(text@);
    assert(chars::views(lines@).len() == lines@.len());
    let mut out: Vec<ConcatEntry> = Vec::new();
    let mut name: Option<String> = None;
    let mut body: Vec<char> = Vec::new();
    let mut i: usize = 0;
    assert(entries_of(out@) =~= Seq::empty());
    while i < lines.len()
        invariant
            i <= lines@.len(),
            chars::views(lines@) == whole,
            name is None ==> runs_in(whole.take(i as int)).len() == 0 && out@.len() == 0
                && body@.len() == 0,
            name matches Some(n) ==> runs_in(whole.take(i as int)) == entries_of(out@).push(
                EntryView { instance: n@, text: body@ },
            ),
        decreases lines@.len() - i,
    {
        let line = lines[i];
        let ghost before = runs_in(whole.take(i as int));
        assert(whole.take(i + 1).drop_last() =~= whole.take(i as int));
        assert(whole.take(i + 1).last() == line@);
        if let Some(rest) = chars::strip_front(line, "@01 ") {
            if let Some(n) = name {
                let entry = ConcatEntry {
                    instance: n,
                    text: chars::string_of(body.as_slice()),
                };
                let ghost held = entries_of(out@);
                out.push(entry);
                assert(entries_of(out@) =~= held.push(entry@));
            } else {
                assert(entries_of(out@) =~= before);
            }
            assert(entries_of(out@) == before);
            let head = chars::trim_back(chars::trim_back(rest, "\n", false), "=", true);
            name = Some(chars::string_of(chars::trim(head)));
            body = vstd::slice::slice_to_vec(line);
        } else if name.is_some() {
            let piece = chars::string_of(line);
            chars::append(&mut body, piece.as_str());
            let ghost last = EntryView { instance: name->Some_0@, text: body@ };
            assert(before.update(before.len() - 1, last) =~= entries_of(out@).push(last));
        }
        i = i + 1;
    }
    assert(whole.take(i as int) =~= whole);
    if let Some(n) = name {
        let entry = ConcatEntry { instance: n, text: chars::string_of(body.as_slice()) };
        let ghost held = entries_of(out@);
        out.push(entry);
        assert(entries_of(out@) =~= held.push(entry@));
    } else {
        assert(entries_of(out@) =~= runs_in(whole));
    }
    out
}

/// The texts one behind the other.
pub open spec fn joined(texts: Seq<Seq<char>>) -> Seq<char>
    decreases texts.len(),
{
    if texts.len() == 0 {
        Seq::empty()
    } else {
        joined(texts.drop_last()) + texts.last()
    }
}

/// The texts of the runs one behind the other.
pub open spec fn joined_runs(runs: Seq<EntryView>) -> Seq<char> {
    joined(Seq::new(runs.len(), |i: int| runs[i].text))
}

/// How many marker lines there are.
pub open spec fn markers_in(lines: Seq<Seq<char>>) -> nat
    decreases lines.len(),
{
    if lines.len() == 0 {
        0
    } else {
        markers_in(lines.drop_last()) + if is_marker(lines.last()) {
            1nat
        } else {
            0nat
        }
    }
}

/// The lines from the first marker line on.
pub open spec fn from_first_marker(lines: Seq<Seq<char>>) -> Seq<Seq<char>>
    decreases lines.len(),
{
    if lines.len() == 0 || is_marker(lines[0]) {
        lines
    } else {
        from_first_marker(lines.skip(1))
    }
}

/// There are as many runs as marker lines; so there is none where no line is
/// a marker.
pub proof fn law_one_run_per_marker(lines: Seq<Seq<char>>)
    ensures
        runs_in(lines).len() == markers_in(lines),
    decreases lines.len(),
{
    if lines.len() > 0 {
        law_one_run_per_marker(lines.drop_last());
    }
}

proof fn lemma_joined_push(texts: Seq<Seq<char>>, t: Seq<char>)
    ensures
        joined(texts.push(t)) == joined(texts) + t,
{
    assert(texts.push(t).drop_last() =~= texts);
}

proof fn lemma_from_first_marker_last(lines: Seq<Seq<char>>)
    requires
        lines.len() > 0,
    ensures
        from_first_marker(lines) == (if from_first_marker(lines.drop_last()).len() > 0
            || is_marker(lines.last()) {
            from_first_marker(lines.drop_last()).push(lines.last())
        } else {
            Seq::empty()
        }),
    decreases lines.len(),
{
    if is_marker(lines[0]) {
        if lines.len() == 1 {
            assert(lines.drop_last() =~= Seq::empty());
            assert(Seq::<Seq<char>>::empty().push(lines.last()) =~= lines);
        } else {
            assert(lines.drop_last()[0] == lines[0]);
            assert(lines.drop_last().push(lines.last()) =~= lines);
        }
    } else if lines.len() == 1 {
        assert(lines.skip(1) =~= Seq::empty());
        assert(lines.drop_last() =~= Seq::empty());
    } else {
        assert(lines.drop_last()[0] == lines[0]);
        assert(lines.drop_last().skip(1) =~= lines.skip(1).drop_last());
        lemma_from_first_marker_last(lines.skip(1));
    }
}

/// Nothing from the first marker line on is lost, doubled or moved: the texts
/// of the runs, one behind the other, are those lines.
pub proof fn law_runs_cover_text(lines: Seq<Seq<char>>)
    ensures
        joined_runs(runs_in(lines)) == joined(from_first_marker(lines)),
    decreases lines.len(),
{
    if lines.len() > 0 {
        let front = lines.drop_last();
        let before = runs_in(front);
        let line = lines.last();
        law_runs_cover_text(front);
        law_one_run_per_marker(front);
        lemma_no_run_no_marker(front);
        lemma_from_first_marker_last(lines);
        let texts = Seq::new(before.len(), |i: int| before[i].text);
        let after = runs_in(lines);
        let all = Seq::new(after.len(), |i: int| after[i].text);
        if is_marker(line) {
            assert(all =~= texts.push(line));
            lemma_joined_push(texts, line);
            lemma_joined_push(from_first_marker(front), line);
        } else if before.len() > 0 {
            let n = before.len() - 1;
            assert(all.drop_last() =~= texts.drop_last());
            assert(all.last() == texts.last() + line);
            assert(joined(all) =~= joined(texts) + line);
            lemma_joined_push(from_first_marker(front), line);
        } else {
            assert(all =~= texts);
        }
    }
}

proof fn lemma_no_run_no_marker(lines: Seq<Seq<char>>)
    ensures
        runs_in(lines).len() == 0 <==> from_first_marker(lines).len() == 0,
    decreases lines.len(),
{
    if lines.len() > 0 {
        lemma_no_run_no_marker(lines.drop_last());
        lemma_from_first_marker_last(lines);
    }
}

/// Each run starts with its marker line, whose instance it is named by.
pub proof fn law_runs_start_with_marker(lines: Seq<Seq<char>>, i: int)
    requires
        0 <= i < runs_in(lines).len(),
    ensures
        is_marker(runs_in(lines)[i].text),
    decreases lines.len(),
{
    let front = lines.drop_last();
    let before = runs_in(front);
    if i < before.len() {
        law_runs_start_with_marker(front, i);
        if !is_marker(lines.last()) && i == before.len() - 1 {
            let t = before[i].text;
            let whole = t + lines.last();
            let mark = "@01 "@;
            assert(whole.subrange(0, mark.len() as int) =~= t.subrange(0, mark.len() as int));
        }
    }
}

proof fn lemma_joined_parts(a: Seq<Seq<char>>, b: Seq<Seq<char>>)
    ensures
        joined(a + b) == joined(a) + joined(b),
    decreases b.len(),
{
    if b.len() == 0 {
        assert(a + b =~= a);
        assert(joined(a) + joined(b) =~= joined(a));
    } else {
        assert((a + b).drop_last() =~= a + b.drop_last());
        lemma_joined_parts(a, b.drop_last());
        assert(joined(a) + (joined(b.drop_last()) + b.last()) =~= (joined(a) + joined(
            b.drop_last(),
        )) + b.last());
    }
}

proof fn lemma_joined_one(t: Seq<char>)
    ensures
        joined(seq![t]) == t,
{
    let one = seq![t];
    assert(joined(one.drop_last()) =~= Seq::empty());
    assert(Seq::<char>::empty() + t =~= t);
}

/// The lines of a text, each with its ending, are the text.
pub proof fn law_lines_cover_text(text: Seq<char>)
    ensures
        joined(chars::whole_lines(text)) == text,
    decreases text.len(),
{
    let n = chars::index_of(text, '\n');
    if text.len() == 0 {
        assert(joined(Seq::empty()) =~= text);
    } else if n >= text.len() {
        lemma_joined_one(text);
    } else {
        let head = text.take((n + 1) as int);
        let one = seq![head];
        law_lines_cover_text(text.skip((n + 1) as int));
        lemma_joined_parts(one, chars::whole_lines(text.skip((n + 1) as int)));
        lemma_joined_one(head);
        assert(head + text.skip((n + 1) as int) =~= text);
    }
}

proof fn lemma_index_of(s: Seq<char>, more: Seq<char>, c: char)
    ensures
        chars::index_of(s, c) <= s.len(),
        forall|j: int| 0 <= j < chars::index_of(s, c) ==> s[j] != c,
        chars::index_of(s, c) < s.len() ==> s[chars::index_of(s, c) as int] == c
            && chars::index_of(s + more, c) == chars::index_of(s, c),
    decreases s.len(),
{
    if s.len() > 0 && s[0] != c {
        let rest = s.skip(1);
        lemma_index_of(rest, more, c);
        assert((s + more).skip(1) =~= rest + more);
        assert forall|j: int| 0 <= j < chars::index_of(s, c) implies s[j] != c by {
            if j > 0 {
                assert(s[j] == rest[j - 1]);
            }
        }
    }
}

proof fn lemma_lines_side_by_side(a: Seq<char>, b: Seq<char>)
    requires
        a.len() == 0 || a.last() == '\n',
    ensures
        chars::whole_lines(a + b) == chars::whole_lines(a) + chars::whole_lines(b),
    decreases a.len(),
{
    if a.len() == 0 {
        assert(a + b =~= b);
        assert(chars::whole_lines(a) + chars::whole_lines(b) =~= chars::whole_lines(b));
    } else {
        let n = chars::index_of(a, '\n');
        lemma_index_of(a, b, '\n');
        assert(n < a.len());
        let rest = a.skip((n + 1) as int);
        assert((a + b).skip((n + 1) as int) =~= rest + b);
        assert((a + b).take((n + 1) as int) =~= a.take((n + 1) as int));
        lemma_lines_side_by_side(rest, b);
        let head = seq![a.take((n + 1) as int)];
        assert(head + (chars::whole_lines(rest) + chars::whole_lines(b)) =~= (head
            + chars::whole_lines(rest)) + chars::whole_lines(b));
    }
}

proof fn lemma_first_line_is_marker(text: Seq<char>)
    requires
        is_marker(text),
    ensures
        chars::whole_lines(text).len() > 0,
        is_marker(chars::whole_lines(text)[0]),
{
    reveal_strlit("@01 ");
    let mark = "@01 "@;
    let n = chars::index_of(text, '\n');
    lemma_index_of(text, Seq::empty(), '\n');
    let head = text.subrange(0, 4);
    assert(head =~= mark);
    if n < text.len() {
        if n < 4 {
            assert(head[n as int] == '\n');
            assert(mark[n as int] != '\n');
        }
        let line = text.take((n + 1) as int);
        assert(chars::whole_lines(text)[0] == line);
        assert(line.subrange(0, 4) =~= head);
    } else {
        assert(chars::whole_lines(text)[0] == text);
    }
}

proof fn lemma_line_stands_alone(text: Seq<char>, k: int)
    requires
        0 <= k < chars::whole_lines(text).len(),
    ensures
        chars::whole_lines(text)[k].len() > 0,
        chars::whole_lines(chars::whole_lines(text)[k]) == seq![chars::whole_lines(text)[k]],
        k < chars::whole_lines(text).len() - 1 ==> chars::whole_lines(text)[k].last() == '\n',
    decreases text.len(),
{
    let n = chars::index_of(text, '\n');
    lemma_index_of(text, Seq::empty(), '\n');
    if n < text.len() {
        let head = text.take((n + 1) as int);
        let rest = text.skip((n + 1) as int);
        if k == 0 {
            assert(head + rest =~= text);
            lemma_index_of(head, rest, '\n');
            assert(head[n as int] == '\n');
            assert(chars::index_of(head, '\n') == n);
            assert(head.take((n + 1) as int) =~= head);
            assert(head.skip((n + 1) as int) =~= Seq::empty());
            assert(chars::whole_lines(head.skip((n + 1) as int)) =~= Seq::empty());
            assert(chars::whole_lines(head) =~= seq![head]);
        } else {
            lemma_line_stands_alone(rest, k - 1);
            assert(chars::whole_lines(text)[k] == chars::whole_lines(rest)[k - 1]);
        }
    }
}

proof fn lemma_runs_side_by_side(x: Seq<Seq<char>>, y: Seq<Seq<char>>)
    requires
        runs_in(x).len() == 0 || y.len() == 0 || is_marker(y[0]),
    ensures
        runs_in(x + y) == runs_in(x) + runs_in(y),
        y.len() > 0 && is_marker(y[0]) ==> runs_in(y).len() > 0,
    decreases y.len(),
{
    if y.len() == 0 {
        assert(x + y =~= x);
        assert(runs_in(x) + runs_in(y) =~= runs_in(x));
    } else {
        let front = y.drop_last();
        let line = y.last();
        assert((x + y).drop_last() =~= x + front);
        assert((x + y).last() == line);
        if front.len() > 0 {
            assert(front[0] == y[0]);
        }
        lemma_runs_side_by_side(x, front);
        assert(runs_in(x + y) =~= runs_in(x) + runs_in(y));
    }
}

/// A text behind another splits into the runs of both. The first has to end
/// its last line, and the second to start with a marker line, unless the first
/// holds no run.
pub proof fn law_texts_side_by_side(a: Seq<char>, b: Seq<char>)
    requires
        a.len() == 0 || a.last() == '\n',
        is_marker(b) || b.len() == 0 || runs_in(chars::whole_lines(a)).len() == 0,
    ensures
        runs_in(chars::whole_lines(a + b)) == runs_in(chars::whole_lines(a)) + runs_in(
            chars::whole_lines(b),
        ),
{
    lemma_lines_side_by_side(a, b);
    if is_marker(b) {
        lemma_first_line_is_marker(b);
    }
    lemma_runs_side_by_side(chars::whole_lines(a), chars::whole_lines(b));
}

/// A run whose text has one marker line, the first one, which names it.
pub open spec fn is_one_run(run: EntryView) -> bool {
    let lines = chars::whole_lines(run.text);
    &&& lines.len() > 0
    &&& is_marker(lines[0])
    &&& run.instance == instance_of(lines[0])
    &&& forall|j: int| 1 <= j < lines.len() ==> !is_marker(#[trigger] lines[j])
}

proof fn lemma_each_is_one_run(text: Seq<char>, k: int)
    requires
        0 <= k <= chars::whole_lines(text).len(),
    ensures
        ({
            let lines = chars::whole_lines(text);
            let runs = runs_in(lines.take(k));
            &&& forall|i: int| 0 <= i < runs.len() ==> is_one_run(#[trigger] runs[i])
            &&& runs.len() > 0 ==> runs.last().text.len() > 0
            &&& runs.len() > 0 && k < lines.len() ==> runs.last().text.last() == '\n'
        }),
    decreases k,
{
    let lines = chars::whole_lines(text);
    if k > 0 {
        lemma_each_is_one_run(text, k - 1);
        lemma_line_stands_alone(text, k - 1);
        let line = lines[k - 1];
        let before = runs_in(lines.take(k - 1));
        let runs = runs_in(lines.take(k));
        assert(lines.take(k).drop_last() =~= lines.take(k - 1));
        assert(lines.take(k).last() == line);
        if !is_marker(line) && before.len() > 0 {
            let t = before.last().text;
            lemma_lines_side_by_side(t, line);
            assert(is_one_run(before[before.len() - 1]));
            assert(runs.last().text == t + line);
            let was = chars::whole_lines(t);
            let now = chars::whole_lines(t + line);
            assert(now =~= was.push(line));
            assert(is_one_run(runs.last()));
        }
        assert forall|i: int| 0 <= i < runs.len() implies is_one_run(#[trigger] runs[i]) by {
            if i < before.len() - 1 || (i < before.len() && is_marker(line)) {
                assert(runs[i] == before[i]);
            }
        }
    }
}

/// Each run has one marker line: its first, which names it. No later line of
/// its text is one.
pub proof fn law_one_marker_in_each_run(text: Seq<char>, i: int)
    requires
        0 <= i < runs_in(chars::whole_lines(text)).len(),
    ensures
        is_one_run(runs_in(chars::whole_lines(text))[i]),
{
    let lines = chars::whole_lines(text);
    lemma_each_is_one_run(text, lines.len() as int);
    assert(lines.take(lines.len() as int) =~= lines);
}

proof fn lemma_one_run(lines: Seq<Seq<char>>)
    requires
        lines.len() > 0,
        is_marker(lines[0]),
        forall|j: int| 1 <= j < lines.len() ==> !is_marker(#[trigger] lines[j]),
    ensures
        runs_in(lines) == seq![EntryView { instance: instance_of(lines[0]), text: joined(lines) }],
    decreases lines.len(),
{
    let front = lines.drop_last();
    if front.len() == 0 {
        assert(lines =~= seq![lines[0]]);
        lemma_joined_one(lines[0]);
        assert(runs_in(front) =~= Seq::empty());
    } else {
        assert(front[0] == lines[0]);
        assert forall|j: int| 1 <= j < front.len() implies !is_marker(#[trigger] front[j]) by {
            assert(front[j] == lines[j]);
        }
        lemma_one_run(front);
        assert(!is_marker(lines[lines.len() - 1]));
    }
    assert(runs_in(lines) =~= seq![
        EntryView { instance: instance_of(lines[0]), text: joined(lines) },
    ]);
}

/// The text of a run splits into that run alone.
pub proof fn law_run_stands_alone(text: Seq<char>, i: int)
    requires
        0 <= i < runs_in(chars::whole_lines(text)).len(),
    ensures
        runs_in(chars::whole_lines(runs_in(chars::whole_lines(text))[i].text)) == seq![
            runs_in(chars::whole_lines(text))[i],
        ],
{
    let run = runs_in(chars::whole_lines(text))[i];
    law_one_marker_in_each_run(text, i);
    lemma_one_run(chars::whole_lines(run.text));
    law_lines_cover_text(run.text);
}

} // verus!
