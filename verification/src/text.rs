//! Small helpers for building and reading text.

use vstd::prelude::*;

verus! {

/// The texts that a list of strings holds.
pub open spec fn texts(strings: Seq<String>) -> Seq<Seq<char>> {
    Seq::new(strings.len(), |i: int| strings[i]@)
}

/// Whether `c` is white space, as `char::is_whitespace` tells.
pub uninterp spec fn whitespace(c: char) -> bool;

/// Whether `c` is white space.
///
/// Trusted: calls `char::is_whitespace`, which depends on the character
/// alone. The contract gives its answer a name and claims nothing of it.
#[verifier::external_body]
pub(crate) fn is_whitespace(c: char) -> (b: bool)
    ensures
        b == whitespace(c),
{
    c.is_whitespace()
}

/// `text` without the white space at its end.
pub open spec fn trimmed_end(text: Seq<char>) -> Seq<char>
    decreases text.len(),
{
    if text.len() > 0 && whitespace(text.last()) {
        trimmed_end(text.drop_last())
    } else {
        text
    }
}

/// Where a reader of lines stands: the lines that are closed, the line that
/// is open, and whether the last character was a carriage return.
pub struct Scan {
    pub closed: Seq<Seq<char>>,
    pub open: Seq<char>,
    pub after_return: bool,
}

/// Reads `text` to its end. A carriage return closes the open line, and so
/// does a line feed, unless it follows a carriage return and so belongs to
/// the line ending that closed the line already.
pub open spec fn scan(text: Seq<char>) -> Scan
    decreases text.len(),
{
    if text.len() == 0 {
        Scan { closed: Seq::empty(), open: Seq::empty(), after_return: false }
    } else {
        let before = scan(text.drop_last());
        let c = text.last();
        if c == '\r' {
            Scan { closed: before.closed.push(before.open), open: Seq::empty(), after_return: true }
        } else if c == '\n' {
            if before.after_return {
                Scan { after_return: false, ..before }
            } else {
                Scan {
                    closed: before.closed.push(before.open),
                    open: Seq::empty(),
                    after_return: false,
                }
            }
        } else {
            Scan { closed: before.closed, open: before.open.push(c), after_return: false }
        }
    }
}

/// `lines` without the empty lines at its end.
pub open spec fn without_blank_tail(lines: Seq<Seq<char>>) -> Seq<Seq<char>>
    decreases lines.len(),
{
    if lines.len() > 0 && lines.last().len() == 0 {
        without_blank_tail(lines.drop_last())
    } else {
        lines
    }
}

/// The lines of `text`. A line ends with a carriage return, a line feed, or
/// both in that order; what follows the last line ending is a line if it is
/// not empty. Empty lines at the end do not count.
pub open spec fn lines_of(text: Seq<char>) -> Seq<Seq<char>> {
    let end = scan(text);
    without_blank_tail(
        if end.open.len() > 0 {
            end.closed.push(end.open)
        } else {
            end.closed
        },
    )
}

/// An empty text holds no line: a list that is empty reads like one that
/// is not there.
pub proof fn lemma_empty_text_has_no_lines()
    ensures
        lines_of(Seq::<char>::empty()) == Seq::<Seq<char>>::empty(),
{
    let end = scan(Seq::<char>::empty());
    assert(end.closed == Seq::<Seq<char>>::empty());
    assert(without_blank_tail(end.closed) == end.closed);
}

/// No line holds a carriage return or a line feed.
pub open spec fn plain(lines: Seq<Seq<char>>) -> bool {
    forall|i: int, j: int|
        0 <= i < lines.len() && 0 <= j < lines[i].len() ==> (#[trigger] lines[i][j]) != '\r'
            && lines[i][j] != '\n'
}

/// The text that holds `lines`, each followed by `ending`.
pub open spec fn rendered(lines: Seq<Seq<char>>, ending: Seq<char>) -> Seq<char>
    decreases lines.len(),
{
    if lines.len() == 0 {
        Seq::empty()
    } else {
        rendered(lines.drop_last(), ending) + lines.last() + ending
    }
}

/// Reading on after `text` with characters that end no line lengthens the
/// open line.
pub proof fn lemma_scan_extend(text: Seq<char>, tail: Seq<char>)
    requires
        forall|j: int| 0 <= j < tail.len() ==> tail[j] != '\r' && tail[j] != '\n',
    ensures
        scan(text + tail) == (Scan {
            closed: scan(text).closed,
            open: scan(text).open + tail,
            after_return: if tail.len() == 0 {
                scan(text).after_return
            } else {
                false
            },
        }),
    decreases tail.len(),
{
    if tail.len() == 0 {
        assert(text + tail == text);
        assert(scan(text).open + tail == scan(text).open);
    } else {
        let shorter = tail.drop_last();
        lemma_scan_extend(text, shorter);
        assert((text + tail).drop_last() == text + shorter);
        assert((text + tail).last() == tail.last());
        assert((scan(text).open + shorter).push(tail.last()) == scan(text).open + tail);
    }
}

/// What was written line by line, with the line ending of either kind of
/// host, reads back as the same lines: provided no line holds a line ending
/// and the last line is not empty.
pub proof fn lemma_lines_read_back(lines: Seq<Seq<char>>, ending: Seq<char>)
    requires
        ending == seq!['\n'] || ending == seq!['\r', '\n'],
        plain(lines),
        lines.len() > 0 ==> lines.last().len() > 0,
    ensures
        lines_of(rendered(lines, ending)) == lines,
{
    lemma_scan_rendered(lines, ending);
    let end = scan(rendered(lines, ending));
    assert(end.open.len() == 0);
    assert(end.closed == lines);
    assert(without_blank_tail(lines) == lines);
}

/// After reading what was written line by line, every line is closed and
/// none is open.
pub proof fn lemma_scan_rendered(lines: Seq<Seq<char>>, ending: Seq<char>)
    requires
        ending == seq!['\n'] || ending == seq!['\r', '\n'],
        plain(lines),
    ensures
        scan(rendered(lines, ending)) == (Scan {
            closed: lines,
            open: Seq::empty(),
            after_return: false,
        }),
    decreases lines.len(),
{
    if lines.len() > 0 {
        let front = lines.drop_last();
        let last = lines.last();
        assert(plain(front)) by {
            assert forall|i: int, j: int|
                0 <= i < front.len() && 0 <= j < front[i].len() implies (#[trigger] front[i][j])
                != '\r' && front[i][j] != '\n' by {
                assert(front[i] == lines[i]);
                assert(lines[i][j] != '\r' && lines[i][j] != '\n');
            }
        }
        lemma_scan_rendered(front, ending);
        let head = rendered(front, ending);
        assert forall|j: int| 0 <= j < last.len() implies last[j] != '\r' && last[j] != '\n' by {
            assert(lines[lines.len() - 1][j] != '\r' && lines[lines.len() - 1][j] != '\n');
        }
        lemma_scan_extend(head, last);
        let body = head + last;
        assert(Seq::<char>::empty() + last == last);
        assert(scan(body).closed == front);
        assert(scan(body).open == last);
        assert(!scan(body).after_return);
        assert(front.push(last) == lines);
        let whole = body + ending;
        assert(rendered(lines, ending) == whole);
        if ending == seq!['\n'] {
            assert(whole.drop_last() == body);
            assert(whole.last() == '\n');
            assert(scan(whole).closed == lines);
        } else {
            let mid = body.push('\r');
            assert(mid.drop_last() == body);
            assert(mid.last() == '\r');
            assert(scan(mid) == (Scan { closed: lines, open: Seq::empty(), after_return: true }));
            assert(whole == mid.push('\n'));
            assert(whole.drop_last() == mid);
            assert(whole.last() == '\n');
            assert(scan(whole).closed == lines);
        }
    } else {
        assert(lines =~= Seq::<Seq<char>>::empty());
    }
}

/// Appends one character to `s`.
///
/// Trusted: calls `String::push`, which the standard library documents as
/// appending the given `char` to the end of the string.
#[verifier::external_body]
pub(crate) fn push_char(s: &mut String, c: char)
    ensures
        final(s)@ == old(s)@.push(c),
{
    s.push(c);
}

/// The characters of `s`, in order.
pub fn chars_of(s: &str) -> (out: Vec<char>)
    ensures
        out@ == s@,
{
    let mut out: Vec<char> = Vec::new();
    for c in it: s.chars()
        invariant
            it.seq() == s@,
            out@ == s@.take(it.index() as int),
    {
        out.push(c);
    }
    out
}

/// The string made of the characters `chars[from..to]`.
pub fn string_of(chars: &Vec<char>, from: usize, to: usize) -> (s: String)
    requires
        from <= to <= chars.len(),
    ensures
        s@ == chars@.subrange(from as int, to as int),
{
    let mut s = String::new();
    let mut i: usize = from;
    while i < to
        invariant
            from <= i <= to <= chars.len(),
            s@ == chars@.subrange(from as int, i as int),
        decreases to - i,
    {
        push_char(&mut s, chars[i]);
        i += 1;
    }
    s
}

/// Appends all of `tail` to `s`.
pub fn push_text(s: &mut String, tail: &str)
    ensures
        final(s)@ == old(s)@ + tail@,
{
    for c in it: tail.chars()
        invariant
            it.seq() == tail@,
            s@ == old(s)@ + tail@.take(it.index() as int),
    {
        push_char(s, c);
    }
}

/// A copy of `s`.
pub fn copy_of(s: &str) -> (copy: String)
    ensures
        copy@ == s@,
{
    let mut copy = String::new();
    push_text(&mut copy, s);
    assert(copy@ == s@);
    copy
}

/// `text` without the white space at its end.
pub fn trim_end(text: &str) -> (out: String)
    ensures
        out@ == trimmed_end(text@),
{
    let chars = chars_of(text);
    let mut end: usize = chars.len();
    assert(chars@.take(end as int) == text@);
    while end > 0 && is_whitespace(chars[end - 1])
        invariant
            end <= chars.len(),
            trimmed_end(text@) == trimmed_end(chars@.take(end as int)),
        decreases end,
    {
        assert(chars@.take(end as int).drop_last() == chars@.take(end - 1));
        end -= 1;
    }
    let out = string_of(&chars, 0, end);
    assert(chars@.subrange(0, end as int) == chars@.take(end as int));
    out
}

/// The lines of `text`.
pub fn read_lines(text: &str) -> (lines: Vec<String>)
    ensures
        texts(lines@) == lines_of(text@),
{
    let chars = chars_of(text);
    let mut lines: Vec<String> = Vec::new();
    let mut open = String::new();
    let mut after_return = false;
    let mut i: usize = 0;
    assert(chars@.take(0) == Seq::<char>::empty());
    assert(texts(lines@) == Seq::<Seq<char>>::empty());
    while i < chars.len()
        invariant
            i <= chars.len(),
            scan(chars@.take(i as int)) == (Scan {
                closed: texts(lines@),
                open: open@,
                after_return,
            }),
        decreases chars.len() - i,
    {
        let c = chars[i];
        proof {
            let now = chars@.take(i + 1);
            assert(now.drop_last() == chars@.take(i as int));
            assert(now.last() == c);
        }
        let ghost closed = texts(lines@);
        if c == '\r' {
            lines.push(open);
            assert(texts(lines@) == closed.push(open@));
            open = String::new();
            after_return = true;
        } else if c == '\n' {
            if !after_return {
                lines.push(open);
                assert(texts(lines@) == closed.push(open@));
                open = String::new();
            }
            after_return = false;
        } else {
            push_char(&mut open, c);
            after_return = false;
        }
        i += 1;
    }
    assert(chars@.take(chars.len() as int) == chars@);
    if !open.as_str().is_empty() {
        let ghost closed = texts(lines@);
        lines.push(open);
        assert(texts(lines@) == closed.push(open@));
    }
    let ghost all = texts(lines@);
    while lines.len() > 0 && lines[lines.len() - 1].as_str().is_empty()
        invariant
            without_blank_tail(all) == without_blank_tail(texts(lines@)),
        decreases lines.len(),
    {
        let ghost held = texts(lines@);
        lines.pop();
        assert(texts(lines@) == held.drop_last());
    }
    lines
}

} // verus!
