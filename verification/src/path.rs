//! Paths inside an install tree, held as their segments.
//!
//! On disk a path is written with `/` between its segments, whatever the
//! host uses. In memory it is the list of those segments, so that nothing in
//! this crate depends on the host's separator.

use vstd::prelude::*;
use crate::text::{chars_of, copy_of, push_char, push_text, texts};

verus! {

/// The character that separates segments in the written form of a path.
pub const SEPARATOR: char = '/';

/// The segments of `text`, read up to its end: every `/` closes one segment
/// and opens the next, so the result always has a last, still open, segment.
pub open spec fn fields(text: Seq<char>) -> Seq<Seq<char>>
    decreases text.len(),
{
    if text.len() == 0 {
        seq![Seq::<char>::empty()]
    } else {
        let before = fields(text.drop_last());
        if text.last() == SEPARATOR {
            before.push(Seq::<char>::empty())
        } else {
            before.drop_last().push(before.last().push(text.last()))
        }
    }
}

/// The segments that the written form `text` stands for. The empty text is
/// the empty path; any other text has one segment more than it has `/`.
pub open spec fn segments_of(text: Seq<char>) -> Seq<Seq<char>> {
    if text.len() == 0 {
        Seq::<Seq<char>>::empty()
    } else {
        fields(text)
    }
}

/// The written form of a list of segments: the segments with `/` between them.
pub open spec fn written(segments: Seq<Seq<char>>) -> Seq<char>
    decreases segments.len(),
{
    if segments.len() == 0 {
        Seq::<char>::empty()
    } else if segments.len() == 1 {
        segments[0]
    } else {
        written(segments.drop_last()) + seq![SEPARATOR] + segments.last()
    }
}

/// No segment holds a `/`.
pub open spec fn separator_free(segments: Seq<Seq<char>>) -> bool {
    forall|i: int, j: int|
        0 <= i < segments.len() && 0 <= j < segments[i].len() ==> #[trigger] segments[i][j]
            != SEPARATOR
}

/// A path is relative unless its written form starts with `/`, that is
/// unless its first segment is empty.
pub open spec fn relative(segments: Seq<Seq<char>>) -> bool {
    segments.len() == 0 || segments[0].len() > 0
}

/// `a` is a prefix of `b`, segment by segment (every path is its own prefix).
pub open spec fn prefix_of(a: Seq<Seq<char>>, b: Seq<Seq<char>>) -> bool {
    a.len() <= b.len() && b.take(a.len() as int) == a
}

pub proof fn lemma_fields_nonempty(text: Seq<char>)
    ensures
        fields(text).len() >= 1,
    decreases text.len(),
{
    if text.len() > 0 {
        lemma_fields_nonempty(text.drop_last());
    }
}

/// Reading on after `text` with characters that are no `/` only lengthens the
/// last segment.
pub proof fn lemma_fields_extend(text: Seq<char>, tail: Seq<char>)
    requires
        forall|j: int| 0 <= j < tail.len() ==> tail[j] != SEPARATOR,
    ensures
        fields(text).len() >= 1,
        fields(text + tail) == fields(text).drop_last().push(fields(text).last() + tail),
    decreases tail.len(),
{
    lemma_fields_nonempty(text);
    if tail.len() == 0 {
        assert(text + tail == text);
        assert(fields(text).last() + tail == fields(text).last());
        assert(fields(text).drop_last().push(fields(text).last()) == fields(text));
    } else {
        let shorter = tail.drop_last();
        lemma_fields_extend(text, shorter);
        assert((text + tail).drop_last() == text + shorter);
        assert((text + tail).last() == tail.last());
        let base = fields(text);
        let mid = fields(text + shorter);
        assert(mid.last() == base.last() + shorter);
        assert(mid.drop_last() == base.drop_last());
        assert((base.last() + shorter).push(tail.last()) == base.last() + tail);
    }
}

/// The written form of a path reads back as that path.
pub proof fn lemma_fields_of_written(segments: Seq<Seq<char>>)
    requires
        segments.len() >= 1,
        separator_free(segments),
    ensures
        fields(written(segments)) == segments,
    decreases segments.len(),
{
    if segments.len() == 1 {
        let only = segments[0];
        lemma_fields_extend(Seq::<char>::empty(), only);
        assert(Seq::<char>::empty() + only == only);
        assert(fields(Seq::<char>::empty()) == seq![Seq::<char>::empty()]);
        assert(Seq::<char>::empty() + only == only);
        assert(seq![Seq::<char>::empty()].drop_last().push(only) == segments);
    } else {
        let front = segments.drop_last();
        let last = segments.last();
        assert(separator_free(front)) by {
            assert forall|i: int, j: int|
                0 <= i < front.len() && 0 <= j < front[i].len() implies #[trigger] front[i][j]
                != SEPARATOR by {
                assert(front[i] == segments[i]);
                assert(segments[i][j] != SEPARATOR);
            }
        }
        lemma_fields_of_written(front);
        let head = written(front) + seq![SEPARATOR];
        assert(head.drop_last() == written(front));
        assert(head.last() == SEPARATOR);
        assert(fields(head) == front.push(Seq::<char>::empty()));
        assert forall|j: int| 0 <= j < last.len() implies last[j] != SEPARATOR by {
            assert(segments[segments.len() - 1][j] != SEPARATOR);
        }
        lemma_fields_extend(head, last);
        assert(Seq::<char>::empty() + last == last);
        assert(front.push(Seq::<char>::empty()).drop_last() == front);
        assert(front.push(last) == segments);
        assert(written(segments) == head + last);
    }
}

/// What was read from a text writes back as that text, and no segment that
/// was read holds a `/`.
pub proof fn lemma_written_of_fields(text: Seq<char>)
    ensures
        fields(text).len() >= 1,
        written(fields(text)) == text,
        separator_free(fields(text)),
    decreases text.len(),
{
    lemma_fields_nonempty(text);
    if text.len() == 0 {
        assert(fields(text)[0] == Seq::<char>::empty());
    } else {
        let shorter = text.drop_last();
        lemma_written_of_fields(shorter);
        let before = fields(shorter);
        let now = fields(text);
        assert(text == shorter.push(text.last()));
        if text.last() == SEPARATOR {
            assert(now.drop_last() == before);
            assert(now.last() == Seq::<char>::empty());
            assert(written(now) == written(before) + seq![SEPARATOR] + Seq::<char>::empty());
            assert(written(now) == text);
            assert forall|i: int, j: int|
                0 <= i < now.len() && 0 <= j < now[i].len() implies #[trigger] now[i][j]
                != SEPARATOR by {
                if i < before.len() {
                    assert(now[i] == before[i]);
                }
            }
        } else {
            let grown = before.last().push(text.last());
            assert(now == before.drop_last().push(grown));
            assert(now.drop_last() == before.drop_last());
            if before.len() == 1 {
                assert(written(before) == before[0]);
                assert(written(now) == grown);
            } else {
                assert(written(before) == written(before.drop_last()) + seq![SEPARATOR]
                    + before.last());
                assert(written(now) == written(before.drop_last()) + seq![SEPARATOR] + grown);
                assert(written(before.drop_last()) + seq![SEPARATOR] + grown == (written(
                    before.drop_last(),
                ) + seq![SEPARATOR] + before.last()).push(text.last()));
            }
            assert(written(now) == text);
            assert forall|i: int, j: int|
                0 <= i < now.len() && 0 <= j < now[i].len() implies #[trigger] now[i][j]
                != SEPARATOR by {
                if i < before.len() - 1 {
                    assert(now[i] == before[i]);
                } else {
                    if j < before.last().len() {
                        assert(now[i][j] == before[before.len() - 1][j]);
                    }
                }
            }
        }
    }
}


/// Appends a copy of `segment` to `segments`.
fn push_copy(segments: &mut Vec<String>, segment: &str)
    ensures
        texts(final(segments)@) == texts(old(segments)@).push(segment@),
{
    segments.push(copy_of(segment));
    assert(texts(segments@) == texts(old(segments)@).push(segment@));
}

/// A path inside an install tree: the list of its segments.
///
/// A path read from a manifest may be anything that was written there. The
/// functions that act on the tree accept relative paths only.
#[derive(Debug, PartialEq, Eq)]
pub struct InstallPath {
    pub segments: Vec<String>,
}

impl View for InstallPath {
    type V = Seq<Seq<char>>;

    open spec fn view(&self) -> Seq<Seq<char>> {
        texts(self.segments@)
    }
}

impl Clone for InstallPath {
    fn clone(&self) -> (copy: Self)
        ensures
            copy@ == self@,
    {
        let mut segments: Vec<String> = Vec::new();
        let mut i: usize = 0;
        while i < self.segments.len()
            invariant
                i <= self.segments.len(),
                texts(segments@) == self@.take(i as int),
            decreases self.segments.len() - i,
        {
            push_copy(&mut segments, self.segments[i].as_str());
            assert(self@.take(i + 1) == self@.take(i as int).push(self@[i as int]));
            i += 1;
        }
        assert(self@.take(self.segments.len() as int) == self@);
        InstallPath { segments }
    }
}

impl InstallPath {
    /// The empty path: the root of the tree itself.
    pub fn new() -> (p: Self)
        ensures
            p@ == Seq::<Seq<char>>::empty(),
    {
        let p = InstallPath { segments: Vec::new() };
        assert(p@ == Seq::<Seq<char>>::empty());
        p
    }

    /// The path with the given segments.
    pub fn from_segments(segments: Vec<String>) -> (p: Self)
        ensures
            p@ == texts(segments@),
    {
        InstallPath { segments }
    }

    /// Reads the written form of a path.
    pub fn parse(text: &str) -> (p: Self)
        ensures
            p@ == segments_of(text@),
    {
        let chars = chars_of(text);
        let mut done: Vec<String> = Vec::new();
        if chars.len() == 0 {
            let p = InstallPath { segments: done };
            assert(p@ == Seq::<Seq<char>>::empty());
            return p;
        }
        let mut current = String::new();
        let mut i: usize = 0;
        assert(chars@.take(0) == Seq::<char>::empty());
        assert(texts(done@).push(current@) == fields(chars@.take(0)));
        while i < chars.len()
            invariant
                i <= chars.len(),
                texts(done@).push(current@) == fields(chars@.take(i as int)),
            decreases chars.len() - i,
        {
            let c = chars[i];
            proof {
                let now = chars@.take(i + 1);
                assert(now.drop_last() == chars@.take(i as int));
                assert(now.last() == c);
                assert(texts(done@).push(current@).drop_last() == texts(done@));
                assert(texts(done@).push(current@).last() == current@);
            }
            if c == SEPARATOR {
                let ghost before = texts(done@).push(current@);
                done.push(current);
                current = String::new();
                assert(texts(done@) == before);
            } else {
                push_char(&mut current, c);
            }
            i += 1;
        }
        assert(chars@.take(chars.len() as int) == chars@);
        let ghost all = texts(done@).push(current@);
        done.push(current);
        assert(texts(done@) == all);
        InstallPath { segments: done }
    }

    /// The written form of the path.
    pub fn render(&self) -> (text: String)
        ensures
            text@ == written(self@),
    {
        let mut text = String::new();
        let mut i: usize = 0;
        assert(self@.take(0) == Seq::<Seq<char>>::empty());
        while i < self.segments.len()
            invariant
                i <= self.segments.len(),
                text@ == written(self@.take(i as int)),
            decreases self.segments.len() - i,
        {
            proof {
                let now = self@.take(i + 1);
                assert(now.drop_last() == self@.take(i as int));
                assert(now.last() == self.segments@[i as int]@);
                if i == 0 {
                    assert(now[0] == now.last());
                    assert(Seq::<char>::empty() + now.last() == now.last());
                }
            }
            if i > 0 {
                push_char(&mut text, SEPARATOR);
                assert(text@ == written(self@.take(i as int)) + seq![SEPARATOR]);
            }
            push_text(&mut text, self.segments[i].as_str());
            i += 1;
        }
        assert(self@.take(self.segments.len() as int) == self@);
        text
    }

    /// How many segments the path has.
    pub fn len(&self) -> (n: usize)
        ensures
            n == self@.len(),
    {
        self.segments.len()
    }

    /// Whether this is the empty path.
    pub fn is_empty(&self) -> (b: bool)
        ensures
            b == (self@.len() == 0),
    {
        self.segments.len() == 0
    }

    /// Whether the path is relative.
    pub fn is_relative(&self) -> (b: bool)
        ensures
            b == relative(self@),
    {
        if self.segments.len() == 0 {
            true
        } else {
            !self.segments[0].as_str().is_empty()
        }
    }

    /// The path without its last segment; `None` for the empty path.
    pub fn parent(&self) -> (up: Option<Self>)
        ensures
            self@.len() == 0 ==> up is None,
            self@.len() > 0 ==> up is Some && up->0@ == self@.drop_last(),
    {
        if self.segments.len() == 0 {
            return None;
        }
        let mut segments: Vec<String> = Vec::new();
        let mut i: usize = 0;
        while i < self.segments.len() - 1
            invariant
                self.segments.len() > 0,
                i <= self.segments.len() - 1,
                texts(segments@) == self@.take(i as int),
            decreases self.segments.len() - i,
        {
            push_copy(&mut segments, self.segments[i].as_str());
            assert(self@.take(i + 1) == self@.take(i as int).push(self@[i as int]));
            i += 1;
        }
        assert(self@.take(self.segments.len() - 1) == self@.drop_last());
        Some(InstallPath { segments })
    }

    /// This path followed by the segments of `tail`.
    pub fn join(&self, tail: &InstallPath) -> (whole: Self)
        ensures
            whole@ == self@ + tail@,
    {
        let mut whole = self.clone();
        let mut i: usize = 0;
        assert(tail@.take(0) == Seq::<Seq<char>>::empty());
        assert(self@ + tail@.take(0) == self@);
        while i < tail.segments.len()
            invariant
                i <= tail.segments.len(),
                whole@ == self@ + tail@.take(i as int),
            decreases tail.segments.len() - i,
        {
            push_copy(&mut whole.segments, tail.segments[i].as_str());
            assert(tail@.take(i + 1) == tail@.take(i as int).push(tail@[i as int]));
            assert(self@ + tail@.take(i + 1) == (self@ + tail@.take(i as int)).push(
                tail@[i as int],
            ));
            i += 1;
        }
        assert(tail@.take(tail.segments.len() as int) == tail@);
        whole
    }

    /// This path with one more segment.
    pub fn child(&self, name: &str) -> (below: Self)
        ensures
            below@ == self@.push(name@),
    {
        let mut below = self.clone();
        push_copy(&mut below.segments, name);
        below
    }

    /// Whether both paths have the same segments.
    pub fn same(&self, other: &InstallPath) -> (b: bool)
        ensures
            b == (self@ == other@),
    {
        if self.segments.len() != other.segments.len() {
            return false;
        }
        let mut i: usize = 0;
        while i < self.segments.len()
            invariant
                self.segments.len() == other.segments.len(),
                i <= self.segments.len(),
                self@.take(i as int) == other@.take(i as int),
            decreases self.segments.len() - i,
        {
            if self.segments[i] != other.segments[i] {
                assert(self@[i as int] != other@[i as int]);
                return false;
            }
            assert(self@.take(i + 1) == self@.take(i as int).push(self@[i as int]));
            assert(other@.take(i + 1) == other@.take(i as int).push(other@[i as int]));
            i += 1;
        }
        assert(self@.take(self.segments.len() as int) == self@);
        assert(other@.take(other.segments.len() as int) == other@);
        true
    }
}

/// The paths that a list of paths holds, as the contracts see them.
pub open spec fn path_views(paths: Seq<InstallPath>) -> Seq<Seq<Seq<char>>> {
    Seq::new(paths.len(), |i: int| paths[i]@)
}

} // verus!
