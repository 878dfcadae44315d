//! The parts of a component and the lines that record them in a manifest.
//!
//! A manifest holds one line per part: the part's kind, a `:`, and the
//! part's path in written form.

use vstd::prelude::*;
use vstd::string::*;
use crate::path::{
    InstallPath,
    lemma_fields_of_written,
    relative,
    segments_of,
    separator_free,
    written,
};
use crate::text::{chars_of, copy_of, push_char, push_text, string_of};

verus! {

/// The character between a part's kind and its path.
pub const KIND_MARK: char = ':';

/// What a part is, as the contracts see it.
pub enum KindView {
    File,
    Dir,
    Unknown(Seq<char>),
}

/// A part as the contracts see it.
pub struct PartView {
    pub kind: KindView,
    pub path: Seq<Seq<char>>,
}

/// The kind that a token names: `file`, `dir`, or anything else, kept as it
/// was found.
pub open spec fn kind_of(token: Seq<char>) -> KindView {
    if token == "file"@ {
        KindView::File
    } else if token == "dir"@ {
        KindView::Dir
    } else {
        KindView::Unknown(token)
    }
}

/// The token that names a kind.
pub open spec fn token_of(kind: KindView) -> Seq<char> {
    match kind {
        KindView::File => "file"@,
        KindView::Dir => "dir"@,
        KindView::Unknown(token) => token,
    }
}

/// `pos` is where the first `:` of `line` stands.
pub open spec fn marks(line: Seq<char>, pos: int) -> bool {
    &&& 0 <= pos < line.len()
    &&& line[pos] == KIND_MARK
    &&& forall|k: int| 0 <= k < pos ==> line[k] != KIND_MARK
}

/// The line that records a part.
pub open spec fn encoded(part: PartView) -> Seq<char> {
    token_of(part.kind) + seq![KIND_MARK] + written(part.path)
}

/// The part that a line records, if it records one: a line without `:`
/// records none.
pub open spec fn decoded(line: Seq<char>) -> Option<PartView> {
    if exists|pos: int| marks(line, pos) {
        let pos = choose|pos: int| marks(line, pos);
        Some(
            PartView {
                kind: kind_of(line.take(pos)),
                path: segments_of(line.skip(pos + 1)),
            },
        )
    } else {
        None
    }
}

/// Kind of a [`ComponentPart`].
#[derive(Debug, PartialEq, Eq)]
pub enum ComponentPartKind {
    File,
    Dir,
    /// A kind this version does not know. It can be read, never removed.
    Unknown(String),
}

impl View for ComponentPartKind {
    type V = KindView;

    open spec fn view(&self) -> KindView {
        match self {
            ComponentPartKind::File => KindView::File,
            ComponentPartKind::Dir => KindView::Dir,
            ComponentPartKind::Unknown(token) => KindView::Unknown(token@),
        }
    }
}

impl Clone for ComponentPartKind {
    fn clone(&self) -> (copy: Self)
        ensures
            copy@ == self@,
    {
        match self {
            ComponentPartKind::File => ComponentPartKind::File,
            ComponentPartKind::Dir => ComponentPartKind::Dir,
            ComponentPartKind::Unknown(token) => ComponentPartKind::Unknown(
                copy_of(token.as_str()),
            ),
        }
    }
}

impl ComponentPartKind {
    /// The kind that `token` names. Every token names one.
    pub fn from_token(token: &str) -> (kind: Self)
        ensures
            kind@ == kind_of(token@),
    {
        let owned = copy_of(token);
        if owned == String::from_str("file") {
            ComponentPartKind::File
        } else if owned == String::from_str("dir") {
            ComponentPartKind::Dir
        } else {
            ComponentPartKind::Unknown(owned)
        }
    }

    /// The token that names this kind.
    pub fn token(&self) -> (token: String)
        ensures
            token@ == token_of(self@),
    {
        match self {
            ComponentPartKind::File => String::from_str("file"),
            ComponentPartKind::Dir => String::from_str("dir"),
            ComponentPartKind::Unknown(token) => copy_of(token.as_str()),
        }
    }

    /// Whether this version knows the kind.
    pub fn is_known(&self) -> (b: bool)
        ensures
            b == !(self@ is Unknown),
    {
        match self {
            ComponentPartKind::Unknown(_) => false,
            _ => true,
        }
    }
}

/// One file or directory that belongs to a component.
#[derive(Debug, PartialEq, Eq)]
pub struct ComponentPart {
    /// Kind of the part, such as `file` or `dir`.
    pub kind: ComponentPartKind,
    /// Path of the part below the install prefix.
    pub path: InstallPath,
}

impl View for ComponentPart {
    type V = PartView;

    open spec fn view(&self) -> PartView {
        PartView { kind: self.kind@, path: self.path@ }
    }
}

impl Clone for ComponentPart {
    fn clone(&self) -> (copy: Self)
        ensures
            copy@ == self@,
    {
        ComponentPart { kind: self.kind.clone(), path: self.path.clone() }
    }
}

impl ComponentPart {
    /// The manifest line for this part.
    pub fn encode(&self) -> (line: String)
        ensures
            line@ == encoded(self@),
    {
        let mut line = self.kind.token();
        push_char(&mut line, KIND_MARK);
        let path = self.path.render();
        push_text(&mut line, path.as_str());
        line
    }

    /// Reads one manifest line. Only a line without `:` is refused.
    pub fn decode(line: &str) -> (part: Option<Self>)
        ensures
            match part {
                Some(p) => decoded(line@) == Some(p@),
                None => decoded(line@) is None,
            },
    {
        let chars = chars_of(line);
        let mut pos: usize = 0;
        while pos < chars.len() && chars[pos] != KIND_MARK
            invariant
                pos <= chars.len(),
                forall|k: int| 0 <= k < pos ==> chars@[k] != KIND_MARK,
            decreases chars.len() - pos,
        {
            pos += 1;
        }
        if pos == chars.len() {
            assert forall|p: int| !marks(line@, p) by {}
            return None;
        }
        assert(marks(line@, pos as int));
        proof {
            let chosen = choose|p: int| marks(line@, p);
            assert(chosen == pos);
        }
        let token = string_of(&chars, 0, pos);
        let rest = string_of(&chars, pos + 1, chars.len());
        assert(chars@.subrange(0, pos as int) == line@.take(pos as int));
        assert(chars@.subrange(pos + 1, chars.len() as int) == line@.skip(pos + 1));
        let kind = ComponentPartKind::from_token(token.as_str());
        let path = InstallPath::parse(rest.as_str());
        Some(ComponentPart { kind, path })
    }
}

/// A path that its written form gives back: no segment holds a `/`, and the
/// path is not the single empty segment, which is written like the empty
/// path.
pub open spec fn writable(path: Seq<Seq<char>>) -> bool {
    separator_free(path) && !(path.len() == 1 && path[0].len() == 0)
}

/// What is written for a writable path reads back as that path.
pub proof fn lemma_path_round_trip(path: Seq<Seq<char>>)
    requires
        writable(path),
    ensures
        segments_of(written(path)) == path,
{
    if path.len() == 0 {
    } else {
        lemma_fields_of_written(path);
        if path.len() > 1 {
            let text = written(path);
            assert(text == written(path.drop_last()) + seq![crate::path::SEPARATOR] + path.last());
            assert(text.len() > 0);
        }
    }
}

/// Decoding the line that encodes a part gives the part back, for every part
/// that is a file or a directory and whose path is relative, with no `/`
/// inside a segment.
pub proof fn lemma_codec_round_trip(part: PartView)
    requires
        part.kind is File || part.kind is Dir,
        relative(part.path),
        separator_free(part.path),
    ensures
        decoded(encoded(part)) == Some(part),
{
    lemma_decode_encode(part);
}

/// Decoding the line that encodes a part gives the part back, for every part
/// that is a file or a directory and whose path is writable.
pub proof fn lemma_decode_encode(part: PartView)
    requires
        part.kind is File || part.kind is Dir,
        writable(part.path),
    ensures
        decoded(encoded(part)) == Some(part),
{
    reveal_strlit("file");
    reveal_strlit("dir");
    let token = token_of(part.kind);
    let line = encoded(part);
    let pos = token.len() as int;
    assert(forall|k: int| 0 <= k < pos ==> token[k] != KIND_MARK);
    assert(line[pos] == KIND_MARK);
    assert forall|k: int| 0 <= k < pos implies line[k] != KIND_MARK by {
        assert(line[k] == token[k]);
    }
    assert(marks(line, pos));
    let chosen = choose|p: int| marks(line, p);
    assert(chosen == pos);
    assert(line.take(pos) == token);
    assert(line.skip(pos + 1) == written(part.path));
    lemma_path_round_trip(part.path);
    assert(kind_of(token) == part.kind);
}

} // verus!
