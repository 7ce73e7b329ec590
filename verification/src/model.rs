//! The layout tree as a mathematical value.
//!
//! The executable tree lives in an arena and refers to its groups by handle.
//! What a group *is*, for the purpose of every contract in this library, is
//! the [`Doc`] that its handle expands to.

use crate::whitespace::comments_of;
use crate::whitespace::has_own_line_comment;
use crate::whitespace::Comment;
use crate::whitespace::Whitespace;
use vstd::prelude::*;

verus! {

/// Width of one level of indentation, in columns.
pub const INDENT_WIDTH: usize = 4;

/// An indentation depth. Values are never changed: a deeper alignment is a
/// new value.
#[derive(Clone, Copy, Debug, PartialEq, Eq, Structural)]
pub struct Alignment {
    pub depth: usize,
}

impl Alignment {
    /// The column at which a line of this alignment starts.
    pub open spec fn columns(self) -> nat {
        (INDENT_WIDTH * self.depth) as nat
    }

    /// One level deeper; the deepest level there is stays as it is.
    pub open spec fn deeper(self) -> Alignment {
        if self.depth < usize::MAX {
            Alignment { depth: (self.depth + 1) as usize }
        } else {
            self
        }
    }

    /// The alignment of text that is not indented.
    pub fn base() -> (a: Alignment)
        ensures
            a.depth == 0,
    {
        Alignment { depth: 0 }
    }

    /// The alignment one level deeper than this one, which stays unchanged.
    pub fn indent(&self) -> (a: Alignment)
        ensures
            a == self.deeper(),
    {
        if self.depth < usize::MAX {
            Alignment { depth: self.depth + 1 }
        } else {
            *self
        }
    }
}

/// When a piece of text is part of the output.
#[derive(Clone, Copy, Debug, PartialEq, Eq, Structural)]
pub enum SegmentMode {
    /// Always.
    All,
    /// Only while its group is on one line.
    Unsplit,
    /// Only while its group is split.
    Split,
}

impl SegmentMode {
    /// Whether text of this mode shows in a group that is split or not.
    pub open spec fn visible(self, split: bool) -> bool {
        match self {
            SegmentMode::All => true,
            SegmentMode::Unsplit => !split,
            SegmentMode::Split => split,
        }
    }

    /// Exec form of [`SegmentMode::visible`].
    pub fn is_visible(&self, split: bool) -> (b: bool)
        ensures
            b == self.visible(split),
    {
        match self {
            SegmentMode::All => true,
            SegmentMode::Unsplit => !split,
            SegmentMode::Split => split,
        }
    }
}

/// One entry of a group.
pub enum DocEntry {
    /// Literal text.
    Text { mode: SegmentMode, text: Seq<char> },
    /// A place where the line breaks: always, or only while the group is split.
    Break { always: bool, alignment: Alignment },
    /// A nested group.
    Child(Doc),
    /// Comments and blank lines of the source.
    Whitespace { alignment: Alignment, items: Seq<Whitespace> },
}

/// A group: its entries in the order of the output, and whether it was marked
/// as one that must split.
pub struct Doc {
    pub split: bool,
    pub entries: Seq<DocEntry>,
}

impl Doc {
    /// The group with one more entry at its end.
    pub open spec fn push(self, e: DocEntry) -> Doc {
        Doc { split: self.split, entries: self.entries.push(e) }
    }

    /// A group without entries that is not marked.
    pub open spec fn empty() -> Doc {
        Doc { split: false, entries: Seq::empty() }
    }
}

/// The form a comment takes inside a line.
pub open spec fn inline_form(c: Comment) -> Seq<char> {
    seq!['/', '*'] + c.text@ + seq!['*', '/', ' ']
}

/// The text `items` contribute to a line: blank lines nothing, each comment
/// its inline form.
pub open spec fn flat_items(items: Seq<Whitespace>) -> Seq<char>
    decreases items.len(),
{
    if items.len() == 0 {
        Seq::empty()
    } else {
        match items.last() {
            Whitespace::BlankLines => flat_items(items.drop_last()),
            Whitespace::Comment(c) => flat_items(items.drop_last()) + inline_form(c),
        }
    }
}

/// The text of a group on one line: what shows while a group is not split,
/// nested groups flattened likewise.
pub open spec fn flat_text(d: Doc) -> Seq<char>
    decreases d, 1int,
{
    flat_entries(d.entries)
}

/// [`flat_text`] of a run of entries.
pub open spec fn flat_entries(entries: Seq<DocEntry>) -> Seq<char>
    decreases entries, 0int,
{
    if entries.len() == 0 {
        Seq::empty()
    } else {
        flat_entries(entries.drop_last()) + flat_entry(entries.last())
    }
}

/// [`flat_text`] of one entry.
pub open spec fn flat_entry(e: DocEntry) -> Seq<char>
    decreases e,
{
    match e {
        DocEntry::Text { mode, text } => if mode.visible(false) {
            text
        } else {
            Seq::empty()
        },
        DocEntry::Break { .. } => Seq::empty(),
        DocEntry::Child(d) => flat_text(d),
        DocEntry::Whitespace { items, .. } => flat_items(items),
    }
}

/// The text of a group on one line without the comments: what the front end
/// said of the program itself.
pub open spec fn code_text(d: Doc) -> Seq<char>
    decreases d, 1int,
{
    code_entries(d.entries)
}

/// [`code_text`] of a run of entries.
pub open spec fn code_entries(entries: Seq<DocEntry>) -> Seq<char>
    decreases entries, 0int,
{
    if entries.len() == 0 {
        Seq::empty()
    } else {
        code_entries(entries.drop_last()) + code_entry(entries.last())
    }
}

/// [`code_text`] of one entry.
pub open spec fn code_entry(e: DocEntry) -> Seq<char>
    decreases e,
{
    match e {
        DocEntry::Text { mode, text } => if mode.visible(false) {
            text
        } else {
            Seq::empty()
        },
        DocEntry::Child(d) => code_text(d),
        _ => Seq::empty(),
    }
}

/// A group with one more entry says what it said, then what the entry says.
pub proof fn lemma_code_push(d: Doc, e: DocEntry)
    ensures
        code_text(d.push(e)) == code_text(d) + code_entry(e),
{
    assert(d.entries.push(e).drop_last() =~= d.entries);
}

/// The width a group takes on one line.
pub open spec fn flat_width(d: Doc) -> nat {
    flat_text(d).len()
}

/// Whether a group splits whatever the width. It does if it was marked, if
/// one of its own entries breaks the line (a break that always holds, a
/// comment that needs its own line), or, where `deep` is set, if a nested
/// group must split.
pub open spec fn must_split(d: Doc, deep: bool) -> bool
    decreases d, 1int,
{
    d.split || entries_force_split(d.entries, deep)
}

/// Whether one of `entries` makes its group split.
pub open spec fn entries_force_split(entries: Seq<DocEntry>, deep: bool) -> bool
    decreases entries, 0int,
{
    if entries.len() == 0 {
        false
    } else {
        entries_force_split(entries.drop_last(), deep) || entry_forces_split(entries.last(), deep)
    }
}

/// Whether this entry makes its group split.
pub open spec fn entry_forces_split(e: DocEntry, deep: bool) -> bool
    decreases e,
{
    match e {
        DocEntry::Text { .. } => false,
        DocEntry::Break { always, .. } => always,
        DocEntry::Child(d) => deep && must_split(d, deep),
        DocEntry::Whitespace { items, .. } => has_own_line_comment(items),
    }
}

/// The comments of a group and of all groups nested in it, in the order of
/// the output.
pub open spec fn doc_comments(d: Doc) -> Seq<Comment>
    decreases d, 1int,
{
    entries_comments(d.entries)
}

/// [`doc_comments`] of a run of entries.
pub open spec fn entries_comments(entries: Seq<DocEntry>) -> Seq<Comment>
    decreases entries, 0int,
{
    if entries.len() == 0 {
        Seq::empty()
    } else {
        entries_comments(entries.drop_last()) + entry_comments(entries.last())
    }
}

/// [`doc_comments`] of one entry.
pub open spec fn entry_comments(e: DocEntry) -> Seq<Comment>
    decreases e,
{
    match e {
        DocEntry::Child(d) => doc_comments(d),
        DocEntry::Whitespace { items, .. } => comments_of(items),
        _ => Seq::empty(),
    }
}

} // verus!
