//! Comments and blank lines found between two tokens of the source.

use vstd::prelude::*;

verus! {

/// A place in the source: a line, counted from 1, and a column, counted in
/// characters from 0.
#[derive(Clone, Copy, Debug, PartialEq, Eq, Structural)]
pub struct LineColumn {
    pub line: usize,
    pub column: usize,
}

/// The form in which a comment was written.
#[derive(Clone, Copy, Debug, PartialEq, Eq, Structural)]
pub enum CommentMode {
    /// `// ...`
    Normal,
    /// `//! ...`
    DocInner,
    /// `/// ...`
    DocOuter,
    /// `/* ... */`
    Block,
}

/// One comment of the source.
#[derive(Debug, PartialEq, Eq)]
pub struct Comment {
    /// The start of the token that the comment stood in front of.
    pub loc: LineColumn,
    /// Where the comment starts: the number of characters of the source in
    /// front of it.
    pub offset: usize,
    pub mode: CommentMode,
    /// Whether the source breaks the line after the comment.
    pub trailing_newline: bool,
    /// What stands between the comment's marks.
    pub text: String,
}

/// One thing found in the gap between two tokens.
#[derive(Debug, PartialEq, Eq)]
pub enum Whitespace {
    /// A run of one or more blank lines.
    BlankLines,
    Comment(Comment),
}

/// What was found in front of the token that starts at `loc`.
#[derive(Debug, PartialEq, Eq)]
pub struct Gap {
    pub loc: LineColumn,
    pub items: Vec<Whitespace>,
}

impl Comment {
    /// A comment may stand inside a line only if it is a block comment that
    /// the source did not end the line after.
    pub open spec fn inlinable(self) -> bool {
        self.mode == CommentMode::Block && !self.trailing_newline
    }

    /// Exec form of [`Comment::inlinable`].
    pub fn is_inlinable(&self) -> (b: bool)
        ensures
            b == self.inlinable(),
    {
        match self.mode {
            CommentMode::Block => !self.trailing_newline,
            _ => false,
        }
    }

    /// A copy of the comment.
    pub fn duplicate(&self) -> (c: Comment)
        ensures
            c == *self,
    {
        Comment {
            loc: self.loc,
            offset: self.offset,
            mode: self.mode,
            trailing_newline: self.trailing_newline,
            text: self.text.clone(),
        }
    }
}

/// The comments among `items`, in order.
pub open spec fn comments_of(items: Seq<Whitespace>) -> Seq<Comment>
    decreases items.len(),
{
    if items.len() == 0 {
        Seq::empty()
    } else {
        match items.last() {
            Whitespace::BlankLines => comments_of(items.drop_last()),
            Whitespace::Comment(c) => comments_of(items.drop_last()).push(c),
        }
    }
}

/// Whether `items` holds a comment that needs a line of its own.
pub open spec fn has_own_line_comment(items: Seq<Whitespace>) -> bool {
    exists|i: int|
        0 <= i < items.len() && (#[trigger] items[i] matches Whitespace::Comment(c)
            && !c.inlinable())
}

/// The comments of all `gaps`, in order.
pub open spec fn gap_comments(gaps: Seq<Gap>) -> Seq<Comment>
    decreases gaps.len(),
{
    if gaps.len() == 0 {
        Seq::empty()
    } else {
        gap_comments(gaps.drop_last()) + comments_of(gaps.last().items@)
    }
}

} // verus!
