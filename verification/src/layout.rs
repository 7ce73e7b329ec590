//! What rendering is: the lines that a group lays down, as a function of the
//! group, the options and the lines laid down before it.

use crate::config::FormatConfig;
use crate::model::flat_width;
use crate::model::inline_form;
use crate::model::must_split;
use crate::model::Alignment;
use crate::model::Doc;
use crate::model::DocEntry;
use crate::reflow::comment_lines;
use crate::text::spaces;
use crate::text::trim_start;
use crate::whitespace::Comment;
use crate::whitespace::Whitespace;
use vstd::prelude::*;

verus! {

/// The output so far: the lines that are finished, and the line that is being
/// written, kept as its alignment and the text behind the indentation.
pub struct Layout {
    pub lines: Seq<Seq<char>>,
    pub indent: Alignment,
    pub text: Seq<char>,
}

impl Layout {
    /// Nothing written yet.
    pub open spec fn start(a: Alignment) -> Layout {
        Layout { lines: Seq::empty(), indent: a, text: Seq::empty() }
    }

    /// The column behind the last character of the current line.
    pub open spec fn column(self) -> nat {
        self.indent.columns() + self.text.len()
    }

    /// The current line as it will stand in the output.
    pub open spec fn line(self) -> Seq<char> {
        spaces(self.indent.columns()) + self.text
    }

    /// `s` added to the current line. Text that would start a line loses the
    /// spaces it begins with.
    pub open spec fn put(self, s: Seq<char>) -> Layout {
        Layout {
            lines: self.lines,
            indent: self.indent,
            text: if self.text.len() == 0 {
                trim_start(s)
            } else {
                self.text + s
            },
        }
    }

    /// What follows starts a line at alignment `a`. Where the current line
    /// holds no text yet, it only takes the new alignment.
    pub open spec fn newline(self, a: Alignment) -> Layout {
        if self.text.len() == 0 {
            Layout { lines: self.lines, indent: a, text: self.text }
        } else {
            Layout { lines: self.lines.push(self.line()), indent: a, text: Seq::empty() }
        }
    }

    /// Whether an empty line, or the start of the output, is in front of the
    /// current line.
    pub open spec fn after_blank(self) -> bool {
        self.lines.len() == 0 || self.lines.last().len() == 0
    }

    /// What follows starts a line at alignment `a` with exactly one empty line
    /// in front of it, but at the start of the output, where none is made.
    pub open spec fn blank(self, a: Alignment) -> Layout {
        let l = self.newline(a);
        if l.after_blank() {
            l
        } else {
            Layout { lines: l.lines.push(Seq::empty()), indent: l.indent, text: l.text }
        }
    }

    /// An empty line in front of the current line, if that holds no text
    /// yet and no empty line, nor the start of the output, is in front of it
    /// already. Where the current line holds text, nothing happens.
    pub open spec fn blank_here(self) -> Layout {
        if self.text.len() == 0 && !self.after_blank() {
            Layout { lines: self.lines.push(Seq::empty()), indent: self.indent, text: self.text }
        } else {
            self
        }
    }

    /// Each of `lines` on a line of its own at alignment `a`.
    pub open spec fn put_lines(self, lines: Seq<Seq<char>>, a: Alignment) -> Layout
        decreases lines.len(),
    {
        if lines.len() == 0 {
            self
        } else {
            self.put_lines(lines.drop_last(), a).newline(a).put(lines.last())
        }
    }

    /// The whole output: every line, the current one included if it holds
    /// text, each followed by a line feed.
    pub open spec fn finish(self) -> Seq<char> {
        join_lines(self.newline(self.indent).lines)
    }
}

/// The lines one after the other, each followed by a line feed.
pub open spec fn join_lines(lines: Seq<Seq<char>>) -> Seq<char>
    decreases lines.len(),
{
    if lines.len() == 0 {
        Seq::empty()
    } else {
        join_lines(lines.drop_last()) + lines.last() + seq!['\n']
    }
}

/// Whether a group that starts at column `col` is split: if it must be, or if
/// its text on one line would end behind column `max_width`. A text that ends
/// exactly at `max_width` fits.
pub open spec fn decide(d: Doc, config: FormatConfig, col: nat) -> bool {
    must_split(d, config.root_splits) || col + flat_width(d) > config.max_width
}

/// A comment laid down: inside the line where it may stand there, else on
/// lines of its own, after which the next line starts at `a`.
pub open spec fn render_comment(c: Comment, a: Alignment, config: FormatConfig, st: Layout)
    -> Layout {
    if c.inlinable() {
        st.put(inline_form(c))
    } else {
        st.put_lines(comment_lines(c, config.comment_width), a).newline(a)
    }
}

/// What stood between two tokens, laid down. Blank lines show in a group
/// that is split, and in one that is not where it starts a line; never more
/// than one shows in a row.
pub open spec fn render_items(
    items: Seq<Whitespace>,
    a: Alignment,
    split: bool,
    config: FormatConfig,
    st: Layout,
) -> Layout
    decreases items.len(),
{
    if items.len() == 0 {
        st
    } else {
        let before = render_items(items.drop_last(), a, split, config, st);
        match items.last() {
            Whitespace::BlankLines => if split {
                before.blank(a)
            } else {
                before.blank_here()
            },
            Whitespace::Comment(c) => render_comment(c, a, config, before),
        }
    }
}

/// A group laid down behind `st`: it is decided at the column where it starts
/// whether the group is split, and its entries follow in order.
pub open spec fn render_doc(d: Doc, config: FormatConfig, st: Layout) -> Layout
    decreases d, 1int,
{
    render_entries(d.entries, decide(d, config, st.column()), config, st)
}

/// The entries of a group that is split or not, laid down in order.
pub open spec fn render_entries(
    entries: Seq<DocEntry>,
    split: bool,
    config: FormatConfig,
    st: Layout,
) -> Layout
    decreases entries, 0int,
{
    if entries.len() == 0 {
        st
    } else {
        render_entry(
            entries.last(),
            split,
            config,
            render_entries(entries.drop_last(), split, config, st),
        )
    }
}

/// One entry of a group that is split or not, laid down. Text shows according
/// to its mode; a break starts a line if it always holds or the group is
/// split; a nested group decides for itself.
pub open spec fn render_entry(e: DocEntry, split: bool, config: FormatConfig, st: Layout)
    -> Layout
    decreases e,
{
    match e {
        DocEntry::Text { mode, text } => if mode.visible(split) {
            st.put(text)
        } else {
            st
        },
        DocEntry::Break { always, alignment } => if always || split {
            st.newline(alignment)
        } else {
            st
        },
        DocEntry::Child(d) => render_doc(d, config, st),
        DocEntry::Whitespace { alignment, items } => render_items(
            items,
            alignment,
            split,
            config,
            st,
        ),
    }
}

/// The text that a finished tree renders to.
pub open spec fn rendered_text(d: Doc, config: FormatConfig) -> Seq<char> {
    render_doc(d, config, Layout::start(Alignment { depth: 0 })).finish()
}

} // verus!
