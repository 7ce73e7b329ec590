//! Rendering: the layout pass over the arena.

use crate::arena::expand;
use crate::arena::expand_prefix;
use crate::arena::nodes_wf;
use crate::arena::segment_ok;
use crate::arena::MakeSegsState;
use crate::arena::Segment;
use crate::arena::SplitGroup;
use crate::arena::SplitGroupIdx;
use crate::config::FormatConfig;
use crate::layout::decide;
use crate::layout::join_lines;
use crate::layout::render_comment;
use crate::layout::render_doc;
use crate::layout::render_entries;
use crate::layout::render_entry;
use crate::layout::render_items;
use crate::layout::rendered_text;
use crate::layout::Layout;
use crate::model::entries_force_split;
use crate::model::entry_forces_split;
use crate::model::flat_entries;
use crate::model::flat_entry;
use crate::model::flat_items;
use crate::model::flat_width;
use crate::model::inline_form;
use crate::model::must_split;
use crate::model::Alignment;
use crate::model::DocEntry;
use crate::model::INDENT_WIDTH;
use crate::reflow::format_comment;
use crate::text::line_views;
use crate::text::push_spaces;
use crate::text::spaces;
use crate::text::trim_start_spaces;
use crate::whitespace::has_own_line_comment;
use crate::whitespace::Comment;
use crate::whitespace::Whitespace;
use vstd::prelude::*;
use vstd::string::StrSliceExecFns;
use vstd::string::StringExecFns;

verus! {

/// What is left of `budget` behind a text of `width` columns, if it fits.
pub open spec fn room_behind(width: nat, budget: usize) -> Option<usize> {
    if width <= budget {
        Some((budget - width) as usize)
    } else {
        None
    }
}

/// Entry `i` of a group of a well-formed arena is what segment `i` stands
/// for, a child being the group that its handle stands for.
pub proof fn lemma_expand_entry(nodes: Seq<SplitGroup>, g: int, n: nat, i: int)
    requires
        nodes_wf(nodes),
        0 <= g < nodes.len(),
        0 <= i < n <= nodes[g].segments@.len(),
    ensures
        expand_prefix(nodes, g, n).len() == n,
        expand_prefix(nodes, g, n)[i] == match nodes[g].segments@[i] {
            Segment::Text { mode, text } => DocEntry::Text { mode, text: text@ },
            Segment::Break { always, alignment } => DocEntry::Break { always, alignment },
            Segment::Child(c) => DocEntry::Child(expand(nodes, c.0 as int)),
            Segment::Whitespace { alignment, items } => DocEntry::Whitespace {
                alignment,
                items: items@,
            },
        },
    decreases n,
{
    reveal_with_fuel(expand, 2);
    reveal_with_fuel(expand_prefix, 2);
    lemma_expand_len(nodes, g, n);
    if i < n - 1 {
        lemma_expand_entry(nodes, g, (n - 1) as nat, i);
    } else {
        assert(segment_ok(nodes, g, i));
    }
}

/// A group has as many entries as the arena holds segments for it.
pub proof fn lemma_expand_len(nodes: Seq<SplitGroup>, g: int, n: nat)
    ensures
        expand_prefix(nodes, g, n).len() == n,
        n == nodes[g].segments@.len() ==> expand(nodes, g).entries == expand_prefix(nodes, g, n)
            && expand(nodes, g).split == nodes[g].split,
    decreases n,
{
    reveal_with_fuel(expand, 2);
   reveal_with_fuel(expand_prefix, 2);
    if n > 0 {
        lemma_expand_len(nodes, g, (n - 1) as nat);
    }
}

/// The text of a run of entries on one line is at least as wide as that of
/// any run it starts with.
pub proof fn lemma_flat_prefix(entries: Seq<DocEntry>, k: int)
    requires
        0 <= k <= entries.len(),
    ensures
        flat_entries(entries.take(k)).len() <= flat_entries(entries).len(),
    decreases entries.len(),
{
    if k < entries.len() {
        lemma_flat_prefix(entries.drop_last(), k);
        assert(entries.drop_last().take(k) =~= entries.take(k));
    } else {
        assert(entries.take(k) =~= entries);
    }
}

/// Like [`lemma_flat_prefix`], for what stood between two tokens.
pub proof fn lemma_flat_items_prefix(items: Seq<Whitespace>, k: int)
    requires
        0 <= k <= items.len(),
    ensures
        flat_items(items.take(k)).len() <= flat_items(items).len(),
    decreases items.len(),
{
    if k < items.len() {
        lemma_flat_items_prefix(items.drop_last(), k);
        assert(items.drop_last().take(k) =~= items.take(k));
    } else {
        assert(items.take(k) =~= items);
    }
}

/// A run of entries makes its group split exactly if one of them does.
pub proof fn lemma_force_split_exists(entries: Seq<DocEntry>, deep: bool)
    ensures
        entries_force_split(entries, deep) <==> exists|i: int|
            0 <= i < entries.len() && #[trigger] entry_forces_split(entries[i], deep),
    decreases entries.len(),
{
    if entries.len() > 0 {
        let init = entries.drop_last();
        lemma_force_split_exists(init, deep);
        if entries_force_split(init, deep) {
            let i = choose|i: int| 0 <= i < init.len() && entry_forces_split(init[i], deep);
            assert(entry_forces_split(entries[i], deep));
        }
        if entry_forces_split(entries.last(), deep) {
            assert(entry_forces_split(entries[entries.len() - 1], deep));
        }
        if exists|i: int| 0 <= i < entries.len() && #[trigger] entry_forces_split(entries[i], deep) {
            let i = choose|i: int|
                0 <= i < entries.len() && #[trigger] entry_forces_split(entries[i], deep);
            if i < init.len() {
                assert(entry_forces_split(init[i], deep));
            }
        }
    }
}

/// Whether `items` holds a comment that needs a line of its own.
pub fn needs_own_line(items: &Vec<Whitespace>) -> (b: bool)
    ensures
        b == has_own_line_comment(items@),
{
    let mut i: usize = 0;
    while i < items.len()
        invariant
            i <= items.len(),
            forall|j: int|
                0 <= j < i ==> !(#[trigger] items@[j] matches Whitespace::Comment(c)
                    && !c.inlinable()),
        decreases items.len() - i,
    {
        match &items[i] {
            Whitespace::Comment(c) => {
                if !c.is_inlinable() {
                    return true;
                }
            },
            Whitespace::BlankLines => {},
        }
        i += 1;
    }
    false
}

/// Whether the group splits whatever the width: see [`must_split`]. The
/// nested groups are looked at in the order of the output, or last to first
/// where the group was built with its children reversed.
pub fn group_must_split(out: &MakeSegsState, g: SplitGroupIdx, deep: bool) -> (b: bool)
    requires
        out.wf(),
        g.0 < out.nodes.len(),
    ensures
        b == must_split(out.doc(g), deep),
    decreases out.nodes[g.0 as int].rank@,
{
    let node = &out.nodes[g.0];
    let n = node.segments.len();
    let ghost entries = out.doc(g).entries;
    proof {
        lemma_expand_len(out.nodes@, g.0 as int, n as nat);
        lemma_force_split_exists(entries, deep);
    }
    if node.split {
        return true;
    }
    let mut k: usize = 0;
    while k < n
        invariant
            k <= n,
            out.wf(),
            g.0 < out.nodes.len(),
            node == &out.nodes[g.0 as int],
            n == node.segments@.len(),
            entries == out.doc(g).entries,
            entries == expand_prefix(out.nodes@, g.0 as int, n as nat),
            entries.len() == n,
            forall|j: int|
                0 <= j < n && (if node.reversed {
                    j >= n - k
                } else {
                    j < k
                }) ==> !#[trigger] entry_forces_split(entries[j], deep),
        decreases n - k,
    {
        let i = if node.reversed {
            n - 1 - k
        } else {
            k
        };
        proof {
            lemma_expand_entry(out.nodes@, g.0 as int, n as nat, i as int);
            assert(segment_ok(out.nodes@, g.0 as int, i as int));
        }
        let forces = match &node.segments[i] {
            Segment::Text { .. } => false,
            Segment::Break { always, .. } => *always,
            Segment::Child(c) => deep && group_must_split(out, *c, deep),
            Segment::Whitespace { items, .. } => needs_own_line(items),
        };
        assert(forces == entry_forces_split(entries[i as int], deep));
        if forces {
            proof {
                lemma_force_split_exists(entries, deep);
            }
            return true;
        }
        k += 1;
    }
    proof {
        lemma_force_split_exists(entries, deep);
    }
    false
}

/// What is left of `budget` columns behind the inline forms of `items`, if
/// they fit.
pub fn fits_items(items: &Vec<Whitespace>, budget: usize) -> (left: Option<usize>)
    ensures
        left == room_behind(flat_items(items@).len(), budget),
{
    let mut left = budget;
    let mut i: usize = 0;
    assert(items@.take(0) =~= Seq::<Whitespace>::empty());
    while i < items.len()
        invariant
            i <= items.len(),
            flat_items(items@.take(i as int)).len() + left == budget,
        decreases items.len() - i,
    {
        proof {
            assert(items@.take(i + 1).drop_last() =~= items@.take(i as int));
            assert(items@.take(i + 1).last() == items@[i as int]);
            lemma_flat_items_prefix(items@, i + 1);
        }
        match &items[i] {
            Whitespace::Comment(c) => {
                let w = c.text.as_str().unicode_len();
                if w > left || left - w < 5 {
                    return None;
                }
                left = left - w - 5;
            },
            Whitespace::BlankLines => {},
        }
        i += 1;
    }
    assert(items@.take(i as int) =~= items@);
    Some(left)
}

/// What is left of `budget` columns behind the text of the group on one
/// line, if it fits.
pub fn fits(out: &MakeSegsState, g: SplitGroupIdx, budget: usize) -> (left: Option<usize>)
    requires
        out.wf(),
        g.0 < out.nodes.len(),
    ensures
        left == room_behind(flat_width(out.doc(g)), budget),
    decreases out.nodes[g.0 as int].rank@,
{
    let node = &out.nodes[g.0];
    let n = node.segments.len();
    let ghost entries = out.doc(g).entries;
    proof {
        lemma_expand_len(out.nodes@, g.0 as int, n as nat);
    }
    let mut left = budget;
    let mut i: usize = 0;
    assert(entries.take(0) =~= Seq::<DocEntry>::empty());
    while i < n
        invariant
            i <= n,
            out.wf(),
            g.0 < out.nodes.len(),
            node == &out.nodes[g.0 as int],
            n == node.segments@.len(),
            entries == out.doc(g).entries,
            entries == expand_prefix(out.nodes@, g.0 as int, n as nat),
            entries.len() == n,
            flat_entries(entries.take(i as int)).len() + left == budget,
        decreases n - i,
    {
        proof {
            lemma_expand_entry(out.nodes@, g.0 as int, n as nat, i as int);
            assert(segment_ok(out.nodes@, g.0 as int, i as int));
            assert(entries.take(i + 1).drop_last() =~= entries.take(i as int));
            assert(entries.take(i + 1).last() == entries[i as int]);
            lemma_flat_prefix(entries, i + 1);
            assert(flat_entries(entries.take(i + 1)) == flat_entries(entries.take(i as int))
                + flat_entry(entries[i as int]));
            assert(flat_width(out.doc(g)) == flat_entries(entries).len());
        }
        let rest = match &node.segments[i] {
            Segment::Text { mode, text } => {
                if mode.is_visible(false) {
                    let w = text.as_str().unicode_len();
                    if w > left {
                        None
                    } else {
                        Some(left - w)
                    }
                } else {
                    Some(left)
                }
            },
            Segment::Break { .. } => Some(left),
            Segment::Child(c) => fits(out, *c, left),
            Segment::Whitespace { items, .. } => fits_items(items, left),
        };
        match rest {
            Some(r) => {
                left = r;
            },
            None => {
                return None;
            },
        }
        i += 1;
    }
    assert(entries.take(i as int) =~= entries);
    Some(left)
}

/// The output while it is written.
pub struct Printer {
    /// The finished lines, each with its line feed.
    done: String,
    /// The text of the current line behind the indentation.
    cur: String,
    indent: Alignment,
    /// The columns left on the current line, if its text ends within the
    /// width.
    room: Option<usize>,
    after_blank: bool,
    max_width: usize,
    lines: Ghost<Seq<Seq<char>>>,
}

/// The columns left on a line of `max_width` columns whose text ends at
/// column `col`, if it ends within the width.
pub open spec fn room_at(max_width: usize, col: nat) -> Option<usize> {
    if col <= max_width {
        Some((max_width - col) as usize)
    } else {
        None
    }
}

/// Appends the indentation of alignment `a`.
fn push_indent(s: &mut String, a: Alignment)
    ensures
        final(s)@ == old(s)@ + spaces(a.columns()),
{
    let mut i: usize = 0;
    assert(s@ =~= old(s)@ + spaces(0));
    while i < a.depth
        invariant
            i <= a.depth,
            s@ == old(s)@ + spaces((INDENT_WIDTH * i) as nat),
        decreases a.depth - i,
    {
        push_spaces(s, INDENT_WIDTH);
        i += 1;
        assert(s@ =~= old(s)@ + spaces((INDENT_WIDTH * i) as nat));
    }
}

impl Printer {
    /// The output written so far.
    pub closed spec fn layout(&self) -> Layout {
        Layout { lines: self.lines@, indent: self.indent, text: self.cur@ }
    }

    /// The width that lines are held to.
    pub closed spec fn width(&self) -> usize {
        self.max_width
    }

    /// What the printer keeps beside the output agrees with the output.
    pub closed spec fn wf(&self) -> bool {
        &&& self.done@ == join_lines(self.lines@)
        &&& self.room == room_at(self.max_width, self.layout().column())
        &&& self.after_blank == self.layout().after_blank()
    }

    /// The columns left on a line that starts at alignment `a`.
    fn room_of_line(max_width: usize, a: Alignment) -> (room: Option<usize>)
        ensures
            room == room_at(max_width, a.columns()),
    {
        if a.depth <= max_width / INDENT_WIDTH {
            Some(max_width - INDENT_WIDTH * a.depth)
        } else {
            None
        }
    }

    /// A printer that has written nothing.
    pub fn new(max_width: usize, a: Alignment) -> (pr: Printer)
        ensures
            pr.wf(),
            pr.width() == max_width,
            pr.layout() == Layout::start(a),
    {
        Printer {
            done: String::new(),
            cur: String::new(),
            indent: a,
            room: Printer::room_of_line(max_width, a),
            after_blank: true,
            max_width,
            lines: Ghost(Seq::empty()),
        }
    }

    /// The columns left on the current line, if its text ends within the
    /// width.
    pub fn room(&self) -> (room: Option<usize>)
        requires
            self.wf(),
        ensures
            room == room_at(self.width(), self.layout().column()),
    {
        self.room
    }

    /// See [`Layout::put`].
    pub fn put(&mut self, s: &str)
        requires
            old(self).wf(),
        ensures
            final(self).wf(),
            final(self).width() == old(self).width(),
            final(self).layout() == old(self).layout().put(s@),
    {
        let t = if self.cur.as_str().is_empty() {
            trim_start_spaces(s)
        } else {
            s
        };
        let w = t.unicode_len();
        self.cur.append(t);
        self.room = match self.room {
            Some(r) => if w <= r {
                Some(r - w)
            } else {
                None
            },
            None => None,
        };
        assert(self.cur@ =~= old(self).layout().put(s@).text);
    }

    /// See [`Layout::newline`].
    pub fn newline(&mut self, a: Alignment)
        requires
            old(self).wf(),
        ensures
            final(self).wf(),
            final(self).width() == old(self).width(),
            final(self).layout() == old(self).layout().newline(a),
    {
        if !self.cur.as_str().is_empty() {
            let ghost line = self.layout().line();
            let ghost before = self.done@;
            proof {
                reveal_strlit("\n");
            }
            push_indent(&mut self.done, self.indent);
            self.done.append(self.cur.as_str());
            self.done.append("\n");
            self.cur = String::new();
            self.lines = Ghost(self.lines@.push(line));
            self.after_blank = false;
            proof {
                assert(self.lines@.drop_last() =~= old(self).lines@);
                assert(self.done@ =~= before + line + seq!['\n']);
            }
        }
        self.indent = a;
        self.room = Printer::room_of_line(self.max_width, a);
    }

    /// See [`Layout::blank`].
    pub fn blank(&mut self, a: Alignment)
        requires
            old(self).wf(),
        ensures
            final(self).wf(),
            final(self).width() == old(self).width(),
            final(self).layout() == old(self).layout().blank(a),
    {
        self.newline(a);
        if !self.after_blank {
            let ghost before = self.done@;
            let ghost lines = self.lines@;
            proof {
                reveal_strlit("\n");
            }
            self.done.append("\n");
            self.lines = Ghost(lines.push(Seq::empty()));
            self.after_blank = true;
            proof {
                assert(self.lines@.drop_last() =~= lines);
                assert(self.done@ =~= before + Seq::<char>::empty() + seq!['\n']);
            }
        }
    }

    /// See [`Layout::blank_here`].
    pub fn blank_here(&mut self)
        requires
            old(self).wf(),
        ensures
            final(self).wf(),
            final(self).width() == old(self).width(),
            final(self).layout() == old(self).layout().blank_here(),
    {
        if self.cur.as_str().is_empty() && !self.after_blank {
            let ghost before = self.done@;
            let ghost lines = self.lines@;
            proof {
                reveal_strlit("\n");
            }
            self.done.append("\n");
            self.lines = Ghost(lines.push(Seq::empty()));
            self.after_blank = true;
            proof {
                assert(self.lines@.drop_last() =~= lines);
                assert(self.done@ =~= before + Seq::<char>::empty() + seq!['\n']);
            }
        }
    }

    /// See [`Layout::put_lines`].
    pub fn put_lines(&mut self, lines: &Vec<String>, a: Alignment)
        requires
            old(self).wf(),
        ensures
            final(self).wf(),
            final(self).width() == old(self).width(),
            final(self).layout() == old(self).layout().put_lines(line_views(lines@), a),
    {
        let ghost all = line_views(lines@);
        let mut i: usize = 0;
        assert(all.take(0) =~= Seq::<Seq<char>>::empty());
        while i < lines.len()
            invariant
                i <= lines.len(),
                all == line_views(lines@),
                self.wf(),
                self.width() == old(self).width(),
                self.layout() == old(self).layout().put_lines(all.take(i as int), a),
            decreases lines.len() - i,
        {
            proof {
                assert(all.take(i + 1).drop_last() =~= all.take(i as int));
                assert(all.take(i + 1).last() == lines@[i as int]@);
            }
            self.newline(a);
            self.put(lines[i].as_str());
            i += 1;
        }
        assert(all.take(i as int) =~= all);
    }

    /// The whole output: see [`Layout::finish`].
    pub fn finish(self) -> (text: String)
        requires
            self.wf(),
        ensures
            text@ == self.layout().finish(),
    {
        let mut pr = self;
        let a = pr.indent;
        pr.newline(a);
        pr.done
    }
}

/// Lays down a comment: see [`render_comment`].
pub fn print_comment(c: &Comment, a: Alignment, config: &FormatConfig, pr: &mut Printer)
    requires
        old(pr).wf(),
    ensures
        final(pr).wf(),
        final(pr).width() == old(pr).width(),
        final(pr).layout() == render_comment(*c, a, *config, old(pr).layout()),
{
    if c.is_inlinable() {
        proof {
            reveal_strlit("/*");
            reveal_strlit("*/ ");
        }
        let mut s = String::from_str("/*");
        s.append(c.text.as_str());
        s.append("*/ ");
        assert(s@ =~= inline_form(*c));
        pr.put(s.as_str());
    } else {
        let lines = format_comment(c, config.comment_width);
        pr.put_lines(&lines, a);
        pr.newline(a);
    }
}

/// Lays down what stood between two tokens: see [`render_items`].
pub fn print_items(
    items: &Vec<Whitespace>,
    a: Alignment,
    split: bool,
    config: &FormatConfig,
    pr: &mut Printer,
)
    requires
        old(pr).wf(),
    ensures
        final(pr).wf(),
        final(pr).width() == old(pr).width(),
        final(pr).layout() == render_items(items@, a, split, *config, old(pr).layout()),
{
    let mut i: usize = 0;
    assert(items@.take(0) =~= Seq::<Whitespace>::empty());
    while i < items.len()
        invariant
            i <= items.len(),
            pr.wf(),
            pr.width() == old(pr).width(),
            pr.layout() == render_items(items@.take(i as int), a, split, *config, old(pr).layout()),
        decreases items.len() - i,
    {
        proof {
            assert(items@.take(i + 1).drop_last() =~= items@.take(i as int));
            assert(items@.take(i + 1).last() == items@[i as int]);
        }
        match &items[i] {
            Whitespace::BlankLines => {
                if split {
                    pr.blank(a);
                } else {
                    pr.blank_here();
                }
            },
            Whitespace::Comment(c) => {
                print_comment(c, a, config, pr);
            },
        }
        i += 1;
    }
    assert(items@.take(i as int) =~= items@);
}

/// Whether the group is split where it starts at the printer's column: see
/// [`decide`].
pub fn group_splits(out: &MakeSegsState, g: SplitGroupIdx, pr: &Printer) -> (split: bool)
    requires
        out.wf(),
        g.0 < out.nodes.len(),
        pr.wf(),
        pr.width() == out.config.max_width,
    ensures
        split == decide(out.doc(g), out.config, pr.layout().column()),
{
    if group_must_split(out, g, out.config.root_splits) {
        true
    } else {
        match pr.room() {
            Some(r) => fits(out, g, r).is_none(),
            None => true,
        }
    }
}

/// Lays down a group behind what the printer has written: see
/// [`render_doc`].
pub fn print_group(out: &MakeSegsState, g: SplitGroupIdx, pr: &mut Printer)
    requires
        out.wf(),
        g.0 < out.nodes.len(),
        old(pr).wf(),
        old(pr).width() == out.config.max_width,
    ensures
        final(pr).wf(),
        final(pr).width() == old(pr).width(),
        final(pr).layout() == render_doc(out.doc(g), out.config, old(pr).layout()),
    decreases out.nodes[g.0 as int].rank@,
{
    let split = group_splits(out, g, pr);
    let node = &out.nodes[g.0];
    let n = node.segments.len();
    let ghost entries = out.doc(g).entries;
    proof {
        lemma_expand_len(out.nodes@, g.0 as int, n as nat);
    }
    let mut i: usize = 0;
    assert(entries.take(0) =~= Seq::<DocEntry>::empty());
    while i < n
        invariant
            i <= n,
            out.wf(),
            g.0 < out.nodes.len(),
            node == &out.nodes[g.0 as int],
            n == node.segments@.len(),
            entries == out.doc(g).entries,
            entries == expand_prefix(out.nodes@, g.0 as int, n as nat),
            entries.len() == n,
            pr.wf(),
            pr.width() == old(pr).width() == out.config.max_width,
            pr.layout() == render_entries(
                entries.take(i as int),
                split,
                out.config,
                old(pr).layout(),
            ),
        decreases n - i,
    {
        proof {
            lemma_expand_entry(out.nodes@, g.0 as int, n as nat, i as int);
            assert(segment_ok(out.nodes@, g.0 as int, i as int));
            assert(entries.take(i + 1).drop_last() =~= entries.take(i as int));
            assert(entries.take(i + 1).last() == entries[i as int]);
        }
        let ghost before = pr.layout();
        match &node.segments[i] {
            Segment::Text { mode, text } => {
                if mode.is_visible(split) {
                    pr.put(text.as_str());
                }
            },
            Segment::Break { always, alignment } => {
                if *always || split {
                    pr.newline(*alignment);
                }
            },
            Segment::Child(c) => {
                print_group(out, *c, pr);
            },
            Segment::Whitespace { alignment, items } => {
                print_items(items, *alignment, split, &out.config, pr);
            },
        }
        assert(pr.layout() == render_entry(entries[i as int], split, out.config, before));
        assert(render_entries(entries.take(i + 1), split, out.config, old(pr).layout())
            == render_entry(
            entries.take(i + 1).last(),
            split,
            out.config,
            render_entries(entries.take(i + 1).drop_last(), split, out.config, old(pr).layout()),
        ));
        i += 1;
    }
    assert(entries.take(i as int) =~= entries);
}

/// The text that the finished group `root` renders to.
pub fn render(out: &MakeSegsState, root: SplitGroupIdx) -> (text: String)
    requires
        out.wf(),
        root.0 < out.nodes.len(),
    ensures
        text@ == rendered_text(out.doc(root), out.config),
{
    let mut pr = Printer::new(out.config.max_width, Alignment::base());
    print_group(out, root, &mut pr);
    pr.finish()
}

} // verus!
