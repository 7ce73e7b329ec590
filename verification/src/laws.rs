//! What holds of every rendering.

use crate::builder::brace_threshold_met;
use crate::config::FormatConfig;
use crate::layout::decide;
use crate::layout::join_lines;
use crate::layout::render_comment;
use crate::layout::rendered_text;
use crate::layout::render_doc;
use crate::layout::render_entries;
use crate::layout::render_entry;
use crate::layout::render_items;
use crate::layout::Layout;
use crate::model::doc_comments;
use crate::model::entries_comments;
use crate::model::entry_comments;
use crate::model::inline_form;
use crate::model::entries_force_split;
use crate::model::entry_forces_split;
use crate::model::flat_entries;
use crate::model::flat_entry;
use crate::model::flat_items;
use crate::model::flat_text;
use crate::model::flat_width;
use crate::model::must_split;
use crate::model::Alignment;
use crate::model::Doc;
use crate::model::DocEntry;
use crate::model::SegmentMode;
use crate::render::lemma_force_split_exists;
use crate::reflow::comment_lines;
use crate::reflow::comment_mark;
use crate::text::lemma_leading_spaces;
use crate::text::lemma_shows_inside;
use crate::text::lemma_shows_trimmed;
use crate::text::occurs_at;
use crate::text::shows;
use crate::text::spaces;
use crate::text::lemma_trim_start_concat;
use crate::text::trim_start;
use crate::sg_general::Laid;
use crate::syntax::Generics;
use crate::syntax::Item;
use crate::syntax::UseTree;
use crate::syntax::Variant;
use crate::whitespace::comments_of;
use crate::whitespace::Gap;
use crate::whitespace::has_own_line_comment;
use crate::whitespace::Comment;
use crate::whitespace::Whitespace;
use vstd::prelude::*;

verus! {

/// Putting two texts one after the other is putting their concatenation.
pub proof fn lemma_put_put(st: Layout, a: Seq<char>, b: Seq<char>)
    ensures
        st.put(a).put(b) == st.put(a + b),
{
    lemma_trim_start_concat(a, b);
    if st.text.len() > 0 {
        assert(st.text + a + b =~= st.text + (a + b));
    }
}

/// Putting a text moves the column by at most the length of the text, and
/// finishes no line.
pub proof fn lemma_put_column(st: Layout, s: Seq<char>)
    ensures
        st.put(s).column() <= st.column() + s.len(),
        st.put(s).lines == st.lines,
        st.put(s).indent == st.indent,
{
    lemma_leading_spaces(s);
}

/// A group that must split where nested groups are not looked at must split
/// where they are.
pub proof fn lemma_must_split_deep(d: Doc)
    ensures
        must_split(d, false) ==> must_split(d, true),
    decreases d, 1int,
{
    lemma_entries_force_deep(d.entries);
}

/// [`lemma_must_split_deep`] of a run of entries.
proof fn lemma_entries_force_deep(entries: Seq<DocEntry>)
    ensures
        entries_force_split(entries, false) ==> entries_force_split(entries, true),
    decreases entries, 0int,
{
    if entries.len() > 0 {
        lemma_entries_force_deep(entries.drop_last());
        let e = entries.last();
        assert(entry_forces_split(e, false) ==> entry_forces_split(e, true)) by {
            match e {
                DocEntry::Child(c) => {},
                _ => {},
            }
        }
        assert(entries_force_split(entries, false) == (entries_force_split(
            entries.drop_last(),
            false,
        ) || entry_forces_split(e, false)));
        assert(entries_force_split(entries, true) == (entries_force_split(
            entries.drop_last(),
            true,
        ) || entry_forces_split(e, true)));
    }
}

/// A group that is marked is split at every column and at every width.
pub proof fn lemma_marked_group_splits(d: Doc, config: FormatConfig, st: Layout)
    requires
        d.split,
    ensures
        decide(d, config, st.column()),
        render_doc(d, config, st) == render_entries(d.entries, true, config, st),
{
}

/// Where the options hold a threshold for brace-delimited groups, a group
/// that was marked by that threshold and has at least as many elements is
/// split at every column and at every width.
pub proof fn lemma_threshold_forces_split(
    d: Doc,
    config: FormatConfig,
    count: usize,
    st: Layout,
)
    requires
        d.split == brace_threshold_met(config.split_brace_threshold, count),
        config.split_brace_threshold matches Some(n) && count >= n,
    ensures
        decide(d, config, st.column()),
        render_doc(d, config, st) == render_entries(d.entries, true, config, st),
{
}

/// The group reached from `d` by going, for each index of `path` in turn,
/// to the nested group that is the entry of that index.
pub open spec fn descendant(d: Doc, path: Seq<int>) -> Option<Doc>
    decreases path.len(),
{
    if path.len() == 0 {
        Some(d)
    } else {
        match descendant(d, path.drop_last()) {
            Some(p) => if 0 <= path.last() < p.entries.len() {
                match p.entries[path.last()] {
                    DocEntry::Child(c) => Some(c),
                    _ => None,
                }
            } else {
                None
            },
            None => None,
        }
    }
}

/// With `root_splits` set, a group that must split makes every group that it
/// is nested in split, up to the root: each of them is split at every column
/// and at every width.
pub proof fn lemma_root_splits_propagate(
    d: Doc,
    config: FormatConfig,
    path: Seq<int>,
    k: int,
    col: nat,
)
    requires
        config.root_splits,
        descendant(d, path) matches Some(x) && must_split(x, true),
        0 <= k <= path.len(),
    ensures
        descendant(d, path.take(k)) matches Some(a) && must_split(a, true) && decide(
            a,
            config,
            col,
        ),
    decreases path.len() - k,
{
    if k == path.len() {
        assert(path.take(k) =~= path);
    } else {
        lemma_root_splits_propagate(d, config, path, k + 1, col);
        let longer = path.take(k + 1);
        assert(longer.drop_last() =~= path.take(k));
        let a = descendant(d, path.take(k))->0;
        let i = longer.last();
        assert(entry_forces_split(a.entries[i], true));
        lemma_force_split_exists(a.entries, true);
    }
}

/// Whether `after` goes on with the current line of `st`: the line has taken
/// `said`, no line of text was finished, and at most one empty line came in
/// front of the line, which then held no text before.
pub open spec fn continued(st: Layout, after: Layout, said: Seq<char>) -> bool {
    &&& after.indent == st.indent
    &&& after.text == st.put(said).text
    &&& (after.lines == st.lines || (st.text.len() == 0 && !st.after_blank() && after.lines
        == st.lines.push(Seq::empty())))
}

/// Going on with a line twice is going on with it once, with both texts.
pub proof fn lemma_continued_twice(
    st: Layout,
    mid: Layout,
    after: Layout,
    a: Seq<char>,
    b: Seq<char>,
)
    requires
        continued(st, mid, a),
        continued(mid, after, b),
    ensures
        continued(st, after, a + b),
{
    lemma_put_put(st, a, b);
    assert(mid.put(b).text == st.put(a).put(b).text);
    lemma_leading_spaces(a);
    if mid.lines != st.lines {
        assert(mid.lines.last() == Seq::<char>::empty());
    }
}

/// Putting nothing changes nothing.
pub proof fn lemma_put_nothing(st: Layout)
    ensures
        st.put(Seq::empty()) == st,
{
    assert(trim_start(Seq::<char>::empty()) =~= Seq::<char>::empty());
    assert(st.text + Seq::<char>::empty() =~= st.text);
}

/// What stood between two tokens, if none of it needs a line of its own,
/// goes into the line of a group that is not split as its text on one line.
pub proof fn lemma_inline_items(
    items: Seq<Whitespace>,
    a: Alignment,
    config: FormatConfig,
    st: Layout,
)
    requires
        !has_own_line_comment(items),
    ensures
        continued(st, render_items(items, a, false, config, st), flat_items(items)),
    decreases items.len(),
{
    if items.len() == 0 {
        lemma_put_nothing(st);
    } else {
        let init = items.drop_last();
        assert forall|i: int| 0 <= i < init.len() implies !(#[trigger] init[i] matches Whitespace::Comment(
            c,
        ) && !c.inlinable()) by {
            assert(init[i] == items[i]);
        }
        lemma_inline_items(init, a, config, st);
        let mid = render_items(init, a, false, config, st);
        match items.last() {
            Whitespace::BlankLines => {
                lemma_put_nothing(mid);
                assert(continued(mid, mid.blank_here(), Seq::empty()));
                lemma_continued_twice(st, mid, mid.blank_here(), flat_items(init), Seq::empty());
                assert(flat_items(init) + Seq::<char>::empty() =~= flat_items(init));
            },
            Whitespace::Comment(c) => {
                assert(items[items.len() - 1] == items.last());
                let form = crate::model::inline_form(c);
                assert(continued(mid, mid.put(form), form));
                lemma_continued_twice(st, mid, mid.put(form), flat_items(init), form);
            },
        }
    }
}

/// Going on with a line moves the column by at most the length of what the
/// line has taken.
pub proof fn lemma_continued_column(st: Layout, after: Layout, said: Seq<char>)
    requires
        continued(st, after, said),
    ensures
        after.column() <= st.column() + said.len(),
{
    lemma_put_column(st, said);
}

/// A run of entries of which none makes a group split, nested groups looked
/// at, and whose text on one line ends within the width, is laid down in a
/// group that is not split as that text: on the current line.
pub proof fn lemma_inline_entries(entries: Seq<DocEntry>, config: FormatConfig, st: Layout)
    requires
        !entries_force_split(entries, true),
        st.column() + flat_entries(entries).len() <= config.max_width,
    ensures
        continued(st, render_entries(entries, false, config, st), flat_entries(entries)),
    decreases entries, 0int,
{
    if entries.len() == 0 {
        lemma_put_nothing(st);
    } else {
        let init = entries.drop_last();
        let e = entries.last();
        assert(entries_force_split(entries, true) == (entries_force_split(init, true)
            || entry_forces_split(e, true)));
        assert(flat_entries(entries) == flat_entries(init) + flat_entry(e));
        lemma_inline_entries(init, config, st);
        let mid = render_entries(init, false, config, st);
        lemma_continued_column(st, mid, flat_entries(init));
        assert(render_entries(entries, false, config, st) == render_entry(
            e,
            false,
            config,
            mid,
        ));
        let after = render_entry(e, false, config, mid);
        match e {
            DocEntry::Text { mode, text } => {
                if !mode.visible(false) {
                    lemma_put_nothing(mid);
                }
                assert(continued(mid, after, flat_entry(e)));
            },
            DocEntry::Break { always, alignment } => {
                lemma_put_nothing(mid);
                assert(continued(mid, after, flat_entry(e)));
            },
            DocEntry::Child(c) => {
                lemma_inline_group(c, config, mid);
            },
            DocEntry::Whitespace { alignment, items } => {
                lemma_inline_items(items, alignment, config, mid);
            },
        }
        lemma_continued_twice(st, mid, after, flat_entries(init), flat_entry(e));
    }
}

/// A group of which no part must split, and whose text on one line ends
/// within the width, is not split and is laid down as that text on the
/// current line: no line of text is finished, and the line ends within the
/// width.
pub proof fn lemma_inline_group(d: Doc, config: FormatConfig, st: Layout)
    requires
        !must_split(d, true),
        st.column() + flat_width(d) <= config.max_width,
    ensures
        !decide(d, config, st.column()),
        continued(st, render_doc(d, config, st), flat_text(d)),
        render_doc(d, config, st).column() <= config.max_width,
    decreases d, 1int,
{
    lemma_must_split_deep(d);
    lemma_inline_entries(d.entries, config, st);
    lemma_continued_column(st, render_doc(d, config, st), flat_text(d));
}

/// With `root_splits` set, a group that is decided not to split is laid down
/// on the current line, which then ends within the width.
pub proof fn lemma_unsplit_line_fits(d: Doc, config: FormatConfig, st: Layout)
    requires
        config.root_splits,
        !decide(d, config, st.column()),
    ensures
        continued(st, render_doc(d, config, st), flat_text(d)),
        render_doc(d, config, st).line().len() <= config.max_width,
{
    lemma_inline_group(d, config, st);
}

/// The forms in which a comment is laid down: its form inside a line
/// where it may stand there, and else its lines.
pub open spec fn comment_pieces(c: Comment, config: FormatConfig) -> Seq<Seq<char>> {
    if c.inlinable() {
        seq![inline_form(c)]
    } else {
        comment_lines(c, config.comment_width)
    }
}

/// Whether `piece` stands in a finished line or in the current line of the
/// output.
pub open spec fn written(st: Layout, piece: Seq<char>) -> bool {
    shows(st.text, piece) || exists|k: int| 0 <= k < st.lines.len() && shows(st.lines[k], piece)
}

/// Whether `piece` is text that starts with something else than a space.
pub open spec fn solid(piece: Seq<char>) -> bool {
    piece.len() > 0 && piece[0] != ' '
}

/// Whether all that is written in `st` is written in `after`.
pub open spec fn keeps_written(st: Layout, after: Layout) -> bool {
    forall|p: Seq<char>| solid(p) && written(st, p) ==> written(after, p)
}

/// What is put is written, and what was written stays written.
pub proof fn lemma_put_written(st: Layout, s: Seq<char>)
    ensures
        keeps_written(st, st.put(s)),
        forall|p: Seq<char>| solid(p) && shows(s, p) ==> written(st.put(s), p),
{
    let after = st.put(s);
    assert forall|p: Seq<char>| solid(p) && written(st, p) implies written(after, p) by {
        if shows(st.text, p) {
            lemma_shows_inside(Seq::empty(), st.text, s, p);
            assert(Seq::<char>::empty() + st.text + s =~= st.text + s);
        } else {
            let k = choose|k: int| 0 <= k < st.lines.len() && shows(st.lines[k], p);
            assert(shows(after.lines[k], p));
        }
    }
    assert forall|p: Seq<char>| solid(p) && shows(s, p) implies written(after, p) by {
        if st.text.len() == 0 {
            lemma_shows_trimmed(s, p);
        } else {
            lemma_shows_inside(st.text, s, Seq::empty(), p);
            assert(st.text + s + Seq::<char>::empty() =~= st.text + s);
        }
    }
}

/// What was written stays written when a line is finished.
pub proof fn lemma_newline_written(st: Layout, a: Alignment)
    ensures
        keeps_written(st, st.newline(a)),
{
    let after = st.newline(a);
    assert forall|p: Seq<char>| solid(p) && written(st, p) implies written(after, p) by {
        if shows(st.text, p) {
            lemma_shows_inside(spaces(st.indent.columns()), st.text, Seq::empty(), p);
            assert(spaces(st.indent.columns()) + st.text + Seq::<char>::empty() =~= st.line());
            assert(after.lines[after.lines.len() - 1] == st.line());
            assert(shows(after.lines[after.lines.len() - 1], p));
        } else {
            let k = choose|k: int| 0 <= k < st.lines.len() && shows(st.lines[k], p);
            assert(shows(after.lines[k], p));
        }
    }
}

/// What was written stays written when an empty line is made.
pub proof fn lemma_blank_written(st: Layout, a: Alignment)
    ensures
        keeps_written(st, st.blank(a)),
        keeps_written(st, st.blank_here()),
{
    lemma_newline_written(st, a);
    let mid = st.newline(a);
    let after = st.blank(a);
    assert forall|p: Seq<char>| solid(p) && written(st, p) implies written(after, p) by {
        assert(written(mid, p));
        if !shows(mid.text, p) {
            let k = choose|k: int| 0 <= k < mid.lines.len() && shows(mid.lines[k], p);
            assert(shows(after.lines[k], p));
        }
    }
    let here = st.blank_here();
    assert forall|p: Seq<char>| solid(p) && written(st, p) implies written(here, p) by {
        if !shows(st.text, p) {
            let k = choose|k: int| 0 <= k < st.lines.len() && shows(st.lines[k], p);
            assert(shows(here.lines[k], p));
        }
    }
}

/// Lines that are put are written, and what was written stays written.
pub proof fn lemma_put_lines_written(st: Layout, lines: Seq<Seq<char>>, a: Alignment)
    ensures
        keeps_written(st, st.put_lines(lines, a)),
        forall|i: int|
            0 <= i < lines.len() && solid(#[trigger] lines[i]) ==> written(
                st.put_lines(lines, a),
                lines[i],
            ),
    decreases lines.len(),
{
    if lines.len() > 0 {
        let init = lines.drop_last();
        lemma_put_lines_written(st, init, a);
        let s1 = st.put_lines(init, a);
        lemma_newline_written(s1, a);
        let s2 = s1.newline(a);
        lemma_put_written(s2, lines.last());
        let after = s2.put(lines.last());
        assert(forall|p: Seq<char>| solid(p) && written(s1, p) ==> written(after, p));
        assert forall|i: int| 0 <= i < lines.len() && solid(#[trigger] lines[i]) implies written(
            after,
            lines[i],
        ) by {
            if i < init.len() {
                assert(init[i] == lines[i]);
                assert(written(s1, lines[i]));
            } else {
                assert(occurs_at(lines[i], lines[i], 0)) by {
                    assert(lines[i].subrange(0, lines[i].len() as int) =~= lines[i]);
                }
                assert(shows(lines.last(), lines[i]));
            }
        }
    }
}

/// Every form in which a comment is laid down starts with a slash.
pub proof fn lemma_comment_pieces_solid(c: Comment, config: FormatConfig)
    ensures
        forall|i: int|
            0 <= i < comment_pieces(c, config).len() ==> solid(
                #[trigger] comment_pieces(c, config)[i],
            ),
{
    assert forall|i: int| 0 <= i < comment_pieces(c, config).len() implies solid(
        #[trigger] comment_pieces(c, config)[i],
    ) by {
        let p = comment_pieces(c, config)[i];
        assert(comment_mark(c.mode)[0] == '/');
        assert(p[0] == '/');
    }
}

/// A comment that is laid down is written in each of its forms, and what
/// was written stays written.
pub proof fn lemma_comment_written(c: Comment, a: Alignment, config: FormatConfig, st: Layout)
    ensures
        keeps_written(st, render_comment(c, a, config, st)),
        forall|i: int|
            0 <= i < comment_pieces(c, config).len() ==> written(
                render_comment(c, a, config, st),
                #[trigger] comment_pieces(c, config)[i],
            ),
{
    lemma_comment_pieces_solid(c, config);
    let after = render_comment(c, a, config, st);
    if c.inlinable() {
        lemma_put_written(st, inline_form(c));
        assert(occurs_at(inline_form(c), inline_form(c), 0)) by {
            assert(inline_form(c).subrange(0, inline_form(c).len() as int) =~= inline_form(c));
        }
    } else {
        let lines = comment_lines(c, config.comment_width);
        lemma_put_lines_written(st, lines, a);
        lemma_newline_written(st.put_lines(lines, a), a);
        let mid = st.put_lines(lines, a);
        assert forall|i: int| 0 <= i < lines.len() implies written(after, #[trigger] lines[i]) by {
            assert(solid(lines[i]));
            assert(written(mid, lines[i]));
        }
        assert(forall|p: Seq<char>| solid(p) && written(st, p) ==> written(after, p));
    }
}

/// Whether every comment among `comments` is written in each of its forms.
pub open spec fn all_written(st: Layout, comments: Seq<Comment>, config: FormatConfig) -> bool {
    forall|k: int, i: int|
        0 <= k < comments.len() && 0 <= i < comment_pieces(comments[k], config).len() ==> written(
            st,
            #[trigger] comment_pieces(comments[k], config)[i],
        )
}

/// Comments that are written stay written where all that is written stays.
proof fn lemma_all_written_kept(
    st: Layout,
    after: Layout,
    comments: Seq<Comment>,
    config: FormatConfig,
)
    requires
        keeps_written(st, after),
        all_written(st, comments, config),
    ensures
        all_written(after, comments, config),
{
    assert forall|k: int, i: int|
        0 <= k < comments.len() && 0 <= i < comment_pieces(
            comments[k],
            config,
        ).len() implies written(after, #[trigger] comment_pieces(comments[k], config)[i]) by {
        lemma_comment_pieces_solid(comments[k], config);
        assert(written(st, comment_pieces(comments[k], config)[i]));
    }
}

/// Comments written one after the other are all written.
proof fn lemma_all_written_both(
    st: Layout,
    a: Seq<Comment>,
    b: Seq<Comment>,
    config: FormatConfig,
)
    requires
        all_written(st, a, config),
        all_written(st, b, config),
    ensures
        all_written(st, a + b, config),
{
    assert forall|k: int, i: int|
        0 <= k < (a + b).len() && 0 <= i < comment_pieces((a + b)[k], config).len() implies written(
        st,
        #[trigger] comment_pieces((a + b)[k], config)[i],
    ) by {
        if k < a.len() {
            assert((a + b)[k] == a[k]);
        } else {
            assert((a + b)[k] == b[k - a.len()]);
        }
    }
}

/// What stood between two tokens and is laid down is written, comment by
/// comment, and what was written stays written.
pub proof fn lemma_items_written(
    items: Seq<Whitespace>,
    a: Alignment,
    split: bool,
    config: FormatConfig,
    st: Layout,
)
    ensures
        keeps_written(st, render_items(items, a, split, config, st)),
        all_written(render_items(items, a, split, config, st), comments_of(items), config),
    decreases items.len(),
{
    if items.len() > 0 {
        let init = items.drop_last();
        lemma_items_written(init, a, split, config, st);
        let mid = render_items(init, a, split, config, st);
        let after = render_items(items, a, split, config, st);
        match items.last() {
            Whitespace::BlankLines => {
                lemma_blank_written(mid, a);
                lemma_all_written_kept(mid, after, comments_of(init), config);
            },
            Whitespace::Comment(c) => {
                lemma_comment_written(c, a, config, mid);
                lemma_all_written_kept(mid, after, comments_of(init), config);
                assert(all_written(after, seq![c], config));
                lemma_all_written_both(after, comments_of(init), seq![c], config);
                assert(comments_of(init) + seq![c] =~= comments_of(items));
            },
        }
        assert(forall|p: Seq<char>| solid(p) && written(st, p) ==> written(after, p));
    }
}

/// The entries of a group that are laid down are written, comment by
/// comment, and what was written stays written.
pub proof fn lemma_entries_written(
    entries: Seq<DocEntry>,
    split: bool,
    config: FormatConfig,
    st: Layout,
)
    ensures
        keeps_written(st, render_entries(entries, split, config, st)),
        all_written(render_entries(entries, split, config, st), entries_comments(entries), config),
    decreases entries, 0int,
{
    if entries.len() > 0 {
        let init = entries.drop_last();
        let e = entries.last();
        lemma_entries_written(init, split, config, st);
        let mid = render_entries(init, split, config, st);
        let after = render_entry(e, split, config, mid);
        assert(render_entries(entries, split, config, st) == after);
        assert(entries_comments(entries) == entries_comments(init) + entry_comments(e));
        match e {
            DocEntry::Text { mode, text } => {
                lemma_put_written(mid, text);
            },
            DocEntry::Break { always, alignment } => {
                lemma_newline_written(mid, alignment);
            },
            DocEntry::Child(c) => {
                lemma_doc_written(c, config, mid);
            },
            DocEntry::Whitespace { alignment, items } => {
                lemma_items_written(items, alignment, split, config, mid);
            },
        }
        assert(keeps_written(mid, after));
        assert(all_written(after, entry_comments(e), config));
        lemma_all_written_kept(mid, after, entries_comments(init), config);
        lemma_all_written_both(after, entries_comments(init), entry_comments(e), config);
        assert(forall|p: Seq<char>| solid(p) && written(st, p) ==> written(after, p));
    }
}

/// A group that is laid down is written, comment by comment, and what was
/// written stays written.
pub proof fn lemma_doc_written(d: Doc, config: FormatConfig, st: Layout)
    ensures
        keeps_written(st, render_doc(d, config, st)),
        all_written(render_doc(d, config, st), doc_comments(d), config),
    decreases d, 1int,
{
    lemma_entries_written(d.entries, decide(d, config, st.column()), config, st);
}

/// What stands in a line stands in the lines when they are joined.
pub proof fn lemma_join_shows(lines: Seq<Seq<char>>, k: int, piece: Seq<char>)
    requires
        0 <= k < lines.len(),
        shows(lines[k], piece),
    ensures
        shows(join_lines(lines), piece),
    decreases lines.len(),
{
    let init = lines.drop_last();
    if k < lines.len() - 1 {
        lemma_join_shows(init, k, piece);
        lemma_shows_inside(Seq::empty(), join_lines(init), lines.last() + seq!['\n'], piece);
        assert(Seq::<char>::empty() + join_lines(init) + (lines.last() + seq!['\n'])
            =~= join_lines(lines));
    } else {
        lemma_shows_inside(join_lines(init), lines.last(), seq!['\n'], piece);
    }
}

/// Every comment that is part of a tree stands in the text that the tree
/// renders to, in each of the forms in which it is laid down: in its form
/// inside a line, or line by line as a comment of its own lines, wrapped
/// where the options set a width for comments.
pub proof fn lemma_comments_shown(d: Doc, config: FormatConfig, k: int, i: int)
    requires
        0 <= k < doc_comments(d).len(),
        0 <= i < comment_pieces(doc_comments(d)[k], config).len(),
    ensures
        shows(rendered_text(d, config), comment_pieces(doc_comments(d)[k], config)[i]),
{
    let start = Layout::start(Alignment { depth: 0 });
    let st = render_doc(d, config, start);
    lemma_doc_written(d, config, start);
    let piece = comment_pieces(doc_comments(d)[k], config)[i];
    lemma_comment_pieces_solid(doc_comments(d)[k], config);
    assert(written(st, piece));
    lemma_newline_written(st, st.indent);
    let last = st.newline(st.indent);
    assert(written(last, piece));
    assert(last.text.len() == 0);
    assert(!shows(last.text, piece)) by {
        if shows(last.text, piece) {
            let j = choose|j: int| occurs_at(last.text, piece, j);
        }
    }
    let line = choose|line: int| 0 <= line < last.lines.len() && shows(last.lines[line], piece);
    lemma_join_shows(last.lines, line, piece);
}

/// The texts of a tree that show whether their group is split or not: the
/// tokens of the source and the fixed words, in the order of the output.
pub open spec fn doc_tokens(d: Doc) -> Seq<Seq<char>>
    decreases d, 1int,
{
    entries_tokens(d.entries)
}

/// [`doc_tokens`] of a run of entries.
pub open spec fn entries_tokens(entries: Seq<DocEntry>) -> Seq<Seq<char>>
    decreases entries, 0int,
{
    if entries.len() == 0 {
        Seq::empty()
    } else {
        entries_tokens(entries.drop_last()) + entry_tokens(entries.last())
    }
}

/// [`doc_tokens`] of one entry.
pub open spec fn entry_tokens(e: DocEntry) -> Seq<Seq<char>>
    decreases e,
{
    match e {
        DocEntry::Text { mode, text } => if mode == SegmentMode::All {
            seq![text]
        } else {
            Seq::empty()
        },
        DocEntry::Child(d) => doc_tokens(d),
        _ => Seq::empty(),
    }
}

/// Whether every part of each of `tokens` that starts with something else
/// than a space is written.
pub open spec fn tokens_written(st: Layout, tokens: Seq<Seq<char>>) -> bool {
    forall|k: int, p: Seq<char>|
        0 <= k < tokens.len() && solid(p) && #[trigger] shows(tokens[k], p) ==> written(st, p)
}

/// The tokens of entries that are laid down are written.
pub proof fn lemma_entries_tokens_written(
    entries: Seq<DocEntry>,
    split: bool,
    config: FormatConfig,
    st: Layout,
)
    ensures
        tokens_written(render_entries(entries, split, config, st), entries_tokens(entries)),
    decreases entries, 0int,
{
    if entries.len() > 0 {
        let init = entries.drop_last();
        let e = entries.last();
        lemma_entries_tokens_written(init, split, config, st);
        let mid = render_entries(init, split, config, st);
        let after = render_entry(e, split, config, mid);
        assert(render_entries(entries, split, config, st) == after);
        match e {
            DocEntry::Text { mode, text } => {
                lemma_put_written(mid, text);
            },
            DocEntry::Break { always, alignment } => {
                lemma_newline_written(mid, alignment);
            },
            DocEntry::Child(c) => {
                lemma_doc_written(c, config, mid);
                lemma_doc_tokens_written(c, config, mid);
            },
            DocEntry::Whitespace { alignment, items } => {
                lemma_items_written(items, alignment, split, config, mid);
            },
        }
        assert(keeps_written(mid, after));
        assert(tokens_written(after, entry_tokens(e)));
        let all = entries_tokens(entries);
        let before = entries_tokens(init);
        assert forall|k: int, p: Seq<char>|
            0 <= k < all.len() && solid(p) && #[trigger] shows(all[k], p) implies written(
            after,
            p,
        ) by {
            if k < before.len() {
                assert(all[k] == before[k]);
                assert(written(mid, p));
            } else {
                assert(all[k] == entry_tokens(e)[k - before.len()]);
            }
        }
    }
}

/// The tokens of a group that is laid down are written.
pub proof fn lemma_doc_tokens_written(d: Doc, config: FormatConfig, st: Layout)
    ensures
        tokens_written(render_doc(d, config, st), doc_tokens(d)),
    decreases d, 1int,
{
    lemma_entries_tokens_written(d.entries, decide(d, config, st.column()), config, st);
}

/// Every token of a tree stands in the text that the tree renders to,
/// unbroken and unchanged, whatever the width: a token wider than the
/// width is laid down as it is. This holds of each part of the token that
/// starts with something else than a space, and so of the token itself.
pub proof fn lemma_tokens_shown(d: Doc, config: FormatConfig, k: int, p: Seq<char>)
    requires
        0 <= k < doc_tokens(d).len(),
        solid(p),
        shows(doc_tokens(d)[k], p),
    ensures
        shows(rendered_text(d, config), p),
{
    let start = Layout::start(Alignment { depth: 0 });
    let st = render_doc(d, config, start);
    lemma_doc_tokens_written(d, config, start);
    assert(written(st, p));
    lemma_newline_written(st, st.indent);
    let last = st.newline(st.indent);
    assert(written(last, p));
    assert(last.text.len() == 0);
    assert(!shows(last.text, p)) by {
        if shows(last.text, p) {
            let j = choose|j: int| occurs_at(last.text, p, j);
        }
    }
    let line = choose|line: int| 0 <= line < last.lines.len() && shows(last.lines[line], p);
    lemma_join_shows(last.lines, line, p);
}

/// Where the options hold a threshold for brace-delimited groups, the
/// group of an enum, of a struct with named fields or of a union that has
/// at least as many variants or fields is split at every column and at
/// every width.
pub proof fn lemma_item_threshold(
    item: Item,
    gaps: Seq<Gap>,
    base_indent: Alignment,
    config: FormatConfig,
    st: Layout,
)
    requires
        item.marks_split(config.split_brace_threshold),
    ensures
        item.inner_built(gaps, base_indent, config).doc.split,
        decide(item.inner_built(gaps, base_indent, config).doc, config, st.column()),
{
    lemma_marked_group_splits(item.inner_built(gaps, base_indent, config).doc, config, st);
}

/// The same of a variant with named fields.
pub proof fn lemma_variant_threshold(
    variant: Variant,
    gaps: Seq<Gap>,
    base_indent: Alignment,
    config: FormatConfig,
    st: Layout,
)
    requires
        variant.fields.marks_split(config.split_brace_threshold),
    ensures
        variant.inner_built(gaps, base_indent, config).doc.split,
        decide(variant.inner_built(gaps, base_indent, config).doc, config, st.column()),
{
    lemma_marked_group_splits(variant.inner_built(gaps, base_indent, config).doc, config, st);
}

/// The same of a list of imports in braces.
pub proof fn lemma_use_threshold(
    tree: UseTree,
    gaps: Seq<Gap>,
    base_indent: Alignment,
    config: FormatConfig,
    st: Layout,
)
    requires
        tree.marks_split(config.split_brace_threshold),
    ensures
        tree.built(gaps, base_indent, config.split_brace_threshold).doc.split,
        decide(
            tree.built(gaps, base_indent, config.split_brace_threshold).doc,
            config,
            st.column(),
        ),
{
    lemma_marked_group_splits(
        tree.built(gaps, base_indent, config.split_brace_threshold).doc,
        config,
        st,
    );
}

/// With `split_where` set, a group that has taken a where clause must split
/// where nested groups are looked at: with `root_splits` set it is split at
/// every column and at every width, and so is every group that it is
/// nested in (see [`lemma_root_splits_propagate`]).
pub proof fn lemma_where_forces_split(
    generics: Generics,
    l: Laid,
    base_indent: Alignment,
    split: bool,
    config: FormatConfig,
    col: nat,
)
    requires
        generics.where_clause is Some,
        config.root_splits,
    ensures
        must_split(generics.where_onto(l, base_indent, true).built(split).doc, true),
        decide(generics.where_onto(l, base_indent, true).built(split).doc, config, col),
{
    let d = generics.where_onto(l, base_indent, true).built(split).doc;
    let wh = generics.where_clause->0.built(l.gaps, base_indent, true).doc;
    assert(wh.split);
    assert(d.entries.last() == DocEntry::Child(wh));
    assert(entry_forces_split(d.entries.last(), true));
}

} // verus!
