//! Greedy word wrap of comment text.

use crate::text::from_chars;
use crate::text::line_views;
use crate::text::word_views;
use crate::text::to_chars;
use crate::whitespace::Comment;
use crate::whitespace::CommentMode;
use vstd::prelude::*;
use vstd::string::StringExecFns;

verus! {

/// The characters that separate words.
pub open spec fn is_space(c: char) -> bool {
    c == ' ' || c == '\t' || c == '\n' || c == '\r'
}

/// Exec form of [`is_space`].
pub fn is_space_char(c: char) -> (b: bool)
    ensures
        b == is_space(c),
{
    c == ' ' || c == '\t' || c == '\n' || c == '\r'
}

/// The words of `s`: its maximal runs of characters that are no spaces, in
/// order.
pub open spec fn words(s: Seq<char>) -> Seq<Seq<char>>
    decreases s.len(),
{
    if s.len() == 0 {
        Seq::empty()
    } else {
        let before = words(s.drop_last());
        if is_space(s.last()) {
            before
        } else if s.len() >= 2 && !is_space(s[s.len() - 2]) && before.len() > 0 {
            before.drop_last().push(before.last().push(s.last()))
        } else {
            before.push(seq![s.last()])
        }
    }
}

/// Greedy wrap: each word goes to the end of the last line, after one space,
/// if the line then holds at most `width` characters, and starts a new line
/// if not.
pub open spec fn wrap(ws: Seq<Seq<char>>, width: nat) -> Seq<Seq<char>>
    decreases ws.len(),
{
    if ws.len() == 0 {
        Seq::empty()
    } else {
        let before = wrap(ws.drop_last(), width);
        let w = ws.last();
        if before.len() > 0 && before.last().len() + 1 + w.len() <= width {
            before.drop_last().push(before.last() + seq![' '] + w)
        } else {
            before.push(w)
        }
    }
}

/// No line of a wrap is wider than `width`, but one that is a single word of
/// the input.
pub proof fn lemma_wrap_width(ws: Seq<Seq<char>>, width: nat)
    ensures
        forall|i: int|
            0 <= i < wrap(ws, width).len() ==> (#[trigger] wrap(ws, width)[i]).len() <= width
                || ws.contains(wrap(ws, width)[i]),
    decreases ws.len(),
{
    if ws.len() > 0 {
        let init = ws.drop_last();
        lemma_wrap_width(init, width);
        let before = wrap(init, width);
        let after = wrap(ws, width);
        assert forall|i: int| 0 <= i < after.len() implies (#[trigger] after[i]).len() <= width
            || ws.contains(after[i]) by {
            if i < before.len() && after[i] == before[i] {
                if before[i].len() > width {
                    let k = choose|k: int| 0 <= k < init.len() && init[k] == before[i];
                    assert(ws[k] == before[i]);
                }
            } else if after[i] == ws.last() {
                assert(ws[ws.len() - 1] == after[i]);
            }
        }
    }
}

/// The words of `text`.
pub fn split_words(text: &Vec<char>) -> (ws: Vec<Vec<char>>)
    ensures
        word_views(ws@) == words(text@),
{
    let mut ws: Vec<Vec<char>> = Vec::new();
    let mut i: usize = 0;
    assert(text@.take(0) =~= Seq::<char>::empty());
    assert(word_views(ws@) =~= Seq::<Seq<char>>::empty());
    while i < text.len()
        invariant
            i <= text.len(),
            word_views(ws@) == words(text@.take(i as int)),
        decreases text.len() - i,
    {
        let c = text[i];
        let ghost before = word_views(ws@);
        let ghost s = text@.take(i + 1);
        assert(s.drop_last() =~= text@.take(i as int));
        assert(s.last() == c);
        if is_space_char(c) {
        } else if i > 0 && !is_space_char(text[i - 1]) && ws.len() > 0 {
            let n = ws.len() - 1;
            assert(s[s.len() - 2] == text@[i - 1]);
            ws[n].push(c);
            assert(word_views(ws@) =~= before.drop_last().push(before.last().push(c)));
        } else {
            if i > 0 {
                assert(s[s.len() - 2] == text@[i - 1]);
            }
            let mut w: Vec<char> = Vec::new();
            w.push(c);
            ws.push(w);
            assert(word_views(ws@) =~= before.push(seq![c]));
        }
        i += 1;
    }
    assert(text@.take(i as int) =~= text@);
    ws
}

/// The lines of the greedy wrap of `ws` at `width`.
pub fn wrap_words(ws: &Vec<Vec<char>>, width: usize) -> (lines: Vec<String>)
    ensures
        line_views(lines@) == wrap(word_views(ws@), width as nat),
{
    let mut lines: Vec<String> = Vec::new();
    let mut cur = String::new();
    let mut cur_len: usize = 0;
    let mut started = false;
    let mut i: usize = 0;
    let ghost all = word_views(ws@);
    assert(all.take(0) =~= Seq::<Seq<char>>::empty());
    assert(line_views(lines@) =~= Seq::<Seq<char>>::empty());
    while i < ws.len()
        invariant
            i <= ws.len(),
            all == word_views(ws@),
            cur_len == cur@.len(),
            !started ==> lines@.len() == 0,
            !started ==> line_views(lines@) == wrap(all.take(i as int), width as nat),
            started ==> line_views(lines@).push(cur@) == wrap(all.take(i as int), width as nat),
        decreases ws.len() - i,
    {
        let w = &ws[i];
        let ghost so_far = all.take(i + 1);
        let ghost before = wrap(all.take(i as int), width as nat);
        assert(so_far.drop_last() =~= all.take(i as int));
        assert(so_far.last() == w@);
        let piece = from_chars(w, 0, w.len());
        assert(piece@ =~= w@);
        if started && cur_len < width && w.len() <= width - cur_len - 1 {
            let ghost line = cur@;
            proof {
                reveal_strlit(" ");
            }
            cur.append(" ");
            cur.append(piece.as_str());
            assert(" "@ =~= seq![' ']);
            assert(cur@ =~= line + seq![' '] + w@);
            cur_len = cur_len + 1 + w.len();
            assert(before.drop_last() =~= line_views(lines@));
            assert(before.last() == line);
            assert(line_views(lines@).push(cur@) == wrap(so_far, width as nat));
        } else {
            if started {
                let ghost done = line_views(lines@);
                lines.push(cur);
                assert(line_views(lines@) =~= done.push(cur@));
            }
            cur = piece;
            cur_len = w.len();
            started = true;
            assert(line_views(lines@).push(cur@) == wrap(so_far, width as nat));
        }
        i += 1;
    }
    assert(all.take(i as int) =~= all);
    if started {
        let ghost done = line_views(lines@);
        lines.push(cur);
        assert(line_views(lines@) =~= done.push(cur@));
    }
    lines
}

/// The mark that opens a comment of the given form.
pub open spec fn comment_mark(mode: CommentMode) -> Seq<char> {
    match mode {
        CommentMode::Normal => seq!['/', '/'],
        CommentMode::DocInner => seq!['/', '/', '!'],
        CommentMode::DocOuter => seq!['/', '/', '/'],
        CommentMode::Block => seq!['/', '*'],
    }
}

/// The room that a comment's words have on a line of `width` columns, behind
/// the mark and one space.
pub open spec fn words_room(mode: CommentMode, width: nat) -> nat {
    if width > comment_mark(mode).len() + 1 {
        (width - comment_mark(mode).len() - 1) as nat
    } else {
        0
    }
}

/// The lines a comment takes where it stands on lines of its own. A block
/// comment is kept as it is. A line comment is kept as it is where no width
/// is set; else its words are wrapped, each line starting with the mark and
/// one space, at a width counted from the mark.
pub open spec fn comment_lines(c: Comment, width: Option<usize>) -> Seq<Seq<char>> {
    if c.mode == CommentMode::Block {
        seq![comment_mark(c.mode) + c.text@ + seq!['*', '/']]
    } else {
        match width {
            None => seq![comment_mark(c.mode) + c.text@],
            Some(w) => if words(c.text@).len() == 0 {
                seq![comment_mark(c.mode)]
            } else {
                wrap(words(c.text@), words_room(c.mode, w as nat)).map_values(
                    |l: Seq<char>| comment_mark(c.mode) + seq![' '] + l,
                )
            },
        }
    }
}

/// The mark of a comment of the given form, as text.
fn mark_text(mode: CommentMode) -> (s: String)
    ensures
        s@ == comment_mark(mode),
{
    proof {
        reveal_strlit("//");
        reveal_strlit("//!");
        reveal_strlit("///");
        reveal_strlit("/*");
    }
    let s = match mode {
        CommentMode::Normal => String::from_str("//"),
        CommentMode::DocInner => String::from_str("//!"),
        CommentMode::DocOuter => String::from_str("///"),
        CommentMode::Block => String::from_str("/*"),
    };
    assert(s@ =~= comment_mark(mode));
    s
}

/// The lines of [`comment_lines`].
pub fn format_comment(c: &Comment, width: Option<usize>) -> (lines: Vec<String>)
    ensures
        line_views(lines@) == comment_lines(*c, width),
{
    let mut lines: Vec<String> = Vec::new();
    let mut first = mark_text(c.mode);
    match c.mode {
        CommentMode::Block => {
            proof {
                reveal_strlit("*/");
            }
            first.append(c.text.as_str());
            first.append("*/");
            assert(first@ =~= comment_mark(c.mode) + c.text@ + seq!['*', '/']);
            lines.push(first);
            assert(line_views(lines@) =~= comment_lines(*c, width));
        },
        _ => {
            match width {
                None => {
                    first.append(c.text.as_str());
                    lines.push(first);
                    assert(line_views(lines@) =~= comment_lines(*c, width));
                },
                Some(w) => {
                    let chars = to_chars(c.text.as_str());
                    let ws = split_words(&chars);
                    if ws.len() == 0 {
                        lines.push(first);
                        assert(line_views(lines@) =~= comment_lines(*c, width));
                    } else {
                        let mark_len = first.as_str().unicode_len();
                        let room = if w > mark_len + 1 {
                            w - mark_len - 1
                        } else {
                            0
                        };
                        let wrapped = wrap_words(&ws, room);
                        let ghost f = |l: Seq<char>| comment_mark(c.mode) + seq![' '] + l;
                        let mut i: usize = 0;
                        assert(line_views(wrapped@).take(0).map_values(f) =~= line_views(lines@));
                        while i < wrapped.len()
                            invariant
                                i <= wrapped.len(),
                                first@ == comment_mark(c.mode),
                                f == |l: Seq<char>| comment_mark(c.mode) + seq![' '] + l,
                                line_views(lines@) == line_views(wrapped@).take(i as int).map_values(
                                    f,
                                ),
                            decreases wrapped.len() - i,
                        {
                            proof {
                                reveal_strlit(" ");
                            }
                            let ghost done = line_views(lines@);
                            let mut line = first.clone();
                            line.append(" ");
                            line.append(wrapped[i].as_str());
                            assert(line@ =~= f(line_views(wrapped@)[i as int]));
                            lines.push(line);
                            i += 1;
                            assert(line_views(wrapped@).take(i as int).map_values(f)
                                =~= line_views(wrapped@).take(i - 1).map_values(f).push(
                                f(line_views(wrapped@)[i - 1]),
                            ));
                            assert(line_views(lines@) =~= done.push(line@));
                        }
                        assert(line_views(wrapped@).take(i as int) =~= line_views(wrapped@));
                    }
                },
            }
        },
    }
    lines
}

/// Whether `w` can be a word: it holds a character, and no space.
pub open spec fn proper(w: Seq<char>) -> bool {
    w.len() > 0 && forall|i: int| 0 <= i < w.len() ==> !is_space(#[trigger] w[i])
}

/// Whether all of `ws` can be words.
pub open spec fn all_proper(ws: Seq<Seq<char>>) -> bool {
    forall|i: int| 0 <= i < ws.len() ==> proper(#[trigger] ws[i])
}

/// The words on one line, a space apart.
pub open spec fn on_one_line(ws: Seq<Seq<char>>) -> Seq<char>
    decreases ws.len(),
{
    if ws.len() == 0 {
        Seq::empty()
    } else if ws.len() == 1 {
        ws[0]
    } else {
        on_one_line(ws.drop_last()) + seq![' '] + ws.last()
    }
}

/// The words of each line of a wrap: see [`wrap`].
pub open spec fn wrap_runs(ws: Seq<Seq<char>>, width: nat) -> Seq<Seq<Seq<char>>>
    decreases ws.len(),
{
    if ws.len() == 0 {
        Seq::empty()
    } else {
        let before = wrap_runs(ws.drop_last(), width);
        let w = ws.last();
        if before.len() > 0 && on_one_line(before.last()).len() + 1 + w.len() <= width {
            before.drop_last().push(before.last().push(w))
        } else {
            before.push(seq![w])
        }
    }
}

/// The words of a text can be words.
pub proof fn lemma_words_proper(s: Seq<char>)
    ensures
        all_proper(words(s)),
    decreases s.len(),
{
    if s.len() > 0 {
        lemma_words_proper(s.drop_last());
        let before = words(s.drop_last());
        let now = words(s);
        assert forall|i: int| 0 <= i < now.len() implies proper(#[trigger] now[i]) by {
            if i < before.len() && now[i] == before[i] {
            } else if !is_space(s.last()) {
                if s.len() >= 2 && !is_space(s[s.len() - 2]) && before.len() > 0 {
                    assert(i == before.len() - 1);
                    assert(proper(before[i]));
                    assert forall|j: int| 0 <= j < now[i].len() implies !is_space(
                        #[trigger] now[i][j],
                    ) by {
                        if j < before[i].len() {
                            assert(now[i][j] == before[i][j]);
                        }
                    }
                }
            }
        }
    }
}

/// Behind a text and a space, the first characters of a word are a word of
/// their own.
proof fn lemma_words_grow(s: Seq<char>, w: Seq<char>, k: int)
    requires
        proper(w),
        1 <= k <= w.len(),
    ensures
        words(s + seq![' '] + w.take(k)) == words(s).push(w.take(k)),
        words(w.take(k)) == seq![w.take(k)],
    decreases k,
{
    let t = s + seq![' '] + w.take(k);
    let u = w.take(k);
    assert(t.last() == w[k - 1]);
    assert(u.last() == w[k - 1]);
    assert(!is_space(w[k - 1]));
    if k == 1 {
        assert(t.drop_last() =~= s + seq![' ']);
        assert((s + seq![' ']).drop_last() =~= s);
        assert((s + seq![' ']).last() == ' ');
        assert(words(s + seq![' ']) == words(s));
        assert(t[t.len() - 2] == ' ');
        assert(w.take(1) =~= seq![w[0]]);
        assert(u.drop_last() =~= Seq::<char>::empty());
        assert(words(Seq::<char>::empty()) =~= Seq::<Seq<char>>::empty());
        assert(words(u) =~= seq![u]);
    } else {
        lemma_words_grow(s, w, k - 1);
        assert(t.drop_last() =~= s + seq![' '] + w.take(k - 1));
        assert(u.drop_last() =~= w.take(k - 1));
        assert(t[t.len() - 2] == w[k - 2]);
        assert(u[u.len() - 2] == w[k - 2]);
        assert(!is_space(w[k - 2]));
        assert(w.take(k - 1).push(w[k - 1]) =~= w.take(k));
        assert(words(s).push(w.take(k - 1)).drop_last() =~= words(s));
        assert(words(t) =~= words(s).push(w.take(k)));
        assert(seq![w.take(k - 1)].drop_last() =~= Seq::<Seq<char>>::empty());
        assert(words(u) =~= seq![u]);
    }
}

/// The words of a line of words behind a space are those words.
pub proof fn lemma_words_of_line(run: Seq<Seq<char>>)
    requires
        run.len() > 0,
        all_proper(run),
    ensures
        words(seq![' '] + on_one_line(run)) == run,
    decreases run.len(),
{
    let w = run.last();
    assert(proper(w));
    assert(w.take(w.len() as int) =~= w);
    if run.len() == 1 {
        lemma_words_grow(Seq::empty(), w, w.len() as int);
        assert(Seq::<char>::empty() + seq![' '] + w =~= seq![' '] + on_one_line(run));
        assert(words(Seq::<char>::empty()) =~= Seq::<Seq<char>>::empty());
        assert(words(seq![' '] + on_one_line(run)) =~= run);
    } else {
        let init = run.drop_last();
        assert forall|i: int| 0 <= i < init.len() implies proper(#[trigger] init[i]) by {
            assert(init[i] == run[i]);
        }
        lemma_words_of_line(init);
        let s = seq![' '] + on_one_line(init);
        lemma_words_grow(s, w, w.len() as int);
        assert(s + seq![' '] + w =~= seq![' '] + on_one_line(run));
        assert(init.push(w) =~= run);
    }
}

/// The lines of a wrap are the words of [`wrap_runs`], line by line, a
/// space apart; each line holds a word; and a line that holds more than one
/// word is not wider than the width.
pub proof fn lemma_wrap_runs(ws: Seq<Seq<char>>, width: nat)
    requires
        all_proper(ws),
    ensures
        wrap(ws, width).len() == wrap_runs(ws, width).len(),
        forall|i: int|
            0 <= i < wrap(ws, width).len() ==> {
                &&& (#[trigger] wrap(ws, width)[i]) == on_one_line(wrap_runs(ws, width)[i])
                &&& wrap_runs(ws, width)[i].len() > 0
                &&& all_proper(wrap_runs(ws, width)[i])
                &&& (wrap_runs(ws, width)[i].len() == 1 || wrap(ws, width)[i].len() <= width)
            },
    decreases ws.len(),
{
    if ws.len() > 0 {
        let init = ws.drop_last();
        assert forall|i: int| 0 <= i < init.len() implies proper(#[trigger] init[i]) by {
            assert(init[i] == ws[i]);
        }
        lemma_wrap_runs(init, width);
        let w = ws.last();
        assert(proper(w));
        let lines = wrap(init, width);
        let runs = wrap_runs(init, width);
        let now = wrap(ws, width);
        let now_runs = wrap_runs(ws, width);
        if lines.len() > 0 {
            assert(lines.last() == on_one_line(runs.last()));
        }
        assert forall|i: int| 0 <= i < now.len() implies {
            &&& (#[trigger] now[i]) == on_one_line(now_runs[i])
            &&& now_runs[i].len() > 0
            &&& all_proper(now_runs[i])
            &&& (now_runs[i].len() == 1 || now[i].len() <= width)
        } by {
            if lines.len() > 0 && lines.last().len() + 1 + w.len() <= width {
                if i == lines.len() - 1 {
                    let run = runs.last();
                    assert(now_runs[i] == run.push(w));
                    assert(run.push(w).drop_last() =~= run);
                    assert(now[i] =~= on_one_line(run.push(w)));
                    assert forall|j: int| 0 <= j < now_runs[i].len() implies proper(
                        #[trigger] now_runs[i][j],
                    ) by {
                        if j < run.len() {
                            assert(now_runs[i][j] == run[j]);
                        }
                    }
                } else {
                    assert(now[i] == lines[i]);
                    assert(now_runs[i] == runs[i]);
                }
            } else {
                if i == lines.len() {
                    assert(now_runs[i] =~= seq![w]);
                    assert(now[i] == w);
                } else {
                    assert(now[i] == lines[i]);
                    assert(now_runs[i] == runs[i]);
                }
            }
        }
    }
}

/// Words that stand on one line that is not wider than the width, or one
/// word alone, are wrapped as that one line.
pub proof fn lemma_wrap_of_line(run: Seq<Seq<char>>, width: nat)
    requires
        run.len() > 0,
        run.len() == 1 || on_one_line(run).len() <= width,
    ensures
        wrap(run, width) == seq![on_one_line(run)],
    decreases run.len(),
{
    let init = run.drop_last();
    if run.len() == 1 {
        assert(wrap(init, width) =~= Seq::<Seq<char>>::empty());
        assert(wrap(run, width) =~= seq![on_one_line(run)]);
    } else {
        lemma_wrap_of_line(init, width);
        assert(seq![on_one_line(init)].drop_last() =~= Seq::<Seq<char>>::empty());
        assert(wrap(run, width) =~= seq![on_one_line(run)]);
    }
}

/// The words of all the lines, in order.
pub open spec fn all_words(runs: Seq<Seq<Seq<char>>>) -> Seq<Seq<char>>
    decreases runs.len(),
{
    if runs.len() == 0 {
        Seq::empty()
    } else {
        all_words(runs.drop_last()) + runs.last()
    }
}

/// A wrap holds the words that were wrapped, in their order, and no
/// others.
pub proof fn lemma_wrap_keeps_words(ws: Seq<Seq<char>>, width: nat)
    ensures
        all_words(wrap_runs(ws, width)) == ws,
    decreases ws.len(),
{
    if ws.len() > 0 {
        let init = ws.drop_last();
        lemma_wrap_keeps_words(init, width);
        let before = wrap_runs(init, width);
        let w = ws.last();
        if before.len() > 0 && on_one_line(before.last()).len() + 1 + w.len() <= width {
            let now = before.drop_last().push(before.last().push(w));
            assert(now.drop_last() =~= before.drop_last());
            assert(all_words(now) =~= all_words(before.drop_last()) + before.last().push(w));
            assert(all_words(before) =~= all_words(before.drop_last()) + before.last());
            assert(all_words(now) =~= init.push(w));
        } else {
            let now = before.push(seq![w]);
            assert(now.drop_last() =~= before);
            assert(all_words(now) =~= init.push(w));
        }
        assert(init.push(w) =~= ws);
    } else {
        assert(all_words(wrap_runs(ws, width)) =~= ws);
    }
}

/// Reflowing settles: a line of a reflowed line comment, read as a comment
/// of the same form, is reflowed to that one line.
pub proof fn lemma_reflow_settles(c: Comment, again: Comment, width: usize, i: int)
    requires
        c.mode != CommentMode::Block,
        again.mode == c.mode,
        0 <= i < comment_lines(c, Some(width)).len(),
        comment_mark(c.mode) + again.text@ == comment_lines(c, Some(width))[i],
    ensures
        comment_lines(again, Some(width)) == seq![comment_lines(c, Some(width))[i]],
{
    let mark = comment_mark(c.mode);
    let room = words_room(c.mode, width as nat);
    let ws = words(c.text@);
    let line = comment_lines(c, Some(width))[i];
    assert(again.text@ =~= line.skip(mark.len() as int)) by {
        assert((mark + again.text@).skip(mark.len() as int) =~= again.text@);
    }
    if ws.len() == 0 {
        assert(line == mark);
        assert(again.text@ =~= Seq::<char>::empty());
        assert(words(again.text@) =~= Seq::<Seq<char>>::empty());
    } else {
        lemma_words_proper(c.text@);
        lemma_wrap_runs(ws, room);
        let body = wrap(ws, room)[i];
        let run = wrap_runs(ws, room)[i];
        assert(line == mark + seq![' '] + body);
        assert(again.text@ =~= seq![' '] + body) by {
            assert((mark + seq![' '] + body).skip(mark.len() as int) =~= seq![' '] + body);
        }
        lemma_words_of_line(run);
        lemma_wrap_of_line(run, room);
        assert(wrap(run, room).map_values(|l: Seq<char>| mark + seq![' '] + l) =~= seq![line]);
    }
}

} // verus!
