//! Finding the comments and blank lines between the tokens of a source.

use crate::text::from_chars;
use crate::text::to_chars;
use crate::whitespace::Comment;
use crate::whitespace::CommentMode;
use crate::whitespace::Gap;
use crate::whitespace::LineColumn;
use crate::whitespace::Whitespace;
use vstd::prelude::*;

verus! {

/// A comment as the scan finds it: where it starts, its form, whether the
/// source breaks the line behind it, and what stands between its marks.
pub struct CommentView {
    pub offset: int,
    pub mode: CommentMode,
    pub trailing_newline: bool,
    pub text: Seq<char>,
}

/// One thing found in a gap, as the scan finds it.
pub enum WhitespaceView {
    BlankLines,
    Comment(CommentView),
}

/// What the scan found, as it is kept for the token at `loc`.
pub open spec fn kept_as(found: WhitespaceView, item: Whitespace, loc: LineColumn) -> bool {
    match found {
        WhitespaceView::BlankLines => item == Whitespace::BlankLines,
        WhitespaceView::Comment(v) => {
            &&& item matches Whitespace::Comment(c)
            &&& c.loc == loc
            &&& c.offset == v.offset
            &&& c.mode == v.mode
            &&& c.trailing_newline == v.trailing_newline
            &&& c.text@ == v.text
        },
    }
}

/// `items` keep what the scan found, in order, for the token at `loc`.
pub open spec fn all_kept_as(found: Seq<WhitespaceView>, items: Seq<Whitespace>, loc: LineColumn)
    -> bool {
    &&& items.len() == found.len()
    &&& forall|i: int| 0 <= i < found.len() ==> kept_as(found[i], #[trigger] items[i], loc)
}

/// Whether the two characters `a`, `b` stand at index `i`, in front of
/// `end`.
pub open spec fn mark_at(s: Seq<char>, i: int, end: int, a: char, b: char) -> bool {
    0 <= i && i + 1 < end <= s.len() && s[i] == a && s[i + 1] == b
}

/// Whether a comment starts at index `i`.
pub open spec fn comment_at(s: Seq<char>, i: int, end: int) -> bool {
    mark_at(s, i, end, '/', '/') || mark_at(s, i, end, '/', '*')
}

/// The index of the first line feed at or behind `i`, or `end` if there is
/// none in front of `end`.
pub open spec fn line_end(s: Seq<char>, i: int, end: int) -> int
    decreases end - i,
{
    if i >= end || i < 0 || end > s.len() {
        end
    } else if s[i] == '\n' {
        i
    } else {
        line_end(s, i + 1, end)
    }
}

/// The index behind the mark that closes a block comment, scanned from
/// index `i` inside the comment, where `depth` more comments were opened
/// inside it; `end` if the comment is not closed in front of `end`.
pub open spec fn block_end(s: Seq<char>, i: int, end: int, depth: nat) -> int
    decreases end - i,
{
    if i >= end || i < 0 || end > s.len() {
        end
    } else if mark_at(s, i, end, '*', '/') {
        if depth == 0 {
            i + 2
        } else {
            block_end(s, i + 2, end, (depth - 1) as nat)
        }
    } else if mark_at(s, i, end, '/', '*') {
        block_end(s, i + 2, end, depth + 1)
    } else {
        block_end(s, i + 1, end, depth)
    }
}

/// Whether the block comment scanned from index `i` on is closed in front
/// of `end`.
pub open spec fn block_closed(s: Seq<char>, i: int, end: int, depth: nat) -> bool
    decreases end - i,
{
    if i >= end || i < 0 || end > s.len() {
        false
    } else if mark_at(s, i, end, '*', '/') {
        if depth == 0 {
            true
        } else {
            block_closed(s, i + 2, end, (depth - 1) as nat)
        }
    } else if mark_at(s, i, end, '/', '*') {
        block_closed(s, i + 2, end, depth + 1)
    } else {
        block_closed(s, i + 1, end, depth)
    }
}

/// The index at or behind `i` at which the next comment starts, or `end`
/// if none starts in front of `end`.
pub open spec fn run_end(s: Seq<char>, i: int, end: int) -> int
    decreases end - i,
{
    if i >= end || i < 0 || end > s.len() {
        end
    } else if comment_at(s, i, end) {
        i
    } else {
        run_end(s, i + 1, end)
    }
}

/// The number of line feeds from index `i` to `end`.
pub open spec fn line_feeds(s: Seq<char>, i: int, end: int) -> nat
    decreases end - i,
{
    if i >= end || i < 0 || end > s.len() {
        0
    } else {
        line_feeds(s, i + 1, end) + if s[i] == '\n' {
            1nat
        } else {
            0nat
        }
    }
}

/// The form of the line comment that starts at index `i`: a doc comment
/// where an exclamation mark, or one slash and no second one, follows the
/// two slashes.
pub open spec fn line_mode(s: Seq<char>, i: int, end: int) -> CommentMode {
    if i + 2 < end && s[i + 2] == '!' {
        CommentMode::DocInner
    } else if i + 2 < end && s[i + 2] == '/' && !(i + 3 < end && s[i + 3] == '/') {
        CommentMode::DocOuter
    } else {
        CommentMode::Normal
    }
}

/// The number of characters of the mark by which a line comment of the
/// given form starts.
pub open spec fn mark_len(mode: CommentMode) -> int {
    match mode {
        CommentMode::Normal => 2,
        CommentMode::Block => 2,
        _ => 3,
    }
}

/// The line comment that starts at index `i`: it ends in front of the line
/// feed that ends its line.
pub open spec fn line_comment(s: Seq<char>, i: int, end: int) -> CommentView {
    let mode = line_mode(s, i, end);
    CommentView {
        offset: i,
        mode,
        trailing_newline: true,
        text: s.subrange(i + mark_len(mode), line_end(s, i + mark_len(mode), end)),
    }
}

/// The block comment that starts at index `i`. Comments opened inside it
/// are part of it. Where it is not closed, it holds all that follows.
/// The source breaks the line behind it if a line feed stands between it
/// and the next comment or the end.
pub open spec fn block_comment(s: Seq<char>, i: int, end: int) -> CommentView {
    let e = block_end(s, i + 2, end, 0);
    CommentView {
        offset: i,
        mode: CommentMode::Block,
        trailing_newline: line_feeds(s, e, run_end(s, e, end)) > 0,
        text: s.subrange(
            i + 2,
            if block_closed(s, i + 2, end, 0) {
                e - 2
            } else {
                e
            },
        ),
    }
}

/// What stands in the gap from index `i` to `end`: comments, and runs of
/// blank lines. A run of characters between comments that holds two line
/// feeds or more holds a blank line.
pub open spec fn scan(s: Seq<char>, i: int, end: int) -> Seq<WhitespaceView>
    decreases end - i,
{
    if i >= end || i < 0 || end > s.len() {
        Seq::empty()
    } else if mark_at(s, i, end, '/', '/') {
        let e = line_end(s, i + 2, end);
        if i < e <= end {
            seq![WhitespaceView::Comment(line_comment(s, i, end))] + scan(s, e, end)
        } else {
            Seq::empty()
        }
    } else if mark_at(s, i, end, '/', '*') {
        let e = block_end(s, i + 2, end, 0);
        if i < e <= end {
            seq![WhitespaceView::Comment(block_comment(s, i, end))] + scan(s, e, end)
        } else {
            Seq::empty()
        }
    } else {
        let e = run_end(s, i, end);
        if i < e <= end {
            (if line_feeds(s, i, e) >= 2 {
                seq![WhitespaceView::BlankLines]
            } else {
                Seq::empty()
            }) + scan(s, e, end)
        } else {
            Seq::empty()
        }
    }
}

/// Whether the two characters `a`, `b` stand at index `i`, in front of
/// `end`.
fn has_mark(s: &Vec<char>, i: usize, end: usize, a: char, b: char) -> (r: bool)
    requires
        end <= s.len(),
    ensures
        r == mark_at(s@, i as int, end as int, a, b),
{
    i < end && end - i > 1 && s[i] == a && s[i + 1] == b
}

/// See [`line_end`].
fn find_line_end(s: &Vec<char>, i: usize, end: usize) -> (e: usize)
    requires
        i <= end <= s.len(),
    ensures
        e == line_end(s@, i as int, end as int),
        i <= e <= end,
{
    let mut j = i;
    while j < end && s[j] != '\n'
        invariant
            i <= j <= end <= s.len(),
            line_end(s@, j as int, end as int) == line_end(s@, i as int, end as int),
        decreases end - j,
    {
        j += 1;
    }
    j
}

/// See [`block_end`] and [`block_closed`].
fn find_block_end(s: &Vec<char>, i: usize, end: usize) -> (r: (usize, bool))
    requires
        i <= end <= s.len(),
    ensures
        r.0 == block_end(s@, i as int, end as int, 0),
        r.1 == block_closed(s@, i as int, end as int, 0),
        i <= r.0 <= end,
        r.1 ==> i + 2 <= r.0,
{
    let mut j = i;
    let mut depth: usize = 0;
    while j < end
        invariant
            i <= j <= end <= s.len(),
            depth <= j - i,
            block_end(s@, j as int, end as int, depth as nat) == block_end(
                s@,
                i as int,
                end as int,
                0,
            ),
            block_closed(s@, j as int, end as int, depth as nat) == block_closed(
                s@,
                i as int,
                end as int,
                0,
            ),
        decreases end - j,
    {
        if has_mark(s, j, end, '*', '/') {
            if depth == 0 {
                return (j + 2, true);
            }
            depth -= 1;
            j += 2;
        } else if has_mark(s, j, end, '/', '*') {
            depth += 1;
            j += 2;
        } else {
            j += 1;
        }
    }
    (end, false)
}

/// See [`run_end`] and [`line_feeds`]: the end of the run that starts at
/// `i`, and whether it holds at least `want` line feeds.
fn find_run_end(s: &Vec<char>, i: usize, end: usize, want: usize) -> (r: (usize, bool))
    requires
        i <= end <= s.len(),
    ensures
        r.0 == run_end(s@, i as int, end as int),
        r.1 == (line_feeds(s@, i as int, r.0 as int) >= want),
        i <= r.0 <= end,
        i < end && !comment_at(s@, i as int, end as int) ==> i < r.0,
{
    let mut j = i;
    let mut feeds: usize = 0;
    proof {
        lemma_line_feeds_split(s@, i as int, i as int, i as int);
    }
    while j < end && !(has_mark(s, j, end, '/', '/') || has_mark(s, j, end, '/', '*'))
        invariant
            i <= j <= end <= s.len(),
            run_end(s@, j as int, end as int) == run_end(s@, i as int, end as int),
            feeds <= j - i,
            feeds == line_feeds(s@, i as int, j as int),
            j == i ==> feeds == 0,
            j > i ==> !comment_at(s@, i as int, end as int),
        decreases end - j,
    {
        proof {
            lemma_line_feeds_split(s@, i as int, j as int, j + 1);
            assert(line_feeds(s@, j + 1, j + 1) == 0);
        }
        if s[j] == '\n' {
            feeds += 1;
        }
        j += 1;
    }
    (j, feeds >= want)
}

/// The line feeds of a stretch are those of its two parts.
pub proof fn lemma_line_feeds_split(s: Seq<char>, i: int, j: int, k: int)
    requires
        0 <= i <= j <= k <= s.len(),
    ensures
        line_feeds(s, i, k) == line_feeds(s, i, j) + line_feeds(s, j, k),
    decreases j - i,
{
    if i < j {
        lemma_line_feeds_split(s, i + 1, j, k);
    }
}

/// What stands in the gap from index `from` to `end` of the source `s`,
/// kept for the token at `loc`: see [`scan`].
pub fn scan_gap(s: &Vec<char>, from: usize, end: usize, loc: LineColumn) -> (items: Vec<
    Whitespace,
>)
    requires
        from <= end <= s.len(),
    ensures
        all_kept_as(scan(s@, from as int, end as int), items@, loc),
{
    let mut items: Vec<Whitespace> = Vec::new();
    let mut i = from;
    let ghost mut found: Seq<WhitespaceView> = Seq::empty();
    assert(found + scan(s@, i as int, end as int) =~= scan(s@, from as int, end as int));
    while i < end
        invariant
            from <= i <= end <= s.len(),
            all_kept_as(found, items@, loc),
            found + scan(s@, i as int, end as int) == scan(s@, from as int, end as int),
        decreases end - i,
    {
        let ghost rest = scan(s@, i as int, end as int);
        if has_mark(s, i, end, '/', '/') {
            let bang = end - i > 2 && s[i + 2] == '!';
            let slash = end - i > 2 && s[i + 2] == '/' && !(end - i > 3 && s[i + 3] == '/');
            let mode = if bang {
                CommentMode::DocInner
            } else if slash {
                CommentMode::DocOuter
            } else {
                CommentMode::Normal
            };
            let skip: usize = if bang || slash {
                3
            } else {
                2
            };
            let e = find_line_end(s, i + skip, end);
            let e2 = find_line_end(s, i + 2, end);
            proof {
                if skip == 3 {
                    assert(s@[i + 2] != '\n');
                    assert(line_end(s@, i + 2, end as int) == line_end(s@, i + 3, end as int));
                }
            }
            let text = from_chars(s, i + skip, e);
            let ghost v = line_comment(s@, i as int, end as int);
            let c = Comment { loc, offset: i, mode, trailing_newline: true, text };
            items.push(Whitespace::Comment(c));
            proof {
                found = found.push(WhitespaceView::Comment(v));
                assert(rest == seq![WhitespaceView::Comment(v)] + scan(s@, e as int, end as int));
                assert(found + scan(s@, e as int, end as int) =~= scan(
                    s@,
                    from as int,
                    end as int,
                ));
            }
            i = e;
        } else if has_mark(s, i, end, '/', '*') {
            let (e, closed) = find_block_end(s, i + 2, end);
            let (r, feeds) = find_run_end(s, e, end, 1);
            let stop = if closed {
                e - 2
            } else {
                e
            };
            let text = from_chars(s, i + 2, stop);
            let ghost v = block_comment(s@, i as int, end as int);
            let c = Comment { loc, offset: i, mode: CommentMode::Block, trailing_newline: feeds, text };
            items.push(Whitespace::Comment(c));
            proof {
                found = found.push(WhitespaceView::Comment(v));
                assert(rest == seq![WhitespaceView::Comment(v)] + scan(s@, e as int, end as int));
                assert(found + scan(s@, e as int, end as int) =~= scan(
                    s@,
                    from as int,
                    end as int,
                ));
            }
            i = e;
        } else {
            let (e, blank) = find_run_end(s, i, end, 2);
            if blank {
                items.push(Whitespace::BlankLines);
                proof {
                    found = found.push(WhitespaceView::BlankLines);
                }
            }
            proof {
                assert(found + scan(s@, e as int, end as int) =~= scan(
                    s@,
                    from as int,
                    end as int,
                ));
            }
            i = e;
        }
    }
    proof {
        assert(found + Seq::<WhitespaceView>::empty() =~= found);
    }
    items
}

/// Where a token stands in the source: from its first character to behind
/// its last.
#[derive(Clone, Copy, Debug, PartialEq, Eq, Structural)]
pub struct TokenSpan {
    pub start: LineColumn,
    pub end: LineColumn,
}

/// The place under which the comments behind the last token of a source
/// are kept.
pub open spec fn end_of_file() -> LineColumn {
    LineColumn { line: 0, column: 1 }
}

/// The index of the first character of line `line`, counted from 1; the
/// length of the source where it has no such line.
pub open spec fn line_start(s: Seq<char>, line: int) -> int
    decreases line,
{
    if line <= 1 {
        0
    } else {
        let e = line_end(s, line_start(s, line - 1), s.len() as int);
        if 0 <= e < s.len() {
            e + 1
        } else {
            s.len() as int
        }
    }
}

/// The index of the character at a place; the length of the source where
/// the place lies behind its end.
pub open spec fn offset_of(s: Seq<char>, loc: LineColumn) -> int {
    let at = line_start(s, loc.line as int) + loc.column;
    if at <= s.len() {
        at
    } else {
        s.len() as int
    }
}

/// Where gap `k` starts: at the start of the source, or behind token
/// `k - 1`.
pub open spec fn gap_from(s: Seq<char>, tokens: Seq<TokenSpan>, k: int) -> int {
    if k <= 0 {
        0
    } else {
        offset_of(s, tokens[k - 1].end)
    }
}

/// Where gap `k` ends: in front of token `k`, or at the end of the source.
pub open spec fn gap_to(s: Seq<char>, tokens: Seq<TokenSpan>, k: int) -> int {
    if k < tokens.len() {
        offset_of(s, tokens[k].start)
    } else {
        s.len() as int
    }
}

/// The place for which gap `k` is kept: the start of token `k` or, behind
/// the last token, the end of the file.
pub open spec fn gap_loc(tokens: Seq<TokenSpan>, k: int) -> LineColumn {
    if k < tokens.len() {
        tokens[k].start
    } else {
        end_of_file()
    }
}

/// What stands in gap `k`.
pub open spec fn gap_found(s: Seq<char>, tokens: Seq<TokenSpan>, k: int) -> Seq<WhitespaceView> {
    scan(s, gap_from(s, tokens, k), gap_to(s, tokens, k))
}

/// The first `n` gaps in which something stands, each with its place.
pub open spec fn gaps_found(s: Seq<char>, tokens: Seq<TokenSpan>, n: nat) -> Seq<
    (LineColumn, Seq<WhitespaceView>),
>
    decreases n,
{
    if n == 0 {
        Seq::empty()
    } else {
        let before = gaps_found(s, tokens, (n - 1) as nat);
        let found = gap_found(s, tokens, n - 1);
        if found.len() > 0 {
            before.push((gap_loc(tokens, n - 1), found))
        } else {
            before
        }
    }
}

/// `gaps` keep what was found, in order.
pub open spec fn gaps_kept_as(found: Seq<(LineColumn, Seq<WhitespaceView>)>, gaps: Seq<Gap>)
    -> bool {
    &&& gaps.len() == found.len()
    &&& forall|i: int|
        0 <= i < found.len() ==> (#[trigger] gaps[i]).loc == found[i].0 && all_kept_as(
            found[i].1,
            gaps[i].items@,
            found[i].0,
        )
}

/// Behind the last line every line starts at the end of the source.
proof fn lemma_line_start_end(s: Seq<char>, last: int, line: int)
    requires
        1 <= last <= line,
        line_end(s, line_start(s, last), s.len() as int) == s.len(),
    ensures
        line > last ==> line_start(s, line) == s.len(),
    decreases line - last,
{
    if line > last {
        lemma_line_start_end(s, last, line - 1);
        if line - 1 > last {
            assert(line_end(s, s.len() as int, s.len() as int) == s.len());
        }
    }
}

/// The index of the first character of each line of the source.
fn line_starts(s: &Vec<char>) -> (starts: Vec<usize>)
    ensures
        starts.len() >= 1,
        forall|k: int| 0 <= k < starts.len() ==> (#[trigger] starts[k]) == line_start(s@, k + 1),
        forall|k: int| 0 <= k < starts.len() ==> (#[trigger] starts[k]) <= s.len(),
        forall|line: int| line > starts.len() ==> line_start(s@, line) == s.len(),
{
    let mut starts: Vec<usize> = Vec::new();
    starts.push(0);
    let mut p: usize = 0;
    loop
        invariant
            starts.len() >= 1,
            p <= s.len(),
            p == starts[starts.len() - 1],
            forall|k: int|
                0 <= k < starts.len() ==> (#[trigger] starts[k]) == line_start(s@, k + 1),
            forall|k: int| 0 <= k < starts.len() ==> (#[trigger] starts[k]) <= s.len(),
        ensures
            starts.len() >= 1,
            forall|k: int|
                0 <= k < starts.len() ==> (#[trigger] starts[k]) == line_start(s@, k + 1),
            forall|k: int| 0 <= k < starts.len() ==> (#[trigger] starts[k]) <= s.len(),
            line_end(s@, line_start(s@, starts.len() as int), s.len() as int) == s.len(),
        decreases s.len() - p,
    {
        let e = find_line_end(s, p, s.len());
        if e < s.len() {
            p = e + 1;
            starts.push(p);
        } else {
            break ;
        }
    }
    proof {
        assert forall|line: int| line > starts.len() implies line_start(s@, line) == s.len() by {
            lemma_line_start_end(s@, starts.len() as int, line);
        }
    }
    starts
}

/// See [`offset_of`].
fn offset_at(s: &Vec<char>, starts: &Vec<usize>, loc: LineColumn) -> (at: usize)
    requires
        starts.len() >= 1,
        forall|k: int| 0 <= k < starts.len() ==> (#[trigger] starts[k]) == line_start(s@, k + 1),
        forall|k: int| 0 <= k < starts.len() ==> (#[trigger] starts[k]) <= s.len(),
        forall|line: int| line > starts.len() ==> line_start(s@, line) == s.len(),
    ensures
        at == offset_of(s@, loc),
        at <= s.len(),
{
    let start = if loc.line <= 1 {
        0
    } else if loc.line - 1 < starts.len() {
        starts[loc.line - 1]
    } else {
        s.len()
    };
    assert(start == line_start(s@, loc.line as int));
    if loc.column <= s.len() - start {
        start + loc.column
    } else {
        s.len()
    }
}

/// The comments and blank lines between the tokens of a source. `tokens`
/// holds the tokens in the order of the source. Each gap — in front of the
/// first token, between two tokens, behind the last — is scanned (see
/// [`scan`]); what is found is kept for the token that follows or, behind
/// the last token, for the end of the file. Gaps in which nothing stands
/// are left out.
pub fn extract_whitespaces(source: &str, tokens: &Vec<TokenSpan>) -> (gaps: Vec<Gap>)
    ensures
        gaps_kept_as(gaps_found(source@, tokens@, (tokens.len() + 1) as nat), gaps@),
{
    let s = to_chars(source);
    let starts = line_starts(&s);
    let mut gaps: Vec<Gap> = Vec::new();
    let mut k: usize = 0;
    let mut from: usize = 0;
    while k < tokens.len()
        invariant
            k <= tokens.len(),
            s@ == source@,
            starts.len() >= 1,
            forall|j: int|
                0 <= j < starts.len() ==> (#[trigger] starts[j]) == line_start(s@, j + 1),
            forall|j: int| 0 <= j < starts.len() ==> (#[trigger] starts[j]) <= s.len(),
            forall|line: int| line > starts.len() ==> line_start(s@, line) == s.len(),
            from == gap_from(s@, tokens@, k as int),
            from <= s.len(),
            gaps_kept_as(gaps_found(s@, tokens@, k as nat), gaps@),
        decreases tokens.len() - k,
    {
        let to = offset_at(&s, &starts, tokens[k].start);
        let loc = tokens[k].start;
        if from < to {
            let items = scan_gap(&s, from, to, loc);
            if items.len() > 0 {
                gaps.push(Gap { loc, items });
            }
        }
        from = offset_at(&s, &starts, tokens[k].end);
        k += 1;
    }
    let loc = LineColumn { line: 0, column: 1 };
    if from < s.len() {
        let items = scan_gap(&s, from, s.len(), loc);
        if items.len() > 0 {
            gaps.push(Gap { loc, items });
        }
    }
    gaps
}

} // verus!
