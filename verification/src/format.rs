//! The outcome of a format call.

use crate::arena::expand;
use crate::arena::expand_prefix;
use crate::arena::held;
use crate::arena::held_below;
use crate::arena::held_comments;
use crate::arena::lemma_loose_two;
use crate::arena::loose_below;
use crate::arena::lemma_no_comments;
use crate::arena::segment_ok;
use crate::arena::MakeSegsState;
use crate::arena::Segment;
use crate::arena::SplitGroup;
use crate::arena::SplitGroupIdx;
use crate::config::FormatConfig;
use crate::layout::rendered_text;
use crate::model::code_text;
use crate::model::Alignment;
use crate::sg_general::Built;
use crate::syntax::File;
use crate::model::doc_comments;
use crate::model::entries_comments;
use crate::model::entry_comments;
use crate::model::DocEntry;
use crate::render::lemma_expand_entry;
use crate::render::lemma_expand_len;
use crate::render::render;
use crate::whitespace::comments_of;
use crate::whitespace::gap_comments;
use crate::whitespace::Comment;
use crate::whitespace::Gap;
use crate::whitespace::LineColumn;
use crate::whitespace::Whitespace;
use vstd::multiset::Multiset;
use vstd::prelude::*;

verus! {

/// Comments that found no place in the output, and the place in the source
/// that they belong to: the start of the token they stood in front of or,
/// for comments of a group that never became part of the tree, their own
/// start.
#[derive(Debug, PartialEq, Eq)]
pub struct LostComments {
    pub loc: LineColumn,
    pub comments: Vec<Comment>,
}

/// What a format call gives.
#[derive(Debug, PartialEq, Eq)]
pub struct FormatRes {
    pub rendered: String,
    /// Empty where every comment was placed.
    pub lost_comments: Vec<LostComments>,
}

/// Why a format call failed.
#[derive(Clone, Copy, Debug, PartialEq, Eq, Structural)]
pub enum FormatError {
    /// A comment found no place and the options make that fatal. The place
    /// is that of the first comments that were lost.
    UnplacedComment(LineColumn),
}

/// Lost comments as a place and the comments.
pub type LostView = (LineColumn, Seq<Comment>);

/// What each of `lost` holds.
pub open spec fn lost_views(lost: Seq<LostComments>) -> Seq<LostView> {
    Seq::new(lost.len(), |i: int| (lost[i].loc, lost[i].comments@))
}

/// The comments of all of `lost`, in order.
pub open spec fn lost_flat(lost: Seq<LostView>) -> Seq<Comment>
    decreases lost.len(),
{
    if lost.len() == 0 {
        Seq::empty()
    } else {
        lost_flat(lost.drop_last()) + lost.last().1
    }
}

/// The gaps that are left in the table and hold a comment: each with its
/// place and its comments.
pub open spec fn leftover(gaps: Seq<Gap>) -> Seq<LostView>
    decreases gaps.len(),
{
    if gaps.len() == 0 {
        Seq::empty()
    } else if comments_of(gaps.last().items@).len() == 0 {
        leftover(gaps.drop_last())
    } else {
        leftover(gaps.drop_last()).push((gaps.last().loc, comments_of(gaps.last().items@)))
    }
}

/// Each of the comments alone, at its own place.
pub open spec fn each_alone(comments: Seq<Comment>) -> Seq<LostView> {
    Seq::new(comments.len(), |i: int| (comments[i].loc, seq![comments[i]]))
}

/// The comments that the first `n` groups of the arena hold and that are not
/// part of the tree under `root`: those of every group other than `root`
/// that has no parent.
pub open spec fn stranded(nodes: Seq<SplitGroup>, root: int, n: nat) -> Seq<LostView>
    decreases n,
{
    if n == 0 {
        Seq::empty()
    } else if n - 1 != root && !nodes[n - 1].attached {
        stranded(nodes, root, (n - 1) as nat) + each_alone(doc_comments(expand(nodes, n - 1)))
    } else {
        stranded(nodes, root, (n - 1) as nat)
    }
}

/// The comments that are lost when the tree under `root` is rendered: those
/// left in the table of gaps, then those held by groups outside the tree.
pub open spec fn lost_from(out: &MakeSegsState, root: SplitGroupIdx) -> Seq<LostView> {
    leftover(out.whitespaces@) + stranded(out.nodes@, root.0 as int, out.nodes@.len())
}

/// What rendering the tree under `root` gives: an error where comments are
/// lost and the options make that fatal, and else the text with the lost
/// comments.
pub open spec fn outcome_ok(out: &MakeSegsState, root: SplitGroupIdx) -> bool {
    !out.config.comment_errors_fatal || lost_from(out, root).len() == 0
}

/// The comments of two runs of lost comments are those of the first, then
/// those of the second.
pub proof fn lemma_lost_flat_concat(a: Seq<LostView>, b: Seq<LostView>)
    ensures
        lost_flat(a + b) == lost_flat(a) + lost_flat(b),
    decreases b.len(),
{
    if b.len() == 0 {
        assert(a + b =~= a);
        assert(lost_flat(a) + lost_flat(b) =~= lost_flat(a));
    } else {
        lemma_lost_flat_concat(a, b.drop_last());
        assert((a + b).drop_last() =~= a + b.drop_last());
        assert(lost_flat(a + b) =~= lost_flat(a) + lost_flat(b));
    }
}

/// Comments that are lost each alone are those comments.
pub proof fn lemma_each_alone_flat(comments: Seq<Comment>)
    ensures
        lost_flat(each_alone(comments)) == comments,
    decreases comments.len(),
{
    if comments.len() > 0 {
        lemma_each_alone_flat(comments.drop_last());
        assert(each_alone(comments).drop_last() =~= each_alone(comments.drop_last()));
        assert(lost_flat(each_alone(comments)) =~= comments);
    }
}

/// [`each_alone`] goes comment by comment.
pub proof fn lemma_each_alone_concat(a: Seq<Comment>, b: Seq<Comment>)
    ensures
        each_alone(a + b) == each_alone(a) + each_alone(b),
{
    assert(each_alone(a + b) =~= each_alone(a) + each_alone(b));
}

/// The comments that are lost with the gaps left in the table are the
/// comments of those gaps.
pub proof fn lemma_leftover_flat(gaps: Seq<Gap>)
    ensures
        lost_flat(leftover(gaps)) == gap_comments(gaps),
    decreases gaps.len(),
{
    if gaps.len() > 0 {
        lemma_leftover_flat(gaps.drop_last());
        let cs = comments_of(gaps.last().items@);
        if cs.len() == 0 {
            assert(gap_comments(gaps.drop_last()) + cs =~= gap_comments(gaps.drop_last()));
        } else {
            assert(leftover(gaps).drop_last() =~= leftover(gaps.drop_last()));
        }
    }
}

/// The comments stranded among the first `n` groups, with those of the tree
/// under `root` if `root` is among them, are what those groups hold.
pub proof fn lemma_stranded(nodes: Seq<SplitGroup>, root: int, n: nat)
    requires
        0 <= root < nodes.len(),
        !nodes[root].attached,
    ensures
        lost_flat(stranded(nodes, root, n)).to_multiset().add(
            if root < n {
                doc_comments(expand(nodes, root)).to_multiset()
            } else {
                Multiset::empty()
            },
        ) == held_below(nodes, n),
    decreases n,
{
    broadcast use vstd::multiset::group_multiset_axioms;

    reveal(held_below);
    if n == 0 {
        lemma_no_comments(lost_flat(stranded(nodes, root, n)));
        assert(Multiset::<Comment>::empty().add(Multiset::empty()) =~= Multiset::<
            Comment,
        >::empty());
    } else {
        let m = (n - 1) as nat;
        lemma_stranded(nodes, root, m);
        let before = stranded(nodes, root, m);
        if m != root && !nodes[m as int].attached {
            let cs = doc_comments(expand(nodes, m as int));
            lemma_lost_flat_concat(before, each_alone(cs));
            lemma_each_alone_flat(cs);
            vstd::seq_lib::lemma_multiset_commutative(lost_flat(before), cs);
        }
        assert(lost_flat(stranded(nodes, root, n)).to_multiset().add(
            if root < n {
                doc_comments(expand(nodes, root)).to_multiset()
            } else {
                Multiset::empty()
            },
        ) =~= held_below(nodes, n));
    }
}

/// Every comment that a format call was given is either part of the tree
/// that is rendered or among the comments reported as lost, and is there as
/// often as it was given.
pub proof fn lemma_comments_accounted(out: &MakeSegsState, root: SplitGroupIdx)
    requires
        out.wf(),
        root.0 < out.nodes.len(),
        !out.nodes[root.0 as int].attached,
    ensures
        doc_comments(out.doc(root)).to_multiset().add(lost_flat(lost_from(out, root)).to_multiset())
            == out.comments@,
{
    broadcast use vstd::multiset::group_multiset_axioms;

    let left = leftover(out.whitespaces@);
    let away = stranded(out.nodes@, root.0 as int, out.nodes@.len());
    lemma_stranded(out.nodes@, root.0 as int, out.nodes@.len());
    lemma_leftover_flat(out.whitespaces@);
    lemma_lost_flat_concat(left, away);
    vstd::seq_lib::lemma_multiset_commutative(lost_flat(left), lost_flat(away));
    assert(doc_comments(out.doc(root)).to_multiset().add(
        lost_flat(lost_from(out, root)).to_multiset(),
    ) =~= held_comments(out.nodes@).add(gap_comments(out.whitespaces@).to_multiset()));
}

/// Adds the comments of `items`, each one alone.
fn strand_items(items: &Vec<Whitespace>, lost: &mut Vec<LostComments>)
    ensures
        lost_views(final(lost)@) == lost_views(old(lost)@) + each_alone(comments_of(items@)),
{
    let mut i: usize = 0;
    assert(items@.take(0) =~= Seq::<Whitespace>::empty());
    assert(lost_views(lost@) =~= lost_views(old(lost)@) + each_alone(
        comments_of(items@.take(0)),
    ));
    while i < items.len()
        invariant
            i <= items.len(),
            lost_views(lost@) == lost_views(old(lost)@) + each_alone(
                comments_of(items@.take(i as int)),
            ),
        decreases items.len() - i,
    {
        proof {
            assert(items@.take(i + 1).drop_last() =~= items@.take(i as int));
            assert(items@.take(i + 1).last() == items@[i as int]);
        }
        match &items[i] {
            Whitespace::Comment(c) => {
                let ghost before = lost@;
                let mut comments: Vec<Comment> = Vec::new();
                comments.push(c.duplicate());
                assert(comments@ =~= seq![*c]);
                lost.push(LostComments { loc: c.loc, comments });
                assert(lost_views(lost@) =~= lost_views(before).push((c.loc, seq![*c])));
                assert(each_alone(comments_of(items@.take(i + 1))) =~= each_alone(
                    comments_of(items@.take(i as int)),
                ).push((c.loc, seq![*c])));
            },
            Whitespace::BlankLines => {},
        }
        i += 1;
    }
    assert(items@.take(i as int) =~= items@);
}

/// Adds the comments of the group and of the groups nested in it, each one
/// alone.
fn strand_group(out: &MakeSegsState, g: SplitGroupIdx, lost: &mut Vec<LostComments>)
    requires
        out.wf(),
        g.0 < out.nodes.len(),
    ensures
        lost_views(final(lost)@) == lost_views(old(lost)@) + each_alone(
            doc_comments(out.doc(g)),
        ),
    decreases out.nodes[g.0 as int].rank@,
{
    let node = &out.nodes[g.0];
    let n = node.segments.len();
    let ghost entries = out.doc(g).entries;
    proof {
        lemma_expand_len(out.nodes@, g.0 as int, n as nat);
    }
    let mut i: usize = 0;
    assert(entries.take(0) =~= Seq::<DocEntry>::empty());
    assert(lost_views(lost@) =~= lost_views(old(lost)@) + each_alone(
        entries_comments(entries.take(0)),
    ));
    while i < n
        invariant
            i <= n,
            out.wf(),
            g.0 < out.nodes.len(),
            node == &out.nodes[g.0 as int],
            n == node.segments@.len(),
            entries == out.doc(g).entries,
            entries == expand_prefix(out.nodes@, g.0 as int, n as nat),
            entries.len() == n,
            lost_views(lost@) == lost_views(old(lost)@) + each_alone(
                entries_comments(entries.take(i as int)),
            ),
        decreases n - i,
    {
        proof {
            lemma_expand_entry(out.nodes@, g.0 as int, n as nat, i as int);
            assert(segment_ok(out.nodes@, g.0 as int, i as int));
            assert(entries.take(i + 1).drop_last() =~= entries.take(i as int));
            assert(entries.take(i + 1).last() == entries[i as int]);
            lemma_each_alone_concat(
                entries_comments(entries.take(i as int)),
                entry_comments(entries[i as int]),
            );
        }
        let ghost before = lost_views(lost@);
        match &node.segments[i] {
            Segment::Child(c) => {
                strand_group(out, *c, lost);
            },
            Segment::Whitespace { items, .. } => {
                strand_items(items, lost);
            },
            _ => {
                assert(before + each_alone(entry_comments(entries[i as int])) =~= before);
            },
        }
        assert(lost_views(lost@) == before + each_alone(entry_comments(entries[i as int])));
        assert(lost_views(lost@) =~= lost_views(old(lost)@) + each_alone(
            entries_comments(entries.take(i + 1)),
        ));
        i += 1;
    }
    assert(entries.take(i as int) =~= entries);
}

/// A copy of the comments among `items`.
fn copy_comments(items: &Vec<Whitespace>) -> (comments: Vec<Comment>)
    ensures
        comments@ == comments_of(items@),
{
    let mut comments: Vec<Comment> = Vec::new();
    let mut i: usize = 0;
    assert(items@.take(0) =~= Seq::<Whitespace>::empty());
    while i < items.len()
        invariant
            i <= items.len(),
            comments@ == comments_of(items@.take(i as int)),
        decreases items.len() - i,
    {
        proof {
            assert(items@.take(i + 1).drop_last() =~= items@.take(i as int));
            assert(items@.take(i + 1).last() == items@[i as int]);
        }
        match &items[i] {
            Whitespace::Comment(c) => {
                comments.push(c.duplicate());
            },
            Whitespace::BlankLines => {},
        }
        i += 1;
    }
    assert(items@.take(i as int) =~= items@);
    comments
}

/// The comments that are lost when the tree under `root` is rendered: see
/// [`lost_from`].
pub fn lost_comments(out: &MakeSegsState, root: SplitGroupIdx) -> (lost: Vec<LostComments>)
    requires
        out.wf(),
        root.0 < out.nodes.len(),
    ensures
        lost_views(lost@) == lost_from(out, root),
{
    let mut lost: Vec<LostComments> = Vec::new();
    let mut i: usize = 0;
    let ghost gaps = out.whitespaces@;
    assert(gaps.take(0) =~= Seq::<Gap>::empty());
    assert(lost_views(lost@) =~= leftover(gaps.take(0)));
    while i < out.whitespaces.len()
        invariant
            i <= out.whitespaces.len(),
            gaps == out.whitespaces@,
            lost_views(lost@) == leftover(gaps.take(i as int)),
        decreases out.whitespaces.len() - i,
    {
        proof {
            assert(gaps.take(i + 1).drop_last() =~= gaps.take(i as int));
            assert(gaps.take(i + 1).last() == gaps[i as int]);
        }
        let gap = &out.whitespaces[i];
        let comments = copy_comments(&gap.items);
        if comments.len() > 0 {
            let ghost before = lost@;
            lost.push(LostComments { loc: gap.loc, comments });
            assert(lost_views(lost@) =~= lost_views(before).push((gap.loc, comments@)));
        }
        i += 1;
    }
    assert(gaps.take(i as int) =~= gaps);
    let mut j: usize = 0;
    assert(lost_views(lost@) =~= leftover(gaps) + stranded(out.nodes@, root.0 as int, 0));
    while j < out.nodes.len()
        invariant
            j <= out.nodes.len(),
            out.wf(),
            gaps == out.whitespaces@,
            lost_views(lost@) == leftover(gaps) + stranded(out.nodes@, root.0 as int, j as nat),
        decreases out.nodes.len() - j,
    {
        if j != root.0 && !out.nodes[j].attached {
            strand_group(out, SplitGroupIdx(j), &mut lost);
            assert(lost_views(lost@) =~= leftover(gaps) + stranded(
                out.nodes@,
                root.0 as int,
                (j + 1) as nat,
            ));
        }
        j += 1;
    }
    lost
}

/// Renders the tree under `root` and reports the comments that are not part
/// of it. Fails exactly where such comments exist and the options make that
/// fatal, with the place of the first of them.
pub fn finish(out: &MakeSegsState, root: SplitGroupIdx) -> (res: Result<FormatRes, FormatError>)
    requires
        out.wf(),
        root.0 < out.nodes.len(),
    ensures
        res is Ok <==> outcome_ok(out, root),
        res matches Ok(r) ==> {
            &&& r.rendered@ == rendered_text(out.doc(root), out.config)
            &&& lost_views(r.lost_comments@) == lost_from(out, root)
        },
        res matches Err(e) ==> e == FormatError::UnplacedComment(lost_from(out, root)[0].0),
{
    let lost = lost_comments(out, root);
    if out.config.comment_errors_fatal && lost.len() > 0 {
        return Err(FormatError::UnplacedComment(lost[0].loc));
    }
    let rendered = render(out, root);
    Ok(FormatRes { rendered, lost_comments: lost })
}

/// Where the tree under `root` is the only group that is no part of
/// another, no group is outside the tree.
pub proof fn lemma_none_stranded(nodes: Seq<SplitGroup>, root: int, n: nat)
    requires
        0 <= root < nodes.len(),
        n <= nodes.len(),
        !nodes[root].attached,
        loose_below(nodes, nodes.len()) == 1,
    ensures
        stranded(nodes, root, n) == Seq::<LostView>::empty(),
    decreases n,
{
    if n > 0 {
        let m = n - 1;
        lemma_none_stranded(nodes, root, m as nat);
        if m != root && !nodes[m].attached {
            if m < root {
                lemma_loose_two(nodes, nodes.len(), m, root);
            } else {
                lemma_loose_two(nodes, nodes.len(), root, m);
            }
        }
    }
}

/// What a file is laid out as: the tree (see [`File::built`]), and the
/// gaps that no token asked for.
pub open spec fn file_built(ast: &File, config: &FormatConfig, whitespaces: Seq<Gap>) -> Built {
    ast.built(whitespaces, Alignment { depth: 0 }, *config)
}

/// What a format call gives for what a file was laid out as. The comments
/// of the gaps that no token asked for are lost. Where there are such
/// comments and the options make that fatal, the call fails with the place
/// of the first of them; else it gives the text that the tree renders to,
/// with the lost comments.
pub open spec fn formatted_as(
    b: Built,
    config: FormatConfig,
    res: Result<FormatRes, FormatError>,
) -> bool {
    let lost = leftover(b.gaps);
    &&& res is Ok <==> !config.comment_errors_fatal || lost.len() == 0
    &&& res matches Ok(r) ==> {
        &&& r.rendered@ == rendered_text(b.doc, config)
        &&& lost_views(r.lost_comments@) == lost
    }
    &&& res matches Err(e) ==> e == FormatError::UnplacedComment(lost[0].0)
}

/// Formats a file. The declarations are laid out as a tree, for which the
/// gaps in `whitespaces` are reattached in front of the tokens at their
/// places (see [`file_built`]); the tree is rendered with `config` (see
/// [`formatted_as`]). The tree says what the file says. Every comment of
/// `whitespaces` is part of the tree or among the lost comments, and is
/// there as often as it was given.
pub fn format_ast(ast: &File, config: &FormatConfig, whitespaces: Vec<Gap>) -> (res: Result<
    FormatRes,
    FormatError,
>)
    ensures
        formatted_as(file_built(ast, config, whitespaces@), *config, res),
        code_text(file_built(ast, config, whitespaces@).doc) == ast.text(),
        doc_comments(file_built(ast, config, whitespaces@).doc).to_multiset().add(
            lost_flat(leftover(file_built(ast, config, whitespaces@).gaps)).to_multiset(),
        ) == gap_comments(whitespaces@).to_multiset(),
{
    let mut out = MakeSegsState::new(*config, whitespaces);
    let base_indent = Alignment::base();
    let root = ast.make_segs(&mut out, &base_indent);
    let res = finish(&out, root);
    proof {
        lemma_comments_accounted(&out, root);
        lemma_none_stranded(out.nodes@, root.0 as int, out.nodes@.len());
        assert(lost_from(&out, root) =~= leftover(out.whitespaces@));
    }
    res
}

} // verus!
