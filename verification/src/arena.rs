//! The arena that owns the groups of one format call, and the builder through
//! which a front end fills it.
//!
//! A group is known by its handle, an index into the arena. Handles are given
//! out once and stay valid; a group is open while it is being filled and
//! closed by `build`, and only a closed group that has no parent yet can be
//! made the child of another. So the groups always form trees.

use crate::config::FormatConfig;
use crate::model::Alignment;
use crate::model::Doc;
use crate::model::DocEntry;
use crate::model::SegmentMode;
use crate::model::doc_comments;
use crate::whitespace::gap_comments;
use crate::whitespace::Comment;
use crate::whitespace::Gap;
use crate::whitespace::comments_of;
use crate::whitespace::Whitespace;
use vstd::multiset::Multiset;
use vstd::prelude::*;

verus! {

/// The handle of a group.
#[derive(Clone, Copy, Debug, PartialEq, Eq, Structural)]
pub struct SplitGroupIdx(pub usize);

/// One entry of a group, as the arena holds it.
#[derive(Debug)]
pub enum Segment {
    Text { mode: SegmentMode, text: String },
    Break { always: bool, alignment: Alignment },
    Child(SplitGroupIdx),
    Whitespace { alignment: Alignment, items: Vec<Whitespace> },
}

/// A group, as the arena holds it.
pub struct SplitGroup {
    /// Marked as a group that must split.
    pub split: bool,
    /// The layout pass looks at the nested groups last to first.
    pub reversed: bool,
    /// No entry can be added any more.
    pub closed: bool,
    /// The group is the child of another.
    pub attached: bool,
    pub segments: Vec<Segment>,
    /// Larger than the rank of every child.
    pub rank: Ghost<nat>,
}

/// The arena, with the options of the call and the gaps of the source that
/// no group has taken yet.
pub struct MakeSegsState {
    pub nodes: Vec<SplitGroup>,
    pub whitespaces: Vec<Gap>,
    pub config: FormatConfig,
    /// Every comment that the call was given.
    pub comments: Ghost<Multiset<Comment>>,
}

/// A group that is being filled.
pub struct SplitGroupBuilder {
    pub node: SplitGroupIdx,
    pub initial_split: bool,
    pub reverse_children: bool,
    /// The groups that the arena held when this one was started, as they
    /// are now: one of them that has become a child of this group is held
    /// here as the child it is.
    pub start: Ghost<Seq<SplitGroup>>,
}

/// The group that handle `g` stands for.
#[verifier::opaque]
pub open spec fn expand(nodes: Seq<SplitGroup>, g: int) -> Doc
    decreases nodes[g].rank@, nodes[g].segments@.len() + 1,
{
    Doc { split: nodes[g].split, entries: expand_prefix(nodes, g, nodes[g].segments@.len()) }
}

/// The first `n` entries of the group that handle `g` stands for.
#[verifier::opaque]
pub open spec fn expand_prefix(nodes: Seq<SplitGroup>, g: int, n: nat) -> Seq<DocEntry>
    decreases nodes[g].rank@, n,
{
    if n == 0 {
        Seq::empty()
    } else {
        let e = match nodes[g].segments@[n - 1] {
            Segment::Text { mode, text } => DocEntry::Text { mode, text: text@ },
            Segment::Break { always, alignment } => DocEntry::Break { always, alignment },
            Segment::Child(c) => if c.0 < nodes.len() && nodes[c.0 as int].rank@
                < nodes[g].rank@ {
                DocEntry::Child(expand(nodes, c.0 as int))
            } else {
                DocEntry::Child(Doc::empty())
            },
            Segment::Whitespace { alignment, items } => DocEntry::Whitespace {
                alignment,
                items: items@,
            },
        };
        expand_prefix(nodes, g, (n - 1) as nat).push(e)
    }
}

/// A handle stands for the group with the mark of its group and the entries
/// that its segments stand for.
pub proof fn lemma_expand_unfold(nodes: Seq<SplitGroup>, g: int)
    ensures
        expand(nodes, g) == (Doc {
            split: nodes[g].split,
            entries: expand_prefix(nodes, g, nodes[g].segments@.len()),
        }),
{
    reveal_with_fuel(expand, 2);
   reveal_with_fuel(expand_prefix, 2);
}

/// Entry `i` of group `p`, if it is a child, is a closed group of the arena
/// that is marked as attached and ranks below `p`.
pub open spec fn segment_ok(nodes: Seq<SplitGroup>, p: int, i: int) -> bool {
    match nodes[p].segments@[i] {
        Segment::Child(c) => {
            &&& c.0 < nodes.len()
            &&& nodes[c.0 as int].closed
            &&& nodes[c.0 as int].attached
            &&& nodes[c.0 as int].rank@ < nodes[p].rank@
        },
        _ => true,
    }
}

/// Every child is a closed group of the arena that is marked as attached and
/// ranks below its parent, and only closed groups are attached.
pub open spec fn nodes_wf(nodes: Seq<SplitGroup>) -> bool {
    &&& forall|p: int, i: int|
        0 <= p < nodes.len() && 0 <= i < nodes[p].segments@.len() ==> #[trigger] segment_ok(
            nodes,
            p,
            i,
        )
    &&& forall|p: int| 0 <= p < nodes.len() && (#[trigger] nodes[p]).attached ==> nodes[p].closed
}

/// The groups that `before` holds as children of others are in `after` as
/// they were.
pub open spec fn keeps_attached(before: Seq<SplitGroup>, after: Seq<SplitGroup>) -> bool {
    &&& before.len() <= after.len()
    &&& forall|j: int|
        0 <= j < before.len() && (#[trigger] before[j]).attached ==> after[j] == before[j]
}

/// A group whose first `k` entries stay, in an arena whose attached groups
/// stay, has the same first `k` entries when expanded.
pub proof fn lemma_expand_prefix_frame(
    before: Seq<SplitGroup>,
    after: Seq<SplitGroup>,
    t: int,
    k: nat,
)
    requires
        nodes_wf(before),
        keeps_attached(before, after),
        0 <= t < before.len(),
        k <= before[t].segments@.len(),
        k <= after[t].segments@.len(),
        forall|i: int| 0 <= i < k ==> after[t].segments@[i] == before[t].segments@[i],
        before[t].rank@ <= after[t].rank@,
    ensures
        expand_prefix(after, t, k) == expand_prefix(before, t, k),
    decreases before[t].rank@, k,
{
    reveal_with_fuel(expand, 2);
   reveal_with_fuel(expand_prefix, 2);
    if k > 0 {
        lemma_expand_prefix_frame(before, after, t, (k - 1) as nat);
        assert(after[t].segments@[k - 1] == before[t].segments@[k - 1]);
        match before[t].segments@[k - 1] {
            Segment::Child(c) => {
                assert(segment_ok(before, t, k - 1));
                let ci = c.0 as int;
                assert(before[ci].attached);
                assert(after[ci] == before[ci]);
                lemma_expand_prefix_frame(before, after, ci, before[ci].segments@.len());
                assert(expand(after, ci) == expand(before, ci));
            },
            _ => {},
        }
    }
}

/// A group whose entries and mark stay, in an arena whose attached groups
/// stay, stands for the same group.
pub proof fn lemma_expand_frame(before: Seq<SplitGroup>, after: Seq<SplitGroup>, t: int)
    requires
        nodes_wf(before),
        keeps_attached(before, after),
        0 <= t < before.len(),
        after[t].segments@ == before[t].segments@,
        after[t].split == before[t].split,
        before[t].rank@ <= after[t].rank@,
    ensures
        expand(after, t) == expand(before, t),
{
    lemma_expand_unfold(before, t);
    lemma_expand_unfold(after, t);
    lemma_expand_prefix_frame(before, after, t, before[t].segments@.len());
}

/// The comments that group `j` holds for the output, nested groups
/// included, if it has no parent. A group that has one holds them for its
/// parent.
pub open spec fn held(nodes: Seq<SplitGroup>, j: int) -> Multiset<Comment> {
    if nodes[j].attached {
        Multiset::empty()
    } else {
        doc_comments(expand(nodes, j)).to_multiset()
    }
}

/// The comments that the first `n` groups hold, each comment as often as it
/// is held.
#[verifier::opaque]
pub open spec fn held_below(nodes: Seq<SplitGroup>, n: nat) -> Multiset<Comment>
    decreases n,
{
    if n == 0 {
        Multiset::empty()
    } else {
        held_below(nodes, (n - 1) as nat).add(held(nodes, n - 1))
    }
}

/// The comments that the groups of the arena hold.
pub open spec fn held_comments(nodes: Seq<SplitGroup>) -> Multiset<Comment> {
    held_below(nodes, nodes.len())
}

/// How often group `j` holds comment `x`, if `j` is `p` or `q` and below `n`.
pub open spec fn held_at(nodes: Seq<SplitGroup>, n: nat, p: int, q: int, j: int, x: Comment)
    -> nat {
    if 0 <= j < n && (j == p || j == q) {
        held(nodes, j).count(x)
    } else {
        0
    }
}

/// Where two arenas agree on what each of the first `n` groups holds, but for
/// groups `p` and `q`, they differ by what those two hold.
pub proof fn lemma_held_change(
    before: Seq<SplitGroup>,
    after: Seq<SplitGroup>,
    n: nat,
    p: int,
    q: int,
    x: Comment,
)
    requires
        p != q,
        forall|j: int| 0 <= j < n && j != p && j != q ==> held(after, j) == held(before, j),
    ensures
        held_below(after, n).count(x) + held_at(before, n, p, q, p, x) + held_at(
            before,
            n,
            p,
            q,
            q,
            x,
        ) == held_below(before, n).count(x) + held_at(after, n, p, q, p, x) + held_at(
            after,
            n,
            p,
            q,
            q,
            x,
        ),
    decreases n,
{
    broadcast use vstd::multiset::group_multiset_axioms;

    reveal(held_below);
    if n > 0 {
        lemma_held_change(before, after, (n - 1) as nat, p, q, x);
    }
}

/// An empty run of comments holds none.
pub proof fn lemma_no_comments(s: Seq<Comment>)
    requires
        s.len() == 0,
    ensures
        s.to_multiset() == Multiset::<Comment>::empty(),
{
    broadcast use vstd::multiset::group_multiset_axioms;

    s.to_multiset_ensures();
    assert forall|a: Comment| s.to_multiset().count(a) == 0 by {
        assert(!s.contains(a));
    }
    assert(s.to_multiset() =~= Multiset::<Comment>::empty());
}

/// Taking a gap out of the table takes its comments out, and no others.
pub proof fn lemma_gap_comments_remove(gaps: Seq<Gap>, i: int)
    requires
        0 <= i < gaps.len(),
    ensures
        gap_comments(gaps).to_multiset() =~= gap_comments(gaps.remove(i)).to_multiset().add(
            comments_of(gaps[i].items@).to_multiset(),
        ),
    decreases gaps.len(),
{
    let rest = gaps.remove(i);
    if i == gaps.len() - 1 {
        assert(rest =~= gaps.drop_last());
        vstd::seq_lib::lemma_multiset_commutative(
            gap_comments(gaps.drop_last()),
            comments_of(gaps.last().items@),
        );
    } else {
        lemma_gap_comments_remove(gaps.drop_last(), i);
        assert(rest.drop_last() =~= gaps.drop_last().remove(i));
        assert(rest.last() == gaps.last());
        vstd::seq_lib::lemma_multiset_commutative(
            gap_comments(gaps.drop_last()),
            comments_of(gaps.last().items@),
        );
        vstd::seq_lib::lemma_multiset_commutative(
            gap_comments(rest.drop_last()),
            comments_of(rest.last().items@),
        );
    }
}

/// How many of the first `n` groups are no part of another group.
#[verifier::opaque]
pub open spec fn loose_below(nodes: Seq<SplitGroup>, n: nat) -> nat
    decreases n,
{
    if n == 0 {
        0
    } else {
        loose_below(nodes, (n - 1) as nat) + loose_at(nodes, n, n - 1)
    }
}

/// One if group `j` is among the first `n` and no part of another group,
/// else nothing.
pub open spec fn loose_at(nodes: Seq<SplitGroup>, n: nat, j: int) -> nat {
    if 0 <= j < n && !nodes[j].attached {
        1
    } else {
        0
    }
}

/// Where two arenas agree on which of the first `n` groups are part of
/// another, but for group `q`, their counts differ by that group.
pub proof fn lemma_loose_change(
    before: Seq<SplitGroup>,
    after: Seq<SplitGroup>,
    n: nat,
    q: int,
)
    requires
        forall|j: int|
            0 <= j < n && j != q ==> (#[trigger] after[j]).attached == before[j].attached,
    ensures
        loose_below(after, n) + loose_at(before, n, q) == loose_below(before, n) + loose_at(
            after,
            n,
            q,
        ),
    decreases n,
{
    reveal(loose_below);
    if n > 0 {
        lemma_loose_change(before, after, (n - 1) as nat, q);
    }
}

/// A group that is no part of another group makes a count of one at
/// least.
pub proof fn lemma_loose_one(nodes: Seq<SplitGroup>, n: nat, a: int)
    requires
        0 <= a < n,
        !nodes[a].attached,
    ensures
        loose_below(nodes, n) >= 1,
    decreases n,
{
    reveal(loose_below);
    if a < n - 1 {
        lemma_loose_one(nodes, (n - 1) as nat, a);
    }
}

/// Two groups that are no part of another group make a count of two at
/// least.
pub proof fn lemma_loose_two(nodes: Seq<SplitGroup>, n: nat, a: int, b: int)
    requires
        0 <= a < b < n,
        !nodes[a].attached,
        !nodes[b].attached,
    ensures
        loose_below(nodes, n) >= 2,
    decreases n,
{
    reveal(loose_below);
    if b < n - 1 {
        lemma_loose_two(nodes, (n - 1) as nat, a, b);
    } else {
        lemma_loose_one(nodes, (n - 1) as nat, a);
    }
}

/// The groups of `start` are in `nodes` as they were, and each stands for
/// the same group.
pub open spec fn grown_from(nodes: Seq<SplitGroup>, start: Seq<SplitGroup>) -> bool {
    &&& start.len() <= nodes.len()
    &&& forall|t: int|
        0 <= t < start.len() ==> {
            &&& (#[trigger] nodes[t]) == start[t]
            &&& expand(nodes, t) == expand(start, t)
        }
}

/// What grew from an arena that grew from `start` grew from `start`.
pub broadcast proof fn lemma_grown_trans(
    nodes: Seq<SplitGroup>,
    mid: Seq<SplitGroup>,
    start: Seq<SplitGroup>,
)
    requires
        #[trigger] grown_from(nodes, mid),
        #[trigger] grown_from(mid, start),
    ensures
        grown_from(nodes, start),
{
    assert forall|t: int| 0 <= t < start.len() implies {
        &&& (#[trigger] nodes[t]) == start[t]
        &&& expand(nodes, t) == expand(start, t)
    } by {
        assert(nodes[t] == mid[t]);
        assert(mid[t] == start[t]);
    }
}

impl MakeSegsState {
    /// The arena is well formed: the groups form trees, and every comment
    /// that the call was given is either held by a group or still in the
    /// table of gaps, and is there once.
    pub open spec fn wf(&self) -> bool {
        &&& nodes_wf(self.nodes@)
        &&& held_comments(self.nodes@).add(gap_comments(self.whitespaces@).to_multiset())
            == self.comments@
    }

    /// How many groups of the arena are no part of another group: the
    /// open ones, and the finished ones that wait for their place.
    pub open spec fn loose(&self) -> nat {
        loose_below(self.nodes@, self.nodes@.len())
    }

    /// The group that `g` stands for.
    pub open spec fn doc(&self, g: SplitGroupIdx) -> Doc {
        expand(self.nodes@, g.0 as int)
    }

    /// `g` is a group of this arena that can still take entries.
    pub open spec fn is_open(&self, g: SplitGroupIdx) -> bool {
        g.0 < self.nodes.len() && !self.nodes[g.0 as int].closed
    }

    /// `g` is a closed group of this arena that has no parent.
    pub open spec fn is_finished(&self, g: SplitGroupIdx) -> bool {
        g.0 < self.nodes.len() && self.nodes[g.0 as int].closed && !self.nodes[g.0 as int].attached
    }

    /// Since `before`, nothing happened to the groups that were there but to
    /// `p` and `q`: each of the others is as it was and stands for the same
    /// group. The options are unchanged.
    pub open spec fn keeps(&self, before: &MakeSegsState, p: SplitGroupIdx, q: SplitGroupIdx)
        -> bool {
        &&& before.nodes.len() <= self.nodes.len()
        &&& self.config == before.config
        &&& self.comments == before.comments
        &&& forall|t: int|
            0 <= t < before.nodes.len() && t != p.0 && t != q.0 ==> {
                &&& (#[trigger] self.nodes[t]) == before.nodes[t]
                &&& expand(self.nodes@, t) == expand(before.nodes@, t)
            }
    }

    /// Since `before`, nothing happened to the groups that were there: each is
    /// as it was and stands for the same group. The options are unchanged.
    pub open spec fn extends(&self, before: &MakeSegsState) -> bool {
        &&& grown_from(self.nodes@, before.nodes@)
        &&& self.config == before.config
        &&& self.comments == before.comments
    }

    /// What [`MakeSegsState::keeps`] says of two steps holds of both together.
    pub proof fn lemma_keeps_trans(
        &self,
        mid: &MakeSegsState,
        before: &MakeSegsState,
        p: SplitGroupIdx,
        q: SplitGroupIdx,
    )
        requires
            self.keeps(mid, p, q),
            mid.keeps(before, p, q),
        ensures
            self.keeps(before, p, q),
    {
        assert forall|t: int| 0 <= t < before.nodes.len() && t != p.0 && t != q.0 implies {
            &&& (#[trigger] self.nodes[t]) == before.nodes[t]
            &&& expand(self.nodes@, t) == expand(before.nodes@, t)
        } by {
            assert(self.nodes[t] == mid.nodes[t]);
            assert(mid.nodes[t] == before.nodes[t]);
        }
    }

    /// An empty arena for one format call.
    pub fn new(config: FormatConfig, whitespaces: Vec<Gap>) -> (out: MakeSegsState)
        ensures
            out.wf(),
            out.nodes@.len() == 0,
            out.whitespaces == whitespaces,
            out.config == config,
            out.comments@ == gap_comments(whitespaces@).to_multiset(),
            out.loose() == 0,
    {
        let ghost all = gap_comments(whitespaces@).to_multiset();
        let out = MakeSegsState { nodes: Vec::new(), whitespaces, config, comments: Ghost(all) };
        reveal(held_below);
        reveal(loose_below);
        assert(held_comments(out.nodes@).add(all) =~= all);
        out
    }
}

} // verus!
