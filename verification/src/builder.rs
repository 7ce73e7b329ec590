//! Building groups: the operations a front end has.

use crate::arena::expand;
use crate::arena::expand_prefix;
use crate::arena::grown_from;
use crate::arena::held;
use crate::arena::held_below;
use crate::arena::held_comments;
use crate::arena::lemma_expand_frame;
use crate::arena::lemma_expand_prefix_frame;
use crate::arena::lemma_expand_unfold;
use crate::arena::lemma_gap_comments_remove;
use crate::arena::lemma_held_change;
use crate::arena::lemma_loose_change;
use crate::arena::loose_below;
use crate::arena::lemma_no_comments;
use crate::arena::nodes_wf;
use crate::arena::segment_ok;
use crate::arena::MakeSegsState;
use crate::arena::Segment;
use crate::arena::SplitGroup;
use crate::arena::SplitGroupBuilder;
use crate::arena::SplitGroupIdx;
use crate::model::code_entry;
use crate::model::code_text;
use crate::model::doc_comments;
use crate::model::lemma_code_push;
use crate::model::entries_comments;
use crate::model::entry_comments;
use crate::model::Alignment;
use crate::model::Doc;
use crate::model::DocEntry;
use crate::model::SegmentMode;
use crate::whitespace::comments_of;
use crate::whitespace::gap_comments;
use crate::whitespace::Comment;
use crate::whitespace::Gap;
use crate::whitespace::LineColumn;
use crate::whitespace::Whitespace;
use vstd::multiset::Multiset;
use vstd::prelude::*;
use vstd::string::StringExecFns;

verus! {

/// The entry that a segment other than a child stands for.
pub open spec fn plain_entry(seg: Segment) -> DocEntry {
    match seg {
        Segment::Text { mode, text } => DocEntry::Text { mode, text: text@ },
        Segment::Break { always, alignment } => DocEntry::Break { always, alignment },
        Segment::Child(_) => DocEntry::Child(Doc::empty()),
        Segment::Whitespace { alignment, items } => DocEntry::Whitespace { alignment, items: items@ },
    }
}

/// What stays true when an open group `p` takes entries and a finished group
/// `q` changes nothing but its marks.
proof fn lemma_step(before: Seq<SplitGroup>, after: Seq<SplitGroup>, p: int, q: int)
    requires
        nodes_wf(before),
        after.len() == before.len(),
        0 <= p < before.len(),
        0 <= q < before.len(),
        !before[p].attached,
        !before[q].attached,
        forall|j: int| 0 <= j < before.len() && j != p && j != q ==> after[j] == before[j],
        before[p].segments@.len() <= after[p].segments@.len(),
        forall|i: int|
            0 <= i < before[p].segments@.len() ==> after[p].segments@[i] == before[p].segments@[i],
        forall|i: int|
            before[p].segments@.len() <= i < after[p].segments@.len() ==> segment_ok(after, p, i),
        before[p].rank@ <= after[p].rank@,
        after[p].attached ==> after[p].closed,
        q != p ==> {
            &&& after[q].segments@ == before[q].segments@
            &&& after[q].rank@ == before[q].rank@
            &&& after[q].split == before[q].split
            &&& after[q].closed == before[q].closed
            &&& after[q].attached ==> after[q].closed
        },
    ensures
        nodes_wf(after),
        forall|t: int| 0 <= t < before.len() && t != p ==> expand(after, t) == expand(before, t),
        expand_prefix(after, p, before[p].segments@.len()) == expand(before, p).entries,
        forall|j: int|
            0 <= j < before.len() && j != p && j != q ==> held(after, j) == held(before, j),
        forall|start: Seq<SplitGroup>|
            #![trigger grown_from(before, start)]
            grown_from(before, start) && start.len() <= p && start.len() <= q ==> grown_from(
                after,
                start,
            ),
{
    assert forall|r: int, i: int|
        0 <= r < after.len() && 0 <= i < after[r].segments@.len() implies #[trigger] segment_ok(
        after,
        r,
        i,
    ) by {
        if r != p || i < before[p].segments@.len() {
            assert(segment_ok(before, r, i));
            assert(after[r].segments@[i] == before[r].segments@[i]);
        }
    }
    assert forall|t: int| 0 <= t < before.len() && t != p implies expand(after, t) == expand(
        before,
        t,
    ) by {
        lemma_expand_frame(before, after, t);
    }
    lemma_expand_prefix_frame(before, after, p, before[p].segments@.len());
    lemma_expand_unfold(before, p);
    assert forall|start: Seq<SplitGroup>|
        #![trigger grown_from(before, start)]
        grown_from(before, start) && start.len() <= p && start.len() <= q implies grown_from(
        after,
        start,
    ) by {
        assert forall|t: int| 0 <= t < start.len() implies {
            &&& (#[trigger] after[t]) == start[t]
            &&& expand(after, t) == expand(start, t)
        } by {
            assert(before[t] == start[t]);
            assert(after[t] == before[t]);
            assert(expand(before, t) == expand(start, t));
            assert(expand(after, t) == expand(before, t));
        }
        assert(start.len() <= after.len());
        assert(grown_from(after, start));
    }
}

/// The ledger of comments balances again once the groups hold `more` in
/// addition and the table of gaps holds `more` less.
proof fn lemma_balance(
    before: Seq<SplitGroup>,
    after: Seq<SplitGroup>,
    p: int,
    q: int,
    more: Multiset<Comment>,
)
    requires
        after.len() == before.len(),
        0 <= p < before.len(),
        0 <= q < before.len(),
        forall|j: int|
            0 <= j < before.len() && j != p && j != q ==> held(after, j) == held(before, j),
        p != q ==> held(after, p).add(held(after, q)) == held(before, p).add(held(before, q)).add(
            more,
        ),
        p == q ==> held(after, p) == held(before, p).add(more),
    ensures
        held_comments(after) == held_comments(before).add(more),
{
    broadcast use vstd::multiset::group_multiset_axioms;

    reveal(held_below);
    let n = before.len();
    assert forall|x: Comment|
        held_comments(after).count(x) == #[trigger] held_comments(before).add(more).count(x) by {
        if p != q {
            lemma_held_change(before, after, n, p, q, x);
            assert(held(after, p).add(held(after, q)).count(x) == held(before, p).add(
                held(before, q),
            ).add(more).count(x));
        } else {
            lemma_held_change(before, after, n, p, -1, x);
        }
    }
    assert(held_comments(after) =~= held_comments(before).add(more));
}

/// Whether the table holds a gap in front of the token at `loc`.
pub open spec fn has_gap(gaps: Seq<Gap>, loc: LineColumn) -> bool {
    exists|i: int| 0 <= i < gaps.len() && (#[trigger] gaps[i]).loc == loc
}

/// Whether gap `i` is the first of the table in front of the token at `loc`.
pub open spec fn is_first_gap(gaps: Seq<Gap>, loc: LineColumn, i: int) -> bool {
    &&& 0 <= i < gaps.len()
    &&& gaps[i].loc == loc
    &&& forall|j: int| 0 <= j < i ==> (#[trigger] gaps[j]).loc != loc
}

/// The index of the first gap of the table in front of the token at `loc`;
/// the length of the table where there is none.
pub open spec fn first_gap(gaps: Seq<Gap>, loc: LineColumn) -> int
    decreases gaps.len(),
{
    if gaps.len() == 0 {
        0
    } else {
        let k = first_gap(gaps.drop_last(), loc);
        if k < gaps.len() - 1 {
            k
        } else if gaps.last().loc == loc {
            gaps.len() - 1
        } else {
            gaps.len() as int
        }
    }
}

/// See [`first_gap`].
pub proof fn lemma_first_gap(gaps: Seq<Gap>, loc: LineColumn)
    ensures
        0 <= first_gap(gaps, loc) <= gaps.len(),
        first_gap(gaps, loc) < gaps.len() ==> is_first_gap(gaps, loc, first_gap(gaps, loc)),
        first_gap(gaps, loc) == gaps.len() ==> !has_gap(gaps, loc),
    decreases gaps.len(),
{
    if gaps.len() > 0 {
        let init = gaps.drop_last();
        lemma_first_gap(init, loc);
        let k = first_gap(init, loc);
        if k < init.len() {
            assert(init[k] == gaps[k]);
            assert forall|j: int| 0 <= j < k implies (#[trigger] gaps[j]).loc != loc by {
                assert(init[j] == gaps[j]);
            }
        } else {
            assert forall|j: int| 0 <= j < init.len() implies (#[trigger] gaps[j]).loc != loc by {
                assert(init[j] == gaps[j]);
            }
        }
    }
}

/// The table without the first gap in front of the token at `loc`.
#[verifier::opaque]
pub open spec fn without_gap(gaps: Seq<Gap>, loc: LineColumn) -> Seq<Gap> {
    if first_gap(gaps, loc) < gaps.len() {
        gaps.remove(first_gap(gaps, loc))
    } else {
        gaps
    }
}

/// The entry that a group gets for the first gap in front of the token at
/// `loc`, laid out at `alignment`; nothing where the table holds no such
/// gap.
#[verifier::opaque]
pub open spec fn gap_entries(gaps: Seq<Gap>, loc: LineColumn, alignment: Alignment) -> Seq<
    DocEntry,
> {
    if first_gap(gaps, loc) < gaps.len() {
        seq![
            DocEntry::Whitespace { alignment, items: gaps[first_gap(gaps, loc)].items@ },
        ]
    } else {
        Seq::empty()
    }
}

/// Whether brace-delimited groups with `count` elements must split.
pub open spec fn brace_threshold_met(threshold: Option<usize>, count: usize) -> bool {
    match threshold {
        Some(t) => count >= t,
        None => false,
    }
}

impl SplitGroupBuilder {
    /// The builder's group is an open group of `out` that was started when
    /// the arena held the groups before it, and nothing happened since to the
    /// groups that the arena held then.
    pub open spec fn wf(&self, out: &MakeSegsState) -> bool {
        &&& out.is_open(self.node)
        &&& self.start@.len() == self.node.0
        &&& nodes_wf(self.start@)
        &&& grown_from(out.nodes@, self.start@)
    }

    /// Adds an entry that is no child.
    fn add(&mut self, out: &mut MakeSegsState, seg: Segment)
        requires
            nodes_wf(old(out).nodes@),
            old(self).wf(old(out)),
            !(seg is Child),
        ensures
            nodes_wf(final(out).nodes@),
            *final(self) == *old(self),
            final(self).wf(final(out)),
            final(out).nodes.len() == old(out).nodes.len(),
            final(out).keeps(old(out), old(self).node, old(self).node),
            final(out).config == old(out).config,
            final(out).comments == old(out).comments,
            final(out).whitespaces == old(out).whitespaces,
            final(out).doc(old(self).node) == old(out).doc(old(self).node).push(plain_entry(seg)),
            code_text(final(out).doc(old(self).node)) == code_text(old(out).doc(old(self).node))
                + code_entry(plain_entry(seg)),
            held_comments(final(out).nodes@) == held_comments(old(out).nodes@).add(
                entry_comments(plain_entry(seg)).to_multiset(),
            ),
            final(out).loose() == old(out).loose(),
    {
        let p = self.node.0;
        let ghost before = out.nodes@;
        out.nodes[p].segments.push(seg);
        proof {
            let after = out.nodes@;
            let pi = p as int;
            assert(forall|j: int| 0 <= j < before.len() && j != p ==> after[j] == before[j]);
            lemma_step(before, after, pi, pi);
            lemma_loose_change(before, after, before.len(), -1);
            lemma_expand_unfold(before, pi);
            lemma_expand_unfold(after, pi);
            reveal_with_fuel(expand, 2);
            reveal_with_fuel(expand_prefix, 2);
            let e = plain_entry(seg);
            let entries = expand(before, pi).entries;
            assert(expand(after, pi).entries =~= entries.push(e));
            assert(entries.push(e).drop_last() =~= entries);
            lemma_code_push(expand(before, pi), e);
            vstd::seq_lib::lemma_multiset_commutative(entries_comments(entries), entry_comments(e));
            lemma_balance(before, after, pi, pi, entry_comments(e).to_multiset());
        }
    }

    /// Adds `text`, which is part of the output whether the group is split or
    /// not.
    pub fn seg(&mut self, out: &mut MakeSegsState, text: &str)
        requires
            old(out).wf(),
            old(self).wf(old(out)),
        ensures
            final(out).wf(),
            *final(self) == *old(self),
            final(self).wf(final(out)),
            final(out).nodes.len() == old(out).nodes.len(),
            final(out).keeps(old(out), old(self).node, old(self).node),
            final(out).config == old(out).config,
            final(out).comments == old(out).comments,
            final(out).whitespaces == old(out).whitespaces,
            final(out).doc(old(self).node) == old(out).doc(old(self).node).push(
                DocEntry::Text { mode: SegmentMode::All, text: text@ },
            ),
            code_text(final(out).doc(old(self).node)) == code_text(old(out).doc(old(self).node))
                + text@,
            final(out).loose() == old(out).loose(),
    {
        self.seg_mode(out, SegmentMode::All, text);
    }

    /// Adds `text`, which is part of the output only while the group is split.
    pub fn seg_split(&mut self, out: &mut MakeSegsState, text: &str)
        requires
            old(out).wf(),
            old(self).wf(old(out)),
        ensures
            final(out).wf(),
            *final(self) == *old(self),
            final(self).wf(final(out)),
            final(out).nodes.len() == old(out).nodes.len(),
            final(out).keeps(old(out), old(self).node, old(self).node),
            final(out).config == old(out).config,
            final(out).comments == old(out).comments,
            final(out).whitespaces == old(out).whitespaces,
            final(out).doc(old(self).node) == old(out).doc(old(self).node).push(
                DocEntry::Text { mode: SegmentMode::Split, text: text@ },
            ),
            code_text(final(out).doc(old(self).node)) == code_text(old(out).doc(old(self).node)),
            final(out).loose() == old(out).loose(),
    {
        self.seg_mode(out, SegmentMode::Split, text);
    }

    /// Adds `text`, which is part of the output only while the group is on
    /// one line.
    pub fn seg_unsplit(&mut self, out: &mut MakeSegsState, text: &str)
        requires
            old(out).wf(),
            old(self).wf(old(out)),
        ensures
            final(out).wf(),
            *final(self) == *old(self),
            final(self).wf(final(out)),
            final(out).nodes.len() == old(out).nodes.len(),
            final(out).keeps(old(out), old(self).node, old(self).node),
            final(out).config == old(out).config,
            final(out).comments == old(out).comments,
            final(out).whitespaces == old(out).whitespaces,
            final(out).doc(old(self).node) == old(out).doc(old(self).node).push(
                DocEntry::Text { mode: SegmentMode::Unsplit, text: text@ },
            ),
            code_text(final(out).doc(old(self).node)) == code_text(old(out).doc(old(self).node))
                + text@,
            final(out).loose() == old(out).loose(),
    {
        self.seg_mode(out, SegmentMode::Unsplit, text);
    }

    /// Adds `text` with the given mode.
    pub fn seg_mode(&mut self, out: &mut MakeSegsState, mode: SegmentMode, text: &str)
        requires
            old(out).wf(),
            old(self).wf(old(out)),
        ensures
            final(out).wf(),
            *final(self) == *old(self),
            final(self).wf(final(out)),
            final(out).nodes.len() == old(out).nodes.len(),
            final(out).keeps(old(out), old(self).node, old(self).node),
            final(out).config == old(out).config,
            final(out).comments == old(out).comments,
            final(out).whitespaces == old(out).whitespaces,
            final(out).doc(old(self).node) == old(out).doc(old(self).node).push(
                DocEntry::Text { mode, text: text@ },
            ),
            code_text(final(out).doc(old(self).node)) == code_text(old(out).doc(old(self).node))
                + (if mode.visible(false) {
                text@
            } else {
                Seq::empty()
            }),
            final(out).loose() == old(out).loose(),
    {
        broadcast use vstd::multiset::group_multiset_axioms;

        let seg = Segment::Text { mode, text: String::from_str(text) };
        self.add(out, seg);
        proof {
            lemma_no_comments(entry_comments(plain_entry(seg)));
            assert(held_comments(out.nodes@) =~= held_comments(old(out).nodes@));
        }
    }

    /// Adds a place where the line breaks while the group is split. The line
    /// that follows starts at `alignment`.
    pub fn split(&mut self, out: &mut MakeSegsState, alignment: Alignment)
        requires
            old(out).wf(),
            old(self).wf(old(out)),
        ensures
            final(out).wf(),
            *final(self) == *old(self),
            final(self).wf(final(out)),
            final(out).nodes.len() == old(out).nodes.len(),
            final(out).keeps(old(out), old(self).node, old(self).node),
            final(out).config == old(out).config,
            final(out).comments == old(out).comments,
            final(out).whitespaces == old(out).whitespaces,
            final(out).doc(old(self).node) == old(out).doc(old(self).node).push(
                DocEntry::Break { always: false, alignment },
            ),
            code_text(final(out).doc(old(self).node)) == code_text(old(out).doc(old(self).node)),
            final(out).loose() == old(out).loose(),
    {
        self.split_if(out, alignment, false);
    }

    /// Adds a place where the line breaks whether the group is split or not.
    /// A group with such an entry is always split.
    pub fn split_always(&mut self, out: &mut MakeSegsState, alignment: Alignment)
        requires
            old(out).wf(),
            old(self).wf(old(out)),
        ensures
            final(out).wf(),
            *final(self) == *old(self),
            final(self).wf(final(out)),
            final(out).nodes.len() == old(out).nodes.len(),
            final(out).keeps(old(out), old(self).node, old(self).node),
            final(out).config == old(out).config,
            final(out).comments == old(out).comments,
            final(out).whitespaces == old(out).whitespaces,
            final(out).doc(old(self).node) == old(out).doc(old(self).node).push(
                DocEntry::Break { always: true, alignment },
            ),
            code_text(final(out).doc(old(self).node)) == code_text(old(out).doc(old(self).node)),
            final(out).loose() == old(out).loose(),
    {
        self.split_if(out, alignment, true);
    }

    /// Adds a place where the line breaks: always, or while the group is
    /// split.
    pub fn split_if(&mut self, out: &mut MakeSegsState, alignment: Alignment, always: bool)
        requires
            old(out).wf(),
            old(self).wf(old(out)),
        ensures
            final(out).wf(),
            *final(self) == *old(self),
            final(self).wf(final(out)),
            final(out).nodes.len() == old(out).nodes.len(),
            final(out).keeps(old(out), old(self).node, old(self).node),
            final(out).config == old(out).config,
            final(out).comments == old(out).comments,
            final(out).whitespaces == old(out).whitespaces,
            final(out).doc(old(self).node) == old(out).doc(old(self).node).push(
                DocEntry::Break { always, alignment },
            ),
            code_text(final(out).doc(old(self).node)) == code_text(old(out).doc(old(self).node)),
            final(out).loose() == old(out).loose(),
    {
        broadcast use vstd::multiset::group_multiset_axioms;

        let seg = Segment::Break { always, alignment };
        self.add(out, seg);
        proof {
            lemma_no_comments(entry_comments(plain_entry(seg)));
            assert(held_comments(out.nodes@) =~= held_comments(old(out).nodes@));
        }
    }

    /// Adds an empty line in front of what follows, which shows while the
    /// group is split. The line that follows starts at `alignment`.
    pub fn blank_line(&mut self, out: &mut MakeSegsState, alignment: Alignment)
        requires
            old(out).wf(),
            old(self).wf(old(out)),
        ensures
            final(out).wf(),
            *final(self) == *old(self),
            final(self).wf(final(out)),
            final(out).nodes.len() == old(out).nodes.len(),
            final(out).keeps(old(out), old(self).node, old(self).node),
            final(out).config == old(out).config,
            final(out).comments == old(out).comments,
            final(out).whitespaces == old(out).whitespaces,
            final(out).doc(old(self).node) == old(out).doc(old(self).node).push(
                DocEntry::Whitespace { alignment, items: seq![Whitespace::BlankLines] },
            ),
            code_text(final(out).doc(old(self).node)) == code_text(old(out).doc(old(self).node)),
            final(out).loose() == old(out).loose(),
    {
        broadcast use vstd::multiset::group_multiset_axioms;

        let mut items: Vec<Whitespace> = Vec::new();
        items.push(Whitespace::BlankLines);
        assert(items@ =~= seq![Whitespace::BlankLines]);
        let seg = Segment::Whitespace { alignment, items };
        self.add(out, seg);
        proof {
            assert(items@.drop_last() =~= Seq::<Whitespace>::empty());
            assert(items@.last() == Whitespace::BlankLines);
            assert(comments_of(items@.drop_last()) =~= Seq::<Comment>::empty());
            assert(comments_of(items@) =~= Seq::<Comment>::empty());
            lemma_no_comments(entry_comments(plain_entry(seg)));
            assert(held_comments(out.nodes@) =~= held_comments(old(out).nodes@));
        }
    }

    /// Makes the finished group `child` the next entry of this group. From
    /// then on `child` has a parent and can be no other group's child. The
    /// child may have been made before this group was started or after.
    pub fn child(&mut self, out: &mut MakeSegsState, child: SplitGroupIdx)
        requires
            old(out).wf(),
            old(self).wf(old(out)),
            old(out).is_finished(child),
        ensures
            final(out).wf(),
            final(self).node == old(self).node,
            final(self).initial_split == old(self).initial_split,
            final(self).reverse_children == old(self).reverse_children,
            old(self).node.0 <= child.0 ==> *final(self) == *old(self),
            final(self).wf(final(out)),
            final(out).nodes.len() == old(out).nodes.len(),
            final(out).keeps(old(out), old(self).node, child),
            final(out).config == old(out).config,
            final(out).comments == old(out).comments,
            final(out).whitespaces == old(out).whitespaces,
            final(out).doc(old(self).node) == old(out).doc(old(self).node).push(
                DocEntry::Child(old(out).doc(child)),
            ),
            code_text(final(out).doc(old(self).node)) == code_text(old(out).doc(old(self).node))
                + code_text(old(out).doc(child)),
            final(out).doc(child) == old(out).doc(child),
            final(out).nodes[child.0 as int].closed,
            final(out).nodes[child.0 as int].attached,
            final(out).loose() + 1 == old(out).loose(),
    {
        let p = self.node.0;
        let c = child.0;
        let ghost before = out.nodes@;
        let ghost rank = if before[p as int].rank@ > before[c as int].rank@ {
            before[p as int].rank@
        } else {
            before[c as int].rank@ + 1
        };
        out.nodes[c].attached = true;
        out.nodes[p].segments.push(Segment::Child(child));
        out.nodes[p].rank = Ghost(rank);
        proof {
            broadcast use vstd::multiset::group_multiset_axioms;

            let after = out.nodes@;
            let pi = p as int;
            let ci = c as int;
            assert(forall|j: int|
                0 <= j < before.len() && j != pi && j != ci ==> after[j] == before[j]);
            assert(after[pi].segments@ == before[pi].segments@.push(Segment::Child(child)));
            lemma_step(before, after, pi, ci);
            lemma_loose_change(before, after, before.len(), ci);
            lemma_expand_unfold(before, pi);
            lemma_expand_unfold(after, pi);
            reveal_with_fuel(expand, 2);
            reveal_with_fuel(expand_prefix, 2);
            let dc = expand(before, ci);
            let e = DocEntry::Child(dc);
            let entries = expand(before, pi).entries;
            assert(expand(after, pi).entries =~= entries.push(e));
            assert(entries.push(e).drop_last() =~= entries);
            lemma_code_push(expand(before, pi), e);
            vstd::seq_lib::lemma_multiset_commutative(entries_comments(entries), entry_comments(e));
            assert(held(after, pi).add(held(after, ci)) =~= held(before, pi).add(
                held(before, ci),
            ).add(Multiset::empty()));
            lemma_balance(before, after, pi, ci, Multiset::empty());
            assert(held_comments(after) =~= held_comments(before));
        }
        if c < p {
            let ghost start = self.start@;
            let ghost moved = start.update(c as int, out.nodes@[c as int]);
            proof {
                let after = out.nodes@;
                assert(start[c as int] == before[c as int]);
                assert forall|r: int, i: int|
                    0 <= r < moved.len() && 0 <= i < moved[r].segments@.len() implies #[trigger] segment_ok(
                    moved,
                    r,
                    i,
                ) by {
                    assert(segment_ok(start, r, i));
                }
                assert(nodes_wf(moved));
                assert forall|t: int| 0 <= t < moved.len() implies (#[trigger] after[t]) == moved[t]
                    && expand(after, t) == expand(moved, t) by {
                    assert(before[t] == start[t]);
                    lemma_expand_frame(start, moved, t);
                }
            }
            self.start = Ghost(moved);
        }
    }

    /// Marks the group as one that must split.
    pub fn initial_split(&mut self)
        ensures
            final(self).node == old(self).node,
            final(self).start == old(self).start,
            final(self).initial_split,
            final(self).reverse_children == old(self).reverse_children,
    {
        self.initial_split = true;
    }

    /// Makes the layout pass look at the nested groups last to first when it
    /// searches one that must split. The output keeps its order.
    pub fn reverse_children(&mut self)
        ensures
            final(self).node == old(self).node,
            final(self).start == old(self).start,
            final(self).initial_split == old(self).initial_split,
            final(self).reverse_children,
    {
        self.reverse_children = true;
    }

    /// Closes the group and gives its handle, which is the one it had from
    /// the start.
    pub fn build(self, out: &mut MakeSegsState) -> (idx: SplitGroupIdx)
        requires
            old(out).wf(),
            self.wf(old(out)),
        ensures
            final(out).wf(),
            idx == self.node,
            final(out).is_finished(idx),
            final(out).nodes.len() == old(out).nodes.len(),
            final(out).keeps(old(out), idx, idx),
            final(out).config == old(out).config,
            final(out).comments == old(out).comments,
            grown_from(final(out).nodes@, self.start@),
            final(out).whitespaces == old(out).whitespaces,
            final(out).doc(idx) == (Doc {
                split: self.initial_split,
                entries: old(out).doc(idx).entries,
            }),
            code_text(final(out).doc(idx)) == code_text(old(out).doc(idx)),
            final(out).loose() == old(out).loose(),
            final(out).nodes[idx.0 as int].reversed == self.reverse_children,
    {
        let p = self.node.0;
        let ghost before = out.nodes@;
        out.nodes[p].split = self.initial_split;
        out.nodes[p].reversed = self.reverse_children;
        out.nodes[p].closed = true;
        proof {
            broadcast use vstd::multiset::group_multiset_axioms;

            let after = out.nodes@;
            let pi = p as int;
            assert(forall|j: int| 0 <= j < before.len() && j != pi ==> after[j] == before[j]);
            lemma_step(before, after, pi, pi);
            lemma_loose_change(before, after, before.len(), -1);
            lemma_expand_unfold(before, pi);
            lemma_expand_unfold(after, pi);
            assert(expand(after, pi).entries == expand(before, pi).entries);
            assert(doc_comments(expand(after, pi)) == doc_comments(expand(before, pi)));
            assert(held(after, pi) =~= held(before, pi).add(Multiset::empty()));
            lemma_balance(before, after, pi, pi, Multiset::empty());
            assert(held_comments(after) =~= held_comments(before));
        }
        self.node
    }
}

/// Starts a group: the arena gets a new, empty group, and the builder that
/// fills it is returned.
pub fn new_sg(out: &mut MakeSegsState) -> (sg: SplitGroupBuilder)
    requires
        old(out).wf(),
    ensures
        final(out).wf(),
        sg.wf(final(out)),
        sg.node.0 == old(out).nodes.len(),
        sg.start@ == old(out).nodes@,
        !sg.initial_split,
        !sg.reverse_children,
        final(out).nodes.len() == old(out).nodes.len() + 1,
        final(out).extends(old(out)),
        final(out).whitespaces == old(out).whitespaces,
        final(out).doc(sg.node) == Doc::empty(),
        code_text(final(out).doc(sg.node)) == Seq::<char>::empty(),
        final(out).loose() == old(out).loose() + 1,
{
    let idx = SplitGroupIdx(out.nodes.len());
    let ghost before = out.nodes@;
    out.nodes.push(
        SplitGroup {
            split: false,
            reversed: false,
            closed: false,
            attached: false,
            segments: Vec::new(),
            rank: Ghost(0),
        },
    );
    proof {
        broadcast use vstd::multiset::group_multiset_axioms;

        let after = out.nodes@;
        assert forall|r: int, i: int|
            0 <= r < after.len() && 0 <= i < after[r].segments@.len() implies #[trigger] segment_ok(
            after,
            r,
            i,
        ) by {
            assert(segment_ok(before, r, i));
        }
        assert forall|t: int| 0 <= t < before.len() implies expand(after, t) == expand(
            before,
            t,
        ) by {
            lemma_expand_frame(before, after, t);
        }
        assert(grown_from(after, before));
        lemma_loose_change(before, after, before.len(), -1);
        reveal(loose_below);
        lemma_expand_unfold(after, before.len() as int);
        reveal_with_fuel(expand, 2);
        reveal_with_fuel(expand_prefix, 2);
        reveal(held_below);
        assert(expand(after, before.len() as int).entries =~= Seq::<DocEntry>::empty());
        lemma_no_comments(doc_comments(expand(after, before.len() as int)));
        assert forall|j: int| 0 <= j < before.len() implies held(after, j) == held(before, j) by {
            assert(after[j] == before[j]);
        }
        assert forall|x: Comment|
            held_comments(after).count(x) == #[trigger] held_comments(before).count(x) by {
            lemma_held_change(before, after, before.len(), -1, -2, x);
        }
        assert(held_comments(after) =~= held_comments(before));
    }
    SplitGroupBuilder {
        node: idx,
        initial_split: false,
        reverse_children: false,
        start: Ghost(before),
    }
}

/// Hands the gap in front of the token at `loc` to the group: the first gap
/// of the table at that place leaves the table and becomes the group's next
/// entry, laid out at `base_indent`. Where the table has no such gap, nothing
/// happens.
pub fn append_whitespace(
    out: &mut MakeSegsState,
    base_indent: &Alignment,
    sg: &mut SplitGroupBuilder,
    loc: LineColumn,
)
    requires
        old(out).wf(),
        old(sg).wf(old(out)),
    ensures
        final(out).wf(),
        *final(sg) == *old(sg),
        final(sg).wf(final(out)),
        final(out).nodes.len() == old(out).nodes.len(),
        final(out).keeps(old(out), old(sg).node, old(sg).node),
        final(out).config == old(out).config,
        final(out).comments == old(out).comments,
        code_text(final(out).doc(old(sg).node)) == code_text(old(out).doc(old(sg).node)),
        final(out).whitespaces@ == without_gap(old(out).whitespaces@, loc),
        final(out).doc(old(sg).node).split == old(out).doc(old(sg).node).split,
        final(out).doc(old(sg).node).entries == old(out).doc(old(sg).node).entries + gap_entries(
            old(out).whitespaces@,
            loc,
            *base_indent,
        ),
        final(out).loose() == old(out).loose(),
{
    let mut i: usize = 0;
    while i < out.whitespaces.len()
        invariant
            i <= out.whitespaces.len(),
            *out == *old(out),
            *sg == *old(sg),
            out.wf(),
            sg.wf(out),
            forall|j: int| 0 <= j < i ==> (#[trigger] out.whitespaces@[j]).loc != loc,
        decreases out.whitespaces.len() - i,
    {
        if out.whitespaces[i].loc == loc {
            let ghost gaps = out.whitespaces@;
            let gap = out.whitespaces.remove(i);
            let seg = Segment::Whitespace { alignment: *base_indent, items: gap.items };
            sg.add(out, seg);
            proof {
                broadcast use vstd::multiset::group_multiset_axioms;

                reveal(without_gap);
                reveal(gap_entries);
                lemma_gap_comments_remove(gaps, i as int);
                assert(is_first_gap(gaps, loc, i as int));
                lemma_first_gap(gaps, loc);
                assert(first_gap(gaps, loc) == i);
                assert(out.doc(sg.node).entries =~= old(out).doc(sg.node).entries + gap_entries(
                    gaps,
                    loc,
                    *base_indent,
                ));
                assert(held_comments(out.nodes@).add(gap_comments(out.whitespaces@).to_multiset())
                    =~= held_comments(old(out).nodes@).add(gap_comments(gaps).to_multiset()));
            }
            return ;
        }
        i += 1;
    }
    proof {
        reveal(without_gap);
        reveal(gap_entries);
        lemma_first_gap(out.whitespaces@, loc);
        assert(has_gap(out.whitespaces@, loc) ==> false) by {
            if has_gap(out.whitespaces@, loc) {
                let k = choose|k: int|
                    0 <= k < out.whitespaces@.len() && (#[trigger] out.whitespaces@[k]).loc == loc;
            }
        }
        assert(out.doc(sg.node).entries =~= old(out).doc(sg.node).entries + gap_entries(
            out.whitespaces@,
            loc,
            *base_indent,
        ));
    }
}

/// A finished group that holds `text` alone, behind the gap in front of the
/// token at `start`, where a place is given.
pub fn new_sg_lit(out: &mut MakeSegsState, start: Option<(Alignment, LineColumn)>, text: &str) -> (idx:
    SplitGroupIdx)
    requires
        old(out).wf(),
    ensures
        final(out).wf(),
        final(out).is_finished(idx),
        idx.0 == old(out).nodes.len(),
        final(out).nodes.len() == old(out).nodes.len() + 1,
        final(out).extends(old(out)),
        !final(out).doc(idx).split,
        final(out).doc(idx).entries.len() >= 1,
        final(out).doc(idx).entries.last() == (DocEntry::Text {
            mode: SegmentMode::All,
            text: text@,
        }),
        code_text(final(out).doc(idx)) == text@,
        final(out).doc(idx) == (Doc {
            split: false,
            entries: (match start {
                Some(place) => gap_entries(old(out).whitespaces@, place.1, place.0),
                None => Seq::empty(),
            }).push(DocEntry::Text { mode: SegmentMode::All, text: text@ }),
        }),
        final(out).whitespaces@ == (match start {
            Some(place) => without_gap(old(out).whitespaces@, place.1),
            None => old(out).whitespaces@,
        }),
        final(out).loose() == old(out).loose() + 1,
{
    let mut sg = new_sg(out);
    match start {
        Some(place) => {
            append_whitespace(out, &place.0, &mut sg, place.1);
        },
        None => {},
    }
    assert(sg.wf(out));
    assert(out.doc(sg.node).entries =~= (match start {
        Some(place) => gap_entries(old(out).whitespaces@, place.1, place.0),
        None => Seq::empty(),
    }));
    sg.seg(out, text);
    sg.build(out)
}

/// Whether the options make a brace-delimited group with `count` elements
/// split whatever its width.
pub fn check_split_brace_threshold(out: &MakeSegsState, count: usize) -> (b: bool)
    ensures
        b == brace_threshold_met(out.config.split_brace_threshold, count),
{
    match out.config.split_brace_threshold {
        Some(t) => count >= t,
        None => false,
    }
}

} // verus!
