//! Building blocks that the front end shares.

use crate::arena::MakeSegsState;
use crate::arena::SplitGroupBuilder;
use crate::arena::SplitGroupIdx;
use crate::builder::append_whitespace;
use crate::builder::gap_entries;
use crate::builder::without_gap;
use crate::whitespace::Gap;
use crate::builder::new_sg;
use crate::margin::margin_required;
use crate::margin::want_blank_line;
use crate::margin::Margin;
use crate::model::code_text;
use crate::model::Doc;
use crate::model::DocEntry;
use crate::whitespace::Whitespace;
use crate::model::Alignment;
use crate::model::SegmentMode;
use crate::syntax::Pair;
use crate::whitespace::LineColumn;
use vstd::prelude::*;

verus! {

broadcast use crate::arena::lemma_grown_trans;

/// Since `before`, the group of builder `sg` has taken entries that say
/// `text`, among them `taken` finished groups that waited for their place,
/// and nothing happened to the groups that the arena held when the group
/// was started. No group that was made meanwhile is left without a place.
pub open spec fn said_taking(
    before: &MakeSegsState,
    after: &MakeSegsState,
    sg: SplitGroupBuilder,
    text: Seq<char>,
    taken: nat,
) -> bool {
    &&& after.wf()
    &&& sg.wf(after)
    &&& after.config == before.config
    &&& after.comments == before.comments
    &&& code_text(after.doc(sg.node)) == code_text(before.doc(sg.node)) + text
    &&& after.loose() + taken == before.loose()
}

/// [`said_taking`] where no group waited for its place.
pub open spec fn said(
    before: &MakeSegsState,
    after: &MakeSegsState,
    sg: SplitGroupBuilder,
    text: Seq<char>,
) -> bool {
    said_taking(before, after, sg, text, 0)
}

/// Since `before`, the finished group `idx` was made, which says `text`,
/// and nothing happened to the groups that were there. No other group that
/// was made meanwhile is left without a place.
pub open spec fn made(
    before: &MakeSegsState,
    after: &MakeSegsState,
    idx: SplitGroupIdx,
    text: Seq<char>,
) -> bool {
    &&& after.wf()
    &&& after.extends(before)
    &&& before.nodes.len() <= idx.0
    &&& after.is_finished(idx)
    &&& code_text(after.doc(idx)) == text
    &&& after.loose() == before.loose() + 1
}

/// The two things that laying out changes: the entries of the group that
/// is being filled, and the table of gaps.
pub struct Laid {
    pub entries: Seq<DocEntry>,
    pub gaps: Seq<Gap>,
}

/// What building several groups comes to: the groups, and the table behind
/// them.
pub struct BuiltAll {
    pub docs: Seq<Doc>,
    pub gaps: Seq<Gap>,
}

impl BuiltAll {
    /// One more group was built.
    pub open spec fn and(self, b: Built) -> BuiltAll {
        BuiltAll { docs: self.docs.push(b.doc), gaps: b.gaps }
    }

    /// No group built yet, with the table as it is.
    pub open spec fn none(gaps: Seq<Gap>) -> BuiltAll {
        BuiltAll { docs: Seq::empty(), gaps }
    }
}

/// The groups for the first `n` pieces of a list, built one after the
/// other and laid out at `indent`.
pub open spec fn pieces_built(list: Seq<Pair<Syntax>>, gaps: Seq<Gap>, indent: Alignment, n: nat)
    -> BuiltAll
    decreases n,
{
    if n == 0 {
        BuiltAll::none(gaps)
    } else {
        let before = pieces_built(list, gaps, indent, (n - 1) as nat);
        before.and(list[n - 1].value.built(before.gaps, indent))
    }
}

/// The places of the marks behind the elements of a list.
pub open spec fn pair_puncts<T>(list: Seq<Pair<T>>) -> Seq<Option<LineColumn>> {
    Seq::new(list.len(), |i: int| list[i].punct)
}

/// The attributes of a declaration as the entries of a group of their own.
pub open spec fn attrs_laid(gaps: Seq<Gap>, base_indent: Alignment, attrs: Seq<Syntax>) -> Laid {
    Laid::start(gaps).attributes(base_indent, attrs, attrs.len())
}

/// What a declaration comes to behind its attributes: without attributes
/// the group `inner` that was built for it; else a group that holds the
/// attributes and then `inner`, and that is marked as one that must split
/// if `split` is set.
pub open spec fn with_attributes(attrs: Laid, count: nat, inner: Built, split: bool) -> Built {
    if count == 0 {
        inner
    } else {
        attrs.child_built(inner).built(split)
    }
}

/// What building a group comes to: the group, and the table behind it.
pub struct Built {
    pub doc: Doc,
    pub gaps: Seq<Gap>,
}

/// Whether group `idx` and the table are what was to be built.
pub open spec fn built_as(after: &MakeSegsState, idx: SplitGroupIdx, b: Built) -> bool {
    after.doc(idx) == b.doc && after.whitespaces@ == b.gaps
}

/// The entries of group `node` and the table, as they are.
pub open spec fn laid(out: &MakeSegsState, node: SplitGroupIdx) -> Laid {
    Laid { entries: out.doc(node).entries, gaps: out.whitespaces@ }
}

impl Laid {
    /// The first gap in front of the token at `loc` has left the table and
    /// become an entry, laid out at `alignment`, if there was one.
    pub open spec fn gap(self, loc: LineColumn, alignment: Alignment) -> Laid {
        Laid {
            entries: self.entries + gap_entries(self.gaps, loc, alignment),
            gaps: without_gap(self.gaps, loc),
        }
    }

    /// [`Laid::gap`] for a place that may be absent.
    pub open spec fn gap_if(self, loc: Option<LineColumn>, alignment: Alignment) -> Laid {
        match loc {
            Some(l) => self.gap(l, alignment),
            None => self,
        }
    }

    /// Text has become an entry.
    pub open spec fn text(self, mode: SegmentMode, text: Seq<char>) -> Laid {
        Laid { entries: self.entries.push(DocEntry::Text { mode, text }), gaps: self.gaps }
    }

    /// A space that shows on one line has become an entry, if `yes`.
    pub open spec fn space_if(self, yes: bool) -> Laid {
        if yes {
            self.text(SegmentMode::Unsplit, " "@)
        } else {
            self
        }
    }

    /// A place to break has become an entry.
    pub open spec fn line_break(self, always: bool, alignment: Alignment) -> Laid {
        Laid { entries: self.entries.push(DocEntry::Break { always, alignment }), gaps: self.gaps }
    }

    /// A group has become an entry.
    pub open spec fn child(self, d: Doc) -> Laid {
        Laid { entries: self.entries.push(DocEntry::Child(d)), gaps: self.gaps }
    }

    /// A group that was built behind this has become an entry.
    pub open spec fn child_built(self, b: Built) -> Laid {
        Laid { entries: self.entries.push(DocEntry::Child(b.doc)), gaps: b.gaps }
    }

    /// Groups were built meanwhile, which left the table as `gaps`.
    pub open spec fn with_gaps(self, gaps: Seq<Gap>) -> Laid {
        Laid { entries: self.entries, gaps }
    }

    /// Nothing laid out yet, with the table as it is.
    pub open spec fn start(gaps: Seq<Gap>) -> Laid {
        Laid { entries: Seq::empty(), gaps }
    }

    /// The group that these entries make, marked or not.
    pub open spec fn built(self, split: bool) -> Built {
        Built { doc: Doc { split, entries: self.entries }, gaps: self.gaps }
    }

    /// A token has become an entry, behind the gap in front of it.
    pub open spec fn token(self, loc: LineColumn, alignment: Alignment, text: Seq<char>) -> Laid {
        self.gap(loc, alignment).text(SegmentMode::All, text)
    }

    /// The token of a keyword that may be absent has become entries, if it
    /// is there.
    pub open spec fn keyword(self, loc: Option<LineColumn>, alignment: Alignment, text: Seq<char>)
        -> Laid {
        match loc {
            Some(l) => self.token(l, alignment, text),
            None => self,
        }
    }

    /// Text has become an entry, if `yes`.
    pub open spec fn text_when(self, yes: bool, text: Seq<char>) -> Laid {
        if yes {
            self.text(SegmentMode::All, text)
        } else {
            self
        }
    }

    /// The right side of a binary form has become entries behind its
    /// operator: the operator, a place to break one level deeper than
    /// `base_indent`, a space that shows on one line, and the group for the
    /// right side, which was built first.
    pub open spec fn binary(self, base_indent: Alignment, tok: Seq<char>, right: Built) -> Laid {
        Laid { entries: self.entries, gaps: right.gaps }.text(SegmentMode::All, tok).line_break(
            false,
            base_indent.deeper(),
        ).space_if(true).child(right.doc)
    }

    /// [`Laid::binary`] for a right side that is a piece of syntax, built
    /// one level deeper than `base_indent`.
    pub open spec fn binary_syntax(self, base_indent: Alignment, tok: Seq<char>, right: Syntax)
        -> Laid {
        self.binary(base_indent, tok, right.built(self.gaps, base_indent.deeper()))
    }

    /// A list of pieces in brackets has become entries: the groups for the
    /// pieces were built first, one level deeper, then the list was laid out
    /// (see [`Laid::bracketed_list`]).
    pub open spec fn syntax_list(
        self,
        base_indent: Alignment,
        prefix_start: LineColumn,
        prefix: Seq<char>,
        bracket_space: bool,
        punct: Seq<char>,
        list: Seq<Pair<Syntax>>,
        trailing: bool,
        suffix_start: LineColumn,
        suffix: Seq<char>,
    ) -> Laid {
        let all = pieces_built(list, self.gaps, base_indent.deeper(), list.len());
        Laid { entries: self.entries, gaps: all.gaps }.bracketed_list(
            base_indent,
            prefix_start,
            prefix,
            bracket_space && list.len() > 0,
            punct,
            pair_puncts(list),
            all.docs,
            trailing,
            suffix_start,
            suffix,
        )
    }

    /// The first `n` pieces of a list without brackets have become
    /// entries: each one a nested group, built in its turn; between two of
    /// them the gap in front of the mark, the mark, and a space that shows
    /// on one line.
    pub open spec fn inline_list(
        self,
        base_indent: Alignment,
        punct: Seq<char>,
        list: Seq<Pair<Syntax>>,
        n: nat,
    ) -> Laid
        decreases n,
    {
        if n == 0 {
            self
        } else {
            let i = n - 1;
            let before = self.inline_list(base_indent, punct, list, i as nat);
            let parted = if i > 0 {
                before.gap_if(list[i - 1].punct, base_indent).text(SegmentMode::All, punct).space_if(
                    true,
                )
            } else {
                before
            };
            parted.child_built(list[i].value.built(parted.gaps, base_indent))
        }
    }

    /// The first `n` attributes of a declaration have become entries: each
    /// one a nested group, behind it a place to break and a space that shows
    /// on one line.
    pub open spec fn attributes(self, base_indent: Alignment, attrs: Seq<Syntax>, n: nat) -> Laid
        decreases n,
    {
        if n == 0 {
            self
        } else {
            let i = n - 1;
            let before = self.attributes(base_indent, attrs, i as nat);
            before.child_built(attrs[i].built(before.gaps, base_indent)).line_break(
                false,
                base_indent,
            ).space_if(true)
        }
    }

    /// The first `n` elements of a list have become entries: each one a
    /// nested group behind a place to break at `indent`; between two of
    /// them the gap in front of the mark, the mark, and a space that shows
    /// on one line.
    pub open spec fn list_items(
        self,
        indent: Alignment,
        punct: Seq<char>,
        puncts: Seq<Option<LineColumn>>,
        docs: Seq<Doc>,
        n: nat,
    ) -> Laid
        decreases n,
    {
        if n == 0 {
            self
        } else {
            let i = n - 1;
            let before = self.list_items(indent, punct, puncts, docs, i as nat);
            (if i > 0 {
                before.gap_if(puncts[i - 1], indent).text(SegmentMode::All, punct).space_if(true)
            } else {
                before
            }).line_break(false, indent).child(docs[i])
        }
    }

    /// The entries of a block have become entries: see
    /// [`statement_entries`].
    pub open spec fn statements(self, indent: Alignment, margins: Seq<Margin>, docs: Seq<Doc>)
        -> Laid {
        Laid {
            entries: self.entries + statement_entries(indent, margins, docs, docs.len()),
            gaps: self.gaps,
        }
    }

    /// A block has become entries: the gap in front of the opening brace
    /// and the opening; the entries one level deeper; the gap in front of
    /// the closing brace, a place to break at `base_indent`, and the brace.
    /// Where the block has entries, a space that shows on one line stands
    /// inside the braces at each end.
    pub open spec fn block(
        self,
        base_indent: Alignment,
        prefix_start: LineColumn,
        prefix: Seq<char>,
        margins: Seq<Margin>,
        docs: Seq<Doc>,
        suffix_start: LineColumn,
    ) -> Laid {
        self.token(prefix_start, base_indent, prefix).space_if(docs.len() > 0).statements(
            base_indent.deeper(),
            margins,
            docs,
        ).gap(suffix_start, base_indent).line_break(false, base_indent).space_if(
            docs.len() > 0,
        ).text(SegmentMode::All, "}"@)
    }

    /// A block has become entries whose entries were built first, as `all`
    /// has them: see [`Laid::block`].
    pub open spec fn block_of(
        self,
        base_indent: Alignment,
        prefix_start: LineColumn,
        margins: Seq<Margin>,
        all: BuiltAll,
        suffix_start: LineColumn,
    ) -> Laid {
        self.with_gaps(all.gaps).block(
            base_indent,
            prefix_start,
            " {"@,
            margins,
            all.docs,
            suffix_start,
        )
    }

    /// A list in brackets has become entries: the gap in front of the
    /// opening bracket and the bracket; the elements one level deeper (see
    /// [`Laid::list_items`]); with `trailing` set the gap in front of the
    /// mark behind the last element and that mark, which shows while the
    /// group is split; the gap in front of the closing bracket, a place to
    /// break at `base_indent`, and the bracket. With `space` set a space
    /// that shows on one line stands inside the brackets at each end.
    pub open spec fn bracketed_list(
        self,
        base_indent: Alignment,
        prefix_start: LineColumn,
        prefix: Seq<char>,
        space: bool,
        punct: Seq<char>,
        puncts: Seq<Option<LineColumn>>,
        docs: Seq<Doc>,
        trailing: bool,
        suffix_start: LineColumn,
        suffix: Seq<char>,
    ) -> Laid {
        let filled = self.token(prefix_start, base_indent, prefix).space_if(space).list_items(
            base_indent.deeper(),
            punct,
            puncts,
            docs,
            docs.len(),
        );
        (if trailing && docs.len() > 0 {
            filled.gap_if(puncts.last(), base_indent.deeper()).text(SegmentMode::Split, punct)
        } else {
            filled
        }).gap(suffix_start, base_indent).line_break(false, base_indent).space_if(space).text(
            SegmentMode::All,
            suffix,
        )
    }
}

/// A piece of syntax that is laid out by rules of its own: a token, text
/// that shows in one form of its group only, a place where the line may
/// break, or a group of such pieces.
#[derive(Debug, PartialEq, Eq)]
pub enum Syntax {
    /// A token of the source at its place.
    Token { loc: LineColumn, text: String },
    /// Text that is no token of the source.
    Text { mode: SegmentMode, text: String },
    /// A place where the line breaks while the group is split. The line
    /// that follows stands where the pieces around the break stand, or one
    /// level deeper.
    Break { deeper: bool },
    /// A group of pieces. It may be marked as one that must split, and its
    /// pieces may stand one level deeper than what is around it.
    Group { split: bool, indent: bool, parts: Vec<Syntax> },
}

/// What a piece of syntax is, with the texts as they read.
pub enum Piece {
    Token { loc: LineColumn, text: Seq<char> },
    Text { mode: SegmentMode, text: Seq<char> },
    Break { deeper: bool },
    Group { split: bool, indent: bool, parts: Seq<Piece> },
}

impl Syntax {
    /// What the piece is.
    pub open spec fn shape(self) -> Piece
        decreases self,
    {
        match self {
            Syntax::Token { loc, text } => Piece::Token { loc, text: text@ },
            Syntax::Text { mode, text } => Piece::Text { mode, text: text@ },
            Syntax::Break { deeper } => Piece::Break { deeper },
            Syntax::Group { split, indent, parts } => Piece::Group {
                split,
                indent,
                parts: Syntax::shapes(parts@),
            },
        }
    }

    /// What each of the pieces is.
    pub open spec fn shapes(parts: Seq<Syntax>) -> Seq<Piece>
        decreases parts,
    {
        if parts.len() == 0 {
            Seq::empty()
        } else {
            Syntax::shapes(parts.drop_last()).push(parts.last().shape())
        }
    }

    /// What the piece says on one line.
    pub open spec fn text(self) -> Seq<char>
        decreases self,
    {
        match self {
            Syntax::Token { text, .. } => text@,
            Syntax::Text { mode, text } => if mode.visible(false) {
                text@
            } else {
                Seq::empty()
            },
            Syntax::Break { .. } => Seq::empty(),
            Syntax::Group { parts, .. } => Syntax::texts(parts@),
        }
    }

    /// What the pieces say on one line.
    pub open spec fn texts(parts: Seq<Syntax>) -> Seq<char>
        decreases parts,
    {
        if parts.len() == 0 {
            Seq::empty()
        } else {
            Syntax::texts(parts.drop_last()) + parts.last().text()
        }
    }

    /// The alignment of what follows a break of the given level.
    pub open spec fn break_alignment(deeper: bool, alignment: Alignment) -> Alignment {
        if deeper {
            alignment.deeper()
        } else {
            alignment
        }
    }

    /// The piece has become entries of a group whose entries stand at
    /// `alignment`: a token its gap and its text; text and a break one entry
    /// each; a group a nested group.
    pub open spec fn laid_onto(self, l: Laid, alignment: Alignment) -> Laid
        decreases self, 1int,
    {
        match self {
            Syntax::Token { loc, text } => l.token(loc, alignment, text@),
            Syntax::Text { mode, text } => l.text(mode, text@),
            Syntax::Break { deeper } => l.line_break(
                false,
                Syntax::break_alignment(deeper, alignment),
            ),
            Syntax::Group { .. } => l.child_built(self.built(l.gaps, alignment)),
        }
    }

    /// The pieces have become entries, one after the other.
    pub open spec fn parts_laid(parts: Seq<Syntax>, l: Laid, alignment: Alignment) -> Laid
        decreases parts,
    {
        if parts.len() == 0 {
            l
        } else {
            parts.last().laid_onto(Syntax::parts_laid(parts.drop_last(), l, alignment), alignment)
        }
    }

    /// The group that holds the piece, laid out at `base_indent`: for a
    /// group its pieces, one level deeper where the group says so, and its
    /// mark; for any other piece the piece alone.
    pub open spec fn built(self, gaps: Seq<Gap>, base_indent: Alignment) -> Built
        decreases self, 0int,
    {
        match self {
            Syntax::Group { split, indent, parts } => Syntax::parts_laid(
                parts@,
                Laid::start(gaps),
                Syntax::break_alignment(indent, base_indent),
            ).built(split),
            Syntax::Token { loc, text } => Laid::start(gaps).token(loc, base_indent, text@).built(
                false,
            ),
            Syntax::Text { mode, text } => Laid::start(gaps).text(mode, text@).built(false),
            Syntax::Break { deeper } => Laid::start(gaps).line_break(
                false,
                Syntax::break_alignment(deeper, base_indent),
            ).built(false),
        }
    }

    /// Adds the piece to an open group whose entries stand at `alignment`.
    pub fn append(&self, out: &mut MakeSegsState, alignment: &Alignment, sg: &mut SplitGroupBuilder)
        requires
            old(out).wf(),
            old(sg).wf(old(out)),
        ensures
            *final(sg) == *old(sg),
            said(old(out), final(out), *old(sg), self.text()),
            final(out).doc(old(sg).node).split == old(out).doc(old(sg).node).split,
            laid(final(out), old(sg).node) == self.laid_onto(
                laid(old(out), old(sg).node),
                *alignment,
            ),
        decreases self, 1int,
    {
        match self {
            Syntax::Token { loc, text } => {
                append_whitespace(out, alignment, sg, *loc);
                sg.seg(out, text.as_str());
                assert(said(old(out), out, *old(sg), self.text()));
            },
            Syntax::Text { mode, text } => {
                sg.seg_mode(out, *mode, text.as_str());
                assert(said(old(out), out, *old(sg), self.text()));
            },
            Syntax::Break { deeper } => {
                if *deeper {
                    sg.split(out, alignment.indent());
                } else {
                    sg.split(out, *alignment);
                }
                assert(sg.wf(out));
                assert(code_text(out.doc(sg.node)) =~= code_text(old(out).doc(sg.node))
                    + self.text());
                assert(said(old(out), out, *old(sg), self.text()));
            },
            Syntax::Group { .. } => {
                let child = self.make_segs(out, alignment);
                assert(sg.wf(out));
                assert(code_text(out.doc(sg.node)) == code_text(old(out).doc(sg.node)));
                assert(out.doc(sg.node) == old(out).doc(sg.node));
                sg.child(out, child);
                assert(said(old(out), out, *old(sg), self.text()));
            },
        }
    }

    /// Whether the piece is a group that is marked as one that must split.
    pub open spec fn marked(self) -> bool {
        match self {
            Syntax::Group { split, .. } => split,
            _ => false,
        }
    }

    /// Exec form of [`Syntax::marked`].
    pub fn is_marked(&self) -> (b: bool)
        ensures
            b == self.marked(),
    {
        match self {
            Syntax::Group { split, .. } => *split,
            _ => false,
        }
    }

    /// The pieces of a group, or the piece itself if it is no group, have
    /// become entries.
    pub open spec fn parts_onto(self, l: Laid, alignment: Alignment) -> Laid {
        match self {
            Syntax::Group { parts, .. } => Syntax::parts_laid(parts@, l, alignment),
            _ => self.laid_onto(l, alignment),
        }
    }

    /// Adds the pieces of a group, or the piece itself if it is no group, to
    /// an open group whose entries stand at `alignment`.
    pub fn append_parts(
        &self,
        out: &mut MakeSegsState,
        alignment: &Alignment,
        sg: &mut SplitGroupBuilder,
    )
        requires
            old(out).wf(),
            old(sg).wf(old(out)),
        ensures
            *final(sg) == *old(sg),
            said(old(out), final(out), *old(sg), self.text()),
            final(out).doc(old(sg).node).split == old(out).doc(old(sg).node).split,
            laid(final(out), old(sg).node) == self.parts_onto(
                laid(old(out), old(sg).node),
                *alignment,
            ),
    {
        match self {
            Syntax::Group { parts, .. } => {
                let ghost base = code_text(out.doc(sg.node));
                let mut i: usize = 0;
                assert(parts@.take(0) =~= Seq::<Syntax>::empty());
                assert(code_text(out.doc(sg.node)) =~= base + Syntax::texts(parts@.take(0)));
                while i < parts.len()
                    invariant
                        out.loose() == old(out).loose(),
                        i <= parts.len(),
                        out.wf(),
                        sg.wf(out),
                        *sg == *old(sg),
                        out.config == old(out).config,
                        out.comments == old(out).comments,
                        code_text(out.doc(sg.node)) == base + Syntax::texts(parts@.take(i as int)),
                        out.doc(sg.node).split == old(out).doc(sg.node).split,
                        laid(out, sg.node) == Syntax::parts_laid(
                            parts@.take(i as int),
                            laid(old(out), sg.node),
                            *alignment,
                        ),
                    decreases parts.len() - i,
                {
                    proof {
                        assert(parts@.take(i + 1).drop_last() =~= parts@.take(i as int));
                        assert(parts@.take(i + 1).last() == parts@[i as int]);
                    }
                    parts[i].append(out, alignment, sg);
                    assert(code_text(out.doc(sg.node)) =~= base + Syntax::texts(
                        parts@.take(i + 1),
                    ));
                    i += 1;
                }
                assert(parts@.take(i as int) =~= parts@);
            },
            _ => {
                self.append(out, alignment, sg);
            },
        }
    }

    /// A finished group that holds the piece, laid out at `base_indent`.
    pub fn make_segs(&self, out: &mut MakeSegsState, base_indent: &Alignment) -> (idx:
        SplitGroupIdx)
        requires
            old(out).wf(),
        ensures
            made(old(out), final(out), idx, self.text()),
            built_as(final(out), idx, self.built(old(out).whitespaces@, *base_indent)),
        decreases self, 0int,
    {
        let mut sg = new_sg(out);
        assert(laid(out, sg.node) =~= Laid::start(old(out).whitespaces@));
        match self {
            Syntax::Group { split, indent, parts } => {
                if *split {
                    sg.initial_split();
                }
                let alignment = if *indent {
                    base_indent.indent()
                } else {
                    *base_indent
                };
                let mut i: usize = 0;
                assert(parts@.take(0) =~= Seq::<Syntax>::empty());
                while i < parts.len()
                    invariant
                        out.loose() == old(out).loose() + 1,
                        i <= parts.len(),
                        out.wf(),
                        sg.wf(out),
                        sg.node.0 == old(out).nodes.len(),
                        sg.start@ == old(out).nodes@,
                        sg.initial_split == *split,
                        out.config == old(out).config,
                        out.comments == old(out).comments,
                        code_text(out.doc(sg.node)) == Syntax::texts(parts@.take(i as int)),
                        laid(out, sg.node) == Syntax::parts_laid(
                            parts@.take(i as int),
                            Laid::start(old(out).whitespaces@),
                            alignment,
                        ),
                        *self == (Syntax::Group { split: *split, indent: *indent, parts: *parts }),
                    decreases parts.len() - i,
                {
                    proof {
                        assert(parts@.take(i + 1).drop_last() =~= parts@.take(i as int));
                        assert(parts@.take(i + 1).last() == parts@[i as int]);
                        assert(decreases_to!(self => self->parts));
                        assert(decreases_to!(self->parts => self->parts@));
                        assert(decreases_to!(self->parts@ => self->parts@[i as int]));
                    }
                    parts[i].append(out, &alignment, &mut sg);
                    i += 1;
                }
                assert(parts@.take(i as int) =~= parts@);
            },
            Syntax::Token { loc, text } => {
                append_whitespace(out, base_indent, &mut sg, *loc);
                sg.seg(out, text.as_str());
                assert(code_text(out.doc(sg.node)) =~= self.text());
            },
            Syntax::Text { mode, text } => {
                sg.seg_mode(out, *mode, text.as_str());
                assert(code_text(out.doc(sg.node)) =~= self.text());
            },
            Syntax::Break { deeper } => {
                if *deeper {
                    sg.split(out, base_indent.indent());
                } else {
                    sg.split(out, *base_indent);
                }
                assert(sg.wf(out));
            },
        }
        sg.build(out)
    }
}

/// A finished group that goes into a list, and the place of the mark that
/// follows it in the source, if one follows.
#[derive(Clone, Copy, Debug, PartialEq, Eq)]
pub struct ListItem {
    pub group: SplitGroupIdx,
    pub punct: Option<LineColumn>,
}

/// The groups of `items`.
pub open spec fn item_groups(items: Seq<ListItem>) -> Seq<SplitGroupIdx> {
    Seq::new(items.len(), |i: int| items[i].group)
}

/// The places of the marks behind `items`.
pub open spec fn item_puncts(items: Seq<ListItem>) -> Seq<Option<LineColumn>> {
    Seq::new(items.len(), |i: int| items[i].punct)
}

/// The groups are finished groups of the arena that were made after group
/// `floor` was started, in rising order of their handles.
pub open spec fn all_finished(out: &MakeSegsState, floor: SplitGroupIdx, groups: Seq<SplitGroupIdx>)
    -> bool {
    &&& forall|i: int|
        0 <= i < groups.len() ==> out.is_finished(#[trigger] groups[i]) && floor.0 < groups[i].0
    &&& forall|i: int, j: int|
        0 <= i < j < groups.len() ==> (#[trigger] groups[i]).0 < (#[trigger] groups[j]).0
}

/// What each of the groups says.
pub open spec fn group_texts(out: &MakeSegsState, groups: Seq<SplitGroupIdx>) -> Seq<Seq<char>> {
    Seq::new(groups.len(), |i: int| code_text(out.doc(groups[i])))
}

/// The texts one after the other with `sep` between them.
pub open spec fn joined(texts: Seq<Seq<char>>, sep: Seq<char>) -> Seq<char>
    decreases texts.len(),
{
    if texts.len() == 0 {
        Seq::empty()
    } else if texts.len() == 1 {
        texts[0]
    } else {
        joined(texts.drop_last(), sep) + sep + texts.last()
    }
}

/// One space, if `yes`.
pub open spec fn space_if(yes: bool) -> Seq<char> {
    if yes {
        " "@
    } else {
        Seq::empty()
    }
}

/// A list in brackets on one line: the opening, the elements with the mark
/// and a space between them, the closing; inside the brackets a space at
/// each end if `bracket_space` is set and the list has elements.
pub open spec fn bracketed(
    prefix: Seq<char>,
    bracket_space: bool,
    texts: Seq<Seq<char>>,
    punct: Seq<char>,
    suffix: Seq<char>,
) -> Seq<char> {
    prefix + space_if(bracket_space && texts.len() > 0) + joined(texts, punct + " "@) + space_if(
        bracket_space && texts.len() > 0,
    ) + suffix
}

/// Joining one more text.
pub proof fn lemma_joined_push(texts: Seq<Seq<char>>, sep: Seq<char>, text: Seq<char>)
    ensures
        texts.len() == 0 ==> joined(texts.push(text), sep) == text,
        texts.len() > 0 ==> joined(texts.push(text), sep) == joined(texts, sep) + sep + text,
{
    assert(texts.push(text).drop_last() =~= texts);
}

/// Adds a token: the gap in front of it, then its text.
pub fn append_token(
    out: &mut MakeSegsState,
    base_indent: &Alignment,
    sg: &mut SplitGroupBuilder,
    loc: LineColumn,
    text: &str,
)
    requires
        old(out).wf(),
        old(sg).wf(old(out)),
    ensures
        *final(sg) == *old(sg),
        said(old(out), final(out), *old(sg), text@),
        final(out).nodes.len() == old(out).nodes.len(),
        final(out).doc(old(sg).node).split == old(out).doc(old(sg).node).split,
        laid(final(out), old(sg).node) == laid(old(out), old(sg).node).token(
            loc,
            *base_indent,
            text@,
        ),
{
    append_whitespace(out, base_indent, sg, loc);
    sg.seg(out, text);
}

/// Adds the right side of a binary form behind its operator: the operator,
/// a place to break, and the finished group `right`, which the caller laid
/// out one level deeper. On one line a space stands between the two.
pub fn append_binary(
    out: &mut MakeSegsState,
    base_indent: &Alignment,
    sg: &mut SplitGroupBuilder,
    tok: &str,
    right: SplitGroupIdx,
)
    requires
        old(out).wf(),
        old(sg).wf(old(out)),
        old(out).is_finished(right),
    ensures
        final(sg).node == old(sg).node,
        final(sg).initial_split == old(sg).initial_split,
        final(sg).reverse_children == old(sg).reverse_children,
        old(sg).node.0 <= right.0 ==> *final(sg) == *old(sg),
        said_taking(
            old(out),
            final(out),
            *final(sg),
            tok@ + " "@ + code_text(old(out).doc(right)),
            1,
        ),
        final(out).doc(old(sg).node).split == old(out).doc(old(sg).node).split,
        laid(final(out), old(sg).node) == laid(old(out), old(sg).node).text(
            SegmentMode::All,
            tok@,
        ).line_break(false, base_indent.deeper()).space_if(true).child(old(out).doc(right)),
{
    sg.seg(out, tok);
    assert(out.is_finished(right) && out.doc(right) == old(out).doc(right)) by {
        assert(out.nodes[right.0 as int] == old(out).nodes[right.0 as int]);
    }
    let ghost s1 = *out;
    sg.split(out, base_indent.indent());
    assert(out.is_finished(right) && out.doc(right) == old(out).doc(right)) by {
        assert(out.nodes[right.0 as int] == s1.nodes[right.0 as int]);
    }
    let ghost s2 = *out;
    sg.seg_unsplit(out, " ");
    assert(out.is_finished(right) && out.doc(right) == old(out).doc(right)) by {
        assert(out.nodes[right.0 as int] == s2.nodes[right.0 as int]);
    }
    sg.child(out, right);
    assert(code_text(out.doc(sg.node)) =~= code_text(old(out).doc(sg.node)) + (tok@ + " "@
        + code_text(old(out).doc(right))));
}

/// Adds the right side of a binary form that is a piece laid out by rules
/// of its own: see [`append_binary`].
pub fn append_binary_syntax(
    out: &mut MakeSegsState,
    base_indent: &Alignment,
    sg: &mut SplitGroupBuilder,
    tok: &str,
    right: &Syntax,
)
    requires
        old(out).wf(),
        old(sg).wf(old(out)),
    ensures
        *final(sg) == *old(sg),
        said(old(out), final(out), *old(sg), tok@ + " "@ + right.text()),
        final(out).doc(old(sg).node).split == old(out).doc(old(sg).node).split,
        laid(final(out), old(sg).node) == laid(old(out), old(sg).node).binary_syntax(
            *base_indent,
            tok@,
            *right,
        ),
{
    let child = right.make_segs(out, &base_indent.indent());
    assert(sg.wf(out));
    assert(out.doc(sg.node) == old(out).doc(sg.node));
    append_binary(out, base_indent, sg, tok, child);
}

/// Adds the opening of a list: the gap in front of the bracket, the
/// bracket and, with `space` set, a space that shows on one line.
fn list_begin(
    out: &mut MakeSegsState,
    base_indent: &Alignment,
    sg: &mut SplitGroupBuilder,
    prefix_start: LineColumn,
    prefix: &str,
    space: bool,
)
    requires
        old(out).wf(),
        old(sg).wf(old(out)),
    ensures
        *final(sg) == *old(sg),
        final(out).nodes.len() == old(out).nodes.len(),
        final(out).keeps(old(out), old(sg).node, old(sg).node),
        said(old(out), final(out), *old(sg), prefix@ + space_if(space)),
        final(out).doc(old(sg).node).split == old(out).doc(old(sg).node).split,
        laid(final(out), old(sg).node) == laid(old(out), old(sg).node).token(
            prefix_start,
            *base_indent,
            prefix@,
        ).space_if(space),
{
    append_whitespace(out, base_indent, sg, prefix_start);
    let ghost s1 = *out;
    sg.seg(out, prefix);
    let ghost s2 = *out;
    proof {
        s2.lemma_keeps_trans(&s1, old(out), sg.node, sg.node);
    }
    if space {
        sg.seg_unsplit(out, " ");
        proof {
            out.lemma_keeps_trans(&s2, old(out), sg.node, sg.node);
        }
    }
    assert(out.keeps(old(out), sg.node, sg.node));
    assert(code_text(out.doc(sg.node)) =~= code_text(old(out).doc(sg.node)) + (prefix@ + space_if(
        space,
    )));
}

/// Adds the mark between two elements of a list: the gap in front of the
/// mark, the mark and a space that shows on one line.
fn list_separator(
    out: &mut MakeSegsState,
    indent: &Alignment,
    sg: &mut SplitGroupBuilder,
    punct_loc: Option<LineColumn>,
    punct: &str,
)
    requires
        old(out).wf(),
        old(sg).wf(old(out)),
    ensures
        *final(sg) == *old(sg),
        final(out).nodes.len() == old(out).nodes.len(),
        final(out).keeps(old(out), old(sg).node, old(sg).node),
        said(old(out), final(out), *old(sg), punct@ + " "@),
        final(out).doc(old(sg).node).split == old(out).doc(old(sg).node).split,
        laid(final(out), old(sg).node) == laid(old(out), old(sg).node).gap_if(
            punct_loc,
            *indent,
        ).text(SegmentMode::All, punct@).space_if(true),
{
    match punct_loc {
        Some(loc) => {
            append_whitespace(out, indent, sg, loc);
        },
        None => {},
    }
    let ghost s1 = *out;
    assert(s1.keeps(old(out), sg.node, sg.node));
    sg.seg(out, punct);
    let ghost s2 = *out;
    proof {
        s2.lemma_keeps_trans(&s1, old(out), sg.node, sg.node);
    }
    sg.seg_unsplit(out, " ");
    proof {
        out.lemma_keeps_trans(&s2, old(out), sg.node, sg.node);
    }
    assert(code_text(out.doc(sg.node)) =~= code_text(old(out).doc(sg.node)) + (punct@ + " "@));
}

/// Adds an element of a list: a place to break, then the finished group.
fn list_element(
    out: &mut MakeSegsState,
    indent: &Alignment,
    sg: &mut SplitGroupBuilder,
    child: SplitGroupIdx,
)
    requires
        old(out).wf(),
        old(sg).wf(old(out)),
        old(out).is_finished(child),
        old(sg).node.0 <= child.0,
    ensures
        *final(sg) == *old(sg),
        final(out).nodes.len() == old(out).nodes.len(),
        final(out).keeps(old(out), old(sg).node, child),
        said_taking(old(out), final(out), *old(sg), code_text(old(out).doc(child)), 1),
        final(out).doc(old(sg).node).split == old(out).doc(old(sg).node).split,
        laid(final(out), old(sg).node) == laid(old(out), old(sg).node).line_break(
            false,
            *indent,
        ).child(old(out).doc(child)),
{
    sg.split(out, *indent);
    let ghost s1 = *out;
    assert(s1.keeps(old(out), sg.node, child));
    sg.child(out, child);
    proof {
        out.lemma_keeps_trans(&s1, old(out), sg.node, child);
    }
}

/// Adds the closing of a list: with `trailing` set the mark behind the last
/// element, which shows while the group is split; the gap in front of the
/// bracket, a place to break and the bracket, with a space in front of it
/// that shows on one line if `space` is set.
fn list_end(
    out: &mut MakeSegsState,
    base_indent: &Alignment,
    sg: &mut SplitGroupBuilder,
    last_punct: Option<LineColumn>,
    punct: &str,
    trailing: bool,
    suffix_start: LineColumn,
    suffix: &str,
    space: bool,
)
    requires
        old(out).wf(),
        old(sg).wf(old(out)),
    ensures
        *final(sg) == *old(sg),
        final(out).nodes.len() == old(out).nodes.len(),
        said(old(out), final(out), *old(sg), space_if(space) + suffix@),
        final(out).doc(old(sg).node).split == old(out).doc(old(sg).node).split,
        laid(final(out), old(sg).node) == (if trailing {
            laid(old(out), old(sg).node).gap_if(last_punct, base_indent.deeper()).text(
                SegmentMode::Split,
                punct@,
            )
        } else {
            laid(old(out), old(sg).node)
        }).gap(suffix_start, *base_indent).line_break(false, *base_indent).space_if(space).text(
            SegmentMode::All,
            suffix@,
        ),
{
    if trailing {
        match last_punct {
            Some(loc) => {
                append_whitespace(out, &base_indent.indent(), sg, loc);
            },
            None => {},
        }
        sg.seg_split(out, punct);
    }
    assert(sg.wf(out));
    assert(code_text(out.doc(sg.node)) == code_text(old(out).doc(sg.node)));
    append_whitespace(out, base_indent, sg, suffix_start);
    sg.split(out, *base_indent);
    if space {
        sg.seg_unsplit(out, " ");
    }
    assert(sg.wf(out));
    assert(code_text(out.doc(sg.node)) =~= code_text(old(out).doc(sg.node)) + space_if(space));
    sg.seg(out, suffix);
    assert(code_text(out.doc(sg.node)) =~= code_text(old(out).doc(sg.node)) + (space_if(space)
        + suffix@));
}

/// The groups from index `from` on are as they were in `before`: finished,
/// and standing for the same groups.
pub open spec fn still_pending(
    before: &MakeSegsState,
    out: &MakeSegsState,
    groups: Seq<SplitGroupIdx>,
    from: int,
) -> bool {
    forall|j: int|
        from <= j < groups.len() ==> out.is_finished(#[trigger] groups[j]) && out.doc(groups[j])
            == before.doc(groups[j])
}

/// Ops on the builder's group and on child `c` leave the groups behind `c`
/// in the list as they were.
proof fn lemma_still_pending(
    before: &MakeSegsState,
    mid: &MakeSegsState,
    out: &MakeSegsState,
    node: SplitGroupIdx,
    groups: Seq<SplitGroupIdx>,
    i: int,
)
    requires
        0 <= i <= groups.len(),
        all_finished(before, node, groups),
        still_pending(before, mid, groups, i),
        i < groups.len() ==> out.keeps(mid, node, groups[i]),
        i == groups.len() ==> out.keeps(mid, node, node),
    ensures
        still_pending(before, out, groups, i + 1),
{
    assert forall|j: int| i + 1 <= j < groups.len() implies out.is_finished(
        #[trigger] groups[j],
    ) && out.doc(groups[j]) == before.doc(groups[j]) by {
        assert(groups[i].0 < groups[j].0);
        assert(mid.is_finished(groups[j]));
        assert(out.nodes[groups[j].0 as int] == mid.nodes[groups[j].0 as int]);
    }
}

/// Adds the elements of a list, each in its turn: see
/// [`Laid::list_items`].
fn list_fill(
    out: &mut MakeSegsState,
    indent: &Alignment,
    sg: &mut SplitGroupBuilder,
    punct: &str,
    items: &Vec<ListItem>,
)
    requires
        old(out).wf(),
        old(sg).wf(old(out)),
        all_finished(old(out), old(sg).node, item_groups(items@)),
    ensures
        *final(sg) == *old(sg),
        final(out).nodes.len() == old(out).nodes.len(),
        said_taking(
            old(out),
            final(out),
            *old(sg),
            joined(group_texts(old(out), item_groups(items@)), punct@ + " "@),
            items@.len(),
        ),
        final(out).doc(old(sg).node).split == old(out).doc(old(sg).node).split,
        laid(final(out), old(sg).node) == laid(old(out), old(sg).node).list_items(
            *indent,
            punct@,
            item_puncts(items@),
            group_docs(old(out), item_groups(items@)),
            items@.len(),
        ),
{
    let ghost groups = item_groups(items@);
    let ghost texts = group_texts(old(out), groups);
    let ghost docs = group_docs(old(out), groups);
    let ghost base = code_text(old(out).doc(sg.node));
    let ghost sep = punct@ + " "@;
    let ghost begun = laid(out, sg.node);
    let mut i: usize = 0;
    proof {
        assert(texts.take(0) =~= Seq::<Seq<char>>::empty());
        assert(code_text(out.doc(sg.node)) =~= base + joined(texts.take(0), sep));
    }
    while i < items.len()
        invariant
            out.loose() + i == old(out).loose(),
            i <= items.len(),
            out.wf(),
            sg.wf(out),
            *sg == *old(sg),
            groups == item_groups(items@),
            texts == group_texts(old(out), groups),
            sep == punct@ + " "@,
            out.nodes.len() == old(out).nodes.len(),
            out.config == old(out).config,
            out.comments == old(out).comments,
            all_finished(old(out), sg.node, groups),
            still_pending(old(out), out, groups, i as int),
            code_text(out.doc(sg.node)) == base + joined(texts.take(i as int), sep),
            docs == group_docs(old(out), groups),
            out.doc(sg.node).split == old(out).doc(sg.node).split,
            laid(out, sg.node) == begun.list_items(
                *indent,
                punct@,
                item_puncts(items@),
                docs,
                i as nat,
            ),
        decreases items.len() - i,
    {
        let ghost before = code_text(out.doc(sg.node));
        let ghost start = *out;
        if i > 0 {
            list_separator(out, indent, sg, items[i - 1].punct, punct);
        }
        let ghost mid = *out;
        assert(mid.doc(sg.node).split == old(out).doc(sg.node).split);
        proof {
            assert(start.is_finished(groups[i as int]));
            assert(mid.nodes[groups[i as int].0 as int] == start.nodes[groups[i as int].0 as int]);
            assert forall|j: int| i <= j < groups.len() implies mid.is_finished(
                #[trigger] groups[j],
            ) && mid.doc(groups[j]) == old(out).doc(groups[j]) by {
                assert(start.is_finished(groups[j]));
                assert(mid.nodes[groups[j].0 as int] == start.nodes[groups[j].0 as int]);
            }
        }
        list_element(out, indent, sg, items[i].group);
        proof {
            assert(mid.doc(groups[i as int]) == docs[i as int]);
            assert(laid(out, sg.node) == begun.list_items(
                *indent,
                punct@,
                item_puncts(items@),
                docs,
                (i + 1) as nat,
            ));
            lemma_still_pending(old(out), &mid, out, sg.node, groups, i as int);
            assert(texts.take(i + 1) =~= texts.take(i as int).push(texts[i as int]));
            lemma_joined_push(texts.take(i as int), sep, texts[i as int]);
            if i > 0 {
                assert(code_text(out.doc(sg.node)) =~= before + sep + texts[i as int]);
            } else {
                assert(code_text(out.doc(sg.node)) =~= before + texts[i as int]);
            }
            assert(code_text(out.doc(sg.node)) =~= base + joined(texts.take(i + 1), sep));
        }
        i += 1;
    }
    assert(texts.take(i as int) =~= texts);
}

/// Adds a list in brackets. While the group is split, each element stands
/// on a line of its own, one level deeper, and the closing bracket on a line
/// at `base_indent`; with `trailing` set the last element is then followed
/// by the mark too. The gaps in front of the brackets and of the marks are
/// reattached.
pub fn append_bracketed_list(
    out: &mut MakeSegsState,
    base_indent: &Alignment,
    sg: &mut SplitGroupBuilder,
    prefix_start: LineColumn,
    prefix: &str,
    bracket_space: bool,
    punct: &str,
    items: &Vec<ListItem>,
    trailing: bool,
    suffix_start: LineColumn,
    suffix: &str,
)
    requires
        old(out).wf(),
        old(sg).wf(old(out)),
        all_finished(old(out), old(sg).node, item_groups(items@)),
    ensures
        *final(sg) == *old(sg),
        final(out).nodes.len() == old(out).nodes.len(),
        said_taking(
            old(out),
            final(out),
            *old(sg),
            bracketed(
                prefix@,
                bracket_space,
                group_texts(old(out), item_groups(items@)),
                punct@,
                suffix@,
            ),
            items@.len(),
        ),
        final(out).doc(old(sg).node).split == old(out).doc(old(sg).node).split,
        laid(final(out), old(sg).node) == laid(old(out), old(sg).node).bracketed_list(
            *base_indent,
            prefix_start,
            prefix@,
            bracket_space && items@.len() > 0,
            punct@,
            item_puncts(items@),
            group_docs(old(out), item_groups(items@)),
            trailing,
            suffix_start,
            suffix@,
        ),
{
    let ghost groups = item_groups(items@);
    let ghost texts = group_texts(old(out), groups);
    let ghost docs = group_docs(old(out), groups);
    let ghost base = code_text(old(out).doc(sg.node));
    let space = bracket_space && items.len() > 0;
    let indent = base_indent.indent();
    list_begin(out, base_indent, sg, prefix_start, prefix, space);
    proof {
        assert forall|j: int| 0 <= j < groups.len() implies out.is_finished(
            #[trigger] groups[j],
        ) && out.doc(groups[j]) == old(out).doc(groups[j]) by {
            assert(old(out).is_finished(groups[j]));
            assert(out.nodes[groups[j].0 as int] == old(out).nodes[groups[j].0 as int]);
        }
        assert(group_texts(out, groups) =~= texts);
        assert(group_docs(out, groups) =~= docs);
    }
    list_fill(out, &indent, sg, punct, items);
    let ghost filled = laid(out, sg.node);
    let last_punct = if items.len() > 0 {
        items[items.len() - 1].punct
    } else {
        None
    };
    list_end(
        out,
        base_indent,
        sg,
        last_punct,
        punct,
        trailing && items.len() > 0,
        suffix_start,
        suffix,
        space,
    );
    assert(code_text(out.doc(sg.node)) =~= base + bracketed(
        prefix@,
        bracket_space,
        texts,
        punct@,
        suffix@,
    ));
    proof {
        let puncts = item_puncts(items@);
        assert(docs.len() == items@.len());
        assert(puncts.len() == items@.len());
        if items@.len() > 0 {
            assert(puncts.last() == items@[items@.len() - 1].punct);
            assert(last_punct == puncts.last());
        }
        let spec_filled = laid(old(out), sg.node).token(prefix_start, *base_indent, prefix@).space_if(
            space,
        ).list_items(base_indent.deeper(), punct@, puncts, docs, docs.len());
        assert(filled == spec_filled);
        let closed = (if trailing && docs.len() > 0 {
            filled.gap_if(puncts.last(), base_indent.deeper()).text(SegmentMode::Split, punct@)
        } else {
            filled
        }).gap(suffix_start, *base_indent).line_break(false, *base_indent).space_if(space).text(
            SegmentMode::All,
            suffix@,
        );
        assert(laid(out, sg.node) == closed);
    }
}

/// What each element of a list of pieces says.
pub open spec fn pair_texts(list: Seq<Pair<Syntax>>) -> Seq<Seq<char>> {
    Seq::new(list.len(), |i: int| list[i].value.text())
}

/// One more finished group, made after all of `groups`, keeps them what
/// they are.
pub proof fn lemma_push_finished(
    before: &MakeSegsState,
    out: &MakeSegsState,
    floor: SplitGroupIdx,
    groups: Seq<SplitGroupIdx>,
    idx: SplitGroupIdx,
)
    requires
        all_finished(before, floor, groups),
        out.extends(before),
        before.nodes.len() <= idx.0,
        out.is_finished(idx),
        floor.0 < before.nodes.len(),
    ensures
        all_finished(out, floor, groups.push(idx)),
        group_texts(out, groups.push(idx)) == group_texts(before, groups).push(
            code_text(out.doc(idx)),
        ),
        group_docs(out, groups.push(idx)) == group_docs(before, groups).push(out.doc(idx)),
{
    let now = groups.push(idx);
    assert forall|j: int| 0 <= j < now.len() implies out.is_finished(#[trigger] now[j])
        && floor.0 < now[j].0 by {
        if j < groups.len() {
            assert(before.is_finished(groups[j]));
            assert(out.nodes[groups[j].0 as int] == before.nodes[groups[j].0 as int]);
        }
    }
    assert forall|j: int, k: int| 0 <= j < k < now.len() implies (#[trigger] now[j]).0 < (
    #[trigger] now[k]).0 by {
        if k < groups.len() {
            assert(groups[j].0 < groups[k].0);
        } else {
            assert(before.is_finished(groups[j]));
        }
    }
    assert(group_texts(out, now) =~= group_texts(before, groups).push(code_text(out.doc(idx))))
        by {
        assert forall|j: int| 0 <= j < groups.len() implies group_texts(out, now)[j]
            == group_texts(before, groups)[j] by {
            assert(before.is_finished(groups[j]));
            assert(out.nodes[groups[j].0 as int] == before.nodes[groups[j].0 as int]);
        }
    }
    assert(group_docs(out, now) =~= group_docs(before, groups).push(out.doc(idx))) by {
        assert forall|j: int| 0 <= j < groups.len() implies group_docs(out, now)[j]
            == group_docs(before, groups)[j] by {
            assert(before.is_finished(groups[j]));
            assert(out.nodes[groups[j].0 as int] == before.nodes[groups[j].0 as int]);
        }
    }
}

/// A finished group for each element of `list`, laid out at `indent`, for
/// a list of the group of `sg`.
pub fn build_list(
    out: &mut MakeSegsState,
    indent: &Alignment,
    sg: &SplitGroupBuilder,
    list: &Vec<Pair<Syntax>>,
) -> (items: Vec<ListItem>)
    requires
        old(out).wf(),
        sg.wf(old(out)),
    ensures
        final(out).wf(),
        sg.wf(final(out)),
        final(out).extends(old(out)),
        items.len() == list.len(),
        all_finished(final(out), sg.node, item_groups(items@)),
        group_texts(final(out), item_groups(items@)) == pair_texts(list@),
        forall|i: int| 0 <= i < items.len() ==> (#[trigger] items[i]).punct == list[i].punct,
        item_puncts(items@) == pair_puncts(list@),
        final(out).doc(sg.node) == old(out).doc(sg.node),
        group_docs(final(out), item_groups(items@)) == pieces_built(
            list@,
            old(out).whitespaces@,
            *indent,
            list@.len(),
        ).docs,
        final(out).whitespaces@ == pieces_built(
            list@,
            old(out).whitespaces@,
            *indent,
            list@.len(),
        ).gaps,
        final(out).loose() == old(out).loose() + list@.len(),
{
    let mut items: Vec<ListItem> = Vec::new();
    let mut i: usize = 0;
    assert(group_texts(out, item_groups(items@)) =~= pair_texts(list@.take(0)));
    assert(group_docs(out, item_groups(items@)) =~= Seq::<Doc>::empty());
    while i < list.len()
        invariant
            out.loose() == old(out).loose() + i,
            i <= list.len(),
            items.len() == i,
            out.wf(),
            sg.wf(out),
            out.extends(old(out)),
            all_finished(out, sg.node, item_groups(items@)),
            group_texts(out, item_groups(items@)) == pair_texts(list@.take(i as int)),
            forall|j: int| 0 <= j < items.len() ==> (#[trigger] items[j]).punct == list[j].punct,
            out.doc(sg.node) == old(out).doc(sg.node),
            group_docs(out, item_groups(items@)) == pieces_built(
                list@,
                old(out).whitespaces@,
                *indent,
                i as nat,
            ).docs,
            out.whitespaces@ == pieces_built(list@, old(out).whitespaces@, *indent, i as nat).gaps,
        decreases list.len() - i,
    {
        let ghost before = *out;
        let ghost groups = item_groups(items@);
        let child = list[i].value.make_segs(out, indent);
        items.push(ListItem { group: child, punct: list[i].punct });
        proof {
            assert(item_groups(items@) =~= groups.push(child));
            lemma_push_finished(&before, out, sg.node, groups, child);
            assert(out.nodes[sg.node.0 as int] == before.nodes[sg.node.0 as int]);
            assert(out.doc(sg.node) == before.doc(sg.node));
            crate::arena::lemma_grown_trans(out.nodes@, before.nodes@, old(out).nodes@);
            crate::arena::lemma_grown_trans(out.nodes@, before.nodes@, sg.start@);
            assert(pair_texts(list@.take(i + 1)) =~= pair_texts(list@.take(i as int)).push(
                list@[i as int].value.text(),
            ));
        }
        i += 1;
    }
    assert(list@.take(i as int) =~= list@);
    assert(item_puncts(items@) =~= pair_puncts(list@));
    items
}

/// Adds a list of pieces in brackets: see [`append_bracketed_list`].
pub fn append_syntax_list(
    out: &mut MakeSegsState,
    base_indent: &Alignment,
    sg: &mut SplitGroupBuilder,
    prefix_start: LineColumn,
    prefix: &str,
    bracket_space: bool,
    punct: &str,
    list: &Vec<Pair<Syntax>>,
    trailing: bool,
    suffix_start: LineColumn,
    suffix: &str,
)
    requires
        old(out).wf(),
        old(sg).wf(old(out)),
    ensures
        *final(sg) == *old(sg),
        said(
            old(out),
            final(out),
            *old(sg),
            bracketed(prefix@, bracket_space, pair_texts(list@), punct@, suffix@),
        ),
        final(out).doc(old(sg).node).split == old(out).doc(old(sg).node).split,
        laid(final(out), old(sg).node) == laid(old(out), old(sg).node).syntax_list(
            *base_indent,
            prefix_start,
            prefix@,
            bracket_space,
            punct@,
            list@,
            trailing,
            suffix_start,
            suffix@,
        ),
{
    let items = build_list(out, &base_indent.indent(), sg, list);
    assert(code_text(out.doc(sg.node)) == code_text(old(out).doc(sg.node)));
    append_bracketed_list(
        out,
        base_indent,
        sg,
        prefix_start,
        prefix,
        bracket_space,
        punct,
        &items,
        trailing,
        suffix_start,
        suffix,
    );
}

/// A finished group of its own for a list of pieces in brackets: see
/// [`append_bracketed_list`].
pub fn new_sg_bracketed_list(
    out: &mut MakeSegsState,
    base_indent: &Alignment,
    prefix_start: LineColumn,
    prefix: &str,
    bracket_space: bool,
    punct: &str,
    list: &Vec<Pair<Syntax>>,
    trailing: bool,
    suffix_start: LineColumn,
    suffix: &str,
) -> (idx: SplitGroupIdx)
    requires
        old(out).wf(),
    ensures
        made(
            old(out),
            final(out),
            idx,
            bracketed(prefix@, bracket_space, pair_texts(list@), punct@, suffix@),
        ),
        built_as(
            final(out),
            idx,
            Laid::start(old(out).whitespaces@).syntax_list(
                *base_indent,
                prefix_start,
                prefix@,
                bracket_space,
                punct@,
                list@,
                trailing,
                suffix_start,
                suffix@,
            ).built(false),
        ),
{
    let mut sg = new_sg(out);
    assert(laid(out, sg.node) =~= Laid::start(old(out).whitespaces@));
    append_syntax_list(
        out,
        base_indent,
        &mut sg,
        prefix_start,
        prefix,
        bracket_space,
        punct,
        list,
        trailing,
        suffix_start,
        suffix,
    );
    let idx = sg.build(out);
    assert(code_text(out.doc(idx)) =~= bracketed(
        prefix@,
        bracket_space,
        pair_texts(list@),
        punct@,
        suffix@,
    ));
    idx
}

/// Adds a list without brackets, which never breaks by itself: the
/// elements with the mark and a space between them.
pub fn append_inline_list(
    out: &mut MakeSegsState,
    base_indent: &Alignment,
    sg: &mut SplitGroupBuilder,
    punct: &str,
    list: &Vec<Pair<Syntax>>,
)
    requires
        old(out).wf(),
        old(sg).wf(old(out)),
    ensures
        *final(sg) == *old(sg),
        said(old(out), final(out), *old(sg), joined(pair_texts(list@), punct@ + " "@)),
        final(out).doc(old(sg).node).split == old(out).doc(old(sg).node).split,
        laid(final(out), old(sg).node) == laid(old(out), old(sg).node).inline_list(
            *base_indent,
            punct@,
            list@,
            list@.len(),
        ),
{
    let ghost base = code_text(out.doc(sg.node));
    let ghost texts = pair_texts(list@);
    let ghost sep = punct@ + " "@;
    let mut i: usize = 0;
    assert(texts.take(0) =~= Seq::<Seq<char>>::empty());
    assert(code_text(out.doc(sg.node)) =~= base + joined(texts.take(0), sep));
    while i < list.len()
        invariant
            out.loose() == old(out).loose(),
            i <= list.len(),
            out.wf(),
            sg.wf(out),
            *sg == *old(sg),
            texts == pair_texts(list@),
            sep == punct@ + " "@,
            out.config == old(out).config,
            out.comments == old(out).comments,
            code_text(out.doc(sg.node)) == base + joined(texts.take(i as int), sep),
            out.doc(sg.node).split == old(out).doc(sg.node).split,
            laid(out, sg.node) == laid(old(out), sg.node).inline_list(
                *base_indent,
                punct@,
                list@,
                i as nat,
            ),
        decreases list.len() - i,
    {
        let ghost before = code_text(out.doc(sg.node));
        if i > 0 {
            list_separator(out, base_indent, sg, list[i - 1].punct, punct);
        }
        let ghost mid = code_text(out.doc(sg.node));
        let ghost parted = *out;
        let child = list[i].value.make_segs(out, base_indent);
        assert(sg.wf(out));
        assert(out.nodes[sg.node.0 as int] == parted.nodes[sg.node.0 as int]);
        assert(out.doc(sg.node) == parted.doc(sg.node));
        assert(code_text(out.doc(sg.node)) == mid);
        sg.child(out, child);
        proof {
            assert(texts.take(i + 1) =~= texts.take(i as int).push(texts[i as int]));
            lemma_joined_push(texts.take(i as int), sep, texts[i as int]);
            if i > 0 {
                assert(code_text(out.doc(sg.node)) =~= before + sep + texts[i as int]);
            } else {
                assert(code_text(out.doc(sg.node)) =~= before + texts[i as int]);
            }
            assert(code_text(out.doc(sg.node)) =~= base + joined(texts.take(i + 1), sep));
        }
        i += 1;
    }
    assert(texts.take(i as int) =~= texts);
}

/// What the attributes in front of a declaration say: each one followed by a
/// space.
pub open spec fn attrs_text(attrs: Seq<Syntax>) -> Seq<char>
    decreases attrs.len(),
{
    if attrs.len() == 0 {
        Seq::empty()
    } else {
        attrs_text(attrs.drop_last()) + attrs.last().text() + " "@
    }
}

/// Starts the group that holds a declaration with its attributes, if it has
/// any: the group takes each attribute and a place to break behind it, and
/// is marked as one that must split where the options ask that of
/// attributes. Without attributes no group is started.
pub fn start_outer_attrs(out: &mut MakeSegsState, base_indent: &Alignment, attrs: &Vec<Syntax>)
    -> (wrap: Option<SplitGroupBuilder>)
    requires
        old(out).wf(),
    ensures
        final(out).wf(),
        final(out).extends(old(out)),
        wrap is Some <==> attrs.len() > 0,
        wrap matches Some(sg) ==> {
            &&& sg.wf(final(out))
            &&& sg.start@ == old(out).nodes@
            &&& sg.initial_split == old(out).config.split_attributes
            &&& code_text(final(out).doc(sg.node)) == attrs_text(attrs@)
            &&& laid(final(out), sg.node) == Laid::start(old(out).whitespaces@).attributes(
                *base_indent,
                attrs@,
                attrs@.len(),
            )
        },
        wrap is None ==> final(out).whitespaces@ == old(out).whitespaces@,
        final(out).loose() == old(out).loose() + (if attrs.len() > 0 {
            1nat
        } else {
            0nat
        }),
{
    if attrs.len() == 0 {
        return None;
    }
    let mut sg = new_sg(out);
    assert(laid(out, sg.node) =~= Laid::start(old(out).whitespaces@));
    if out.config.split_attributes {
        sg.initial_split();
    }
    let mut i: usize = 0;
    assert(attrs@.take(0) =~= Seq::<Syntax>::empty());
    while i < attrs.len()
        invariant
            out.loose() == old(out).loose() + 1,
            i <= attrs.len(),
            out.wf(),
            sg.wf(out),
            sg.start@ == old(out).nodes@,
            sg.initial_split == old(out).config.split_attributes,
            out.config == old(out).config,
            out.comments == old(out).comments,
            code_text(out.doc(sg.node)) == attrs_text(attrs@.take(i as int)),
            laid(out, sg.node) == Laid::start(old(out).whitespaces@).attributes(
                *base_indent,
                attrs@,
                i as nat,
            ),
        decreases attrs.len() - i,
    {
        proof {
            assert(attrs@.take(i + 1).drop_last() =~= attrs@.take(i as int));
            assert(attrs@.take(i + 1).last() == attrs@[i as int]);
        }
        let ghost before = code_text(out.doc(sg.node));
        let ghost start = *out;
        let child = attrs[i].make_segs(out, base_indent);
        assert(sg.wf(out));
        assert(out.nodes[sg.node.0 as int] == start.nodes[sg.node.0 as int]);
        assert(out.doc(sg.node) == start.doc(sg.node));
        assert(code_text(out.doc(sg.node)) == before);
        sg.child(out, child);
        sg.split(out, *base_indent);
        sg.seg_unsplit(out, " ");
        assert(code_text(out.doc(sg.node)) =~= before + attrs@[i as int].text() + " "@);
        i += 1;
    }
    assert(attrs@.take(i as int) =~= attrs@);
    Some(sg)
}

/// Puts the finished group `inner` behind the attributes of its
/// declaration: where a group was started for them, `inner` becomes its last
/// entry and the group is closed; else the result is `inner` itself.
pub fn new_sg_outer_attrs(
    out: &mut MakeSegsState,
    wrap: Option<SplitGroupBuilder>,
    inner: SplitGroupIdx,
) -> (idx: SplitGroupIdx)
    requires
        old(out).wf(),
        old(out).is_finished(inner),
        wrap matches Some(sg) ==> sg.wf(old(out)),
    ensures
        final(out).wf(),
        final(out).is_finished(idx),
        final(out).config == old(out).config,
        final(out).comments == old(out).comments,
        final(out).nodes.len() == old(out).nodes.len(),
        wrap is None ==> idx == inner && final(out).nodes@ == old(out).nodes@,
        final(out).whitespaces@ == old(out).whitespaces@,
        wrap matches Some(sg) ==> {
            &&& idx == sg.node
            &&& sg.node.0 <= inner.0 ==> crate::arena::grown_from(final(out).nodes@, sg.start@)
            &&& final(out).doc(idx).split == sg.initial_split
            &&& final(out).doc(idx).entries == old(out).doc(sg.node).entries.push(
                DocEntry::Child(old(out).doc(inner)),
            )
            &&& code_text(final(out).doc(idx)) == code_text(old(out).doc(sg.node)) + code_text(
                old(out).doc(inner),
            )
        },
        wrap is None ==> code_text(final(out).doc(idx)) == code_text(old(out).doc(inner)),
        final(out).loose() + (if wrap is Some {
            1nat
        } else {
            0nat
        }) == old(out).loose(),
{
    match wrap {
        Some(sg) => {
            let mut sg = sg;
            sg.child(out, inner);
            sg.build(out)
        },
        None => inner,
    }
}

/// A finished group that is an entry of a block, and what it asks for in
/// the way of spacing.
#[derive(Clone, Copy, Debug, PartialEq, Eq)]
pub struct StmtEntry {
    pub group: SplitGroupIdx,
    pub margin: Margin,
}

/// The groups of `entries`.
pub open spec fn entry_groups(entries: Seq<StmtEntry>) -> Seq<SplitGroupIdx> {
    Seq::new(entries.len(), |i: int| entries[i].group)
}

/// What stands in front of an entry of a block: an empty line if `blank` is
/// set, which shows while the group is split; the break that puts the entry
/// on a line of its own at `indent`; and, if the entry follows another, the
/// space that would part the two on one line.
pub open spec fn statement_lead(indent: Alignment, follows: bool, blank: bool) -> Seq<DocEntry> {
    (if blank {
        seq![DocEntry::Whitespace { alignment: indent, items: seq![Whitespace::BlankLines] }]
    } else {
        Seq::empty()
    }) + seq![DocEntry::Break { always: true, alignment: indent }] + (if follows {
        seq![DocEntry::Text { mode: SegmentMode::Unsplit, text: " "@ }]
    } else {
        Seq::empty()
    })
}

/// The first `n` entries of a block as they stand in its group: each entry
/// as a nested group behind its lead (see [`statement_lead`]), with an
/// empty line in front of it where the margin rule asks for one between it
/// and the entry before it.
pub open spec fn statement_entries(
    indent: Alignment,
    margins: Seq<Margin>,
    docs: Seq<Doc>,
    n: nat,
) -> Seq<DocEntry>
    decreases n,
{
    if n == 0 {
        Seq::empty()
    } else {
        let i = n - 1;
        statement_entries(indent, margins, docs, i as nat) + statement_lead(
            indent,
            i > 0,
            i > 0 && margin_required(margins[i - 1], margins[i]),
        ) + seq![DocEntry::Child(docs[i])]
    }
}

/// What each of `entries` asks for in the way of spacing.
pub open spec fn entry_margins(entries: Seq<StmtEntry>) -> Seq<Margin> {
    Seq::new(entries.len(), |i: int| entries[i].margin)
}

/// The groups that the handles stand for.
pub open spec fn group_docs(out: &MakeSegsState, groups: Seq<SplitGroupIdx>) -> Seq<Doc> {
    Seq::new(groups.len(), |i: int| out.doc(groups[i]))
}

/// Adds what stands in front of an entry of a block: see
/// [`statement_lead`].
fn statement_gap(
    out: &mut MakeSegsState,
    indent: &Alignment,
    sg: &mut SplitGroupBuilder,
    follows: bool,
    blank: bool,
)
    requires
        old(out).wf(),
        old(sg).wf(old(out)),
    ensures
        *final(sg) == *old(sg),
        final(out).nodes.len() == old(out).nodes.len(),
        final(out).keeps(old(out), old(sg).node, old(sg).node),
        said(old(out), final(out), *old(sg), space_if(follows)),
        final(out).doc(old(sg).node).split == old(out).doc(old(sg).node).split,
        final(out).whitespaces@ == old(out).whitespaces@,
        final(out).doc(old(sg).node).entries == old(out).doc(old(sg).node).entries
            + statement_lead(*indent, follows, blank),
{
    let ghost base = out.doc(sg.node).entries;
    if blank {
        sg.blank_line(out, *indent);
    }
    let ghost s1 = *out;
    assert(s1.keeps(old(out), sg.node, sg.node));
    assert(s1.doc(sg.node).entries =~= base + (if blank {
        seq![DocEntry::Whitespace { alignment: *indent, items: seq![Whitespace::BlankLines] }]
    } else {
        Seq::empty()
    }));
    sg.split_always(out, *indent);
    let ghost s2 = *out;
    proof {
        s2.lemma_keeps_trans(&s1, old(out), sg.node, sg.node);
    }
    if follows {
        sg.seg_unsplit(out, " ");
        proof {
            out.lemma_keeps_trans(&s2, old(out), sg.node, sg.node);
        }
    }
    assert(out.keeps(old(out), sg.node, sg.node));
    assert(code_text(out.doc(sg.node)) =~= code_text(old(out).doc(sg.node)) + space_if(follows));
    assert(out.doc(sg.node).entries =~= base + statement_lead(*indent, follows, blank));
}

/// Adds the entries of a block, each on a line of its own at `indent`, with
/// an empty line between two neighbours where the margin rule asks for one:
/// see [`statement_entries`]. A group with such entries is always split;
/// on one line the entries would be a space apart.
pub fn append_statement_list(
    out: &mut MakeSegsState,
    indent: &Alignment,
    sg: &mut SplitGroupBuilder,
    entries: &Vec<StmtEntry>,
)
    requires
        old(out).wf(),
        old(sg).wf(old(out)),
        all_finished(old(out), old(sg).node, entry_groups(entries@)),
    ensures
        *final(sg) == *old(sg),
        final(out).nodes.len() == old(out).nodes.len(),
        said_taking(
            old(out),
            final(out),
            *old(sg),
            joined(group_texts(old(out), entry_groups(entries@)), " "@),
            entries@.len(),
        ),
        final(out).doc(old(sg).node).split == old(out).doc(old(sg).node).split,
        final(out).whitespaces@ == old(out).whitespaces@,
        final(out).doc(old(sg).node).entries == old(out).doc(old(sg).node).entries
            + statement_entries(
            *indent,
            entry_margins(entries@),
            group_docs(old(out), entry_groups(entries@)),
            entries@.len(),
        ),
{
    let ghost groups = entry_groups(entries@);
    let ghost texts = group_texts(old(out), groups);
    let ghost docs = group_docs(old(out), groups);
    let ghost base = code_text(old(out).doc(sg.node));
    let ghost base_entries = old(out).doc(sg.node).entries;
    let ghost sep = " "@;
    let mut i: usize = 0;
    proof {
        assert(texts.take(0) =~= Seq::<Seq<char>>::empty());
        assert(code_text(out.doc(sg.node)) =~= base + joined(texts.take(0), sep));
        assert(out.doc(sg.node).entries =~= base_entries + statement_entries(
            *indent,
            entry_margins(entries@),
            docs,
            0,
        ));
    }
    while i < entries.len()
        invariant
            out.loose() + i == old(out).loose(),
            i <= entries.len(),
            out.wf(),
            sg.wf(out),
            *sg == *old(sg),
            groups == entry_groups(entries@),
            texts == group_texts(old(out), groups),
            docs == group_docs(old(out), groups),
            sep == " "@,
            out.nodes.len() == old(out).nodes.len(),
            out.config == old(out).config,
            out.comments == old(out).comments,
            all_finished(old(out), sg.node, groups),
            still_pending(old(out), out, groups, i as int),
            code_text(out.doc(sg.node)) == base + joined(texts.take(i as int), sep),
            out.doc(sg.node).split == old(out).doc(sg.node).split,
            out.whitespaces@ == old(out).whitespaces@,
            out.doc(sg.node).entries == base_entries + statement_entries(
                *indent,
                entry_margins(entries@),
                docs,
                i as nat,
            ),
        decreases entries.len() - i,
    {
        let ghost before = code_text(out.doc(sg.node));
        let ghost before_entries = out.doc(sg.node).entries;
        let ghost start = *out;
        let blank = i > 0 && want_blank_line(entries[i - 1].margin, entries[i].margin);
        statement_gap(out, indent, sg, i > 0, blank);
        let ghost mid = *out;
        proof {
            assert forall|j: int| i <= j < groups.len() implies mid.is_finished(
                #[trigger] groups[j],
            ) && mid.doc(groups[j]) == old(out).doc(groups[j]) by {
                assert(start.is_finished(groups[j]));
                assert(mid.nodes[groups[j].0 as int] == start.nodes[groups[j].0 as int]);
            }
        }
        assert(mid.is_finished(groups[i as int]));
        assert(mid.doc(groups[i as int]) == old(out).doc(groups[i as int]));
        sg.child(out, entries[i].group);
        proof {
            lemma_still_pending(old(out), &mid, out, sg.node, groups, i as int);
            assert(texts.take(i + 1) =~= texts.take(i as int).push(texts[i as int]));
            lemma_joined_push(texts.take(i as int), sep, texts[i as int]);
            if i > 0 {
                assert(code_text(out.doc(sg.node)) =~= before + sep + texts[i as int]);
            } else {
                assert(code_text(out.doc(sg.node)) =~= before + texts[i as int]);
            }
            assert(code_text(out.doc(sg.node)) =~= base + joined(texts.take(i + 1), sep));
            assert(out.doc(sg.node).entries =~= before_entries + statement_lead(
                *indent,
                i > 0,
                blank,
            ) + seq![DocEntry::Child(docs[i as int])]);
            assert(out.doc(sg.node).entries =~= base_entries + statement_entries(
                *indent,
                entry_margins(entries@),
                docs,
                (i + 1) as nat,
            ));
        }
        i += 1;
    }
    assert(texts.take(i as int) =~= texts);
}

/// Between two neighbours of a block that are both declarations with a
/// body or definition an empty line is made, whatever stood in the source;
/// between two imports without bodies none is made.
pub proof fn lemma_statement_margins(indent: Alignment, margins: Seq<Margin>, i: int)
    requires
        0 < i < margins.len(),
    ensures
        margins[i - 1].0 == crate::margin::MarginGroup::BlockDef && margins[i].0
            == crate::margin::MarginGroup::BlockDef ==> statement_lead(
            indent,
            true,
            margin_required(margins[i - 1], margins[i]),
        )[0] == (DocEntry::Whitespace { alignment: indent, items: seq![Whitespace::BlankLines] }),
        margins[i - 1] == (crate::margin::MarginGroup::Import, false) && margins[i] == (
            crate::margin::MarginGroup::Import,
            false,
        ) ==> statement_lead(indent, true, margin_required(margins[i - 1], margins[i])) == seq![
            DocEntry::Break { always: true, alignment: indent },
            DocEntry::Text { mode: SegmentMode::Unsplit, text: " "@ },
        ],
{
    let lead = statement_lead(indent, true, margin_required(margins[i - 1], margins[i]));
    if margins[i - 1] == (crate::margin::MarginGroup::Import, false) && margins[i] == (
        crate::margin::MarginGroup::Import,
        false,
    ) {
        assert(lead =~= seq![
            DocEntry::Break { always: true, alignment: indent },
            DocEntry::Text { mode: SegmentMode::Unsplit, text: " "@ },
        ]);
    }
}

/// A block on one line: the opening, the entries a space apart, the
/// closing; inside the braces a space at each end if there are entries.
pub open spec fn block_text(prefix: Seq<char>, texts: Seq<Seq<char>>) -> Seq<char> {
    prefix + space_if(texts.len() > 0) + joined(texts, " "@) + space_if(texts.len() > 0) + "}"@
}

/// Adds a block: the gap in front of the opening brace and the opening,
/// the entries one level deeper (see [`append_statement_list`]), the gap in
/// front of the closing brace and the brace on a line at `base_indent`.
pub fn append_bracketed_statement_list(
    out: &mut MakeSegsState,
    base_indent: &Alignment,
    sg: &mut SplitGroupBuilder,
    prefix_start: LineColumn,
    prefix: &str,
    entries: &Vec<StmtEntry>,
    suffix_start: LineColumn,
)
    requires
        old(out).wf(),
        old(sg).wf(old(out)),
        all_finished(old(out), old(sg).node, entry_groups(entries@)),
    ensures
        *final(sg) == *old(sg),
        final(out).nodes.len() == old(out).nodes.len(),
        said_taking(
            old(out),
            final(out),
            *old(sg),
            block_text(prefix@, group_texts(old(out), entry_groups(entries@))),
            entries@.len(),
        ),
        final(out).doc(old(sg).node).split == old(out).doc(old(sg).node).split,
        laid(final(out), old(sg).node) == laid(old(out), old(sg).node).block(
            *base_indent,
            prefix_start,
            prefix@,
            entry_margins(entries@),
            group_docs(old(out), entry_groups(entries@)),
            suffix_start,
        ),
{
    let ghost groups = entry_groups(entries@);
    let ghost texts = group_texts(old(out), groups);
    let ghost base = code_text(old(out).doc(sg.node));
    let space = entries.len() > 0;
    list_begin(out, base_indent, sg, prefix_start, prefix, space);
    let ghost mid = *out;
    proof {
        assert forall|i: int| 0 <= i < groups.len() implies mid.is_finished(
            #[trigger] groups[i],
        ) && sg.node.0 < groups[i].0 by {
            assert(old(out).is_finished(groups[i]));
            assert(mid.nodes[groups[i].0 as int] == old(out).nodes[groups[i].0 as int]);
        }
        assert(group_texts(&mid, groups) =~= texts) by {
            assert forall|i: int| 0 <= i < groups.len() implies group_texts(&mid, groups)[i]
                == texts[i] by {
                assert(old(out).is_finished(groups[i]));
                assert(mid.nodes[groups[i].0 as int] == old(out).nodes[groups[i].0 as int]);
            }
        }
        assert(group_docs(&mid, groups) =~= group_docs(old(out), groups)) by {
            assert forall|i: int| 0 <= i < groups.len() implies group_docs(&mid, groups)[i]
                == group_docs(old(out), groups)[i] by {
                assert(old(out).is_finished(groups[i]));
                assert(mid.nodes[groups[i].0 as int] == old(out).nodes[groups[i].0 as int]);
            }
        }
    }
    append_statement_list(out, &base_indent.indent(), sg, entries);
    assert(laid(out, sg.node) == laid(&mid, sg.node).statements(
        base_indent.deeper(),
        entry_margins(entries@),
        group_docs(old(out), groups),
    ));
    list_end(out, base_indent, sg, None, "", false, suffix_start, "}", space);
    assert(code_text(out.doc(sg.node)) =~= base + block_text(prefix@, texts));
}

} // verus!
