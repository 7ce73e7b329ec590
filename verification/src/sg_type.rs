//! Generic parameters, where clauses, paths and macro calls.

use crate::arena::MakeSegsState;
use crate::arena::SplitGroupBuilder;
use crate::arena::SplitGroupIdx;
use crate::builder::append_whitespace;
use crate::builder::new_sg;
use crate::model::code_text;
use crate::model::Alignment;
use crate::sg_general::append_token;
use crate::sg_general::bracketed;
use crate::sg_general::built_as;
use crate::sg_general::laid;
use crate::sg_general::Built;
use crate::sg_general::Laid;
use crate::model::SegmentMode;
use crate::whitespace::Gap;
use crate::sg_general::joined;
use crate::sg_general::made;
use crate::sg_general::new_sg_bracketed_list;
use crate::sg_general::pair_texts;
use crate::sg_general::said;
use crate::sg_general::space_if;
use crate::sg_general::Syntax;
use crate::syntax::Generics;
use crate::syntax::Macro;
use crate::syntax::WhereClause;
use crate::whitespace::LineColumn;
use vstd::prelude::*;

verus! {

broadcast use crate::arena::lemma_grown_trans;

impl Generics {
    /// What the parameters in their angle brackets say.
    pub open spec fn params_text(self) -> Seq<char> {
        bracketed("<"@, false, pair_texts(self.params@), ","@, ">"@)
    }

    /// What the where clause says, if there is one.
    pub open spec fn where_text(self) -> Seq<char> {
        match self.where_clause {
            Some(wh) => wh.text(),
            None => Seq::empty(),
        }
    }

    /// What the generics say at the place of the parameters and, right
    /// behind them, of the where clause.
    pub open spec fn text(self) -> Seq<char> {
        (if self.params@.len() > 0 {
            self.params_text()
        } else {
            Seq::empty()
        }) + self.where_text()
    }
}

impl Generics {
    /// The group for the parameters in their angle brackets.
    pub open spec fn params_built(self, gaps: Seq<Gap>, base_indent: Alignment) -> Built {
        Laid::start(gaps).syntax_list(
            base_indent,
            self.lt_loc,
            "<"@,
            false,
            ","@,
            self.params@,
            false,
            self.gt_loc,
            ">"@,
        ).built(false)
    }

    /// The parameters have become an entry, if there are any.
    pub open spec fn params_onto(self, l: Laid, base_indent: Alignment) -> Laid {
        if self.params@.len() > 0 {
            l.child_built(self.params_built(l.gaps, base_indent))
        } else {
            l
        }
    }

    /// The where clause has become an entry, if there is one.
    pub open spec fn where_onto(self, l: Laid, base_indent: Alignment, split_where: bool) -> Laid {
        match self.where_clause {
            Some(wh) => l.child_built(wh.built(l.gaps, base_indent, split_where)),
            None => l,
        }
    }

    /// The parameters and the where clause have become entries.
    pub open spec fn onto(self, l: Laid, base_indent: Alignment, split_where: bool) -> Laid {
        self.where_onto(self.params_onto(l, base_indent), base_indent, split_where)
    }
}

impl WhereClause {
    /// The first `n` predicates have become entries: each one a nested
    /// group behind a place to break at `indent`, built in its turn;
    /// between two of them the gap in front of the comma, the comma, and a
    /// space that shows on one line.
    pub open spec fn predicates_onto(self, l: Laid, indent: Alignment, n: nat) -> Laid
        decreases n,
    {
        if n == 0 {
            l
        } else {
            let i = n - 1;
            let before = self.predicates_onto(l, indent, i as nat);
            let parted = (if i > 0 {
                before.gap_if(self.predicates@[i - 1].punct, indent).text(
                    SegmentMode::All,
                    ","@,
                ).space_if(true)
            } else {
                before
            }).line_break(false, indent);
            parted.child_built(self.predicates@[i].value.built(parted.gaps, indent))
        }
    }

    /// The group for the clause: a place to break at `base_indent` and a
    /// space that shows on one line; the keyword behind its gap; the
    /// predicates one level deeper; behind the last of them the gap in
    /// front of its comma and a comma that shows while the group is split;
    /// and a place to break at `base_indent`. The group is marked as one
    /// that must split if `split_where` is set.
    pub open spec fn built(self, gaps: Seq<Gap>, base_indent: Alignment, split_where: bool)
        -> Built {
        let n = self.predicates@.len();
        let filled = self.predicates_onto(
            Laid::start(gaps).line_break(false, base_indent).space_if(true).token(
                self.where_loc,
                base_indent,
                "where"@,
            ).space_if(n > 0),
            base_indent.deeper(),
            n,
        );
        (if n > 0 {
            filled.gap_if(self.predicates@[n - 1].punct, base_indent.deeper()).text(
                SegmentMode::Split,
                ","@,
            )
        } else {
            filled
        }).line_break(false, base_indent).built(split_where)
    }

    /// What the clause says: a space, the keyword and the predicates with
    /// commas between them.
    pub open spec fn text(self) -> Seq<char> {
        " "@ + "where"@ + space_if(self.predicates@.len() > 0) + joined(
            pair_texts(self.predicates@),
            ","@ + " "@,
        )
    }
}

impl Macro {
    /// What the call says behind its path and the mark: the body between
    /// its delimiters.
    pub open spec fn body_text(self) -> Seq<char> {
        self.open.text@ + self.body.text() + self.close.text@
    }

    /// The group for the body between its delimiters: the opening
    /// delimiter behind its gap, a place to break one level deeper, the
    /// pieces of the body one level deeper, the gap in front of the closing
    /// delimiter, a place to break at `base_indent`, and the closing
    /// delimiter. The group is marked as one that must split if the body
    /// is.
    pub open spec fn body_built(self, gaps: Seq<Gap>, base_indent: Alignment) -> Built {
        self.body.parts_onto(
            Laid::start(gaps).token(self.open.loc, base_indent, self.open.text@).line_break(
                false,
                base_indent.deeper(),
            ),
            base_indent.deeper(),
        ).gap(self.close.loc, base_indent).line_break(false, base_indent).text(
            SegmentMode::All,
            self.close.text@,
        ).built(self.body.marked())
    }

    /// The body between its delimiters has become an entry, and a
    /// semicolon behind it if `semi` holds its place.
    pub open spec fn body_onto(
        self,
        l: Laid,
        base_indent: Alignment,
        semi: Option<LineColumn>,
    ) -> Laid {
        let with_body = l.child_built(self.body_built(l.gaps, base_indent));
        with_body.keyword(semi, base_indent, ";"@)
    }

    /// The group for the call: the path as a nested group, the mark, and
    /// the body.
    pub open spec fn built(
        self,
        semi: Option<LineColumn>,
        gaps: Seq<Gap>,
        base_indent: Alignment,
    ) -> Built {
        self.body_onto(
            Laid::start(gaps).child_built(self.path.built(gaps, base_indent)).token(
                self.bang_loc,
                base_indent,
                "!"@,
            ),
            base_indent,
            semi,
        ).built(false)
    }
}

/// A finished group for generic parameters in their angle brackets.
pub fn build_generics_part_a(
    out: &mut MakeSegsState,
    base_indent: &Alignment,
    generics: &Generics,
) -> (idx: SplitGroupIdx)
    requires
        old(out).wf(),
    ensures
        made(old(out), final(out), idx, generics.params_text()),
        built_as(final(out), idx, generics.params_built(old(out).whitespaces@, *base_indent)),
{
    let idx = new_sg_bracketed_list(
        out,
        base_indent,
        generics.lt_loc,
        "<",
        false,
        ",",
        &generics.params,
        false,
        generics.gt_loc,
        ">",
    );
    idx
}

/// A finished group for a where clause, marked as one that must split where
/// the options ask that of where clauses. While it is split, the keyword
/// starts a line at `base_indent`, each predicate stands on a line of its
/// own, one level deeper, followed by a comma, and what follows the clause
/// starts a line at `base_indent`.
pub fn build_generics_part_b(out: &mut MakeSegsState, base_indent: &Alignment, wh: &WhereClause)
    -> (idx: SplitGroupIdx)
    requires
        old(out).wf(),
    ensures
        made(old(out), final(out), idx, wh.text()),
        final(out).doc(idx).split == old(out).config.split_where,
        built_as(
            final(out),
            idx,
            wh.built(old(out).whitespaces@, *base_indent, old(out).config.split_where),
        ),
{
    let mut sg = new_sg(out);
    assert(laid(out, sg.node) =~= Laid::start(old(out).whitespaces@));
    if out.config.split_where {
        sg.initial_split();
    }
    sg.split(out, *base_indent);
    sg.seg_unsplit(out, " ");
    append_token(out, base_indent, &mut sg, wh.where_loc, "where");
    let n = wh.predicates.len();
    if n > 0 {
        sg.seg_unsplit(out, " ");
    }
    let ghost begun = laid(out, sg.node);
    assert(begun == Laid::start(old(out).whitespaces@).line_break(false, *base_indent).space_if(
        true,
    ).token(wh.where_loc, *base_indent, "where"@).space_if(n > 0));
    let ghost head = " "@ + "where"@ + space_if(n > 0);
    assert(code_text(out.doc(sg.node)) =~= head);
    assert(sg.wf(out));
    let ghost texts = pair_texts(wh.predicates@);
    let ghost sep = ","@ + " "@;
    let indent = base_indent.indent();
    let mut i: usize = 0;
    assert(texts.take(0) =~= Seq::<Seq<char>>::empty());
    assert(code_text(out.doc(sg.node)) =~= head + joined(texts.take(0), sep));
    while i < n
        invariant
            out.loose() == old(out).loose() + 1,
            i <= n == wh.predicates.len(),
            out.wf(),
            sg.wf(out),
            sg.node.0 == old(out).nodes.len(),
            sg.start@ == old(out).nodes@,
            sg.initial_split == old(out).config.split_where,
            out.config == old(out).config,
            out.comments == old(out).comments,
            texts == pair_texts(wh.predicates@),
            sep == ","@ + " "@,
            code_text(out.doc(sg.node)) == head + joined(texts.take(i as int), sep),
            indent == base_indent.deeper(),
            laid(out, sg.node) == wh.predicates_onto(begun, indent, i as nat),
        decreases n - i,
    {
        let ghost before = code_text(out.doc(sg.node));
        if i > 0 {
            where_separator(out, &indent, &mut sg, wh.predicates[i - 1].punct);
        }
        sg.split(out, indent);
        let ghost mid = code_text(out.doc(sg.node));
        let ghost parted = *out;
        let child = wh.predicates[i].value.make_segs(out, &indent);
        assert(sg.wf(out));
        assert(out.nodes[sg.node.0 as int] == parted.nodes[sg.node.0 as int]);
        assert(out.doc(sg.node) == parted.doc(sg.node));
        assert(code_text(out.doc(sg.node)) == mid);
        sg.child(out, child);
        proof {
            assert(texts.take(i + 1) =~= texts.take(i as int).push(texts[i as int]));
            crate::sg_general::lemma_joined_push(texts.take(i as int), sep, texts[i as int]);
            if i > 0 {
                assert(code_text(out.doc(sg.node)) =~= before + sep + texts[i as int]);
            } else {
                assert(code_text(out.doc(sg.node)) =~= before + texts[i as int]);
            }
            assert(code_text(out.doc(sg.node)) =~= head + joined(texts.take(i + 1), sep));
        }
        i += 1;
    }
    assert(texts.take(i as int) =~= texts);
    if n > 0 {
        where_trailing(out, &indent, &mut sg, wh.predicates[n - 1].punct);
    }
    sg.split(out, *base_indent);
    let idx = sg.build(out);
    assert(code_text(out.doc(idx)) =~= wh.text());
    idx
}

/// Adds the comma between two predicates of a where clause, behind the gap
/// in front of it, and a space that shows on one line.
fn where_separator(
    out: &mut MakeSegsState,
    indent: &Alignment,
    sg: &mut SplitGroupBuilder,
    punct_loc: Option<LineColumn>,
)
    requires
        old(out).wf(),
        old(sg).wf(old(out)),
    ensures
        *final(sg) == *old(sg),
        said(old(out), final(out), *old(sg), ","@ + " "@),
        laid(final(out), old(sg).node) == laid(old(out), old(sg).node).gap_if(
            punct_loc,
            *indent,
        ).text(SegmentMode::All, ","@).space_if(true),
{
    match punct_loc {
        Some(loc) => {
            append_whitespace(out, indent, sg, loc);
        },
        None => {},
    }
    assert(sg.wf(out));
    assert(code_text(out.doc(sg.node)) == code_text(old(out).doc(sg.node)));
    sg.seg(out, ",");
    sg.seg_unsplit(out, " ");
    assert(code_text(out.doc(sg.node)) =~= code_text(old(out).doc(sg.node)) + (","@ + " "@));
}

/// Adds the comma behind the last predicate of a where clause, which shows
/// while the clause is split.
fn where_trailing(
    out: &mut MakeSegsState,
    indent: &Alignment,
    sg: &mut SplitGroupBuilder,
    punct_loc: Option<LineColumn>,
)
    requires
        old(out).wf(),
        old(sg).wf(old(out)),
    ensures
        *final(sg) == *old(sg),
        said(old(out), final(out), *old(sg), Seq::empty()),
        laid(final(out), old(sg).node) == laid(old(out), old(sg).node).gap_if(
            punct_loc,
            *indent,
        ).text(SegmentMode::Split, ","@),
{
    match punct_loc {
        Some(loc) => {
            append_whitespace(out, indent, sg, loc);
        },
        None => {},
    }
    assert(sg.wf(out));
    assert(code_text(out.doc(sg.node)) == code_text(old(out).doc(sg.node)));
    sg.seg_split(out, ",");
    assert(code_text(out.doc(sg.node)) =~= code_text(old(out).doc(sg.node)) + Seq::<
        char,
    >::empty());
}

/// Adds the generic parameters, if there are any, and the where clause, if
/// there is one, each as a group of its own.
pub fn append_generics(
    out: &mut MakeSegsState,
    base_indent: &Alignment,
    sg: &mut SplitGroupBuilder,
    generics: &Generics,
)
    requires
        old(out).wf(),
        old(sg).wf(old(out)),
    ensures
        *final(sg) == *old(sg),
        said(old(out), final(out), *old(sg), generics.text()),
        final(out).doc(old(sg).node).split == old(out).doc(old(sg).node).split,
        laid(final(out), old(sg).node) == generics.onto(
            laid(old(out), old(sg).node),
            *base_indent,
            old(out).config.split_where,
        ),
{
    let ghost base = code_text(out.doc(sg.node));
    if generics.params.len() > 0 {
        let a = build_generics_part_a(out, base_indent, generics);
        assert(sg.wf(out));
        assert(out.nodes[sg.node.0 as int] == old(out).nodes[sg.node.0 as int]);
        assert(out.doc(sg.node) == old(out).doc(sg.node));
        assert(code_text(out.doc(sg.node)) == base);
        sg.child(out, a);
    }
    assert(laid(out, sg.node) == generics.params_onto(laid(old(out), sg.node), *base_indent));
    let ghost with_params = *out;
    assert(sg.wf(out));
    let ghost mid = code_text(out.doc(sg.node));
    assert(mid =~= base + (if generics.params@.len() > 0 {
        generics.params_text()
    } else {
        Seq::empty()
    }));
    match &generics.where_clause {
        Some(wh) => {
            let b = build_generics_part_b(out, base_indent, wh);
            assert(sg.wf(out));
            assert(out.nodes[sg.node.0 as int] == with_params.nodes[sg.node.0 as int]);
            assert(out.doc(sg.node) == with_params.doc(sg.node));
            assert(code_text(out.doc(sg.node)) == mid);
            sg.child(out, b);
        },
        None => {},
    }
    assert(sg.wf(out));
    assert(code_text(out.doc(sg.node)) =~= base + generics.text());
}

/// A finished group for a path.
pub fn build_path(out: &mut MakeSegsState, base_indent: &Alignment, path: &Syntax) -> (idx:
    SplitGroupIdx)
    requires
        old(out).wf(),
    ensures
        made(old(out), final(out), idx, path.text()),
        built_as(final(out), idx, path.built(old(out).whitespaces@, *base_indent)),
{
    path.make_segs(out, base_indent)
}

/// Adds a path.
pub fn append_path(
    out: &mut MakeSegsState,
    sg: &mut SplitGroupBuilder,
    base_indent: &Alignment,
    path: &Syntax,
)
    requires
        old(out).wf(),
        old(sg).wf(old(out)),
    ensures
        *final(sg) == *old(sg),
        said(old(out), final(out), *old(sg), path.text()),
        final(out).doc(old(sg).node).split == old(out).doc(old(sg).node).split,
        laid(final(out), old(sg).node) == path.laid_onto(laid(old(out), old(sg).node), *base_indent),
{
    path.append(out, base_indent, sg);
}

/// Adds the body of a macro, which is laid out by rules of its own.
pub fn append_macro_body(
    out: &mut MakeSegsState,
    base_indent: &Alignment,
    sg: &mut SplitGroupBuilder,
    tokens: &Syntax,
)
    requires
        old(out).wf(),
        old(sg).wf(old(out)),
    ensures
        *final(sg) == *old(sg),
        said(old(out), final(out), *old(sg), tokens.text()),
        final(out).doc(old(sg).node).split == old(out).doc(old(sg).node).split,
        laid(final(out), old(sg).node) == tokens.laid_onto(
            laid(old(out), old(sg).node),
            *base_indent,
        ),
{
    tokens.append(out, base_indent, sg);
}

/// Adds the body of a macro call between its delimiters, as a group of its
/// own, and a semicolon if `semi` holds its place. The group holds the pieces of the
/// body and is marked as one that must split if the body is. While it is
/// split, the body stands one level deeper on lines of its own.
pub fn append_macro_bracketed(
    out: &mut MakeSegsState,
    base_indent: &Alignment,
    sg: &mut SplitGroupBuilder,
    mac: &Macro,
    semi: Option<LineColumn>,
)
    requires
        old(out).wf(),
        old(sg).wf(old(out)),
    ensures
        *final(sg) == *old(sg),
        said(
            old(out),
            final(out),
            *old(sg),
            mac.body_text() + (if semi is Some {
                ";"@
            } else {
                Seq::empty()
            }),
        ),
        final(out).doc(old(sg).node).split == old(out).doc(old(sg).node).split,
        laid(final(out), old(sg).node) == mac.body_onto(
            laid(old(out), old(sg).node),
            *base_indent,
            semi,
        ),
{
    let indent = base_indent.indent();
    let mut node = new_sg(out);
    assert(laid(out, node.node) =~= Laid::start(old(out).whitespaces@));
    assert(out.nodes[sg.node.0 as int] == old(out).nodes[sg.node.0 as int]);
    assert(out.doc(sg.node) == old(out).doc(sg.node));
    if mac.body.is_marked() {
        node.initial_split();
    }
    append_token(out, base_indent, &mut node, mac.open.loc, mac.open.text.as_str());
    node.split(out, indent);
    mac.body.append_parts(out, &indent, &mut node);
    append_whitespace(out, base_indent, &mut node, mac.close.loc);
    node.split(out, *base_indent);
    node.seg(out, mac.close.text.as_str());
    let ghost filled = *out;
    assert(filled.nodes[sg.node.0 as int] == old(out).nodes[sg.node.0 as int]);
    let child = node.build(out);
    assert(code_text(out.doc(child)) =~= mac.body_text());
    assert(built_as(out, child, mac.body_built(old(out).whitespaces@, *base_indent)));
    assert(sg.wf(out));
    assert(out.nodes[sg.node.0 as int] == filled.nodes[sg.node.0 as int]);
    assert(out.doc(sg.node) == old(out).doc(sg.node));
    assert(code_text(out.doc(sg.node)) == code_text(old(out).doc(sg.node)));
    sg.child(out, child);
    match semi {
        Some(loc) => {
            append_token(out, base_indent, sg, loc, ";");
        },
        None => {},
    }
    assert(sg.wf(out));
    assert(code_text(out.doc(sg.node)) =~= code_text(old(out).doc(sg.node)) + (mac.body_text() + (
    if semi is Some {
        ";"@
    } else {
        Seq::empty()
    })));
}

/// What a macro call says: the path, the mark, the body between its
/// delimiters, and a semicolon if `semi` holds its place.
pub open spec fn macro_text(mac: Macro, semi: Option<LineColumn>) -> Seq<char> {
    mac.path.text() + "!"@ + mac.body_text() + (if semi is Some {
        ";"@
    } else {
        Seq::empty()
    })
}

/// A finished group for a macro call.
pub fn new_sg_macro(
    out: &mut MakeSegsState,
    base_indent: &Alignment,
    mac: &Macro,
    semi: Option<LineColumn>,
)
    -> (idx: SplitGroupIdx)
    requires
        old(out).wf(),
    ensures
        made(old(out), final(out), idx, macro_text(*mac, semi)),
        built_as(final(out), idx, mac.built(semi, old(out).whitespaces@, *base_indent)),
{
    let mut sg = new_sg(out);
    assert(laid(out, sg.node) =~= Laid::start(old(out).whitespaces@));
    let ghost fresh = *out;
    let path = build_path(out, base_indent, &mac.path);
    assert(sg.wf(out));
    assert(out.nodes[sg.node.0 as int] == fresh.nodes[sg.node.0 as int]);
    assert(out.doc(sg.node) == fresh.doc(sg.node));
    sg.child(out, path);
    append_token(out, base_indent, &mut sg, mac.bang_loc, "!");
    append_macro_bracketed(out, base_indent, &mut sg, mac, semi);
    let idx = sg.build(out);
    assert(code_text(out.doc(idx)) =~= macro_text(*mac, semi));
    idx
}

} // verus!
