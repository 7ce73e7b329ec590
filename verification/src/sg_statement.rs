//! Declarations and statements: what each says, and the groups that lay it
//! out.

use crate::arena::MakeSegsState;
use crate::arena::SplitGroupBuilder;
use crate::arena::SplitGroupIdx;
use crate::builder::append_whitespace;
use crate::builder::brace_threshold_met;
use crate::builder::check_split_brace_threshold;
use crate::builder::new_sg;
use crate::margin::Margin;
use crate::margin::MarginGroup;
use crate::model::code_text;
use crate::model::Alignment;
use crate::sg_general::all_finished;
use crate::sg_general::append_binary;
use crate::sg_general::append_bracketed_list;
use crate::sg_general::append_bracketed_statement_list;
use crate::sg_general::append_statement_list;
use crate::sg_general::append_inline_list;
use crate::sg_general::append_token;
use crate::sg_general::attrs_laid;
use crate::sg_general::attrs_text;
use crate::sg_general::block_text;
use crate::sg_general::bracketed;
use crate::sg_general::built_as;
use crate::sg_general::group_docs;
use crate::sg_general::item_puncts;
use crate::sg_general::laid;
use crate::sg_general::pair_puncts;
use crate::sg_general::with_attributes;
use crate::sg_general::Built;
use crate::sg_general::BuiltAll;
use crate::sg_general::Laid;
use crate::config::FormatConfig;
use crate::model::Doc;
use crate::model::SegmentMode;
use crate::whitespace::Gap;
use crate::sg_general::entry_groups;
use crate::sg_general::entry_margins;
use crate::sg_general::group_texts;
use crate::sg_general::item_groups;
use crate::sg_general::joined;
use crate::sg_general::made;
use crate::sg_general::new_sg_outer_attrs;
use crate::sg_general::start_outer_attrs;
use crate::sg_general::lemma_push_finished;
use crate::sg_general::append_binary_syntax;
use crate::sg_general::pair_texts;
use crate::sg_general::said;
use crate::sg_general::ListItem;
use crate::sg_general::StmtEntry;
use crate::sg_general::Syntax;
use crate::sg_type::append_generics;
use crate::sg_type::append_macro_body;
use crate::sg_type::append_macro_bracketed;
use crate::sg_type::append_path;
use crate::sg_type::build_generics_part_a;
use crate::sg_type::build_generics_part_b;
use crate::sg_type::macro_text;
use crate::sg_type::new_sg_macro;
use crate::syntax::Abi;
use crate::text::lemma_join_assoc;
use crate::syntax::Block;
use crate::syntax::Field;
use crate::syntax::Fields;
use crate::syntax::File;
use crate::syntax::FnArg;
use crate::syntax::ForeignItem;
use crate::syntax::Generics;
use crate::syntax::ImplItem;
use crate::syntax::Item;
use crate::syntax::Local;
use crate::syntax::Macro;
use crate::syntax::ModContent;
use crate::syntax::Pair;
use crate::syntax::Signature;
use crate::syntax::Stmt;
use crate::syntax::Token;
use crate::syntax::TraitItem;
use crate::syntax::UseTree;
use crate::syntax::Variant;
use crate::syntax::Visibility;
use crate::whitespace::LineColumn;
use vstd::prelude::*;

verus! {

broadcast use crate::arena::lemma_grown_trans;

/// `text` if `yes`, else nothing.
pub open spec fn text_if(yes: bool, text: Seq<char>) -> Seq<char> {
    if yes {
        text
    } else {
        Seq::empty()
    }
}

impl Visibility {
    /// What the visibility says, with the space that parts it from what
    /// follows.
    pub open spec fn text(self) -> Seq<char> {
        match self {
            Visibility::Public { .. } => "pub "@,
            Visibility::Crate { .. } => "crate "@,
            Visibility::Restricted { in_token, path, .. } => "pub("@ + text_if(
                in_token is Some,
                "in "@,
            ) + path.text() + ") "@,
            Visibility::Inherited => Seq::empty(),
        }
    }
}

impl Visibility {
    /// The visibility has become entries: its keyword behind its gap and,
    /// where it is restricted, the path between its parentheses.
    pub open spec fn onto(self, l: Laid, base_indent: Alignment) -> Laid {
        match self {
            Visibility::Public { pub_loc } => l.token(pub_loc, base_indent, "pub "@),
            Visibility::Crate { crate_loc } => l.token(crate_loc, base_indent, "crate "@),
            Visibility::Restricted { pub_loc, in_token, path, paren_end } => path.laid_onto(
                l.token(pub_loc, base_indent, "pub("@).keyword(in_token, base_indent, "in "@),
                base_indent,
            ).token(paren_end, base_indent, ") "@),
            Visibility::Inherited => l,
        }
    }
}

/// Adds a visibility: the gap in front of its keyword, and what it says.
pub fn append_vis(
    out: &mut MakeSegsState,
    base_indent: &Alignment,
    node: &mut SplitGroupBuilder,
    vis: &Visibility,
)
    requires
        old(out).wf(),
        old(node).wf(old(out)),
    ensures
        *final(node) == *old(node),
        said(old(out), final(out), *old(node), vis.text()),
        final(out).doc(old(node).node).split == old(out).doc(old(node).node).split,
        laid(final(out), old(node).node) == vis.onto(laid(old(out), old(node).node), *base_indent),
{
    match vis {
        Visibility::Public { pub_loc } => {
            append_token(out, base_indent, node, *pub_loc, "pub ");
        },
        Visibility::Crate { crate_loc } => {
            append_token(out, base_indent, node, *crate_loc, "crate ");
        },
        Visibility::Restricted { pub_loc, in_token, path, paren_end } => {
            append_token(out, base_indent, node, *pub_loc, "pub(");
            append_keyword(out, base_indent, node, *in_token, "in ");
            assert(code_text(out.doc(node.node)) =~= code_text(old(out).doc(node.node)) + "pub("@
                + text_if(*in_token is Some, "in "@));
            append_path(out, node, base_indent, path);
            append_token(out, base_indent, node, *paren_end, ") ");
        },
        Visibility::Inherited => {},
    }
    assert(node.wf(out));
    assert(code_text(out.doc(node.node)) =~= code_text(old(out).doc(node.node)) + vis.text());
}

/// Adds the token of a keyword that may be absent: the gap in front of it
/// and its text, if it is there.
pub fn append_keyword(
    out: &mut MakeSegsState,
    base_indent: &Alignment,
    sg: &mut SplitGroupBuilder,
    loc: Option<LineColumn>,
    text: &str,
)
    requires
        old(out).wf(),
        old(sg).wf(old(out)),
    ensures
        *final(sg) == *old(sg),
        said(old(out), final(out), *old(sg), text_if(loc is Some, text@)),
        final(out).doc(old(sg).node).split == old(out).doc(old(sg).node).split,
        laid(final(out), old(sg).node) == laid(old(out), old(sg).node).keyword(loc, *base_indent, text@),
{
    match loc {
        Some(l) => {
            append_token(out, base_indent, sg, l, text);
        },
        None => {},
    }
    assert(sg.wf(out));
    assert(code_text(out.doc(sg.node)) =~= code_text(old(out).doc(sg.node)) + text_if(
        loc is Some,
        text@,
    ));
}

/// Adds the gap in front of a token that may be absent, if it is there.
pub fn append_gap_if(
    out: &mut MakeSegsState,
    base_indent: &Alignment,
    sg: &mut SplitGroupBuilder,
    loc: Option<LineColumn>,
)
    requires
        old(out).wf(),
        old(sg).wf(old(out)),
    ensures
        *final(sg) == *old(sg),
        final(out).wf(),
        final(sg).wf(final(out)),
        final(out).config == old(out).config,
        final(out).comments == old(out).comments,
        final(out).loose() == old(out).loose(),
        code_text(final(out).doc(old(sg).node)) == code_text(old(out).doc(old(sg).node)),
        final(out).doc(old(sg).node).split == old(out).doc(old(sg).node).split,
        laid(final(out), old(sg).node) == laid(old(out), old(sg).node).gap_if(loc, *base_indent),
{
    match loc {
        Some(l) => {
            append_whitespace(out, base_indent, sg, l);
        },
        None => {},
    }
}

/// Adds a word, if `yes`.
pub fn append_text_when(
    out: &mut MakeSegsState,
    sg: &mut SplitGroupBuilder,
    yes: bool,
    text: &str,
)
    requires
        old(out).wf(),
        old(sg).wf(old(out)),
    ensures
        *final(sg) == *old(sg),
        said(old(out), final(out), *old(sg), text_if(yes, text@)),
        final(out).doc(old(sg).node).split == old(out).doc(old(sg).node).split,
        laid(final(out), old(sg).node) == laid(old(out), old(sg).node).text_when(yes, text@),
{
    if yes {
        sg.seg(out, text);
    } else {
        assert(code_text(out.doc(sg.node)) + text_if(yes, text@) =~= code_text(out.doc(sg.node)));
    }
}

impl Abi {
    /// What the ABI says, with the space that parts it from what follows.
    pub open spec fn text(self) -> Seq<char> {
        "extern "@ + (match self.name {
            Some(name) => name.text@ + " "@,
            None => Seq::empty(),
        })
    }
}

impl Abi {
    /// The ABI has become entries: the keyword and, if it is named, the
    /// name and a space, each token behind its gap.
    pub open spec fn onto(self, l: Laid, base_indent: Alignment) -> Laid {
        let shown = l.token(self.extern_loc, base_indent, "extern "@);
        match self.name {
            Some(name) => shown.token(name.loc, base_indent, name.text@).text(
                SegmentMode::All,
                " "@,
            ),
            None => shown,
        }
    }
}

impl Signature {
    /// The ABI has become entries, if the signature has one.
    pub open spec fn abi_onto(self, l: Laid, base_indent: Alignment) -> Laid {
        match self.abi {
            Some(abi) => abi.onto(l, base_indent),
            None => l,
        }
    }

    /// The words in front of a function have become entries.
    pub open spec fn qualifiers_onto(self, l: Laid, base_indent: Alignment) -> Laid {
        l.keyword(self.constness, base_indent, "const "@).keyword(
            self.asyncness,
            base_indent,
            "async "@,
        ).keyword(self.unsafety, base_indent, "unsafe "@)
    }

    /// What stands in front of the name of the function has become
    /// entries.
    pub open spec fn head_onto(self, l: Laid, base_indent: Alignment) -> Laid {
        self.abi_onto(self.qualifiers_onto(l, base_indent), base_indent).token(
            self.fn_loc,
            base_indent,
            "fn "@,
        )
    }

    /// Whether the function is variadic: its last input is the dots.
    pub open spec fn variadic(self) -> bool {
        self.inputs@.len() > 0 && self.inputs@.last().value is Variadic
    }

    /// The groups for what stands between the parentheses: the inputs,
    /// built one after the other.
    pub open spec fn inputs_all(
        self,
        gaps: Seq<Gap>,
        base_indent: Alignment,
        split_attributes: bool,
    ) -> BuiltAll {
        args_built(
            self.inputs@,
            gaps,
            base_indent.deeper(),
            split_attributes,
            self.inputs@.len(),
        )
    }

    /// The places of the commas behind what stands between the
    /// parentheses.
    pub open spec fn input_puncts(self) -> Seq<Option<LineColumn>> {
        pair_puncts(self.inputs@)
    }

    /// The group for the inputs between their parentheses: a list in which
    /// a comma follows the last element while the group is split, unless
    /// the function is variadic.
    pub open spec fn inputs_built(
        self,
        gaps: Seq<Gap>,
        base_indent: Alignment,
        split_attributes: bool,
    ) -> Built {
        let all = self.inputs_all(gaps, base_indent, split_attributes);
        Laid::start(all.gaps).bracketed_list(
            base_indent,
            self.paren_start,
            "("@,
            false,
            ","@,
            self.input_puncts(),
            all.docs,
            !self.variadic(),
            self.paren_end,
            ")"@,
        ).built(false)
    }

    /// The output has become entries behind its arrow, if the signature
    /// has one.
    pub open spec fn output_onto(self, l: Laid, base_indent: Alignment) -> Laid {
        match self.output {
            Some(t) => t.1.laid_onto(l.token(t.0, base_indent, " -> "@), base_indent),
            None => l,
        }
    }

    /// What stands behind the name of the function has become entries: the
    /// parameters, the inputs, the output behind its arrow, and the where
    /// clause.
    pub open spec fn tail_onto(self, l: Laid, base_indent: Alignment, config: FormatConfig)
        -> Laid {
        let with_params = self.generics.params_onto(l, base_indent);
        self.generics.where_onto(
            self.output_onto(
                with_params.child_built(
                    self.inputs_built(with_params.gaps, base_indent, config.split_attributes),
                ),
                base_indent,
            ),
            base_indent,
            config.split_where,
        )
    }

    /// The group for the signature.
    pub open spec fn built(self, gaps: Seq<Gap>, base_indent: Alignment, config: FormatConfig)
        -> Built {
        self.tail_onto(
            self.head_onto(Laid::start(gaps), base_indent).token(
                self.ident.loc,
                base_indent,
                self.ident.text@,
            ),
            base_indent,
            config,
        ).built(false)
    }

    /// What the ABI says, if the signature has one.
    pub open spec fn abi_text(self) -> Seq<char> {
        match self.abi {
            Some(abi) => abi.text(),
            None => Seq::empty(),
        }
    }

    /// What the output says behind its arrow, if the signature has one.
    pub open spec fn output_text(self) -> Seq<char> {
        match self.output {
            Some(t) => " -> "@ + t.1.text(),
            None => Seq::empty(),
        }
    }

    /// What the signature says behind the name of the function.
    pub open spec fn tail_text(self) -> Seq<char> {
        text_if(self.generics.params@.len() > 0, self.generics.params_text()) + bracketed(
            "("@,
            false,
            self.input_texts(),
            ","@,
            ")"@,
        ) + self.output_text() + self.generics.where_text()
    }

    /// What stands between the parentheses, as a list.
    pub open spec fn input_texts(self) -> Seq<Seq<char>> {
        arg_texts(self.inputs@)
    }

    /// What the words in front of a function say.
    pub open spec fn qualifiers_text(self) -> Seq<char> {
        text_if(self.constness is Some, "const "@) + text_if(self.asyncness is Some, "async "@)
            + text_if(self.unsafety is Some, "unsafe "@)
    }

    /// What the signature says in front of the name of the function.
    pub open spec fn head_text(self) -> Seq<char> {
        self.qualifiers_text() + self.abi_text() + "fn "@
    }

    /// What the signature says.
    pub open spec fn text(self) -> Seq<char> {
        self.head_text() + self.ident.text@ + self.tail_text()
    }
}

/// Adds an ABI: the keyword and, if it is named, the name, each behind
/// the gap in front of it.
fn append_abi(
    out: &mut MakeSegsState,
    base_indent: &Alignment,
    sg: &mut SplitGroupBuilder,
    abi: &Abi,
)
    requires
        old(out).wf(),
        old(sg).wf(old(out)),
    ensures
        *final(sg) == *old(sg),
        said(old(out), final(out), *old(sg), abi.text()),
        final(out).doc(old(sg).node).split == old(out).doc(old(sg).node).split,
        laid(final(out), old(sg).node) == abi.onto(laid(old(out), old(sg).node), *base_indent),
{
    let ghost base = code_text(out.doc(sg.node));
    append_token(out, base_indent, sg, abi.extern_loc, "extern ");
    match &abi.name {
        Some(name) => {
            append_token(out, base_indent, sg, name.loc, name.text.as_str());
            sg.seg(out, " ");
        },
        None => {},
    }
    assert(sg.wf(out));
    assert(code_text(out.doc(sg.node)) =~= base + abi.text());
}

/// Adds the words that may stand in front of a function: `const`, `async`,
/// `unsafe`, each behind its gap.
fn append_qualifiers(
    out: &mut MakeSegsState,
    base_indent: &Alignment,
    sg: &mut SplitGroupBuilder,
    sig: &Signature,
)
    requires
        old(out).wf(),
        old(sg).wf(old(out)),
    ensures
        *final(sg) == *old(sg),
        said(old(out), final(out), *old(sg), sig.qualifiers_text()),
        final(out).doc(old(sg).node).split == old(out).doc(old(sg).node).split,
        laid(final(out), old(sg).node) == sig.qualifiers_onto(
            laid(old(out), old(sg).node),
            *base_indent,
        ),
{
    let ghost base = code_text(out.doc(sg.node));
    append_keyword(out, base_indent, sg, sig.constness, "const ");
    let ghost k1 = base + text_if(sig.constness is Some, "const "@);
    assert(code_text(out.doc(sg.node)) == k1);
    append_keyword(out, base_indent, sg, sig.asyncness, "async ");
    let ghost k2 = k1 + text_if(sig.asyncness is Some, "async "@);
    assert(code_text(out.doc(sg.node)) == k2);
    append_keyword(out, base_indent, sg, sig.unsafety, "unsafe ");
    let ghost k3 = k2 + text_if(sig.unsafety is Some, "unsafe "@);
    assert(code_text(out.doc(sg.node)) == k3);
    assert(k3 =~= base + sig.qualifiers_text());
}

/// Adds the ABI of a signature, if it has one.
fn append_sig_abi(
    out: &mut MakeSegsState,
    base_indent: &Alignment,
    sg: &mut SplitGroupBuilder,
    sig: &Signature,
)
    requires
        old(out).wf(),
        old(sg).wf(old(out)),
    ensures
        *final(sg) == *old(sg),
        said(old(out), final(out), *old(sg), sig.abi_text()),
        final(out).doc(old(sg).node).split == old(out).doc(old(sg).node).split,
        laid(final(out), old(sg).node) == sig.abi_onto(laid(old(out), old(sg).node), *base_indent),
{
    match &sig.abi {
        Some(abi) => {
            append_abi(out, base_indent, sg, abi);
        },
        None => {
            assert(code_text(out.doc(sg.node)) + sig.abi_text() =~= code_text(out.doc(sg.node)));
        },
    }
}

/// Adds what a signature says in front of the name of the function.
fn append_sig_head(
    out: &mut MakeSegsState,
    base_indent: &Alignment,
    sg: &mut SplitGroupBuilder,
    sig: &Signature,
)
    requires
        old(out).wf(),
        old(sg).wf(old(out)),
    ensures
        *final(sg) == *old(sg),
        said(old(out), final(out), *old(sg), sig.head_text()),
        final(out).doc(old(sg).node).split == old(out).doc(old(sg).node).split,
        laid(final(out), old(sg).node) == sig.head_onto(laid(old(out), old(sg).node), *base_indent),
{
    let ghost base = code_text(out.doc(sg.node));
    append_qualifiers(out, base_indent, sg, sig);
    append_sig_abi(out, base_indent, sg, sig);
    proof {
        lemma_join_assoc(base, sig.qualifiers_text(), sig.abi_text());
    }
    append_token(out, base_indent, sg, sig.fn_loc, "fn ");
    proof {
        lemma_join_assoc(base, sig.qualifiers_text() + sig.abi_text(), "fn "@);
    }
}

/// Whether the function is variadic.
fn is_variadic(sig: &Signature) -> (b: bool)
    ensures
        b == sig.variadic(),
{
    let n = sig.inputs.len();
    if n == 0 {
        return false;
    }
    match &sig.inputs[n - 1].value {
        FnArg::Variadic { .. } => true,
        _ => false,
    }
}

/// A finished group for the inputs of a function between their
/// parentheses. No comma follows the dots of a variadic function while the
/// group is split.
fn new_sg_inputs(out: &mut MakeSegsState, base_indent: &Alignment, sig: &Signature) -> (idx:
    SplitGroupIdx)
    requires
        old(out).wf(),
    ensures
        made(old(out), final(out), idx, bracketed("("@, false, sig.input_texts(), ","@, ")"@)),
        built_as(
            final(out),
            idx,
            sig.inputs_built(
                old(out).whitespaces@,
                *base_indent,
                old(out).config.split_attributes,
            ),
        ),
{
    let indent = base_indent.indent();
    let mut sg = new_sg(out);
    assert(laid(out, sg.node) =~= Laid::start(old(out).whitespaces@));
    let items = build_args(out, &indent, &sg, &sig.inputs);
    assert(laid(out, sg.node) =~= Laid::start(out.whitespaces@));
    assert(code_text(out.doc(sg.node)) == Seq::<char>::empty());
    let trailing = !is_variadic(sig);
    append_bracketed_list(
        out,
        base_indent,
        &mut sg,
        sig.paren_start,
        "(",
        false,
        ",",
        &items,
        trailing,
        sig.paren_end,
        ")",
    );
    let idx = sg.build(out);
    assert(code_text(out.doc(idx)) =~= bracketed("("@, false, sig.input_texts(), ","@, ")"@));
    idx
}

/// Adds the output of a function behind its arrow, if it has one.
fn append_output(
    out: &mut MakeSegsState,
    base_indent: &Alignment,
    sg: &mut SplitGroupBuilder,
    sig: &Signature,
)
    requires
        old(out).wf(),
        old(sg).wf(old(out)),
    ensures
        *final(sg) == *old(sg),
        said(old(out), final(out), *old(sg), sig.output_text()),
        final(out).doc(old(sg).node).split == old(out).doc(old(sg).node).split,
        laid(final(out), old(sg).node) == sig.output_onto(
            laid(old(out), old(sg).node),
            *base_indent,
        ),
{
    match &sig.output {
        Some(t) => {
            append_token(out, base_indent, sg, t.0, " -> ");
            t.1.append(out, base_indent, sg);
            assert(code_text(out.doc(sg.node)) =~= code_text(old(out).doc(sg.node))
                + sig.output_text());
        },
        None => {
            assert(code_text(out.doc(sg.node)) + sig.output_text() =~= code_text(
                out.doc(sg.node),
            ));
        },
    }
}

/// Adds the inputs of a function between their parentheses, as a group of
/// their own.
fn append_inputs(
    out: &mut MakeSegsState,
    base_indent: &Alignment,
    sg: &mut SplitGroupBuilder,
    sig: &Signature,
)
    requires
        old(out).wf(),
        old(sg).wf(old(out)),
    ensures
        *final(sg) == *old(sg),
        said(
            old(out),
            final(out),
            *old(sg),
            bracketed("("@, false, sig.input_texts(), ","@, ")"@),
        ),
        final(out).doc(old(sg).node).split == old(out).doc(old(sg).node).split,
        laid(final(out), old(sg).node) == laid(old(out), old(sg).node).child_built(
            sig.inputs_built(
                old(out).whitespaces@,
                *base_indent,
                old(out).config.split_attributes,
            ),
        ),
{
    let inputs = new_sg_inputs(out, base_indent, sig);
    assert(sg.wf(out));
    assert(out.nodes[sg.node.0 as int] == old(out).nodes[sg.node.0 as int]);
    assert(out.doc(sg.node) == old(out).doc(sg.node));
    sg.child(out, inputs);
}

/// Adds what a signature says behind the name of the function: the
/// parameters, the inputs, the output and the where clause.
fn append_sig_tail(
    out: &mut MakeSegsState,
    base_indent: &Alignment,
    sg: &mut SplitGroupBuilder,
    sig: &Signature,
)
    requires
        old(out).wf(),
        old(sg).wf(old(out)),
    ensures
        *final(sg) == *old(sg),
        said(old(out), final(out), *old(sg), sig.tail_text()),
        final(out).doc(old(sg).node).split == old(out).doc(old(sg).node).split,
        laid(final(out), old(sg).node) == sig.tail_onto(
            laid(old(out), old(sg).node),
            *base_indent,
            old(out).config,
        ),
{
    let ghost base = code_text(out.doc(sg.node));
    let ghost p = text_if(sig.generics.params@.len() > 0, sig.generics.params_text());
    let ghost i = bracketed("("@, false, sig.input_texts(), ","@, ")"@);
    append_params(out, base_indent, sg, &sig.generics);
    append_inputs(out, base_indent, sg, sig);
    proof {
        lemma_join_assoc(base, p, i);
    }
    append_output(out, base_indent, sg, sig);
    proof {
        lemma_join_assoc(base, p + i, sig.output_text());
    }
    append_where(out, base_indent, sg, &sig.generics);
    proof {
        lemma_join_assoc(base, p + i + sig.output_text(), sig.generics.where_text());
    }
}

/// A finished group for the signature of a function.
pub fn new_sg_sig(out: &mut MakeSegsState, base_indent: &Alignment, sig: &Signature) -> (idx:
    SplitGroupIdx)
    requires
        old(out).wf(),
    ensures
        made(old(out), final(out), idx, sig.text()),
        built_as(
            final(out),
            idx,
            sig.built(old(out).whitespaces@, *base_indent, old(out).config),
        ),
{
    let mut sg = new_sg(out);
    assert(laid(out, sg.node) =~= Laid::start(old(out).whitespaces@));
    append_sig_head(out, base_indent, &mut sg, sig);
    append_token(out, base_indent, &mut sg, sig.ident.loc, sig.ident.text.as_str());
    append_sig_tail(out, base_indent, &mut sg, sig);
    let idx = sg.build(out);
    assert(code_text(out.doc(idx)) =~= sig.text());
    idx
}

/// The finished group `inner`, made since `mid`, put behind the attributes
/// for which `wrap` was started at `before`, is a group made since `before`
/// that says the attributes and then what `inner` says.
fn finish_attrs(
    out: &mut MakeSegsState,
    wrap: Option<SplitGroupBuilder>,
    inner: SplitGroupIdx,
    attrs: &Vec<Syntax>,
    Ghost(base_indent): Ghost<Alignment>,
    Ghost(before): Ghost<MakeSegsState>,
    Ghost(mid): Ghost<MakeSegsState>,
) -> (idx: SplitGroupIdx)
    requires
        old(out).wf(),
        mid.wf(),
        mid.extends(&before),
        wrap is Some <==> attrs.len() > 0,
        wrap matches Some(sg) ==> {
            &&& sg.wf(&mid)
            &&& sg.start@ == before.nodes@
            &&& sg.initial_split == before.config.split_attributes
            &&& code_text(mid.doc(sg.node)) == attrs_text(attrs@)
            &&& laid(&mid, sg.node) == attrs_laid(before.whitespaces@, base_indent, attrs@)
        },
        wrap is None ==> mid.whitespaces@ == before.whitespaces@,
        mid.loose() == before.loose() + (if attrs.len() > 0 {
            1nat
        } else {
            0nat
        }),
        old(out).extends(&mid),
        old(out).loose() == mid.loose() + 1,
        mid.nodes.len() <= inner.0,
        old(out).is_finished(inner),
    ensures
        made(
            &before,
            final(out),
            idx,
            attrs_text(attrs@) + code_text(old(out).doc(inner)),
        ),
        attrs.len() == 0 ==> idx == inner && final(out).doc(idx) == old(out).doc(inner),
        attrs.len() > 0 ==> final(out).doc(idx).split == before.config.split_attributes,
        mid.whitespaces@ == attrs_laid(before.whitespaces@, base_indent, attrs@).gaps,
        built_as(
            final(out),
            idx,
            with_attributes(
                attrs_laid(before.whitespaces@, base_indent, attrs@),
                attrs@.len(),
                (Built { doc: old(out).doc(inner), gaps: old(out).whitespaces@ }),
                before.config.split_attributes,
            ),
        ),
        attrs.len() == 0 ==> final(out).nodes@ == old(out).nodes@,
{
    proof {
        if wrap is Some {
            let sg = wrap->0;
            assert(sg.wf(old(out)));
            assert(old(out).nodes[sg.node.0 as int] == mid.nodes[sg.node.0 as int]);
            assert(old(out).doc(sg.node) == mid.doc(sg.node));
        } else {
            assert(attrs_text(attrs@) + code_text(old(out).doc(inner)) =~= code_text(
                old(out).doc(inner),
            ));
        }
    }
    new_sg_outer_attrs(out, wrap, inner)
}

impl FnArg {
    /// The attributes of the input.
    pub open spec fn attrs(self) -> Seq<Syntax> {
        match self {
            FnArg::Receiver { attrs, .. } => attrs@,
            FnArg::Typed { attrs, .. } => attrs@,
            FnArg::Variadic { attrs, .. } => attrs@,
        }
    }

    /// What the lifetime of a receiver says, with the space behind it, if
    /// there is one.
    pub open spec fn lifetime_text(lifetime: Option<Token>) -> Seq<char> {
        match lifetime {
            Some(l) => l.text@ + " "@,
            None => Seq::empty(),
        }
    }

    /// The lifetime of a receiver has become entries, with the space behind
    /// it, if there is one.
    pub open spec fn lifetime_onto(l: Laid, base_indent: Alignment, lifetime: Option<Token>)
        -> Laid {
        match lifetime {
            Some(t) => l.token(t.loc, base_indent, t.text@).text(SegmentMode::All, " "@),
            None => l,
        }
    }

    /// What the input says behind its attributes: a receiver its words
    /// without a space behind the `&`; the dots of a variadic function as
    /// they are; any other input its pattern, a colon and a space, and its
    /// type.
    pub open spec fn inner_text(self) -> Seq<char> {
        match self {
            FnArg::Receiver { and_loc, lifetime, mutability, .. } => text_if(
                and_loc is Some,
                "&"@,
            ) + FnArg::lifetime_text(lifetime) + text_if(mutability is Some, "mut "@) + "self"@,
            FnArg::Typed { pat, ty, .. } => pat.text() + ": "@ + ty.text(),
            FnArg::Variadic { .. } => "..."@,
        }
    }

    /// What the input says.
    pub open spec fn text(self) -> Seq<char> {
        attrs_text(self.attrs()) + self.inner_text()
    }

    /// The group for the input behind its attributes.
    pub open spec fn inner_built(self, gaps: Seq<Gap>, base_indent: Alignment) -> Built {
        let start = Laid::start(gaps);
        match self {
            FnArg::Receiver { and_loc, lifetime, mutability, self_loc, .. } => {
                FnArg::lifetime_onto(
                    start.keyword(and_loc, base_indent, "&"@),
                    base_indent,
                    lifetime,
                ).keyword(mutability, base_indent, "mut "@).token(
                    self_loc,
                    base_indent,
                    "self"@,
                ).built(false)
            },
            FnArg::Typed { pat, colon_loc, ty, .. } => ty.laid_onto(
                pat.laid_onto(start, base_indent).token(colon_loc, base_indent, ": "@),
                base_indent,
            ).built(false),
            FnArg::Variadic { dots_loc, .. } => start.token(dots_loc, base_indent, "..."@).built(
                false,
            ),
        }
    }

    /// The group for the input.
    pub open spec fn built(self, gaps: Seq<Gap>, base_indent: Alignment, split_attributes: bool)
        -> Built {
        let attrs = attrs_laid(gaps, base_indent, self.attrs());
        with_attributes(
            attrs,
            self.attrs().len(),
            self.inner_built(attrs.gaps, base_indent),
            split_attributes,
        )
    }

    /// Adds the lifetime of a receiver with the space behind it, if there
    /// is one.
    fn append_lifetime(
        out: &mut MakeSegsState,
        base_indent: &Alignment,
        sg: &mut SplitGroupBuilder,
        lifetime: &Option<Token>,
    )
        requires
            old(out).wf(),
            old(sg).wf(old(out)),
        ensures
            *final(sg) == *old(sg),
            said(old(out), final(out), *old(sg), FnArg::lifetime_text(*lifetime)),
            final(out).doc(old(sg).node).split == old(out).doc(old(sg).node).split,
            laid(final(out), old(sg).node) == FnArg::lifetime_onto(
                laid(old(out), old(sg).node),
                *base_indent,
                *lifetime,
            ),
    {
        match lifetime {
            Some(t) => {
                append_token(out, base_indent, sg, t.loc, t.text.as_str());
                sg.seg(out, " ");
                proof {
                    lemma_join_assoc(code_text(old(out).doc(sg.node)), t.text@, " "@);
                }
            },
            None => {
                assert(code_text(out.doc(sg.node)) + FnArg::lifetime_text(*lifetime) =~= code_text(
                    out.doc(sg.node),
                ));
            },
        }
    }

    /// A finished group for the input behind its attributes.
    fn inner_segs(&self, out: &mut MakeSegsState, base_indent: &Alignment) -> (idx: SplitGroupIdx)
        requires
            old(out).wf(),
        ensures
            made(old(out), final(out), idx, self.inner_text()),
            built_as(final(out), idx, self.inner_built(old(out).whitespaces@, *base_indent)),
    {
        let mut sg = new_sg(out);
        assert(laid(out, sg.node) =~= Laid::start(old(out).whitespaces@));
        match self {
            FnArg::Receiver { and_loc, lifetime, mutability, self_loc, .. } => {
                append_keyword(out, base_indent, &mut sg, *and_loc, "&");
                FnArg::append_lifetime(out, base_indent, &mut sg, lifetime);
                append_keyword(out, base_indent, &mut sg, *mutability, "mut ");
                append_token(out, base_indent, &mut sg, *self_loc, "self");
                assert(code_text(out.doc(sg.node)) =~= self.inner_text());
            },
            FnArg::Typed { pat, colon_loc, ty, .. } => {
                pat.append(out, base_indent, &mut sg);
                append_token(out, base_indent, &mut sg, *colon_loc, ": ");
                ty.append(out, base_indent, &mut sg);
                assert(code_text(out.doc(sg.node)) =~= self.inner_text());
            },
            FnArg::Variadic { dots_loc, .. } => {
                append_token(out, base_indent, &mut sg, *dots_loc, "...");
                assert(code_text(out.doc(sg.node)) =~= self.inner_text());
            },
        }
        sg.build(out)
    }

    /// A finished group for the input: its attributes, and then a receiver
    /// with its words, or a pattern with its type behind a colon and a
    /// space.
    pub fn make_segs(&self, out: &mut MakeSegsState, base_indent: &Alignment) -> (idx:
        SplitGroupIdx)
        requires
            old(out).wf(),
        ensures
            made(old(out), final(out), idx, self.text()),
            built_as(
                final(out),
                idx,
                self.built(old(out).whitespaces@, *base_indent, old(out).config.split_attributes),
            ),
    {
        match self {
            FnArg::Receiver { attrs, .. } | FnArg::Typed { attrs, .. } | FnArg::Variadic {
                attrs,
                ..
            } => {
                let wrap = start_outer_attrs(out, base_indent, attrs);
                let ghost mid = *out;
                let inner = self.inner_segs(out, base_indent);
                finish_attrs(
                    out,
                    wrap,
                    inner,
                    attrs,
                    Ghost(*base_indent),
                    Ghost(*old(out)),
                    Ghost(mid),
                )
            },
        }
    }

    /// Whether the input has attributes.
    pub fn has_attrs(&self) -> (b: bool)
        ensures
            b == (self.attrs().len() > 0),
    {
        match self {
            FnArg::Receiver { attrs, .. } => attrs.len() > 0,
            FnArg::Typed { attrs, .. } => attrs.len() > 0,
            FnArg::Variadic { attrs, .. } => attrs.len() > 0,
        }
    }
}

/// The groups for the first `n` inputs of a list, built one after the
/// other and laid out at `indent`.
pub open spec fn args_built(
    args: Seq<Pair<FnArg>>,
    gaps: Seq<Gap>,
    indent: Alignment,
    split_attributes: bool,
    n: nat,
) -> BuiltAll
    decreases n,
{
    if n == 0 {
        BuiltAll::none(gaps)
    } else {
        let before = args_built(args, gaps, indent, split_attributes, (n - 1) as nat);
        before.and(args[n - 1].value.built(before.gaps, indent, split_attributes))
    }
}

/// What each input of a list says.
pub open spec fn arg_texts(args: Seq<Pair<FnArg>>) -> Seq<Seq<char>> {
    Seq::new(args.len(), |i: int| args[i].value.text())
}

/// A finished group for each input of `args`, laid out at `indent`, for a
/// list of the group of `sg`.
fn build_args(
    out: &mut MakeSegsState,
    indent: &Alignment,
    sg: &SplitGroupBuilder,
    args: &Vec<Pair<FnArg>>,
) -> (items: Vec<ListItem>)
    requires
        old(out).wf(),
        sg.wf(old(out)),
    ensures
        final(out).wf(),
        sg.wf(final(out)),
        final(out).extends(old(out)),
        items.len() == args.len(),
        all_finished(final(out), sg.node, item_groups(items@)),
        group_texts(final(out), item_groups(items@)) == arg_texts(args@),
        item_puncts(items@) == pair_puncts(args@),
        final(out).doc(sg.node) == old(out).doc(sg.node),
        group_docs(final(out), item_groups(items@)) == args_built(
            args@,
            old(out).whitespaces@,
            *indent,
            old(out).config.split_attributes,
            args@.len(),
        ).docs,
        final(out).whitespaces@ == args_built(
            args@,
            old(out).whitespaces@,
            *indent,
            old(out).config.split_attributes,
            args@.len(),
        ).gaps,
        final(out).loose() == old(out).loose() + args@.len(),
{
    let mut items: Vec<ListItem> = Vec::new();
    let mut i: usize = 0;
    assert(group_texts(out, item_groups(items@)) =~= arg_texts(args@.take(0)));
    assert(group_docs(out, item_groups(items@)) =~= Seq::<Doc>::empty());
    while i < args.len()
        invariant
            out.loose() == old(out).loose() + i,
            i <= args.len(),
            items.len() == i,
            out.wf(),
            sg.wf(out),
            out.extends(old(out)),
            all_finished(out, sg.node, item_groups(items@)),
            group_texts(out, item_groups(items@)) == arg_texts(args@.take(i as int)),
            forall|j: int| 0 <= j < items.len() ==> (#[trigger] items[j]).punct == args[j].punct,
            out.doc(sg.node) == old(out).doc(sg.node),
            group_docs(out, item_groups(items@)) == args_built(
                args@,
                old(out).whitespaces@,
                *indent,
                old(out).config.split_attributes,
                i as nat,
            ).docs,
            out.whitespaces@ == args_built(
                args@,
                old(out).whitespaces@,
                *indent,
                old(out).config.split_attributes,
                i as nat,
            ).gaps,
        decreases args.len() - i,
    {
        let ghost before = *out;
        let ghost groups = item_groups(items@);
        let child = args[i].value.make_segs(out, indent);
        items.push(ListItem { group: child, punct: args[i].punct });
        proof {
            assert(item_groups(items@) =~= groups.push(child));
            lemma_push_finished(&before, out, sg.node, groups, child);
            assert(out.nodes[sg.node.0 as int] == before.nodes[sg.node.0 as int]);
            assert(out.doc(sg.node) == before.doc(sg.node));
            crate::arena::lemma_grown_trans(out.nodes@, before.nodes@, old(out).nodes@);
            crate::arena::lemma_grown_trans(out.nodes@, before.nodes@, sg.start@);
            assert(arg_texts(args@.take(i + 1)) =~= arg_texts(args@.take(i as int)).push(
                args@[i as int].value.text(),
            ));
        }
        i += 1;
    }
    assert(args@.take(i as int) =~= args@);
    assert(item_puncts(items@) =~= pair_puncts(args@));
    items
}

impl Field {
    /// What the field says behind its attributes.
    pub open spec fn inner_text(self) -> Seq<char> {
        self.vis.text() + (match self.ident {
            Some(n) => n.text@ + ": "@,
            None => Seq::empty(),
        }) + self.ty.text()
    }

    /// What the field says.
    pub open spec fn text(self) -> Seq<char> {
        attrs_text(self.attrs@) + self.inner_text()
    }

    /// The name of the field and its colon have become entries, if it has
    /// a name.
    pub open spec fn name_onto(self, l: Laid, base_indent: Alignment) -> Laid {
        match self.ident {
            Some(n) => l.token(n.loc, base_indent, n.text@).token(
                self.colon_loc,
                base_indent,
                ": "@,
            ),
            None => l,
        }
    }

    /// The group for the field behind its attributes.
    pub open spec fn inner_built(self, gaps: Seq<Gap>, base_indent: Alignment) -> Built {
        self.ty.laid_onto(
            self.name_onto(self.vis.onto(Laid::start(gaps), base_indent), base_indent),
            base_indent,
        ).built(false)
    }

    /// The group for the field.
    pub open spec fn built(self, gaps: Seq<Gap>, base_indent: Alignment, split_attributes: bool)
        -> Built {
        let attrs = attrs_laid(gaps, base_indent, self.attrs@);
        with_attributes(
            attrs,
            self.attrs@.len(),
            self.inner_built(attrs.gaps, base_indent),
            split_attributes,
        )
    }

    /// A finished group for the field behind its attributes.
    fn inner_segs(&self, out: &mut MakeSegsState, base_indent: &Alignment) -> (idx: SplitGroupIdx)
        requires
            old(out).wf(),
        ensures
            made(old(out), final(out), idx, self.inner_text()),
            built_as(final(out), idx, self.inner_built(old(out).whitespaces@, *base_indent)),
    {
        let mut sg = new_sg(out);
        assert(laid(out, sg.node) =~= Laid::start(old(out).whitespaces@));
        append_vis(out, base_indent, &mut sg, &self.vis);
        let ghost l1 = laid(out, sg.node);
        match &self.ident {
            Some(n) => {
                append_token(out, base_indent, &mut sg, n.loc, n.text.as_str());
                append_token(out, base_indent, &mut sg, self.colon_loc, ": ");
            },
            None => {},
        }
        assert(sg.wf(out));
        assert(code_text(out.doc(sg.node)) =~= self.vis.text() + (match self.ident {
            Some(n) => n.text@ + ": "@,
            None => Seq::empty(),
        }));
        assert(laid(out, sg.node) == self.name_onto(l1, *base_indent));
        self.ty.append(out, base_indent, &mut sg);
        let idx = sg.build(out);
        assert(code_text(out.doc(idx)) =~= self.inner_text());
        idx
    }

    /// A finished group for the field: its attributes, its visibility, its
    /// name with a colon if it has one, and its type.
    pub fn make_segs(&self, out: &mut MakeSegsState, base_indent: &Alignment) -> (idx:
        SplitGroupIdx)
        requires
            old(out).wf(),
        ensures
            made(old(out), final(out), idx, self.text()),
            built_as(
                final(out),
                idx,
                self.built(old(out).whitespaces@, *base_indent, old(out).config.split_attributes),
            ),
    {
        let wrap = start_outer_attrs(out, base_indent, &self.attrs);
        let ghost mid = *out;
        let inner = self.inner_segs(out, base_indent);
        finish_attrs(
            out,
            wrap,
            inner,
            &self.attrs,
            Ghost(*base_indent),
            Ghost(*old(out)),
            Ghost(mid),
        )
    }

    /// Whether the field has attributes.
    pub fn has_attrs(&self) -> (b: bool)
        ensures
            b == (self.attrs@.len() > 0),
    {
        self.attrs.len() > 0
    }
}

/// The groups for the first `n` fields of a list, built one after the
/// other and laid out at `indent`.
pub open spec fn fields_built(
    fields: Seq<Pair<Field>>,
    gaps: Seq<Gap>,
    indent: Alignment,
    split_attributes: bool,
    n: nat,
) -> BuiltAll
    decreases n,
{
    if n == 0 {
        BuiltAll::none(gaps)
    } else {
        let before = fields_built(fields, gaps, indent, split_attributes, (n - 1) as nat);
        before.and(fields[n - 1].value.built(before.gaps, indent, split_attributes))
    }
}

/// A list of fields in brackets has become entries: the fields are built
/// first, one level deeper than `base_indent`, and stand as a list in which
/// a comma follows the last field while the group is split. With `space`
/// set a space that shows on one line stands inside the brackets at each
/// end, unless there is no field.
pub open spec fn fields_onto(
    l: Laid,
    base_indent: Alignment,
    prefix_start: LineColumn,
    prefix: Seq<char>,
    space: bool,
    fields: Seq<Pair<Field>>,
    suffix_start: LineColumn,
    suffix: Seq<char>,
    split_attributes: bool,
) -> Laid {
    let all = fields_built(fields, l.gaps, base_indent.deeper(), split_attributes, fields.len());
    l.with_gaps(all.gaps).bracketed_list(
        base_indent,
        prefix_start,
        prefix,
        space && fields.len() > 0,
        ","@,
        pair_puncts(fields),
        all.docs,
        true,
        suffix_start,
        suffix,
    )
}

/// What each field of a list says.
pub open spec fn field_texts(fields: Seq<Pair<Field>>) -> Seq<Seq<char>> {
    Seq::new(fields.len(), |i: int| fields[i].value.text())
}

/// A finished group for each field of `fields`, laid out at `indent`, for a
/// list of the group of `sg`.
fn build_fields(
    out: &mut MakeSegsState,
    indent: &Alignment,
    sg: &SplitGroupBuilder,
    fields: &Vec<Pair<Field>>,
) -> (items: Vec<ListItem>)
    requires
        old(out).wf(),
        sg.wf(old(out)),
    ensures
        final(out).wf(),
        sg.wf(final(out)),
        final(out).extends(old(out)),
        items.len() == fields.len(),
        all_finished(final(out), sg.node, item_groups(items@)),
        group_texts(final(out), item_groups(items@)) == field_texts(fields@),
        item_puncts(items@) == pair_puncts(fields@),
        final(out).doc(sg.node) == old(out).doc(sg.node),
        group_docs(final(out), item_groups(items@)) == fields_built(
            fields@,
            old(out).whitespaces@,
            *indent,
            old(out).config.split_attributes,
            fields@.len(),
        ).docs,
        final(out).whitespaces@ == fields_built(
            fields@,
            old(out).whitespaces@,
            *indent,
            old(out).config.split_attributes,
            fields@.len(),
        ).gaps,
        final(out).loose() == old(out).loose() + fields@.len(),
{
    let mut items: Vec<ListItem> = Vec::new();
    let mut i: usize = 0;
    assert(group_texts(out, item_groups(items@)) =~= field_texts(fields@.take(0)));
    assert(group_docs(out, item_groups(items@)) =~= Seq::<Doc>::empty());
    while i < fields.len()
        invariant
            out.loose() == old(out).loose() + i,
            i <= fields.len(),
            items.len() == i,
            out.wf(),
            sg.wf(out),
            out.extends(old(out)),
            all_finished(out, sg.node, item_groups(items@)),
            group_texts(out, item_groups(items@)) == field_texts(fields@.take(i as int)),
            forall|j: int| 0 <= j < items.len() ==> (#[trigger] items[j]).punct == fields[j].punct,
            out.doc(sg.node) == old(out).doc(sg.node),
            group_docs(out, item_groups(items@)) == fields_built(
                fields@,
                old(out).whitespaces@,
                *indent,
                old(out).config.split_attributes,
                i as nat,
            ).docs,
            out.whitespaces@ == fields_built(
                fields@,
                old(out).whitespaces@,
                *indent,
                old(out).config.split_attributes,
                i as nat,
            ).gaps,
        decreases fields.len() - i,
    {
        let ghost before = *out;
        let ghost groups = item_groups(items@);
        let child = fields[i].value.make_segs(out, indent);
        items.push(ListItem { group: child, punct: fields[i].punct });
        proof {
            assert(item_groups(items@) =~= groups.push(child));
            lemma_push_finished(&before, out, sg.node, groups, child);
            assert(out.nodes[sg.node.0 as int] == before.nodes[sg.node.0 as int]);
            assert(out.doc(sg.node) == before.doc(sg.node));
            crate::arena::lemma_grown_trans(out.nodes@, before.nodes@, old(out).nodes@);
            crate::arena::lemma_grown_trans(out.nodes@, before.nodes@, sg.start@);
            assert(field_texts(fields@.take(i + 1)) =~= field_texts(fields@.take(i as int)).push(
                fields@[i as int].value.text(),
            ));
        }
        i += 1;
    }
    assert(fields@.take(i as int) =~= fields@);
    assert(item_puncts(items@) =~= pair_puncts(fields@));
    items
}

/// Adds a list of fields in brackets, each field followed by a comma while
/// the group is split: see [`append_bracketed_list`].
fn append_fields(
    out: &mut MakeSegsState,
    base_indent: &Alignment,
    sg: &mut SplitGroupBuilder,
    prefix_start: LineColumn,
    prefix: &str,
    bracket_space: bool,
    fields: &Vec<Pair<Field>>,
    suffix_start: LineColumn,
    suffix: &str,
)
    requires
        old(out).wf(),
        old(sg).wf(old(out)),
    ensures
        *final(sg) == *old(sg),
        said(
            old(out),
            final(out),
            *old(sg),
            bracketed(prefix@, bracket_space, field_texts(fields@), ","@, suffix@),
        ),
        final(out).doc(old(sg).node).split == old(out).doc(old(sg).node).split,
        laid(final(out), old(sg).node) == fields_onto(
            laid(old(out), old(sg).node),
            *base_indent,
            prefix_start,
            prefix@,
            bracket_space,
            fields@,
            suffix_start,
            suffix@,
            old(out).config.split_attributes,
        ),
{
    let items = build_fields(out, &base_indent.indent(), sg, fields);
    assert(code_text(out.doc(sg.node)) == code_text(old(out).doc(sg.node)));
    assert(laid(out, sg.node) == laid(old(out), sg.node).with_gaps(out.whitespaces@));
    append_bracketed_list(
        out,
        base_indent,
        sg,
        prefix_start,
        prefix,
        bracket_space,
        ",",
        &items,
        true,
        suffix_start,
        suffix,
    );
}

/// Adds fields in braces.
pub fn append_bracketed_list_curly(
    out: &mut MakeSegsState,
    base_indent: &Alignment,
    sg: &mut SplitGroupBuilder,
    prefix_start: LineColumn,
    fields: &Vec<Pair<Field>>,
    suffix_start: LineColumn,
)
    requires
        old(out).wf(),
        old(sg).wf(old(out)),
    ensures
        *final(sg) == *old(sg),
        said(
            old(out),
            final(out),
            *old(sg),
            bracketed(" {"@, true, field_texts(fields@), ","@, "}"@),
        ),
        final(out).doc(old(sg).node).split == old(out).doc(old(sg).node).split,
        laid(final(out), old(sg).node) == fields_onto(
            laid(old(out), old(sg).node),
            *base_indent,
            prefix_start,
            " {"@,
            true,
            fields@,
            suffix_start,
            "}"@,
            old(out).config.split_attributes,
        ),
{
    append_fields(out, base_indent, sg, prefix_start, " {", true, fields, suffix_start, "}");
}

/// Adds fields in parentheses.
pub fn append_bracketed_list_common(
    out: &mut MakeSegsState,
    base_indent: &Alignment,
    sg: &mut SplitGroupBuilder,
    prefix_start: LineColumn,
    fields: &Vec<Pair<Field>>,
    suffix_start: LineColumn,
)
    requires
        old(out).wf(),
        old(sg).wf(old(out)),
    ensures
        *final(sg) == *old(sg),
        said(
            old(out),
            final(out),
            *old(sg),
            bracketed("("@, false, field_texts(fields@), ","@, ")"@),
        ),
        final(out).doc(old(sg).node).split == old(out).doc(old(sg).node).split,
        laid(final(out), old(sg).node) == fields_onto(
            laid(old(out), old(sg).node),
            *base_indent,
            prefix_start,
            "("@,
            false,
            fields@,
            suffix_start,
            ")"@,
            old(out).config.split_attributes,
        ),
{
    append_fields(out, base_indent, sg, prefix_start, "(", false, fields, suffix_start, ")");
}

impl Fields {
    /// What the fields say between their brackets.
    pub open spec fn text(self) -> Seq<char> {
        match self {
            Fields::Named { named, .. } => bracketed(
                " {"@,
                true,
                field_texts(named@),
                ","@,
                "}"@,
            ),
            Fields::Unnamed { unnamed, .. } => bracketed(
                "("@,
                false,
                field_texts(unnamed@),
                ","@,
                ")"@,
            ),
            Fields::Unit => Seq::empty(),
        }
    }

    /// Whether a group that holds these fields in braces is marked as one
    /// that must split: if the fields are named and the options hold a
    /// threshold that their number reaches.
    pub open spec fn marks_split(self, threshold: Option<usize>) -> bool {
        match self {
            Fields::Named { named, .. } => brace_threshold_met(threshold, named.len()),
            _ => false,
        }
    }

    /// The fields have become entries between their brackets: see
    /// [`fields_onto`].
    pub open spec fn onto(self, l: Laid, base_indent: Alignment, split_attributes: bool) -> Laid {
        match self {
            Fields::Named { brace_start, named, brace_end } => fields_onto(
                l,
                base_indent,
                brace_start,
                " {"@,
                true,
                named@,
                brace_end,
                "}"@,
                split_attributes,
            ),
            Fields::Unnamed { paren_start, unnamed, paren_end } => fields_onto(
                l,
                base_indent,
                paren_start,
                "("@,
                false,
                unnamed@,
                paren_end,
                ")"@,
                split_attributes,
            ),
            Fields::Unit => l,
        }
    }
}

impl Variant {
    /// What the discriminant says behind its equals sign, if there is one.
    pub open spec fn discriminant_text(self) -> Seq<char> {
        match self.discriminant {
            Some(e) => " ="@ + " "@ + e.1.text(),
            None => Seq::empty(),
        }
    }

    /// What the variant says behind its attributes.
    pub open spec fn inner_text(self) -> Seq<char> {
        self.ident.text@ + self.fields.text() + self.discriminant_text()
    }

    /// What the variant says.
    pub open spec fn text(self) -> Seq<char> {
        attrs_text(self.attrs@) + self.inner_text()
    }

    /// The discriminant has become entries behind its equals sign, if
    /// there is one.
    pub open spec fn discriminant_onto(self, l: Laid, base_indent: Alignment) -> Laid {
        match self.discriminant {
            Some(e) => l.gap(e.0, base_indent).binary_syntax(base_indent, " ="@, e.1),
            None => l,
        }
    }

    /// The group for the variant behind its attributes.
    pub open spec fn inner_built(self, gaps: Seq<Gap>, base_indent: Alignment, config: FormatConfig)
        -> Built {
        self.discriminant_onto(
            self.fields.onto(
                Laid::start(gaps).token(self.ident.loc, base_indent, self.ident.text@),
                base_indent,
                config.split_attributes,
            ),
            base_indent,
        ).built(self.fields.marks_split(config.split_brace_threshold))
    }

    /// The group for the variant.
    pub open spec fn built(self, gaps: Seq<Gap>, base_indent: Alignment, config: FormatConfig)
        -> Built {
        let attrs = attrs_laid(gaps, base_indent, self.attrs@);
        with_attributes(
            attrs,
            self.attrs@.len(),
            self.inner_built(attrs.gaps, base_indent, config),
            config.split_attributes,
        )
    }

    /// A finished group for the variant behind its attributes. Named fields
    /// mark the group as one that must split where the options hold a
    /// threshold that their number reaches.
    fn inner_segs(&self, out: &mut MakeSegsState, base_indent: &Alignment) -> (idx: SplitGroupIdx)
        requires
            old(out).wf(),
        ensures
            made(old(out), final(out), idx, self.inner_text()),
            final(out).doc(idx).split == self.fields.marks_split(
                old(out).config.split_brace_threshold,
            ),
            built_as(
                final(out),
                idx,
                self.inner_built(old(out).whitespaces@, *base_indent, old(out).config),
            ),
    {
        let mut sg = new_sg(out);
        assert(laid(out, sg.node) =~= Laid::start(old(out).whitespaces@));
        append_token(out, base_indent, &mut sg, self.ident.loc, self.ident.text.as_str());
        match &self.fields {
            Fields::Named { brace_start, named, brace_end } => {
                if check_split_brace_threshold(out, named.len()) {
                    sg.initial_split();
                }
                append_bracketed_list_curly(
                    out,
                    base_indent,
                    &mut sg,
                    *brace_start,
                    named,
                    *brace_end,
                );
            },
            Fields::Unnamed { paren_start, unnamed, paren_end } => {
                append_bracketed_list_common(
                    out,
                    base_indent,
                    &mut sg,
                    *paren_start,
                    unnamed,
                    *paren_end,
                );
            },
            Fields::Unit => {},
        }
        assert(sg.wf(out));
        let ghost l1 = self.fields.onto(
            Laid::start(old(out).whitespaces@).token(
                self.ident.loc,
                *base_indent,
                self.ident.text@,
            ),
            *base_indent,
            old(out).config.split_attributes,
        );
        assert(laid(out, sg.node) == l1);
        assert(sg.initial_split == self.fields.marks_split(old(out).config.split_brace_threshold));
        assert(code_text(out.doc(sg.node)) =~= self.ident.text@ + self.fields.text());
        match &self.discriminant {
            Some(e) => {
                append_whitespace(out, base_indent, &mut sg, e.0);
                append_binary_syntax(out, base_indent, &mut sg, " =", &e.1);
            },
            None => {},
        }
        assert(sg.wf(out));
        assert(code_text(out.doc(sg.node)) =~= self.inner_text());
        assert(laid(out, sg.node) == self.discriminant_onto(l1, *base_indent));
        sg.build(out)
    }

    /// A finished group for the variant: its attributes, its name, its
    /// fields and its discriminant.
    pub fn make_segs(&self, out: &mut MakeSegsState, base_indent: &Alignment) -> (idx:
        SplitGroupIdx)
        requires
            old(out).wf(),
        ensures
            made(old(out), final(out), idx, self.text()),
            self.attrs@.len() == 0 ==> final(out).doc(idx).split == self.fields.marks_split(
                old(out).config.split_brace_threshold,
            ),
            built_as(
                final(out),
                idx,
                self.built(old(out).whitespaces@, *base_indent, old(out).config),
            ),
    {
        let wrap = start_outer_attrs(out, base_indent, &self.attrs);
        let ghost mid = *out;
        let inner = self.inner_segs(out, base_indent);
        finish_attrs(
            out,
            wrap,
            inner,
            &self.attrs,
            Ghost(*base_indent),
            Ghost(*old(out)),
            Ghost(mid),
        )
    }

    /// Whether the variant has attributes.
    pub fn has_attrs(&self) -> (b: bool)
        ensures
            b == (self.attrs@.len() > 0),
    {
        self.attrs.len() > 0
    }
}

/// The groups for the first `n` variants of a list, built one after the
/// other and laid out at `indent`.
pub open spec fn variants_built(
    variants: Seq<Pair<Variant>>,
    gaps: Seq<Gap>,
    indent: Alignment,
    config: FormatConfig,
    n: nat,
) -> BuiltAll
    decreases n,
{
    if n == 0 {
        BuiltAll::none(gaps)
    } else {
        let before = variants_built(variants, gaps, indent, config, (n - 1) as nat);
        before.and(variants[n - 1].value.built(before.gaps, indent, config))
    }
}

/// The variants of an enum have become entries between their braces: the
/// variants are built first, one level deeper than `base_indent`, and stand
/// as a list in which a comma follows the last variant while the group is
/// split.
pub open spec fn variants_onto(
    l: Laid,
    base_indent: Alignment,
    prefix_start: LineColumn,
    variants: Seq<Pair<Variant>>,
    suffix_start: LineColumn,
    config: FormatConfig,
) -> Laid {
    let all = variants_built(variants, l.gaps, base_indent.deeper(), config, variants.len());
    l.with_gaps(all.gaps).bracketed_list(
        base_indent,
        prefix_start,
        " {"@,
        variants.len() > 0,
        ","@,
        pair_puncts(variants),
        all.docs,
        true,
        suffix_start,
        "}"@,
    )
}

/// What each variant of a list says.
pub open spec fn variant_texts(variants: Seq<Pair<Variant>>) -> Seq<Seq<char>> {
    Seq::new(variants.len(), |i: int| variants[i].value.text())
}

/// A finished group for each variant of `variants`, laid out at `indent`,
/// for a list of the group of `sg`.
fn build_variants(
    out: &mut MakeSegsState,
    indent: &Alignment,
    sg: &SplitGroupBuilder,
    variants: &Vec<Pair<Variant>>,
) -> (items: Vec<ListItem>)
    requires
        old(out).wf(),
        sg.wf(old(out)),
    ensures
        final(out).wf(),
        sg.wf(final(out)),
        final(out).extends(old(out)),
        items.len() == variants.len(),
        all_finished(final(out), sg.node, item_groups(items@)),
        group_texts(final(out), item_groups(items@)) == variant_texts(variants@),
        item_puncts(items@) == pair_puncts(variants@),
        final(out).doc(sg.node) == old(out).doc(sg.node),
        group_docs(final(out), item_groups(items@)) == variants_built(
            variants@,
            old(out).whitespaces@,
            *indent,
            old(out).config,
            variants@.len(),
        ).docs,
        final(out).whitespaces@ == variants_built(
            variants@,
            old(out).whitespaces@,
            *indent,
            old(out).config,
            variants@.len(),
        ).gaps,
        final(out).loose() == old(out).loose() + variants@.len(),
{
    let mut items: Vec<ListItem> = Vec::new();
    let mut i: usize = 0;
    assert(group_texts(out, item_groups(items@)) =~= variant_texts(variants@.take(0)));
    assert(group_docs(out, item_groups(items@)) =~= Seq::<Doc>::empty());
    while i < variants.len()
        invariant
            out.loose() == old(out).loose() + i,
            i <= variants.len(),
            items.len() == i,
            out.wf(),
            sg.wf(out),
            out.extends(old(out)),
            all_finished(out, sg.node, item_groups(items@)),
            group_texts(out, item_groups(items@)) == variant_texts(variants@.take(i as int)),
            forall|j: int|
                0 <= j < items.len() ==> (#[trigger] items[j]).punct == variants[j].punct,
            out.doc(sg.node) == old(out).doc(sg.node),
            group_docs(out, item_groups(items@)) == variants_built(
                variants@,
                old(out).whitespaces@,
                *indent,
                old(out).config,
                i as nat,
            ).docs,
            out.whitespaces@ == variants_built(
                variants@,
                old(out).whitespaces@,
                *indent,
                old(out).config,
                i as nat,
            ).gaps,
        decreases variants.len() - i,
    {
        let ghost before = *out;
        let ghost groups = item_groups(items@);
        let child = variants[i].value.make_segs(out, indent);
        items.push(ListItem { group: child, punct: variants[i].punct });
        proof {
            assert(item_groups(items@) =~= groups.push(child));
            lemma_push_finished(&before, out, sg.node, groups, child);
            assert(out.nodes[sg.node.0 as int] == before.nodes[sg.node.0 as int]);
            assert(out.doc(sg.node) == before.doc(sg.node));
            crate::arena::lemma_grown_trans(out.nodes@, before.nodes@, old(out).nodes@);
            crate::arena::lemma_grown_trans(out.nodes@, before.nodes@, sg.start@);
            assert(variant_texts(variants@.take(i + 1)) =~= variant_texts(
                variants@.take(i as int),
            ).push(variants@[i as int].value.text()));
        }
        i += 1;
    }
    assert(variants@.take(i as int) =~= variants@);
    assert(item_puncts(items@) =~= pair_puncts(variants@));
    items
}

/// Adds the variants of an enum in braces, each followed by a comma while
/// the group is split.
fn append_variants(
    out: &mut MakeSegsState,
    base_indent: &Alignment,
    sg: &mut SplitGroupBuilder,
    prefix_start: LineColumn,
    variants: &Vec<Pair<Variant>>,
    suffix_start: LineColumn,
)
    requires
        old(out).wf(),
        old(sg).wf(old(out)),
    ensures
        *final(sg) == *old(sg),
        said(
            old(out),
            final(out),
            *old(sg),
            bracketed(" {"@, true, variant_texts(variants@), ","@, "}"@),
        ),
        final(out).doc(old(sg).node).split == old(out).doc(old(sg).node).split,
        laid(final(out), old(sg).node) == variants_onto(
            laid(old(out), old(sg).node),
            *base_indent,
            prefix_start,
            variants@,
            suffix_start,
            old(out).config,
        ),
{
    let items = build_variants(out, &base_indent.indent(), sg, variants);
    assert(code_text(out.doc(sg.node)) == code_text(old(out).doc(sg.node)));
    assert(laid(out, sg.node) == laid(old(out), sg.node).with_gaps(out.whitespaces@));
    append_bracketed_list(
        out,
        base_indent,
        sg,
        prefix_start,
        " {",
        true,
        ",",
        &items,
        true,
        suffix_start,
        "}",
    );
}

impl UseTree {
    /// What the tree says.
    pub open spec fn text(self) -> Seq<char>
        decreases self,
    {
        match self {
            UseTree::Path { ident, tree, .. } => ident.text@ + "::"@ + tree.text(),
            UseTree::Name { ident } => ident.text@,
            UseTree::Rename { ident, rename, .. } => ident.text@ + " as "@ + rename.text@,
            UseTree::Glob { .. } => "*"@,
            UseTree::Group { items, .. } => bracketed(
                "{"@,
                true,
                UseTree::texts(items@),
                ","@,
                "}"@,
            ),
        }
    }

    /// What each tree of a list says.
    pub open spec fn texts(items: Seq<Pair<UseTree>>) -> Seq<Seq<char>>
        decreases items,
    {
        if items.len() == 0 {
            Seq::empty()
        } else {
            UseTree::texts(items.drop_last()).push(items.last().value.text())
        }
    }

    /// Whether the group of the tree is marked as one that must split: if
    /// the tree is a list in braces and the options hold a threshold that
    /// the number of its elements reaches.
    pub open spec fn marks_split(self, threshold: Option<usize>) -> bool {
        match self {
            UseTree::Group { items, .. } => brace_threshold_met(threshold, items.len()),
            _ => false,
        }
    }

    /// The group for the tree, laid out at `base_indent`: a path its first
    /// name, the colons and a nested group for the rest; a list in braces a
    /// list of nested groups, one level deeper, in which a comma follows
    /// the last tree while the group is split.
    pub open spec fn built(
        self,
        gaps: Seq<Gap>,
        base_indent: Alignment,
        threshold: Option<usize>,
    ) -> Built
        decreases self,
    {
        match self {
            UseTree::Path { ident, colons_loc, tree } => {
                let head = Laid::start(gaps).token(ident.loc, base_indent, ident.text@).token(
                    colons_loc,
                    base_indent,
                    "::"@,
                );
                head.child_built(tree.built(head.gaps, base_indent, threshold)).built(false)
            },
            UseTree::Name { ident } => Laid::start(gaps).token(
                ident.loc,
                base_indent,
                ident.text@,
            ).built(false),
            UseTree::Rename { ident, as_loc, rename } => Laid::start(gaps).gap(
                ident.loc,
                base_indent,
            ).gap(as_loc, base_indent).gap(rename.loc, base_indent).text(
                SegmentMode::All,
                ident.text@,
            ).text(SegmentMode::All, " as "@).text(
                SegmentMode::All,
                rename.text@,
            ).built(false),
            UseTree::Glob { star_loc } => Laid::start(gaps).token(
                star_loc,
                base_indent,
                "*"@,
            ).built(false),
            UseTree::Group { brace_start, items, brace_end } => {
                let all = UseTree::all_built(items@, gaps, base_indent.deeper(), threshold);
                Laid::start(all.gaps).bracketed_list(
                    base_indent,
                    brace_start,
                    "{"@,
                    items@.len() > 0,
                    ","@,
                    pair_puncts(items@),
                    all.docs,
                    true,
                    brace_end,
                    "}"@,
                ).built(brace_threshold_met(threshold, items.len()))
            },
        }
    }

    /// The groups for the trees of a list, built one after the other and
    /// laid out at `indent`.
    pub open spec fn all_built(
        items: Seq<Pair<UseTree>>,
        gaps: Seq<Gap>,
        indent: Alignment,
        threshold: Option<usize>,
    ) -> BuiltAll
        decreases items,
    {
        if items.len() == 0 {
            BuiltAll::none(gaps)
        } else {
            let before = UseTree::all_built(items.drop_last(), gaps, indent, threshold);
            before.and(items.last().value.built(before.gaps, indent, threshold))
        }
    }

    /// The tree has become an entry, as a group of its own.
    pub open spec fn nested_onto(self, l: Laid, base_indent: Alignment, threshold: Option<usize>)
        -> Laid {
        l.child_built(self.built(l.gaps, base_indent, threshold))
    }

    /// A finished group for each tree of `items`, laid out at `indent`, for
    /// a list of the group of `sg`.
    fn build_items(
        out: &mut MakeSegsState,
        indent: &Alignment,
        sg: &SplitGroupBuilder,
        items: &Vec<Pair<UseTree>>,
    ) -> (list: Vec<ListItem>)
        requires
            old(out).wf(),
            sg.wf(old(out)),
        ensures
            final(out).wf(),
            sg.wf(final(out)),
            final(out).extends(old(out)),
            list.len() == items.len(),
            all_finished(final(out), sg.node, item_groups(list@)),
            group_texts(final(out), item_groups(list@)) == UseTree::texts(items@),
            item_puncts(list@) == pair_puncts(items@),
            final(out).doc(sg.node) == old(out).doc(sg.node),
            group_docs(final(out), item_groups(list@)) == UseTree::all_built(
                items@,
                old(out).whitespaces@,
                *indent,
                old(out).config.split_brace_threshold,
            ).docs,
            final(out).whitespaces@ == UseTree::all_built(
                items@,
                old(out).whitespaces@,
                *indent,
                old(out).config.split_brace_threshold,
            ).gaps,
            final(out).loose() == old(out).loose() + items@.len(),
        decreases items,
    {
        let mut list: Vec<ListItem> = Vec::new();
        let mut i: usize = 0;
        assert(group_texts(out, item_groups(list@)) =~= UseTree::texts(items@.take(0)));
        assert(group_docs(out, item_groups(list@)) =~= Seq::<Doc>::empty());
        while i < items.len()
            invariant
                out.loose() == old(out).loose() + i,
                i <= items.len(),
                list.len() == i,
                out.wf(),
                sg.wf(out),
                out.extends(old(out)),
                all_finished(out, sg.node, item_groups(list@)),
                group_texts(out, item_groups(list@)) == UseTree::texts(items@.take(i as int)),
                forall|j: int| 0 <= j < list.len() ==> (#[trigger] list[j]).punct == items[j].punct,
                out.doc(sg.node) == old(out).doc(sg.node),
                group_docs(out, item_groups(list@)) == UseTree::all_built(
                    items@.take(i as int),
                    old(out).whitespaces@,
                    *indent,
                    old(out).config.split_brace_threshold,
                ).docs,
                out.whitespaces@ == UseTree::all_built(
                    items@.take(i as int),
                    old(out).whitespaces@,
                    *indent,
                    old(out).config.split_brace_threshold,
                ).gaps,
            decreases items.len() - i,
        {
            let ghost before = *out;
            let ghost groups = item_groups(list@);
            proof {
                assert(decreases_to!(items => items@));
                assert(decreases_to!(items@ => items@[i as int]));
                assert(decreases_to!(items@[i as int] => items@[i as int].value));
            }
            let child = items[i].value.make_segs(out, indent);
            list.push(ListItem { group: child, punct: items[i].punct });
            proof {
                assert(item_groups(list@) =~= groups.push(child));
                lemma_push_finished(&before, out, sg.node, groups, child);
                assert(out.nodes[sg.node.0 as int] == before.nodes[sg.node.0 as int]);
                assert(out.doc(sg.node) == before.doc(sg.node));
                crate::arena::lemma_grown_trans(out.nodes@, before.nodes@, old(out).nodes@);
                crate::arena::lemma_grown_trans(out.nodes@, before.nodes@, sg.start@);
                assert(items@.take(i + 1).drop_last() =~= items@.take(i as int));
                assert(items@.take(i + 1).last() == items@[i as int]);
            }
            i += 1;
        }
        assert(items@.take(i as int) =~= items@);
        assert(item_puncts(list@) =~= pair_puncts(items@));
        list
    }

    /// A finished group for the tree. A list in braces marks the group as
    /// one that must split where the options hold a threshold that the
    /// number of its elements reaches.
    pub fn make_segs(&self, out: &mut MakeSegsState, base_indent: &Alignment) -> (idx:
        SplitGroupIdx)
        requires
            old(out).wf(),
        ensures
            made(old(out), final(out), idx, self.text()),
            final(out).doc(idx).split == self.marks_split(old(out).config.split_brace_threshold),
            built_as(
                final(out),
                idx,
                self.built(
                    old(out).whitespaces@,
                    *base_indent,
                    old(out).config.split_brace_threshold,
                ),
            ),
        decreases self,
    {
        let mut sg = new_sg(out);
        assert(laid(out, sg.node) =~= Laid::start(old(out).whitespaces@));
        match self {
            UseTree::Path { ident, colons_loc, tree } => {
                append_token(out, base_indent, &mut sg, ident.loc, ident.text.as_str());
                append_token(out, base_indent, &mut sg, *colons_loc, "::");
                let ghost before = code_text(out.doc(sg.node));
                let ghost head = *out;
                let child = tree.make_segs(out, base_indent);
                assert(sg.wf(out));
                assert(out.nodes[sg.node.0 as int] == head.nodes[sg.node.0 as int]);
                assert(out.doc(sg.node) == head.doc(sg.node));
                assert(code_text(out.doc(sg.node)) == before);
                sg.child(out, child);
                assert(code_text(out.doc(sg.node)) =~= self.text());
            },
            UseTree::Name { ident } => {
                append_token(out, base_indent, &mut sg, ident.loc, ident.text.as_str());
                assert(code_text(out.doc(sg.node)) =~= self.text());
            },
            UseTree::Rename { ident, as_loc, rename } => {
                append_whitespace(out, base_indent, &mut sg, ident.loc);
                append_whitespace(out, base_indent, &mut sg, *as_loc);
                append_whitespace(out, base_indent, &mut sg, rename.loc);
                sg.seg(out, ident.text.as_str());
                sg.seg(out, " as ");
                sg.seg(out, rename.text.as_str());
                assert(code_text(out.doc(sg.node)) =~= self.text());
            },
            UseTree::Glob { star_loc } => {
                append_token(out, base_indent, &mut sg, *star_loc, "*");
                assert(code_text(out.doc(sg.node)) =~= self.text());
            },
            UseTree::Group { brace_start, items, brace_end } => {
                if check_split_brace_threshold(out, items.len()) {
                    sg.initial_split();
                }
                let list = UseTree::build_items(out, &base_indent.indent(), &sg, items);
                assert(code_text(out.doc(sg.node)) == Seq::<char>::empty());
                assert(laid(out, sg.node) =~= Laid::start(out.whitespaces@));
                append_bracketed_list(
                    out,
                    base_indent,
                    &mut sg,
                    *brace_start,
                    "{",
                    true,
                    ",",
                    &list,
                    true,
                    *brace_end,
                    "}",
                );
                assert(code_text(out.doc(sg.node)) =~= self.text());
            },
        }
        assert(sg.wf(out));
        assert(sg.initial_split == self.marks_split(old(out).config.split_brace_threshold));
        sg.build(out)
    }

    /// A use tree has no attributes.
    pub fn has_attrs(&self) -> (b: bool)
        ensures
            !b,
    {
        false
    }
}


impl Signature {
    /// The signature has become an entry, as a group of its own.
    pub open spec fn nested_onto(self, l: Laid, base_indent: Alignment, config: FormatConfig)
        -> Laid {
        l.child_built(self.built(l.gaps, base_indent, config))
    }
}

impl Macro {
    /// The macro call has become an entry, as a group of its own.
    pub open spec fn nested_onto(
        self,
        l: Laid,
        base_indent: Alignment,
        semi: Option<LineColumn>,
    ) -> Laid {
        l.child_built(self.built(semi, l.gaps, base_indent))
    }
}

/// Adds a signature as a group of its own.
fn append_sig(
    out: &mut MakeSegsState,
    base_indent: &Alignment,
    sg: &mut SplitGroupBuilder,
    sig: &Signature,
)
    requires
        old(out).wf(),
        old(sg).wf(old(out)),
    ensures
        *final(sg) == *old(sg),
        said(old(out), final(out), *old(sg), sig.text()),
        final(out).doc(old(sg).node).split == old(out).doc(old(sg).node).split,
        laid(final(out), old(sg).node) == sig.nested_onto(
            laid(old(out), old(sg).node),
            *base_indent,
            old(out).config,
        ),
{
    let child = new_sg_sig(out, base_indent, sig);
    assert(sg.wf(out));
    assert(out.nodes[sg.node.0 as int] == old(out).nodes[sg.node.0 as int]);
    assert(out.doc(sg.node) == old(out).doc(sg.node));
    sg.child(out, child);
}

/// Adds a macro call as a group of its own.
fn append_macro(
    out: &mut MakeSegsState,
    base_indent: &Alignment,
    sg: &mut SplitGroupBuilder,
    mac: &Macro,
    semi: Option<LineColumn>,
)
    requires
        old(out).wf(),
        old(sg).wf(old(out)),
    ensures
        *final(sg) == *old(sg),
        said(old(out), final(out), *old(sg), macro_text(*mac, semi)),
        final(out).doc(old(sg).node).split == old(out).doc(old(sg).node).split,
        laid(final(out), old(sg).node) == mac.nested_onto(
            laid(old(out), old(sg).node),
            *base_indent,
            semi,
        ),
{
    let child = new_sg_macro(out, base_indent, mac, semi);
    assert(sg.wf(out));
    assert(out.nodes[sg.node.0 as int] == old(out).nodes[sg.node.0 as int]);
    assert(out.doc(sg.node) == old(out).doc(sg.node));
    sg.child(out, child);
}

/// No attributes.
pub open spec fn no_attrs() -> Seq<Syntax> {
    Seq::empty()
}

impl ForeignItem {
    /// The attributes of the item.
    pub open spec fn attrs(self) -> Seq<Syntax> {
        match self {
            ForeignItem::Fn { attrs, .. } => attrs@,
            ForeignItem::Static { attrs, .. } => attrs@,
            ForeignItem::Type { attrs, .. } => attrs@,
            ForeignItem::Macro { attrs, .. } => attrs@,
            ForeignItem::Verbatim(_) | ForeignItem::InnerAttr(_) => no_attrs(),
        }
    }

    /// What the item says behind its attributes.
    pub open spec fn inner_text(self) -> Seq<char> {
        match self {
            ForeignItem::Fn { vis, sig, .. } => vis.text() + sig.text() + ";"@,
            ForeignItem::Static { vis, mutability, ident, ty, .. } => vis.text() + "static "@
                + text_if(mutability is Some, "mut "@) + ident.text@ + ":"@ + " "@ + ty.text() + ";"@,
            ForeignItem::Type { vis, ident, .. } => vis.text() + "type "@ + ident.text@ + ";"@,
            ForeignItem::Macro { mac, semi, .. } => macro_text(mac, semi),
            ForeignItem::Verbatim(x) | ForeignItem::InnerAttr(x) => x.text(),
        }
    }

    /// What the item says.
    pub open spec fn text(self) -> Seq<char> {
        attrs_text(self.attrs()) + self.inner_text()
    }

    /// What each of a list says.
    pub open spec fn texts(list: Seq<ForeignItem>) -> Seq<Seq<char>>
        decreases list,
    {
        if list.len() == 0 {
            Seq::empty()
        } else {
            ForeignItem::texts(list.drop_last()).push(list.last().text())
        }
    }

    /// What the item asks for in the way of spacing: nothing special,
    /// but for an attribute of the block.
    pub open spec fn margin(self) -> Margin {
        match self {
            ForeignItem::InnerAttr(_) => (MarginGroup::Attr, false),
            _ => (MarginGroup::Plain, false),
        }
    }

    /// What each of a list asks for in the way of spacing.
    pub open spec fn margins(list: Seq<ForeignItem>) -> Seq<Margin> {
        Seq::new(list.len(), |i: int| list[i].margin())
    }

    /// The group for the item behind its attributes.
    pub open spec fn inner_built(self, gaps: Seq<Gap>, base_indent: Alignment, config: FormatConfig)
        -> Built {
        let start = Laid::start(gaps);
        match self {
            ForeignItem::Fn { vis, sig, semi_loc, .. } => sig.nested_onto(
                vis.onto(start, base_indent),
                base_indent,
                config,
            ).token(semi_loc, base_indent, ";"@).built(false),
            ForeignItem::Static {
                colon_loc,
                vis,
                static_loc,
                mutability,
                ident,
                ty,
                semi_loc,
                ..
            } => vis.onto(start.gap(static_loc, base_indent), base_indent).gap_if(
                mutability,
                base_indent,
            ).text(SegmentMode::All, "static "@).text_when(mutability is Some, "mut "@).token(
                ident.loc,
                base_indent,
                ident.text@,
            ).gap(colon_loc, base_indent).binary_syntax(base_indent, ":"@, ty).token(
                semi_loc,
                base_indent,
                ";"@,
            ).built(false),
            ForeignItem::Type { vis, type_loc, ident, semi_loc, .. } => vis.onto(
                start,
                base_indent,
            ).token(type_loc, base_indent, "type "@).token(ident.loc, base_indent, ident.text@).token(
                semi_loc,
                base_indent,
                ";"@,
            ).built(false),
            ForeignItem::Macro { mac, semi, .. } => mac.nested_onto(start, base_indent, semi).built(
                false,
            ),
            ForeignItem::Verbatim(x) | ForeignItem::InnerAttr(x) => x.laid_onto(
                start,
                base_indent,
            ).built(false),
        }
    }

    /// The group for the item.
    pub open spec fn built(self, gaps: Seq<Gap>, base_indent: Alignment, config: FormatConfig)
        -> Built {
        let attrs = attrs_laid(gaps, base_indent, self.attrs());
        with_attributes(
            attrs,
            self.attrs().len(),
            self.inner_built(attrs.gaps, base_indent, config),
            config.split_attributes,
        )
    }

    /// The groups for the items of a list, built one after the other and
    /// laid out at `indent`.
    pub open spec fn all_built(
        list: Seq<ForeignItem>,
        gaps: Seq<Gap>,
        indent: Alignment,
        config: FormatConfig,
    ) -> BuiltAll
        decreases list,
    {
        if list.len() == 0 {
            BuiltAll::none(gaps)
        } else {
            let before = ForeignItem::all_built(list.drop_last(), gaps, indent, config);
            before.and(list.last().built(before.gaps, indent, config))
        }
    }

    /// What the item asks for in the way of spacing.
    pub fn want_margin(&self) -> (m: Margin)
        ensures
            m == self.margin(),
    {
        match self {
            ForeignItem::InnerAttr(_) => (MarginGroup::Attr, false),
            _ => (MarginGroup::Plain, false),
        }
    }

    /// Whether the item has attributes.
    pub fn has_attrs(&self) -> (b: bool)
        ensures
            b == (self.attrs().len() > 0),
    {
        match self {
            ForeignItem::Fn { attrs, .. } => attrs.len() > 0,
            ForeignItem::Static { attrs, .. } => attrs.len() > 0,
            ForeignItem::Type { attrs, .. } => attrs.len() > 0,
            ForeignItem::Macro { attrs, .. } => attrs.len() > 0,
            ForeignItem::Verbatim(_) | ForeignItem::InnerAttr(_) => false,
        }
    }

    /// A finished group, behind its attributes, for this kind of item.
    fn function_segs(&self, out: &mut MakeSegsState, base_indent: &Alignment) -> (idx:
        SplitGroupIdx)
        requires
            old(out).wf(),
            self is Fn,
        ensures
            made(old(out), final(out), idx, self.inner_text()),
            !final(out).doc(idx).split,
            built_as(
                final(out),
                idx,
                self.inner_built(old(out).whitespaces@, *base_indent, old(out).config),
            ),
    {
        let mut sg = new_sg(out);
        assert(laid(out, sg.node) =~= Laid::start(old(out).whitespaces@));
        match self {
            ForeignItem::Fn { vis, sig, semi_loc, .. } => {
                append_vis(out, base_indent, &mut sg, vis);
                append_sig(out, base_indent, &mut sg, sig);
                append_token(out, base_indent, &mut sg, *semi_loc, ";");
                assert(code_text(out.doc(sg.node)) =~= self.inner_text());
            },
            _ => {},
        }
        assert(sg.wf(out));
        sg.build(out)
    }

    /// A finished group, behind its attributes, for this kind of item.
    fn static_item_segs(&self, out: &mut MakeSegsState, base_indent: &Alignment) -> (idx:
        SplitGroupIdx)
        requires
            old(out).wf(),
            self is Static,
        ensures
            made(old(out), final(out), idx, self.inner_text()),
            !final(out).doc(idx).split,
            built_as(
                final(out),
                idx,
                self.inner_built(old(out).whitespaces@, *base_indent, old(out).config),
            ),
    {
        let mut sg = new_sg(out);
        assert(laid(out, sg.node) =~= Laid::start(old(out).whitespaces@));
        match self {
            ForeignItem::Static { colon_loc, vis, static_loc, mutability, ident, ty, semi_loc, .. } => {
                append_whitespace(out, base_indent, &mut sg, *static_loc);
                append_vis(out, base_indent, &mut sg, vis);
                append_gap_if(out, base_indent, &mut sg, *mutability);
                sg.seg(out, "static ");
                append_text_when(out, &mut sg, mutability.is_some(), "mut ");
                append_token(out, base_indent, &mut sg, ident.loc, ident.text.as_str());
                append_whitespace(out, base_indent, &mut sg, *colon_loc);
                append_binary_syntax(out, base_indent, &mut sg, ":", ty);
                append_token(out, base_indent, &mut sg, *semi_loc, ";");
                assert(code_text(out.doc(sg.node)) =~= self.inner_text());
            },
            _ => {},
        }
        assert(sg.wf(out));
        sg.build(out)
    }

    /// A finished group, behind its attributes, for this kind of item.
    fn type_alias_segs(&self, out: &mut MakeSegsState, base_indent: &Alignment) -> (idx:
        SplitGroupIdx)
        requires
            old(out).wf(),
            self is Type,
        ensures
            made(old(out), final(out), idx, self.inner_text()),
            !final(out).doc(idx).split,
            built_as(
                final(out),
                idx,
                self.inner_built(old(out).whitespaces@, *base_indent, old(out).config),
            ),
    {
        let mut sg = new_sg(out);
        assert(laid(out, sg.node) =~= Laid::start(old(out).whitespaces@));
        match self {
            ForeignItem::Type { vis, type_loc, ident, semi_loc, .. } => {
                append_vis(out, base_indent, &mut sg, vis);
                append_token(out, base_indent, &mut sg, *type_loc, "type ");
                append_token(out, base_indent, &mut sg, ident.loc, ident.text.as_str());
                append_token(out, base_indent, &mut sg, *semi_loc, ";");
                assert(code_text(out.doc(sg.node)) =~= self.inner_text());
            },
            _ => {},
        }
        assert(sg.wf(out));
        sg.build(out)
    }

    /// A finished group, behind its attributes, for this kind of item.
    fn macro_call_segs(&self, out: &mut MakeSegsState, base_indent: &Alignment) -> (idx:
        SplitGroupIdx)
        requires
            old(out).wf(),
            self is Macro,
        ensures
            made(old(out), final(out), idx, self.inner_text()),
            !final(out).doc(idx).split,
            built_as(
                final(out),
                idx,
                self.inner_built(old(out).whitespaces@, *base_indent, old(out).config),
            ),
    {
        let mut sg = new_sg(out);
        assert(laid(out, sg.node) =~= Laid::start(old(out).whitespaces@));
        match self {
            ForeignItem::Macro { mac, semi, .. } => {
                append_macro(out, base_indent, &mut sg, mac, *semi);
                assert(code_text(out.doc(sg.node)) =~= self.inner_text());
            },
            _ => {},
        }
        assert(sg.wf(out));
        sg.build(out)
    }

    /// A finished group, behind its attributes, for this kind of item.
    fn verbatim_segs(&self, out: &mut MakeSegsState, base_indent: &Alignment) -> (idx:
        SplitGroupIdx)
        requires
            old(out).wf(),
            self is Verbatim || self is InnerAttr,
        ensures
            made(old(out), final(out), idx, self.inner_text()),
            !final(out).doc(idx).split,
            built_as(
                final(out),
                idx,
                self.inner_built(old(out).whitespaces@, *base_indent, old(out).config),
            ),
    {
        let mut sg = new_sg(out);
        assert(laid(out, sg.node) =~= Laid::start(old(out).whitespaces@));
        match self {
            ForeignItem::Verbatim(x) | ForeignItem::InnerAttr(x) => {
                append_macro_body(out, base_indent, &mut sg, x);
                assert(code_text(out.doc(sg.node)) =~= self.inner_text());
            },
            _ => {},
        }
        assert(sg.wf(out));
        sg.build(out)
    }

    /// A finished group for the item behind its attributes.
    fn inner_segs(&self, out: &mut MakeSegsState, base_indent: &Alignment) -> (idx: SplitGroupIdx)
        requires
            old(out).wf(),
        ensures
            made(old(out), final(out), idx, self.inner_text()),
            built_as(
                final(out),
                idx,
                self.inner_built(old(out).whitespaces@, *base_indent, old(out).config),
            ),
    {
        match self {
            ForeignItem::Fn { .. } => self.function_segs(out, base_indent),
            ForeignItem::Static { .. } => self.static_item_segs(out, base_indent),
            ForeignItem::Type { .. } => self.type_alias_segs(out, base_indent),
            ForeignItem::Macro { .. } => self.macro_call_segs(out, base_indent),
            ForeignItem::Verbatim(_) | ForeignItem::InnerAttr(_) => {
                self.verbatim_segs(out, base_indent)
            },
        }
    }

    /// A finished group for the item.
    pub fn make_segs(&self, out: &mut MakeSegsState, base_indent: &Alignment) -> (idx:
        SplitGroupIdx)
        requires
            old(out).wf(),
        ensures
            made(old(out), final(out), idx, self.text()),
            built_as(
                final(out),
                idx,
                self.built(old(out).whitespaces@, *base_indent, old(out).config),
            ),
    {
        match self {
            ForeignItem::Fn { attrs, .. } | ForeignItem::Static { attrs, .. } | ForeignItem::Type {
                attrs,
                ..
            } | ForeignItem::Macro { attrs, .. } => {
                let wrap = start_outer_attrs(out, base_indent, attrs);
                let ghost mid = *out;
                let inner = self.inner_segs(out, base_indent);
                finish_attrs(
                    out,
                    wrap,
                    inner,
                    attrs,
                    Ghost(*base_indent),
                    Ghost(*old(out)),
                    Ghost(mid),
                )
            },
            ForeignItem::Verbatim(_) | ForeignItem::InnerAttr(_) => {
                let idx = self.inner_segs(out, base_indent);
                assert(attrs_text(self.attrs()) + self.inner_text() =~= self.inner_text());
                idx
            },
        }
    }

    /// A finished group for each of `list`, laid out at `indent`, for a
    /// block of the group of `sg`, with what each asks for in the way of
    /// spacing.
    fn build_entries(
        out: &mut MakeSegsState,
        indent: &Alignment,
        sg: &SplitGroupBuilder,
        list: &Vec<ForeignItem>,
    ) -> (entries: Vec<StmtEntry>)
        requires
            old(out).wf(),
            sg.wf(old(out)),
        ensures
            final(out).wf(),
            sg.wf(final(out)),
            final(out).extends(old(out)),
            entries.len() == list.len(),
            all_finished(final(out), sg.node, entry_groups(entries@)),
            group_texts(final(out), entry_groups(entries@)) == ForeignItem::texts(list@),
            forall|i: int|
                0 <= i < entries.len() ==> (#[trigger] entries[i]).margin == list[i].margin(),
            entry_margins(entries@) == ForeignItem::margins(list@),
            final(out).doc(sg.node) == old(out).doc(sg.node),
            group_docs(final(out), entry_groups(entries@)) == ForeignItem::all_built(
                list@,
                old(out).whitespaces@,
                *indent,
                old(out).config,
            ).docs,
            final(out).whitespaces@ == ForeignItem::all_built(
                list@,
                old(out).whitespaces@,
                *indent,
                old(out).config,
            ).gaps,
            final(out).loose() == old(out).loose() + list@.len(),
        decreases list, 0int,
    {
        let mut entries: Vec<StmtEntry> = Vec::new();
        let mut i: usize = 0;
        assert(group_texts(out, entry_groups(entries@)) =~= ForeignItem::texts(list@.take(0)));
        assert(group_docs(out, entry_groups(entries@)) =~= Seq::<Doc>::empty());
        while i < list.len()
            invariant
                out.loose() == old(out).loose() + i,
                i <= list.len(),
                entries.len() == i,
                out.wf(),
                sg.wf(out),
                out.extends(old(out)),
                all_finished(out, sg.node, entry_groups(entries@)),
                group_texts(out, entry_groups(entries@)) == ForeignItem::texts(list@.take(i as int)),
                forall|j: int|
                    0 <= j < entries.len() ==> (#[trigger] entries[j]).margin == list[j].margin(),
                out.doc(sg.node) == old(out).doc(sg.node),
                group_docs(out, entry_groups(entries@)) == ForeignItem::all_built(
                    list@.take(i as int),
                    old(out).whitespaces@,
                    *indent,
                    old(out).config,
                ).docs,
                out.whitespaces@ == ForeignItem::all_built(
                    list@.take(i as int),
                    old(out).whitespaces@,
                    *indent,
                    old(out).config,
                ).gaps,
            decreases list.len() - i,
        {
            let ghost before = *out;
            let ghost groups = entry_groups(entries@);
            proof {
                assert(decreases_to!(list => list@));
                assert(decreases_to!(list@ => list@[i as int]));
            }
            let child = list[i].make_segs(out, indent);
            let margin = list[i].want_margin();
            entries.push(StmtEntry { group: child, margin });
            proof {
                assert(entry_groups(entries@) =~= groups.push(child));
                lemma_push_finished(&before, out, sg.node, groups, child);
                assert(out.nodes[sg.node.0 as int] == before.nodes[sg.node.0 as int]);
                assert(out.doc(sg.node) == before.doc(sg.node));
                crate::arena::lemma_grown_trans(out.nodes@, before.nodes@, old(out).nodes@);
                crate::arena::lemma_grown_trans(out.nodes@, before.nodes@, sg.start@);
                assert(list@.take(i + 1).drop_last() =~= list@.take(i as int));
                assert(list@.take(i + 1).last() == list@[i as int]);
            }
            i += 1;
        }
        assert(list@.take(i as int) =~= list@);
        assert(entry_margins(entries@) =~= ForeignItem::margins(list@));
        entries
    }

    /// Adds a block of `list` in braces: see
    /// [`append_bracketed_statement_list`].
    fn append_block(
        out: &mut MakeSegsState,
        base_indent: &Alignment,
        sg: &mut SplitGroupBuilder,
        prefix_start: LineColumn,
        list: &Vec<ForeignItem>,
        suffix_start: LineColumn,
    )
        requires
            old(out).wf(),
            old(sg).wf(old(out)),
        ensures
            *final(sg) == *old(sg),
            said(old(out), final(out), *old(sg), block_text(" {"@, ForeignItem::texts(list@))),
            final(out).doc(old(sg).node).split == old(out).doc(old(sg).node).split,
            laid(final(out), old(sg).node) == laid(old(out), old(sg).node).block_of(
                *base_indent,
                prefix_start,
                ForeignItem::margins(list@),
                ForeignItem::all_built(
                    list@,
                    old(out).whitespaces@,
                    base_indent.deeper(),
                    old(out).config,
                ),
                suffix_start,
            ),
        decreases list, 1int,
    {
        let entries = ForeignItem::build_entries(out, &base_indent.indent(), sg, list);
        assert(code_text(out.doc(sg.node)) == code_text(old(out).doc(sg.node)));
        assert(laid(out, sg.node) == laid(old(out), sg.node).with_gaps(out.whitespaces@));
        append_bracketed_statement_list(
            out,
            base_indent,
            sg,
            prefix_start,
            " {",
            &entries,
            suffix_start,
        );
    }
}

/// What the bounds of a declaration say: the bounds with a plus between
/// them.
pub open spec fn bounds_text(bounds: Seq<Pair<Syntax>>) -> Seq<char> {
    joined(pair_texts(bounds), " +"@ + " "@)
}

/// The right side of a binary form that is a list of bounds has become
/// entries behind its operator: see [`Laid::binary`]. The bounds stand in a
/// group of their own, one level deeper than `base_indent`, with a plus
/// between them.
pub open spec fn bounds_onto(
    l: Laid,
    base_indent: Alignment,
    tok: Seq<char>,
    bounds: Seq<Pair<Syntax>>,
) -> Laid {
    l.binary(
        base_indent,
        tok,
        Laid::start(l.gaps).inline_list(base_indent.deeper(), " +"@, bounds, bounds.len()).built(
            false,
        ),
    )
}

/// Adds the right side of a binary form that is a list of bounds, as a
/// group of its own: see [`append_binary`].
fn append_binary_bounds(
    out: &mut MakeSegsState,
    base_indent: &Alignment,
    sg: &mut SplitGroupBuilder,
    tok: &str,
    bounds: &Vec<Pair<Syntax>>,
)
    requires
        old(out).wf(),
        old(sg).wf(old(out)),
    ensures
        *final(sg) == *old(sg),
        said(old(out), final(out), *old(sg), tok@ + " "@ + bounds_text(bounds@)),
        final(out).doc(old(sg).node).split == old(out).doc(old(sg).node).split,
        laid(final(out), old(sg).node) == bounds_onto(
            laid(old(out), old(sg).node),
            *base_indent,
            tok@,
            bounds@,
        ),
{
    let indent = base_indent.indent();
    let mut node = new_sg(out);
    assert(laid(out, node.node) =~= Laid::start(old(out).whitespaces@));
    append_inline_list(out, &indent, &mut node, " +", bounds);
    let child = node.build(out);
    assert(code_text(out.doc(child)) =~= bounds_text(bounds@));
    assert(sg.wf(out));
    assert(out.nodes[sg.node.0 as int] == old(out).nodes[sg.node.0 as int]);
    assert(out.doc(sg.node) == old(out).doc(sg.node));
    append_binary(out, base_indent, sg, tok, child);
}

impl Local {
    /// What the initial value says behind its equals sign, if there is one.
    pub open spec fn init_text(self) -> Seq<char> {
        match self.init {
            Some(e) => " ="@ + " "@ + e.1.text(),
            None => Seq::empty(),
        }
    }

    /// What the binding says behind its attributes.
    pub open spec fn inner_text(self) -> Seq<char> {
        "let "@ + self.pat.text() + self.init_text() + ";"@
    }

    /// What the binding says.
    pub open spec fn text(self) -> Seq<char> {
        attrs_text(self.attrs@) + self.inner_text()
    }

    /// The initial value has become entries behind its equals sign, if
    /// there is one.
    pub open spec fn init_onto(self, l: Laid, base_indent: Alignment) -> Laid {
        match self.init {
            Some(e) => l.gap(e.0, base_indent).binary_syntax(base_indent, " ="@, e.1),
            None => l,
        }
    }

    /// The group for the binding behind its attributes.
    pub open spec fn inner_built(self, gaps: Seq<Gap>, base_indent: Alignment) -> Built {
        self.init_onto(
            self.pat.laid_onto(
                Laid::start(gaps).token(self.let_loc, base_indent, "let "@),
                base_indent,
            ),
            base_indent,
        ).token(self.semi_loc, base_indent, ";"@).built(false)
    }

    /// The group for the binding.
    pub open spec fn built(self, gaps: Seq<Gap>, base_indent: Alignment, split_attributes: bool)
        -> Built {
        let attrs = attrs_laid(gaps, base_indent, self.attrs@);
        with_attributes(
            attrs,
            self.attrs@.len(),
            self.inner_built(attrs.gaps, base_indent),
            split_attributes,
        )
    }

    /// A finished group for the binding behind its attributes.
    fn inner_segs(&self, out: &mut MakeSegsState, base_indent: &Alignment) -> (idx: SplitGroupIdx)
        requires
            old(out).wf(),
        ensures
            made(old(out), final(out), idx, self.inner_text()),
            built_as(final(out), idx, self.inner_built(old(out).whitespaces@, *base_indent)),
    {
        let mut sg = new_sg(out);
        assert(laid(out, sg.node) =~= Laid::start(old(out).whitespaces@));
        append_token(out, base_indent, &mut sg, self.let_loc, "let ");
        self.pat.append(out, base_indent, &mut sg);
        let ghost l1 = laid(out, sg.node);
        match &self.init {
            Some(e) => {
                append_whitespace(out, base_indent, &mut sg, e.0);
                append_binary_syntax(out, base_indent, &mut sg, " =", &e.1);
            },
            None => {},
        }
        assert(sg.wf(out));
        assert(code_text(out.doc(sg.node)) =~= "let "@ + self.pat.text() + self.init_text());
        assert(laid(out, sg.node) == self.init_onto(l1, *base_indent));
        append_token(out, base_indent, &mut sg, self.semi_loc, ";");
        let idx = sg.build(out);
        assert(code_text(out.doc(idx)) =~= self.inner_text());
        idx
    }

    /// A finished group for the binding.
    pub fn make_segs(&self, out: &mut MakeSegsState, base_indent: &Alignment) -> (idx:
        SplitGroupIdx)
        requires
            old(out).wf(),
        ensures
            made(old(out), final(out), idx, self.text()),
            built_as(
                final(out),
                idx,
                self.built(old(out).whitespaces@, *base_indent, old(out).config.split_attributes),
            ),
    {
        let wrap = start_outer_attrs(out, base_indent, &self.attrs);
        let ghost mid = *out;
        let inner = self.inner_segs(out, base_indent);
        finish_attrs(
            out,
            wrap,
            inner,
            &self.attrs,
            Ghost(*base_indent),
            Ghost(*old(out)),
            Ghost(mid),
        )
    }
}

impl Block {
    /// What the block says.
    pub open spec fn text(self) -> Seq<char>
        decreases self,
    {
        block_text(" {"@, Stmt::texts(self.stmts@))
    }

    /// The group for the block: its statements, built first and laid out
    /// one level deeper than `base_indent`, between the braces.
    pub open spec fn built(self, gaps: Seq<Gap>, base_indent: Alignment, config: FormatConfig)
        -> Built
        decreases self, 0int,
    {
        Laid::start(gaps).block_of(
            base_indent,
            self.brace_start,
            Stmt::margins(self.stmts@),
            Stmt::all_built(self.stmts@, gaps, base_indent.deeper(), config),
            self.brace_end,
        ).built(false)
    }

    /// The block has become an entry, as a group of its own.
    pub open spec fn nested_onto(self, l: Laid, base_indent: Alignment, config: FormatConfig)
        -> Laid
        decreases self, 1int,
    {
        l.child_built(self.built(l.gaps, base_indent, config))
    }

    /// Adds the block as a group of its own.
    fn append(&self, out: &mut MakeSegsState, base_indent: &Alignment, sg: &mut SplitGroupBuilder)
        requires
            old(out).wf(),
            old(sg).wf(old(out)),
        ensures
            *final(sg) == *old(sg),
            said(old(out), final(out), *old(sg), self.text()),
            final(out).doc(old(sg).node).split == old(out).doc(old(sg).node).split,
            laid(final(out), old(sg).node) == self.nested_onto(
                laid(old(out), old(sg).node),
                *base_indent,
                old(out).config,
            ),
        decreases self, 0int,
    {
        let mut node = new_sg(out);
        assert(laid(out, node.node) =~= Laid::start(old(out).whitespaces@));
        Stmt::append_block(
            out,
            base_indent,
            &mut node,
            self.brace_start,
            &self.stmts,
            self.brace_end,
        );
        let child = node.build(out);
        assert(code_text(out.doc(child)) =~= self.text());
        assert(sg.wf(out));
        assert(out.nodes[sg.node.0 as int] == old(out).nodes[sg.node.0 as int]);
        assert(out.doc(sg.node) == old(out).doc(sg.node));
        sg.child(out, child);
    }
}

impl Stmt {
    /// What the statement says.
    pub open spec fn text(self) -> Seq<char>
        decreases self,
    {
        match self {
            Stmt::Local(l) => l.text(),
            Stmt::Item(i) => i.text(),
            Stmt::Expr { expr, .. } => expr.text(),
            Stmt::InnerAttr(x) => x.text(),
            Stmt::Semi { expr, .. } => expr.text() + ";"@,
        }
    }

    /// What each of a list says.
    pub open spec fn texts(list: Seq<Stmt>) -> Seq<Seq<char>>
        decreases list,
    {
        if list.len() == 0 {
            Seq::empty()
        } else {
            Stmt::texts(list.drop_last()).push(list.last().text())
        }
    }

    /// The group for the statement: what a binding, a declaration or an
    /// expression comes to; an expression with a semicolon is laid out with
    /// the semicolon behind it.
    pub open spec fn built(self, gaps: Seq<Gap>, base_indent: Alignment, config: FormatConfig)
        -> Built
        decreases self,
    {
        match self {
            Stmt::Local(l) => l.built(gaps, base_indent, config.split_attributes),
            Stmt::Item(i) => i.built(gaps, base_indent, config),
            Stmt::Expr { expr, .. } => expr.built(gaps, base_indent),
            Stmt::InnerAttr(x) => x.built(gaps, base_indent),
            Stmt::Semi { expr, semi_loc, .. } => expr.laid_onto(
                Laid::start(gaps),
                base_indent,
            ).token(semi_loc, base_indent, ";"@).built(false),
        }
    }

    /// The groups for the statements of a list, built one after the other
    /// and laid out at `indent`.
    pub open spec fn all_built(
        list: Seq<Stmt>,
        gaps: Seq<Gap>,
        indent: Alignment,
        config: FormatConfig,
    ) -> BuiltAll
        decreases list,
    {
        if list.len() == 0 {
            BuiltAll::none(gaps)
        } else {
            let before = Stmt::all_built(list.drop_last(), gaps, indent, config);
            before.and(list.last().built(before.gaps, indent, config))
        }
    }

    /// What each of a list asks for in the way of spacing.
    pub open spec fn margins(list: Seq<Stmt>) -> Seq<Margin> {
        Seq::new(list.len(), |i: int| list[i].margin())
    }

    /// What the statement asks for in the way of spacing: what a
    /// declaration asks for, and else nothing special.
    pub open spec fn margin(self) -> Margin {
        match self {
            Stmt::Item(i) => i.margin(),
            Stmt::InnerAttr(_) => (MarginGroup::Attr, false),
            _ => (MarginGroup::Plain, false),
        }
    }

    /// Whether the statement is one with attributes.
    pub open spec fn attributed(self) -> bool {
        match self {
            Stmt::Local(l) => l.attrs@.len() > 0,
            Stmt::Item(i) => i.attrs().len() > 0,
            Stmt::Expr { has_attrs, .. } => has_attrs,
            Stmt::Semi { has_attrs, .. } => has_attrs,
            Stmt::InnerAttr(_) => false,
        }
    }

    /// What the statement asks for in the way of spacing.
    pub fn want_margin(&self) -> (m: Margin)
        ensures
            m == self.margin(),
    {
        match self {
            Stmt::Local(_) => (MarginGroup::Plain, false),
            Stmt::Item(i) => i.want_margin(),
            Stmt::Expr { .. } => (MarginGroup::Plain, false),
            Stmt::Semi { .. } => (MarginGroup::Plain, false),
            Stmt::InnerAttr(_) => (MarginGroup::Attr, false),
        }
    }

    /// Whether the statement has attributes.
    pub fn has_attrs(&self) -> (b: bool)
        ensures
            b == self.attributed(),
    {
        match self {
            Stmt::Local(l) => l.attrs.len() > 0,
            Stmt::Item(i) => i.has_attrs(),
            Stmt::Expr { has_attrs, .. } => *has_attrs,
            Stmt::Semi { has_attrs, .. } => *has_attrs,
            Stmt::InnerAttr(_) => false,
        }
    }

    /// A finished group for the statement.
    pub fn make_segs(&self, out: &mut MakeSegsState, base_indent: &Alignment) -> (idx:
        SplitGroupIdx)
        requires
            old(out).wf(),
        ensures
            made(old(out), final(out), idx, self.text()),
            built_as(
                final(out),
                idx,
                self.built(old(out).whitespaces@, *base_indent, old(out).config),
            ),
        decreases self, 1int,
    {
        match self {
            Stmt::Local(l) => l.make_segs(out, base_indent),
            Stmt::Item(i) => i.make_segs(out, base_indent),
            Stmt::Expr { expr, .. } => expr.make_segs(out, base_indent),
            Stmt::InnerAttr(x) => x.make_segs(out, base_indent),
            Stmt::Semi { expr, semi_loc, .. } => {
                let mut sg = new_sg(out);
                assert(laid(out, sg.node) =~= Laid::start(old(out).whitespaces@));
                expr.append(out, base_indent, &mut sg);
                append_token(out, base_indent, &mut sg, *semi_loc, ";");
                let idx = sg.build(out);
                assert(code_text(out.doc(idx)) =~= self.text());
                idx
            },
        }
    }

    /// A finished group for each of `list`, laid out at `indent`, for a
    /// block of the group of `sg`, with what each asks for in the way of
    /// spacing.
    fn build_entries(
        out: &mut MakeSegsState,
        indent: &Alignment,
        sg: &SplitGroupBuilder,
        list: &Vec<Stmt>,
    ) -> (entries: Vec<StmtEntry>)
        requires
            old(out).wf(),
            sg.wf(old(out)),
        ensures
            final(out).wf(),
            sg.wf(final(out)),
            final(out).extends(old(out)),
            entries.len() == list.len(),
            all_finished(final(out), sg.node, entry_groups(entries@)),
            group_texts(final(out), entry_groups(entries@)) == Stmt::texts(list@),
            forall|i: int|
                0 <= i < entries.len() ==> (#[trigger] entries[i]).margin == list[i].margin(),
            entry_margins(entries@) == Stmt::margins(list@),
            final(out).doc(sg.node) == old(out).doc(sg.node),
            group_docs(final(out), entry_groups(entries@)) == Stmt::all_built(
                list@,
                old(out).whitespaces@,
                *indent,
                old(out).config,
            ).docs,
            final(out).whitespaces@ == Stmt::all_built(
                list@,
                old(out).whitespaces@,
                *indent,
                old(out).config,
            ).gaps,
            final(out).loose() == old(out).loose() + list@.len(),
        decreases list, 0int,
    {
        let mut entries: Vec<StmtEntry> = Vec::new();
        let mut i: usize = 0;
        assert(group_docs(out, entry_groups(entries@)) =~= Seq::<Doc>::empty());
        assert(group_texts(out, entry_groups(entries@)) =~= Stmt::texts(list@.take(0)));
        while i < list.len()
            invariant
                out.loose() == old(out).loose() + i,
                i <= list.len(),
                entries.len() == i,
                out.wf(),
                sg.wf(out),
                out.extends(old(out)),
                all_finished(out, sg.node, entry_groups(entries@)),
                group_texts(out, entry_groups(entries@)) == Stmt::texts(list@.take(i as int)),
                forall|j: int|
                    0 <= j < entries.len() ==> (#[trigger] entries[j]).margin == list[j].margin(),
                out.doc(sg.node) == old(out).doc(sg.node),
                group_docs(out, entry_groups(entries@)) == Stmt::all_built(
                    list@.take(i as int),
                    old(out).whitespaces@,
                    *indent,
                    old(out).config,
                ).docs,
                out.whitespaces@ == Stmt::all_built(
                    list@.take(i as int),
                    old(out).whitespaces@,
                    *indent,
                    old(out).config,
                ).gaps,
            decreases list.len() - i,
        {
            let ghost before = *out;
            let ghost groups = entry_groups(entries@);
            proof {
                assert(decreases_to!(list => list@));
                assert(decreases_to!(list@ => list@[i as int]));
            }
            let child = list[i].make_segs(out, indent);
            let margin = list[i].want_margin();
            entries.push(StmtEntry { group: child, margin });
            proof {
                assert(entry_groups(entries@) =~= groups.push(child));
                lemma_push_finished(&before, out, sg.node, groups, child);
                assert(out.nodes[sg.node.0 as int] == before.nodes[sg.node.0 as int]);
                assert(out.doc(sg.node) == before.doc(sg.node));
                crate::arena::lemma_grown_trans(out.nodes@, before.nodes@, old(out).nodes@);
                crate::arena::lemma_grown_trans(out.nodes@, before.nodes@, sg.start@);
                assert(list@.take(i + 1).drop_last() =~= list@.take(i as int));
                assert(list@.take(i + 1).last() == list@[i as int]);
            }
            i += 1;
        }
        assert(list@.take(i as int) =~= list@);
        assert(entry_margins(entries@) =~= Stmt::margins(list@));
        entries
    }

    /// Adds a block of `list` in braces: see
    /// [`append_bracketed_statement_list`].
    fn append_block(
        out: &mut MakeSegsState,
        base_indent: &Alignment,
        sg: &mut SplitGroupBuilder,
        prefix_start: LineColumn,
        list: &Vec<Stmt>,
        suffix_start: LineColumn,
    )
        requires
            old(out).wf(),
            old(sg).wf(old(out)),
        ensures
            *final(sg) == *old(sg),
            said(old(out), final(out), *old(sg), block_text(" {"@, Stmt::texts(list@))),
            final(out).doc(old(sg).node).split == old(out).doc(old(sg).node).split,
            laid(final(out), old(sg).node) == laid(old(out), old(sg).node).block_of(
                *base_indent,
                prefix_start,
                Stmt::margins(list@),
                Stmt::all_built(
                    list@,
                    old(out).whitespaces@,
                    base_indent.deeper(),
                    old(out).config,
                ),
                suffix_start,
            ),
        decreases list, 1int,
    {
        let entries = Stmt::build_entries(out, &base_indent.indent(), sg, list);
        assert(code_text(out.doc(sg.node)) == code_text(old(out).doc(sg.node)));
        assert(laid(out, sg.node) == laid(old(out), sg.node).with_gaps(out.whitespaces@));
        append_bracketed_statement_list(
            out,
            base_indent,
            sg,
            prefix_start,
            " {",
            &entries,
            suffix_start,
        );
    }
}

impl ImplItem {
    /// The attributes of the item.
    pub open spec fn attrs(self) -> Seq<Syntax> {
        match self {
            ImplItem::Const { attrs, .. } => attrs@,
            ImplItem::Method { attrs, .. } => attrs@,
            ImplItem::Type { attrs, .. } => attrs@,
            ImplItem::Macro { attrs, .. } => attrs@,
            ImplItem::Verbatim(_) | ImplItem::InnerAttr(_) => no_attrs(),
        }
    }

    /// What a constant says up to its type.
    pub open spec fn const_head_text(self) -> Seq<char> {
        match self {
            ImplItem::Const { vis, defaultness, ident, ty, .. } => vis.text() + text_if(
                defaultness is Some,
                "default "@,
            ) + "const "@ + ident.text@ + ":"@ + " "@ + ty.text(),
            _ => Seq::empty(),
        }
    }

    /// The group for a constant up to its type: the visibility, the gaps
    /// in front of its words, the words and the name, and the type behind
    /// its colon.
    pub open spec fn const_head_built(self, gaps: Seq<Gap>, base_indent: Alignment) -> Built {
        match self {
            ImplItem::Const { colon_loc, vis, defaultness, const_loc, ident, ty, .. } => vis.onto(
                Laid::start(gaps),
                base_indent,
            ).gap_if(defaultness, base_indent).gap(const_loc, base_indent).text_when(
                defaultness is Some,
                "default "@,
            ).text(SegmentMode::All, "const "@).token(ident.loc, base_indent, ident.text@).gap(
                colon_loc,
                base_indent,
            ).binary_syntax(
                base_indent,
                ":"@,
                ty,
            ).built(false),
            _ => Laid::start(gaps).built(false),
        }
    }

    /// What the item says behind its attributes.
    pub open spec fn inner_text(self) -> Seq<char>
        decreases self, 0int,
    {
        match self {
            ImplItem::Const { expr, .. } => self.const_head_text() + " ="@ + " "@ + expr.text()
                + ";"@,
            ImplItem::Method { vis, defaultness, sig, block, .. } => vis.text() + text_if(
                defaultness is Some,
                "default "@,
            ) + sig.text() + block.text(),
            ImplItem::Type { vis, defaultness, ident, generics, ty, .. } => vis.text() + text_if(
                defaultness is Some,
                "default "@,
            ) + "type "@ + ident.text@ + generics.text() + " ="@ + " "@ + ty.text() + ";"@,
            ImplItem::Macro { mac, semi, .. } => macro_text(mac, semi),
            ImplItem::Verbatim(x) | ImplItem::InnerAttr(x) => x.text(),
        }
    }

    /// What the item says.
    pub open spec fn text(self) -> Seq<char>
        decreases self, 1int,
    {
        attrs_text(self.attrs()) + self.inner_text()
    }

    /// What each of a list says.
    pub open spec fn texts(list: Seq<ImplItem>) -> Seq<Seq<char>>
        decreases list,
    {
        if list.len() == 0 {
            Seq::empty()
        } else {
            ImplItem::texts(list.drop_last()).push(list.last().text())
        }
    }

    /// The group for the item behind its attributes.
    pub open spec fn inner_built(self, gaps: Seq<Gap>, base_indent: Alignment, config: FormatConfig)
        -> Built
        decreases self, 0int,
    {
        let start = Laid::start(gaps);
        match self {
            ImplItem::Const { eq_loc, expr, semi_loc, .. } => start.child_built(
                self.const_head_built(gaps, base_indent),
            ).gap(eq_loc, base_indent).binary_syntax(base_indent, " ="@, expr).token(
                semi_loc,
                base_indent,
                ";"@,
            ).built(
                false,
            ),
            ImplItem::Method { vis, defaultness, sig, block, .. } => block.nested_onto(
                sig.nested_onto(
                    vis.onto(start, base_indent).keyword(defaultness, base_indent, "default "@),
                    base_indent,
                    config,
                ),
                base_indent,
                config,
            ).built(false),
            ImplItem::Type {
                eq_loc,
                vis,
                defaultness,
                type_loc,
                ident,
                generics,
                ty,
                semi_loc,
                ..
            } => generics.onto(
                vis.onto(start, base_indent).gap_if(defaultness, base_indent).gap(
                    type_loc,
                    base_indent,
                ).text_when(defaultness is Some, "default "@).text(SegmentMode::All, "type "@).token(
                    ident.loc,
                    base_indent,
                    ident.text@,
                ),
                base_indent,
                config.split_where,
            ).gap(eq_loc, base_indent).binary_syntax(base_indent, " ="@, ty).token(
                semi_loc,
                base_indent,
                ";"@,
            ).built(false),
            ImplItem::Macro { mac, semi, .. } => mac.nested_onto(start, base_indent, semi).built(
                false,
            ),
            ImplItem::Verbatim(x) | ImplItem::InnerAttr(x) => x.laid_onto(
                start,
                base_indent,
            ).built(false),
        }
    }

    /// The group for the item.
    pub open spec fn built(self, gaps: Seq<Gap>, base_indent: Alignment, config: FormatConfig)
        -> Built
        decreases self, 1int,
    {
        let attrs = attrs_laid(gaps, base_indent, self.attrs());
        with_attributes(
            attrs,
            self.attrs().len(),
            self.inner_built(attrs.gaps, base_indent, config),
            config.split_attributes,
        )
    }

    /// The groups for the items of a list, built one after the other and
    /// laid out at `indent`.
    pub open spec fn all_built(
        list: Seq<ImplItem>,
        gaps: Seq<Gap>,
        indent: Alignment,
        config: FormatConfig,
    ) -> BuiltAll
        decreases list,
    {
        if list.len() == 0 {
            BuiltAll::none(gaps)
        } else {
            let before = ImplItem::all_built(list.drop_last(), gaps, indent, config);
            before.and(list.last().built(before.gaps, indent, config))
        }
    }

    /// What each of a list asks for in the way of spacing.
    pub open spec fn margins(list: Seq<ImplItem>) -> Seq<Margin> {
        Seq::new(list.len(), |i: int| list[i].margin())
    }

    /// Whether the group of the item behind its attributes is built with
    /// its children reversed, so that the body is looked at first where
    /// it is asked whether the group must split: if the item is a method.
    pub open spec fn reverses(self) -> bool {
        self is Method
    }

    /// What the item asks for in the way of spacing: methods and macro
    /// calls are declarations with a body.
    pub open spec fn margin(self) -> Margin {
        match self {
            ImplItem::Method { .. } => (MarginGroup::BlockDef, true),
            ImplItem::Macro { .. } => (MarginGroup::BlockDef, true),
            ImplItem::InnerAttr(_) => (MarginGroup::Attr, false),
            _ => (MarginGroup::Plain, false),
        }
    }

    /// What the item asks for in the way of spacing.
    pub fn want_margin(&self) -> (m: Margin)
        ensures
            m == self.margin(),
    {
        match self {
            ImplItem::Const { .. } => (MarginGroup::Plain, false),
            ImplItem::Method { .. } => (MarginGroup::BlockDef, true),
            ImplItem::Type { .. } => (MarginGroup::Plain, false),
            ImplItem::Macro { .. } => (MarginGroup::BlockDef, true),
            ImplItem::Verbatim(_) => (MarginGroup::Plain, false),
            ImplItem::InnerAttr(_) => (MarginGroup::Attr, false),
        }
    }

    /// Whether the item has attributes.
    pub fn has_attrs(&self) -> (b: bool)
        ensures
            b == (self.attrs().len() > 0),
    {
        match self {
            ImplItem::Const { attrs, .. } => attrs.len() > 0,
            ImplItem::Method { attrs, .. } => attrs.len() > 0,
            ImplItem::Type { attrs, .. } => attrs.len() > 0,
            ImplItem::Macro { attrs, .. } => attrs.len() > 0,
            ImplItem::Verbatim(_) | ImplItem::InnerAttr(_) => false,
        }
    }

    /// A finished group for a constant up to its type.
    fn constant_head_segs(&self, out: &mut MakeSegsState, base_indent: &Alignment) -> (idx:
        SplitGroupIdx)
        requires
            old(out).wf(),
            self is Const,
        ensures
            made(old(out), final(out), idx, self.const_head_text()),
            built_as(final(out), idx, self.const_head_built(old(out).whitespaces@, *base_indent)),
    {
        let mut sg = new_sg(out);
        assert(laid(out, sg.node) =~= Laid::start(old(out).whitespaces@));
        match self {
            ImplItem::Const { colon_loc, vis, defaultness, const_loc, ident, ty, .. } => {
                append_vis(out, base_indent, &mut sg, vis);
                append_gap_if(out, base_indent, &mut sg, *defaultness);
                append_whitespace(out, base_indent, &mut sg, *const_loc);
                append_text_when(out, &mut sg, defaultness.is_some(), "default ");
                sg.seg(out, "const ");
                append_token(out, base_indent, &mut sg, ident.loc, ident.text.as_str());
                append_whitespace(out, base_indent, &mut sg, *colon_loc);
                append_binary_syntax(out, base_indent, &mut sg, ":", ty);
                assert(code_text(out.doc(sg.node)) =~= self.const_head_text());
            },
            _ => {},
        }
        assert(sg.wf(out));
        sg.build(out)
    }

    /// A finished group, behind its attributes, for this kind of item. What
    /// stands in front of the equals sign is a group of its own.
    fn constant_segs(&self, out: &mut MakeSegsState, base_indent: &Alignment) -> (idx:
        SplitGroupIdx)
        requires
            old(out).wf(),
            self is Const,
        ensures
            made(old(out), final(out), idx, self.inner_text()),
            !final(out).doc(idx).split,
            built_as(
                final(out),
                idx,
                self.inner_built(old(out).whitespaces@, *base_indent, old(out).config),
            ),
            final(out).nodes[idx.0 as int].reversed == self.reverses(),
        decreases self, 0int,
    {
        let mut sg = new_sg(out);
        assert(laid(out, sg.node) =~= Laid::start(old(out).whitespaces@));
        let ghost fresh = *out;
        match self {
            ImplItem::Const { eq_loc, expr, semi_loc, .. } => {
                let head = self.constant_head_segs(out, base_indent);
                assert(sg.wf(out));
                assert(out.nodes[sg.node.0 as int] == fresh.nodes[sg.node.0 as int]);
                assert(out.doc(sg.node) == fresh.doc(sg.node));
                sg.child(out, head);
                let ghost said = self.const_head_text();
                assert(code_text(out.doc(sg.node)) =~= said);
                append_whitespace(out, base_indent, &mut sg, *eq_loc);
                append_binary_syntax(out, base_indent, &mut sg, " =", expr);
                proof {
                    lemma_join_assoc(said, " ="@ + " "@, expr.text());
                    lemma_join_assoc(said, " ="@, " "@);
                }
                append_token(out, base_indent, &mut sg, *semi_loc, ";");
                assert(code_text(out.doc(sg.node)) == self.inner_text());
            },
            _ => {},
        }
        assert(sg.wf(out));
        sg.build(out)
    }

    /// A finished group, behind its attributes, for this kind of item.
    fn method_segs(&self, out: &mut MakeSegsState, base_indent: &Alignment) -> (idx: SplitGroupIdx)
        requires
            old(out).wf(),
            self is Method,
        ensures
            made(old(out), final(out), idx, self.inner_text()),
            !final(out).doc(idx).split,
            built_as(
                final(out),
                idx,
                self.inner_built(old(out).whitespaces@, *base_indent, old(out).config),
            ),
            final(out).nodes[idx.0 as int].reversed == self.reverses(),
        decreases self, 0int,
    {
        let mut sg = new_sg(out);
        assert(laid(out, sg.node) =~= Laid::start(old(out).whitespaces@));
        match self {
            ImplItem::Method { vis, defaultness, sig, block, .. } => {
                append_vis(out, base_indent, &mut sg, vis);
                append_keyword(out, base_indent, &mut sg, *defaultness, "default ");
                append_sig(out, base_indent, &mut sg, sig);
                block.append(out, base_indent, &mut sg);
                sg.reverse_children();
                assert(code_text(out.doc(sg.node)) =~= self.inner_text());
            },
            _ => {},
        }
        assert(sg.wf(out));
        sg.build(out)
    }

    /// A finished group, behind its attributes, for this kind of item.
    fn type_alias_segs(&self, out: &mut MakeSegsState, base_indent: &Alignment) -> (idx:
        SplitGroupIdx)
        requires
            old(out).wf(),
            self is Type,
        ensures
            made(old(out), final(out), idx, self.inner_text()),
            !final(out).doc(idx).split,
            built_as(
                final(out),
                idx,
                self.inner_built(old(out).whitespaces@, *base_indent, old(out).config),
            ),
            final(out).nodes[idx.0 as int].reversed == self.reverses(),
        decreases self, 0int,
    {
        let mut sg = new_sg(out);
        assert(laid(out, sg.node) =~= Laid::start(old(out).whitespaces@));
        match self {
            ImplItem::Type {
                vis,
                defaultness,
                type_loc,
                ident,
                generics,
                eq_loc,
                ty,
                semi_loc,
                ..
            } => {
                append_vis(out, base_indent, &mut sg, vis);
                append_gap_if(out, base_indent, &mut sg, *defaultness);
                append_whitespace(out, base_indent, &mut sg, *type_loc);
                append_text_when(out, &mut sg, defaultness.is_some(), "default ");
                sg.seg(out, "type ");
                append_token(out, base_indent, &mut sg, ident.loc, ident.text.as_str());
                append_generics(out, base_indent, &mut sg, generics);
                let ghost head = vis.text() + text_if(defaultness is Some, "default "@) + "type "@
                    + ident.text@ + generics.text();
                assert(code_text(out.doc(sg.node)) =~= head);
                append_whitespace(out, base_indent, &mut sg, *eq_loc);
                append_binary_syntax(out, base_indent, &mut sg, " =", ty);
                proof {
                    lemma_join_assoc(head, " ="@ + " "@, ty.text());
                    lemma_join_assoc(head, " ="@, " "@);
                }
                append_token(out, base_indent, &mut sg, *semi_loc, ";");
                assert(code_text(out.doc(sg.node)) == self.inner_text());
            },
            _ => {},
        }
        assert(sg.wf(out));
        sg.build(out)
    }

    /// A finished group, behind its attributes, for this kind of item.
    fn macro_call_segs(&self, out: &mut MakeSegsState, base_indent: &Alignment) -> (idx:
        SplitGroupIdx)
        requires
            old(out).wf(),
            self is Macro,
        ensures
            made(old(out), final(out), idx, self.inner_text()),
            !final(out).doc(idx).split,
            built_as(
                final(out),
                idx,
                self.inner_built(old(out).whitespaces@, *base_indent, old(out).config),
            ),
            final(out).nodes[idx.0 as int].reversed == self.reverses(),
        decreases self, 0int,
    {
        let mut sg = new_sg(out);
        assert(laid(out, sg.node) =~= Laid::start(old(out).whitespaces@));
        match self {
            ImplItem::Macro { mac, semi, .. } => {
                append_macro(out, base_indent, &mut sg, mac, *semi);
                assert(code_text(out.doc(sg.node)) =~= self.inner_text());
            },
            _ => {},
        }
        assert(sg.wf(out));
        sg.build(out)
    }

    /// A finished group, behind its attributes, for this kind of item.
    fn verbatim_segs(&self, out: &mut MakeSegsState, base_indent: &Alignment) -> (idx:
        SplitGroupIdx)
        requires
            old(out).wf(),
            self is Verbatim || self is InnerAttr,
        ensures
            made(old(out), final(out), idx, self.inner_text()),
            !final(out).doc(idx).split,
            built_as(
                final(out),
                idx,
                self.inner_built(old(out).whitespaces@, *base_indent, old(out).config),
            ),
            final(out).nodes[idx.0 as int].reversed == self.reverses(),
        decreases self, 0int,
    {
        let mut sg = new_sg(out);
        assert(laid(out, sg.node) =~= Laid::start(old(out).whitespaces@));
        match self {
            ImplItem::Verbatim(x) | ImplItem::InnerAttr(x) => {
                append_macro_body(out, base_indent, &mut sg, x);
                assert(code_text(out.doc(sg.node)) =~= self.inner_text());
            },
            _ => {},
        }
        assert(sg.wf(out));
        sg.build(out)
    }

    /// A finished group for the item behind its attributes.
    fn inner_segs(&self, out: &mut MakeSegsState, base_indent: &Alignment) -> (idx: SplitGroupIdx)
        requires
            old(out).wf(),
        ensures
            made(old(out), final(out), idx, self.inner_text()),
            built_as(
                final(out),
                idx,
                self.inner_built(old(out).whitespaces@, *base_indent, old(out).config),
            ),
            final(out).nodes[idx.0 as int].reversed == self.reverses(),
        decreases self, 1int,
    {
        match self {
            ImplItem::Const { .. } => self.constant_segs(out, base_indent),
            ImplItem::Method { .. } => self.method_segs(out, base_indent),
            ImplItem::Type { .. } => self.type_alias_segs(out, base_indent),
            ImplItem::Macro { .. } => self.macro_call_segs(out, base_indent),
            ImplItem::Verbatim(_) | ImplItem::InnerAttr(_) => self.verbatim_segs(out, base_indent),
        }
    }

    /// A finished group for the item.
    pub fn make_segs(&self, out: &mut MakeSegsState, base_indent: &Alignment) -> (idx:
        SplitGroupIdx)
        requires
            old(out).wf(),
        ensures
            made(old(out), final(out), idx, self.text()),
            built_as(
                final(out),
                idx,
                self.built(old(out).whitespaces@, *base_indent, old(out).config),
            ),
            self.attrs().len() == 0 ==> final(out).nodes[idx.0 as int].reversed == self.reverses(),
        decreases self, 2int,
    {
        match self {
            ImplItem::Const { attrs, .. } | ImplItem::Method { attrs, .. } | ImplItem::Type {
                attrs,
                ..
            } | ImplItem::Macro { attrs, .. } => {
                let wrap = start_outer_attrs(out, base_indent, attrs);
                let ghost mid = *out;
                let inner = self.inner_segs(out, base_indent);
                finish_attrs(
                    out,
                    wrap,
                    inner,
                    attrs,
                    Ghost(*base_indent),
                    Ghost(*old(out)),
                    Ghost(mid),
                )
            },
            ImplItem::Verbatim(_) | ImplItem::InnerAttr(_) => {
                let idx = self.inner_segs(out, base_indent);
                assert(attrs_text(self.attrs()) + self.inner_text() =~= self.inner_text());
                idx
            },
        }
    }

    /// A finished group for each of `list`, laid out at `indent`, for a
    /// block of the group of `sg`, with what each asks for in the way of
    /// spacing.
    fn build_entries(
        out: &mut MakeSegsState,
        indent: &Alignment,
        sg: &SplitGroupBuilder,
        list: &Vec<ImplItem>,
    ) -> (entries: Vec<StmtEntry>)
        requires
            old(out).wf(),
            sg.wf(old(out)),
        ensures
            final(out).wf(),
            sg.wf(final(out)),
            final(out).extends(old(out)),
            entries.len() == list.len(),
            all_finished(final(out), sg.node, entry_groups(entries@)),
            group_texts(final(out), entry_groups(entries@)) == ImplItem::texts(list@),
            forall|i: int|
                0 <= i < entries.len() ==> (#[trigger] entries[i]).margin == list[i].margin(),
            entry_margins(entries@) == ImplItem::margins(list@),
            final(out).doc(sg.node) == old(out).doc(sg.node),
            group_docs(final(out), entry_groups(entries@)) == ImplItem::all_built(
                list@,
                old(out).whitespaces@,
                *indent,
                old(out).config,
            ).docs,
            final(out).whitespaces@ == ImplItem::all_built(
                list@,
                old(out).whitespaces@,
                *indent,
                old(out).config,
            ).gaps,
            final(out).loose() == old(out).loose() + list@.len(),
        decreases list, 0int,
    {
        let mut entries: Vec<StmtEntry> = Vec::new();
        let mut i: usize = 0;
        assert(group_docs(out, entry_groups(entries@)) =~= Seq::<Doc>::empty());
        assert(group_texts(out, entry_groups(entries@)) =~= ImplItem::texts(list@.take(0)));
        while i < list.len()
            invariant
                out.loose() == old(out).loose() + i,
                i <= list.len(),
                entries.len() == i,
                out.wf(),
                sg.wf(out),
                out.extends(old(out)),
                all_finished(out, sg.node, entry_groups(entries@)),
                group_texts(out, entry_groups(entries@)) == ImplItem::texts(list@.take(i as int)),
                forall|j: int|
                    0 <= j < entries.len() ==> (#[trigger] entries[j]).margin == list[j].margin(),
                out.doc(sg.node) == old(out).doc(sg.node),
                group_docs(out, entry_groups(entries@)) == ImplItem::all_built(
                    list@.take(i as int),
                    old(out).whitespaces@,
                    *indent,
                    old(out).config,
                ).docs,
                out.whitespaces@ == ImplItem::all_built(
                    list@.take(i as int),
                    old(out).whitespaces@,
                    *indent,
                    old(out).config,
                ).gaps,
            decreases list.len() - i,
        {
            let ghost before = *out;
            let ghost groups = entry_groups(entries@);
            proof {
                assert(decreases_to!(list => list@));
                assert(decreases_to!(list@ => list@[i as int]));
            }
            let child = list[i].make_segs(out, indent);
            let margin = list[i].want_margin();
            entries.push(StmtEntry { group: child, margin });
            proof {
                assert(entry_groups(entries@) =~= groups.push(child));
                lemma_push_finished(&before, out, sg.node, groups, child);
                assert(out.nodes[sg.node.0 as int] == before.nodes[sg.node.0 as int]);
                assert(out.doc(sg.node) == before.doc(sg.node));
                crate::arena::lemma_grown_trans(out.nodes@, before.nodes@, old(out).nodes@);
                crate::arena::lemma_grown_trans(out.nodes@, before.nodes@, sg.start@);
                assert(list@.take(i + 1).drop_last() =~= list@.take(i as int));
                assert(list@.take(i + 1).last() == list@[i as int]);
            }
            i += 1;
        }
        assert(list@.take(i as int) =~= list@);
        assert(entry_margins(entries@) =~= ImplItem::margins(list@));
        entries
    }

    /// Adds a block of `list` in braces: see
    /// [`append_bracketed_statement_list`].
    fn append_block(
        out: &mut MakeSegsState,
        base_indent: &Alignment,
        sg: &mut SplitGroupBuilder,
        prefix_start: LineColumn,
        list: &Vec<ImplItem>,
        suffix_start: LineColumn,
    )
        requires
            old(out).wf(),
            old(sg).wf(old(out)),
        ensures
            *final(sg) == *old(sg),
            said(old(out), final(out), *old(sg), block_text(" {"@, ImplItem::texts(list@))),
            final(out).doc(old(sg).node).split == old(out).doc(old(sg).node).split,
            laid(final(out), old(sg).node) == laid(old(out), old(sg).node).block_of(
                *base_indent,
                prefix_start,
                ImplItem::margins(list@),
                ImplItem::all_built(
                    list@,
                    old(out).whitespaces@,
                    base_indent.deeper(),
                    old(out).config,
                ),
                suffix_start,
            ),
        decreases list, 1int,
    {
        let entries = ImplItem::build_entries(out, &base_indent.indent(), sg, list);
        assert(code_text(out.doc(sg.node)) == code_text(old(out).doc(sg.node)));
        assert(laid(out, sg.node) == laid(old(out), sg.node).with_gaps(out.whitespaces@));
        append_bracketed_statement_list(
            out,
            base_indent,
            sg,
            prefix_start,
            " {",
            &entries,
            suffix_start,
        );
    }
}

impl TraitItem {
    /// The attributes of the item.
    pub open spec fn attrs(self) -> Seq<Syntax> {
        match self {
            TraitItem::Const { attrs, .. } => attrs@,
            TraitItem::Method { attrs, .. } => attrs@,
            TraitItem::Type { attrs, .. } => attrs@,
            TraitItem::Macro { attrs, .. } => attrs@,
            TraitItem::Verbatim(_) | TraitItem::InnerAttr(_) => no_attrs(),
        }
    }

    /// What a default says behind its equals sign, if there is one.
    pub open spec fn default_text(default: Option<(LineColumn, Syntax)>) -> Seq<char> {
        match default {
            Some(d) => " ="@ + " "@ + d.1.text(),
            None => Seq::empty(),
        }
    }

    /// What the body of a method says: the block, or a semicolon where
    /// there is none.
    pub open spec fn body_text(default: Option<Block>) -> Seq<char>
        decreases default,
    {
        match default {
            Some(b) => b.text(),
            None => ";"@,
        }
    }

    /// What the item says behind its attributes.
    pub open spec fn inner_text(self) -> Seq<char>
        decreases self, 0int,
    {
        match self {
            TraitItem::Const { default, .. } => self.base_text() + TraitItem::default_text(
                default,
            ) + ";"@,
            TraitItem::Method { sig, default, .. } => sig.text() + TraitItem::body_text(default),
            TraitItem::Type { default, .. } => self.base_text() + TraitItem::default_text(
                default,
            ) + ";"@,
            TraitItem::Macro { mac, semi, .. } => macro_text(mac, semi),
            TraitItem::Verbatim(x) | TraitItem::InnerAttr(x) => x.text(),
        }
    }

    /// What the item says.
    pub open spec fn text(self) -> Seq<char>
        decreases self, 1int,
    {
        attrs_text(self.attrs()) + self.inner_text()
    }

    /// What each of a list says.
    pub open spec fn texts(list: Seq<TraitItem>) -> Seq<Seq<char>>
        decreases list,
    {
        if list.len() == 0 {
            Seq::empty()
        } else {
            TraitItem::texts(list.drop_last()).push(list.last().text())
        }
    }

    /// The bounds of an associated type have become entries behind their
    /// colon, if it has one.
    pub open spec fn colon_bounds_onto(
        l: Laid,
        base_indent: Alignment,
        colon_loc: Option<LineColumn>,
        bounds: Seq<Pair<Syntax>>,
    ) -> Laid {
        match colon_loc {
            Some(c) => bounds_onto(l.gap(c, base_indent), base_indent, ":"@, bounds),
            None => l,
        }
    }

    /// What stands behind the name of an associated type says: the
    /// parameters, the bounds behind their colon, and the where clause.
    pub open spec fn type_bounds_text(
        generics: Generics,
        colon_loc: Option<LineColumn>,
        bounds: Seq<Pair<Syntax>>,
    ) -> Seq<char> {
        text_if(generics.params@.len() > 0, generics.params_text()) + text_if(
            colon_loc is Some,
            ":"@ + " "@ + bounds_text(bounds),
        ) + generics.where_text()
    }

    /// What stands behind the name of an associated type has become
    /// entries: the parameters, the bounds behind their colon, and the
    /// where clause.
    pub open spec fn type_bounds_onto(
        l: Laid,
        base_indent: Alignment,
        generics: Generics,
        colon_loc: Option<LineColumn>,
        bounds: Seq<Pair<Syntax>>,
        split_where: bool,
    ) -> Laid {
        generics.where_onto(
            TraitItem::colon_bounds_onto(
                generics.params_onto(l, base_indent),
                base_indent,
                colon_loc,
                bounds,
            ),
            base_indent,
            split_where,
        )
    }

    /// The body of a method has become entries: the block as a group of
    /// its own, or a semicolon where there is none.
    pub open spec fn body_onto(
        l: Laid,
        base_indent: Alignment,
        default: Option<Block>,
        semi_loc: LineColumn,
        config: FormatConfig,
    ) -> Laid
        decreases default,
    {
        match default {
            Some(b) => b.nested_onto(l, base_indent, config),
            None => l.token(semi_loc, base_indent, ";"@),
        }
    }

    /// The default of a constant or of a type, if the item is one.
    pub open spec fn default_of(self) -> Option<(LineColumn, Syntax)> {
        match self {
            TraitItem::Const { default, .. } => default,
            TraitItem::Type { default, .. } => default,
            _ => None,
        }
    }

    /// What a constant or a type says in front of its default.
    pub open spec fn base_text(self) -> Seq<char> {
        match self {
            TraitItem::Const { ident, ty, .. } => "const "@ + ident.text@ + ":"@ + " "@ + ty.text(),
            TraitItem::Type { ident, generics, colon_loc, bounds, .. } => "type "@ + ident.text@
                + TraitItem::type_bounds_text(generics, colon_loc, bounds@),
            _ => Seq::empty(),
        }
    }

    /// The group for a constant or a type without its default.
    pub open spec fn base_built(self, gaps: Seq<Gap>, base_indent: Alignment, split_where: bool)
        -> Built {
        let start = Laid::start(gaps);
        match self {
            TraitItem::Const { colon_loc, const_loc, ident, ty, .. } => start.gap(
                const_loc,
                base_indent,
            ).text(SegmentMode::All, "const "@).token(ident.loc, base_indent, ident.text@).gap(
                colon_loc,
                base_indent,
            ).binary_syntax(
                base_indent,
                ":"@,
                ty,
            ).built(false),
            TraitItem::Type { type_loc, ident, generics, colon_loc, bounds, .. } => {
                TraitItem::type_bounds_onto(
                    start.gap(type_loc, base_indent)
                        .text(SegmentMode::All, "type "@)
                        .token(ident.loc, base_indent, ident.text@),
                    base_indent,
                    generics,
                    colon_loc,
                    bounds@,
                    split_where,
                ).built(false)
            },
            _ => start.built(false),
        }
    }

    /// The group for a constant or a type with its default: without a
    /// default the group of [`TraitItem::base_built`]; else a group that
    /// holds that group and, behind the gap in front of the equals sign,
    /// the default as the right side of a binary form.
    pub open spec fn valued_built(self, gaps: Seq<Gap>, base_indent: Alignment, split_where: bool)
        -> Built {
        match self.default_of() {
            Some(d) => Laid::start(gaps).child_built(
                self.base_built(gaps, base_indent, split_where),
            ).gap(d.0, base_indent).binary_syntax(base_indent, " ="@, d.1).built(false),
            None => self.base_built(gaps, base_indent, split_where),
        }
    }

    /// The group for the item behind its attributes.
    pub open spec fn inner_built(self, gaps: Seq<Gap>, base_indent: Alignment, config: FormatConfig)
        -> Built
        decreases self, 0int,
    {
        let start = Laid::start(gaps);
        match self {
            TraitItem::Const { semi_loc, .. } => start.child_built(
                self.valued_built(gaps, base_indent, config.split_where),
            ).token(semi_loc, base_indent, ";"@).built(false),
            TraitItem::Method { sig, default, semi_loc, .. } => TraitItem::body_onto(
                sig.nested_onto(start, base_indent, config),
                base_indent,
                default,
                semi_loc,
                config,
            ).built(false),
            TraitItem::Type { semi_loc, .. } => start.child_built(
                self.valued_built(gaps, base_indent, config.split_where),
            ).token(semi_loc, base_indent, ";"@).built(false),
            TraitItem::Macro { mac, semi, .. } => mac.nested_onto(start, base_indent, semi).built(
                false,
            ),
            TraitItem::Verbatim(x) | TraitItem::InnerAttr(x) => x.laid_onto(
                start,
                base_indent,
            ).built(false),
        }
    }

    /// The group for the item.
    pub open spec fn built(self, gaps: Seq<Gap>, base_indent: Alignment, config: FormatConfig)
        -> Built
        decreases self, 1int,
    {
        let attrs = attrs_laid(gaps, base_indent, self.attrs());
        with_attributes(
            attrs,
            self.attrs().len(),
            self.inner_built(attrs.gaps, base_indent, config),
            config.split_attributes,
        )
    }

    /// The groups for the items of a list, built one after the other and
    /// laid out at `indent`.
    pub open spec fn all_built(
        list: Seq<TraitItem>,
        gaps: Seq<Gap>,
        indent: Alignment,
        config: FormatConfig,
    ) -> BuiltAll
        decreases list,
    {
        if list.len() == 0 {
            BuiltAll::none(gaps)
        } else {
            let before = TraitItem::all_built(list.drop_last(), gaps, indent, config);
            before.and(list.last().built(before.gaps, indent, config))
        }
    }

    /// What each of a list asks for in the way of spacing.
    pub open spec fn margins(list: Seq<TraitItem>) -> Seq<Margin> {
        Seq::new(list.len(), |i: int| list[i].margin())
    }

    /// Whether the group of the item behind its attributes is built with
    /// its children reversed, so that the body is looked at first where
    /// it is asked whether the group must split: if the item is a method
    /// with a body.
    pub open spec fn reverses(self) -> bool {
        match self {
            TraitItem::Method { default, .. } => default is Some,
            _ => false,
        }
    }

    /// What the item asks for in the way of spacing: methods are
    /// declarations, with a body where they have a default; macro calls
    /// are declarations with a body.
    pub open spec fn margin(self) -> Margin {
        match self {
            TraitItem::Method { default, .. } => (MarginGroup::BlockDef, default is Some),
            TraitItem::Macro { .. } => (MarginGroup::BlockDef, true),
            TraitItem::InnerAttr(_) => (MarginGroup::Attr, false),
            _ => (MarginGroup::Plain, false),
        }
    }

    /// What the item asks for in the way of spacing.
    pub fn want_margin(&self) -> (m: Margin)
        ensures
            m == self.margin(),
    {
        match self {
            TraitItem::Const { .. } => (MarginGroup::Plain, false),
            TraitItem::Method { default, .. } => (MarginGroup::BlockDef, default.is_some()),
            TraitItem::Type { .. } => (MarginGroup::Plain, false),
            TraitItem::Macro { .. } => (MarginGroup::BlockDef, true),
            TraitItem::Verbatim(_) => (MarginGroup::Plain, false),
            TraitItem::InnerAttr(_) => (MarginGroup::Attr, false),
        }
    }

    /// Whether the item has attributes.
    pub fn has_attrs(&self) -> (b: bool)
        ensures
            b == (self.attrs().len() > 0),
    {
        match self {
            TraitItem::Const { attrs, .. } => attrs.len() > 0,
            TraitItem::Method { attrs, .. } => attrs.len() > 0,
            TraitItem::Type { attrs, .. } => attrs.len() > 0,
            TraitItem::Macro { attrs, .. } => attrs.len() > 0,
            TraitItem::Verbatim(_) | TraitItem::InnerAttr(_) => false,
        }
    }

    /// Adds the bounds of an associated type behind their colon, if it has
    /// one.
    fn append_colon_bounds(
        out: &mut MakeSegsState,
        base_indent: &Alignment,
        sg: &mut SplitGroupBuilder,
        colon_loc: Option<LineColumn>,
        bounds: &Vec<Pair<Syntax>>,
    )
        requires
            old(out).wf(),
            old(sg).wf(old(out)),
        ensures
            *final(sg) == *old(sg),
            said(
                old(out),
                final(out),
                *old(sg),
                text_if(colon_loc is Some, ":"@ + " "@ + bounds_text(bounds@)),
            ),
            final(out).doc(old(sg).node).split == old(out).doc(old(sg).node).split,
            laid(final(out), old(sg).node) == TraitItem::colon_bounds_onto(
                laid(old(out), old(sg).node),
                *base_indent,
                colon_loc,
                bounds@,
            ),
    {
        match colon_loc {
            Some(c) => {
                append_whitespace(out, base_indent, sg, c);
                append_binary_bounds(out, base_indent, sg, ":", bounds);
            },
            None => {
                assert(code_text(out.doc(sg.node)) + text_if(
                    colon_loc is Some,
                    ":"@ + " "@ + bounds_text(bounds@),
                ) =~= code_text(out.doc(sg.node)));
            },
        }
    }

    /// Adds what stands behind the name of an associated type: the
    /// parameters, the bounds behind their colon, and the where clause.
    fn append_type_bounds(
        out: &mut MakeSegsState,
        base_indent: &Alignment,
        sg: &mut SplitGroupBuilder,
        generics: &crate::syntax::Generics,
        colon_loc: Option<LineColumn>,
        bounds: &Vec<Pair<Syntax>>,
    )
        requires
            old(out).wf(),
            old(sg).wf(old(out)),
        ensures
            *final(sg) == *old(sg),
            said(
                old(out),
                final(out),
                *old(sg),
                TraitItem::type_bounds_text(*generics, colon_loc, bounds@),
            ),
            final(out).doc(old(sg).node).split == old(out).doc(old(sg).node).split,
            laid(final(out), old(sg).node) == TraitItem::type_bounds_onto(
                laid(old(out), old(sg).node),
                *base_indent,
                *generics,
                colon_loc,
                bounds@,
                old(out).config.split_where,
            ),
    {
        let ghost base = code_text(out.doc(sg.node));
        let ghost p = text_if(generics.params@.len() > 0, generics.params_text());
        let ghost q = text_if(colon_loc is Some, ":"@ + " "@ + bounds_text(bounds@));
        append_params(out, base_indent, sg, generics);
        TraitItem::append_colon_bounds(out, base_indent, sg, colon_loc, bounds);
        proof {
            lemma_join_assoc(base, p, q);
        }
        append_where(out, base_indent, sg, generics);
        proof {
            lemma_join_assoc(base, p + q, generics.where_text());
        }
    }

    /// A finished group for a constant or a type without its default.
    fn base_segs(&self, out: &mut MakeSegsState, base_indent: &Alignment) -> (idx: SplitGroupIdx)
        requires
            old(out).wf(),
            self is Const || self is Type,
        ensures
            made(old(out), final(out), idx, self.base_text()),
            built_as(
                final(out),
                idx,
                self.base_built(old(out).whitespaces@, *base_indent, old(out).config.split_where),
            ),
    {
        let mut sg = new_sg(out);
        assert(laid(out, sg.node) =~= Laid::start(old(out).whitespaces@));
        match self {
            TraitItem::Const { colon_loc, const_loc, ident, ty, .. } => {
                append_whitespace(out, base_indent, &mut sg, *const_loc);
                sg.seg(out, "const ");
                append_token(out, base_indent, &mut sg, ident.loc, ident.text.as_str());
                append_whitespace(out, base_indent, &mut sg, *colon_loc);
                append_binary_syntax(out, base_indent, &mut sg, ":", ty);
                assert(code_text(out.doc(sg.node)) =~= self.base_text());
            },
            TraitItem::Type { type_loc, ident, generics, colon_loc, bounds, .. } => {
                append_whitespace(out, base_indent, &mut sg, *type_loc);
                sg.seg(out, "type ");
                append_token(out, base_indent, &mut sg, ident.loc, ident.text.as_str());
                TraitItem::append_type_bounds(
                    out,
                    base_indent,
                    &mut sg,
                    generics,
                    *colon_loc,
                    bounds,
                );
                assert(code_text(out.doc(sg.node)) =~= self.base_text());
            },
            _ => {},
        }
        assert(sg.wf(out));
        sg.build(out)
    }

    /// A finished group for a constant or a type with its default: see
    /// [`TraitItem::valued_built`].
    fn valued_segs(&self, out: &mut MakeSegsState, base_indent: &Alignment) -> (idx:
        SplitGroupIdx)
        requires
            old(out).wf(),
            self is Const || self is Type,
        ensures
            made(
                old(out),
                final(out),
                idx,
                self.base_text() + TraitItem::default_text(self.default_of()),
            ),
            !final(out).doc(idx).split,
            built_as(
                final(out),
                idx,
                self.valued_built(old(out).whitespaces@, *base_indent, old(out).config.split_where),
            ),
    {
        let default = match self {
            TraitItem::Const { default, .. } => default,
            TraitItem::Type { default, .. } => default,
            _ => &None,
        };
        match default {
            Some(d) => {
                let mut sg = new_sg(out);
                assert(laid(out, sg.node) =~= Laid::start(old(out).whitespaces@));
                let ghost fresh = *out;
                let base = self.base_segs(out, base_indent);
                assert(sg.wf(out));
                assert(out.nodes[sg.node.0 as int] == fresh.nodes[sg.node.0 as int]);
                assert(out.doc(sg.node) == fresh.doc(sg.node));
                sg.child(out, base);
                assert(code_text(out.doc(sg.node)) =~= self.base_text());
                append_whitespace(out, base_indent, &mut sg, d.0);
                append_binary_syntax(out, base_indent, &mut sg, " =", &d.1);
                sg.build(out)
            },
            None => {
                let idx = self.base_segs(out, base_indent);
                assert(self.base_text() + TraitItem::default_text(self.default_of())
                    =~= self.base_text());
                idx
            },
        }
    }

    /// A finished group, behind its attributes, for this kind of item.
    fn constant_segs(&self, out: &mut MakeSegsState, base_indent: &Alignment) -> (idx:
        SplitGroupIdx)
        requires
            old(out).wf(),
            self is Const,
        ensures
            made(old(out), final(out), idx, self.inner_text()),
            !final(out).doc(idx).split,
            built_as(
                final(out),
                idx,
                self.inner_built(old(out).whitespaces@, *base_indent, old(out).config),
            ),
            final(out).nodes[idx.0 as int].reversed == self.reverses(),
        decreases self, 0int,
    {
        let mut sg = new_sg(out);
        assert(laid(out, sg.node) =~= Laid::start(old(out).whitespaces@));
        let ghost fresh = *out;
        match self {
            TraitItem::Const { semi_loc, .. } => {
                let valued = self.valued_segs(out, base_indent);
                assert(sg.wf(out));
                assert(out.nodes[sg.node.0 as int] == fresh.nodes[sg.node.0 as int]);
                assert(out.doc(sg.node) == fresh.doc(sg.node));
                sg.child(out, valued);
                assert(code_text(out.doc(sg.node)) =~= self.base_text() + TraitItem::default_text(
                    self.default_of(),
                ));
                append_token(out, base_indent, &mut sg, *semi_loc, ";");
                assert(code_text(out.doc(sg.node)) == self.inner_text());
            },
            _ => {},
        }
        assert(sg.wf(out));
        sg.build(out)
    }

    /// A finished group, behind its attributes, for this kind of item.
    fn method_segs(&self, out: &mut MakeSegsState, base_indent: &Alignment) -> (idx: SplitGroupIdx)
        requires
            old(out).wf(),
            self is Method,
        ensures
            made(old(out), final(out), idx, self.inner_text()),
            !final(out).doc(idx).split,
            built_as(
                final(out),
                idx,
                self.inner_built(old(out).whitespaces@, *base_indent, old(out).config),
            ),
            final(out).nodes[idx.0 as int].reversed == self.reverses(),
        decreases self, 0int,
    {
        let mut sg = new_sg(out);
        assert(laid(out, sg.node) =~= Laid::start(old(out).whitespaces@));
        match self {
            TraitItem::Method { sig, default, semi_loc, .. } => {
                append_sig(out, base_indent, &mut sg, sig);
                match default {
                    Some(d) => {
                        d.append(out, base_indent, &mut sg);
                        sg.reverse_children();
                    },
                    None => {
                        append_token(out, base_indent, &mut sg, *semi_loc, ";");
                    },
                }
                assert(sg.wf(out));
                assert(code_text(out.doc(sg.node)) =~= self.inner_text());
            },
            _ => {},
        }
        assert(sg.wf(out));
        sg.build(out)
    }

    /// A finished group, behind its attributes, for this kind of item.
    fn type_alias_segs(&self, out: &mut MakeSegsState, base_indent: &Alignment) -> (idx:
        SplitGroupIdx)
        requires
            old(out).wf(),
            self is Type,
        ensures
            made(old(out), final(out), idx, self.inner_text()),
            !final(out).doc(idx).split,
            built_as(
                final(out),
                idx,
                self.inner_built(old(out).whitespaces@, *base_indent, old(out).config),
            ),
            final(out).nodes[idx.0 as int].reversed == self.reverses(),
        decreases self, 0int,
    {
        let mut sg = new_sg(out);
        assert(laid(out, sg.node) =~= Laid::start(old(out).whitespaces@));
        let ghost fresh = *out;
        match self {
            TraitItem::Type { semi_loc, .. } => {
                let valued = self.valued_segs(out, base_indent);
                assert(sg.wf(out));
                assert(out.nodes[sg.node.0 as int] == fresh.nodes[sg.node.0 as int]);
                assert(out.doc(sg.node) == fresh.doc(sg.node));
                sg.child(out, valued);
                assert(code_text(out.doc(sg.node)) =~= self.base_text() + TraitItem::default_text(
                    self.default_of(),
                ));
                append_token(out, base_indent, &mut sg, *semi_loc, ";");
                assert(code_text(out.doc(sg.node)) == self.inner_text());
            },
            _ => {},
        }
        assert(sg.wf(out));
        sg.build(out)
    }

    /// A finished group, behind its attributes, for this kind of item.
    fn macro_call_segs(&self, out: &mut MakeSegsState, base_indent: &Alignment) -> (idx:
        SplitGroupIdx)
        requires
            old(out).wf(),
            self is Macro,
        ensures
            made(old(out), final(out), idx, self.inner_text()),
            !final(out).doc(idx).split,
            built_as(
                final(out),
                idx,
                self.inner_built(old(out).whitespaces@, *base_indent, old(out).config),
            ),
            final(out).nodes[idx.0 as int].reversed == self.reverses(),
        decreases self, 0int,
    {
        let mut sg = new_sg(out);
        assert(laid(out, sg.node) =~= Laid::start(old(out).whitespaces@));
        match self {
            TraitItem::Macro { mac, semi, .. } => {
                append_macro(out, base_indent, &mut sg, mac, *semi);
                assert(code_text(out.doc(sg.node)) =~= self.inner_text());
            },
            _ => {},
        }
        assert(sg.wf(out));
        sg.build(out)
    }

    /// A finished group, behind its attributes, for this kind of item.
    fn verbatim_segs(&self, out: &mut MakeSegsState, base_indent: &Alignment) -> (idx:
        SplitGroupIdx)
        requires
            old(out).wf(),
            self is Verbatim || self is InnerAttr,
        ensures
            made(old(out), final(out), idx, self.inner_text()),
            !final(out).doc(idx).split,
            built_as(
                final(out),
                idx,
                self.inner_built(old(out).whitespaces@, *base_indent, old(out).config),
            ),
            final(out).nodes[idx.0 as int].reversed == self.reverses(),
        decreases self, 0int,
    {
        let mut sg = new_sg(out);
        assert(laid(out, sg.node) =~= Laid::start(old(out).whitespaces@));
        match self {
            TraitItem::Verbatim(x) | TraitItem::InnerAttr(x) => {
                append_macro_body(out, base_indent, &mut sg, x);
                assert(code_text(out.doc(sg.node)) =~= self.inner_text());
            },
            _ => {},
        }
        assert(sg.wf(out));
        sg.build(out)
    }

    /// A finished group for the item behind its attributes.
    fn inner_segs(&self, out: &mut MakeSegsState, base_indent: &Alignment) -> (idx: SplitGroupIdx)
        requires
            old(out).wf(),
        ensures
            made(old(out), final(out), idx, self.inner_text()),
            built_as(
                final(out),
                idx,
                self.inner_built(old(out).whitespaces@, *base_indent, old(out).config),
            ),
            final(out).nodes[idx.0 as int].reversed == self.reverses(),
        decreases self, 1int,
    {
        match self {
            TraitItem::Const { .. } => self.constant_segs(out, base_indent),
            TraitItem::Method { .. } => self.method_segs(out, base_indent),
            TraitItem::Type { .. } => self.type_alias_segs(out, base_indent),
            TraitItem::Macro { .. } => self.macro_call_segs(out, base_indent),
            TraitItem::Verbatim(_) | TraitItem::InnerAttr(_) => self.verbatim_segs(out, base_indent),
        }
    }

    /// A finished group for the item.
    pub fn make_segs(&self, out: &mut MakeSegsState, base_indent: &Alignment) -> (idx:
        SplitGroupIdx)
        requires
            old(out).wf(),
        ensures
            made(old(out), final(out), idx, self.text()),
            built_as(
                final(out),
                idx,
                self.built(old(out).whitespaces@, *base_indent, old(out).config),
            ),
            self.attrs().len() == 0 ==> final(out).nodes[idx.0 as int].reversed == self.reverses(),
        decreases self, 2int,
    {
        match self {
            TraitItem::Const { attrs, .. } | TraitItem::Method { attrs, .. } | TraitItem::Type {
                attrs,
                ..
            } | TraitItem::Macro { attrs, .. } => {
                let wrap = start_outer_attrs(out, base_indent, attrs);
                let ghost mid = *out;
                let inner = self.inner_segs(out, base_indent);
                finish_attrs(
                    out,
                    wrap,
                    inner,
                    attrs,
                    Ghost(*base_indent),
                    Ghost(*old(out)),
                    Ghost(mid),
                )
            },
            TraitItem::Verbatim(_) | TraitItem::InnerAttr(_) => {
                let idx = self.inner_segs(out, base_indent);
                assert(attrs_text(self.attrs()) + self.inner_text() =~= self.inner_text());
                idx
            },
        }
    }

    /// A finished group for each of `list`, laid out at `indent`, for a
    /// block of the group of `sg`, with what each asks for in the way of
    /// spacing.
    fn build_entries(
        out: &mut MakeSegsState,
        indent: &Alignment,
        sg: &SplitGroupBuilder,
        list: &Vec<TraitItem>,
    ) -> (entries: Vec<StmtEntry>)
        requires
            old(out).wf(),
            sg.wf(old(out)),
        ensures
            final(out).wf(),
            sg.wf(final(out)),
            final(out).extends(old(out)),
            entries.len() == list.len(),
            all_finished(final(out), sg.node, entry_groups(entries@)),
            group_texts(final(out), entry_groups(entries@)) == TraitItem::texts(list@),
            forall|i: int|
                0 <= i < entries.len() ==> (#[trigger] entries[i]).margin == list[i].margin(),
            entry_margins(entries@) == TraitItem::margins(list@),
            final(out).doc(sg.node) == old(out).doc(sg.node),
            group_docs(final(out), entry_groups(entries@)) == TraitItem::all_built(
                list@,
                old(out).whitespaces@,
                *indent,
                old(out).config,
            ).docs,
            final(out).whitespaces@ == TraitItem::all_built(
                list@,
                old(out).whitespaces@,
                *indent,
                old(out).config,
            ).gaps,
            final(out).loose() == old(out).loose() + list@.len(),
        decreases list, 0int,
    {
        let mut entries: Vec<StmtEntry> = Vec::new();
        let mut i: usize = 0;
        assert(group_docs(out, entry_groups(entries@)) =~= Seq::<Doc>::empty());
        assert(group_texts(out, entry_groups(entries@)) =~= TraitItem::texts(list@.take(0)));
        while i < list.len()
            invariant
                out.loose() == old(out).loose() + i,
                i <= list.len(),
                entries.len() == i,
                out.wf(),
                sg.wf(out),
                out.extends(old(out)),
                all_finished(out, sg.node, entry_groups(entries@)),
                group_texts(out, entry_groups(entries@)) == TraitItem::texts(list@.take(i as int)),
                forall|j: int|
                    0 <= j < entries.len() ==> (#[trigger] entries[j]).margin == list[j].margin(),
                out.doc(sg.node) == old(out).doc(sg.node),
                group_docs(out, entry_groups(entries@)) == TraitItem::all_built(
                    list@.take(i as int),
                    old(out).whitespaces@,
                    *indent,
                    old(out).config,
                ).docs,
                out.whitespaces@ == TraitItem::all_built(
                    list@.take(i as int),
                    old(out).whitespaces@,
                    *indent,
                    old(out).config,
                ).gaps,
            decreases list.len() - i,
        {
            let ghost before = *out;
            let ghost groups = entry_groups(entries@);
            proof {
                assert(decreases_to!(list => list@));
                assert(decreases_to!(list@ => list@[i as int]));
            }
            let child = list[i].make_segs(out, indent);
            let margin = list[i].want_margin();
            entries.push(StmtEntry { group: child, margin });
            proof {
                assert(entry_groups(entries@) =~= groups.push(child));
                lemma_push_finished(&before, out, sg.node, groups, child);
                assert(out.nodes[sg.node.0 as int] == before.nodes[sg.node.0 as int]);
                assert(out.doc(sg.node) == before.doc(sg.node));
                crate::arena::lemma_grown_trans(out.nodes@, before.nodes@, old(out).nodes@);
                crate::arena::lemma_grown_trans(out.nodes@, before.nodes@, sg.start@);
                assert(list@.take(i + 1).drop_last() =~= list@.take(i as int));
                assert(list@.take(i + 1).last() == list@[i as int]);
            }
            i += 1;
        }
        assert(list@.take(i as int) =~= list@);
        assert(entry_margins(entries@) =~= TraitItem::margins(list@));
        entries
    }

    /// Adds a block of `list` in braces: see
    /// [`append_bracketed_statement_list`].
    fn append_block(
        out: &mut MakeSegsState,
        base_indent: &Alignment,
        sg: &mut SplitGroupBuilder,
        prefix_start: LineColumn,
        list: &Vec<TraitItem>,
        suffix_start: LineColumn,
    )
        requires
            old(out).wf(),
            old(sg).wf(old(out)),
        ensures
            *final(sg) == *old(sg),
            said(old(out), final(out), *old(sg), block_text(" {"@, TraitItem::texts(list@))),
            final(out).doc(old(sg).node).split == old(out).doc(old(sg).node).split,
            laid(final(out), old(sg).node) == laid(old(out), old(sg).node).block_of(
                *base_indent,
                prefix_start,
                TraitItem::margins(list@),
                TraitItem::all_built(
                    list@,
                    old(out).whitespaces@,
                    base_indent.deeper(),
                    old(out).config,
                ),
                suffix_start,
            ),
        decreases list, 1int,
    {
        let entries = TraitItem::build_entries(out, &base_indent.indent(), sg, list);
        assert(code_text(out.doc(sg.node)) == code_text(old(out).doc(sg.node)));
        assert(laid(out, sg.node) == laid(old(out), sg.node).with_gaps(out.whitespaces@));
        append_bracketed_statement_list(
            out,
            base_indent,
            sg,
            prefix_start,
            " {",
            &entries,
            suffix_start,
        );
    }
}

/// Adds a use tree as a group of its own.
fn append_use_tree(
    out: &mut MakeSegsState,
    base_indent: &Alignment,
    sg: &mut SplitGroupBuilder,
    tree: &UseTree,
)
    requires
        old(out).wf(),
        old(sg).wf(old(out)),
    ensures
        *final(sg) == *old(sg),
        said(old(out), final(out), *old(sg), tree.text()),
        final(out).doc(old(sg).node).split == old(out).doc(old(sg).node).split,
        laid(final(out), old(sg).node) == tree.nested_onto(
            laid(old(out), old(sg).node),
            *base_indent,
            old(out).config.split_brace_threshold,
        ),
{
    let child = tree.make_segs(out, base_indent);
    assert(sg.wf(out));
    assert(out.nodes[sg.node.0 as int] == old(out).nodes[sg.node.0 as int]);
    assert(out.doc(sg.node) == old(out).doc(sg.node));
    sg.child(out, child);
}

/// Adds the where clause of `generics` as a group of its own, if there is
/// one.
fn append_where(
    out: &mut MakeSegsState,
    base_indent: &Alignment,
    sg: &mut SplitGroupBuilder,
    generics: &Generics,
)
    requires
        old(out).wf(),
        old(sg).wf(old(out)),
    ensures
        *final(sg) == *old(sg),
        said(old(out), final(out), *old(sg), generics.where_text()),
        final(out).doc(old(sg).node).split == old(out).doc(old(sg).node).split,
        laid(final(out), old(sg).node) == generics.where_onto(
            laid(old(out), old(sg).node),
            *base_indent,
            old(out).config.split_where,
        ),
{
    match &generics.where_clause {
        Some(wh) => {
            let b = build_generics_part_b(out, base_indent, wh);
            assert(sg.wf(out));
            assert(out.nodes[sg.node.0 as int] == old(out).nodes[sg.node.0 as int]);
            assert(out.doc(sg.node) == old(out).doc(sg.node));
            assert(code_text(out.doc(sg.node)) == code_text(old(out).doc(sg.node)));
            sg.child(out, b);
        },
        None => {},
    }
    assert(sg.wf(out));
    assert(code_text(out.doc(sg.node)) =~= code_text(old(out).doc(sg.node))
        + generics.where_text());
}

/// Adds the parameters of `generics` as a group of its own, if there are
/// any.
fn append_params(
    out: &mut MakeSegsState,
    base_indent: &Alignment,
    sg: &mut SplitGroupBuilder,
    generics: &Generics,
)
    requires
        old(out).wf(),
        old(sg).wf(old(out)),
    ensures
        *final(sg) == *old(sg),
        said(
            old(out),
            final(out),
            *old(sg),
            text_if(generics.params@.len() > 0, generics.params_text()),
        ),
        final(out).doc(old(sg).node).split == old(out).doc(old(sg).node).split,
        laid(final(out), old(sg).node) == generics.params_onto(
            laid(old(out), old(sg).node),
            *base_indent,
        ),
{
    if generics.params.len() > 0 {
        let a = build_generics_part_a(out, base_indent, generics);
        assert(sg.wf(out));
        assert(out.nodes[sg.node.0 as int] == old(out).nodes[sg.node.0 as int]);
        assert(out.doc(sg.node) == old(out).doc(sg.node));
        assert(code_text(out.doc(sg.node)) == code_text(old(out).doc(sg.node)));
        sg.child(out, a);
    }
    assert(sg.wf(out));
    assert(code_text(out.doc(sg.node)) =~= code_text(old(out).doc(sg.node)) + text_if(
        generics.params@.len() > 0,
        generics.params_text(),
    ));
}

/// What a struct says behind its name and parameters: named fields behind
/// the where clause; unnamed fields, the where clause and a semicolon; or
/// the where clause and a semicolon alone.
pub open spec fn struct_body_text(generics: Generics, fields: Fields) -> Seq<char> {
    match fields {
        Fields::Named { .. } => generics.where_text() + fields.text(),
        Fields::Unnamed { .. } => fields.text() + generics.where_text() + ";"@,
        Fields::Unit => generics.where_text() + ";"@,
    }
}

/// What the trait of an impl says, with the words that part it from the
/// type: nothing where the impl names no trait.
pub open spec fn impl_trait_text(negative: Option<LineColumn>, trait_: Option<Syntax>) -> Seq<
    char,
> {
    match trait_ {
        Some(p) => text_if(negative is Some, "!"@) + p.text() + " for "@,
        None => Seq::empty(),
    }
}

/// What an impl says up to the space behind its parameters.
pub open spec fn impl_intro_text(
    defaultness: Option<LineColumn>,
    unsafety: Option<LineColumn>,
    generics: Generics,
) -> Seq<char> {
    text_if(defaultness is Some, "default "@) + text_if(unsafety is Some, "unsafe "@) + "impl"@
        + text_if(generics.params@.len() > 0, generics.params_text()) + " "@
}

/// What a trait says in front of its name.
pub open spec fn trait_intro_text(
    vis: Visibility,
    unsafety: Option<LineColumn>,
    auto_token: Option<LineColumn>,
) -> Seq<char> {
    vis.text() + text_if(unsafety is Some, "unsafe "@) + text_if(auto_token is Some, "auto "@)
        + "trait "@
}

/// What the traits that a trait builds on say behind its name and
/// parameters.
pub open spec fn supers_text(colon: Option<LineColumn>, supertraits: Seq<Pair<Syntax>>) -> Seq<
    char,
> {
    text_if(colon is Some, ": "@ + bounds_text(supertraits))
}

/// What a rename says, if there is one.
pub open spec fn rename_text(rename: Option<(LineColumn, Token)>) -> Seq<char> {
    match rename {
        Some(r) => " as "@ + r.1.text@,
        None => Seq::empty(),
    }
}

/// What the name of a macro says behind the mark, if it has one.
pub open spec fn macro_name_text(ident: Option<Token>) -> Seq<char> {
    match ident {
        Some(n) => " "@ + n.text@,
        None => Seq::empty(),
    }
}

/// The new name of an `extern crate` has become entries, if there is one.
pub open spec fn rename_onto(
    l: Laid,
    base_indent: Alignment,
    rename: Option<(LineColumn, Token)>,
) -> Laid {
    match rename {
        Some(r) => l.token(r.0, base_indent, " as "@).token(r.1.loc, base_indent, r.1.text@),
        None => l,
    }
}

/// The name behind the `!` of a macro call has become entries, if there is
/// one.
pub open spec fn macro_name_onto(l: Laid, base_indent: Alignment, ident: Option<Token>) -> Laid {
    match ident {
        Some(n) => l.text(SegmentMode::All, " "@).token(n.loc, base_indent, n.text@),
        None => l,
    }
}

/// What stands behind the parameters of a struct has become entries: with
/// named fields the where clause and the fields; with unnamed fields the
/// fields, the where clause and the semicolon; without fields the where
/// clause and the semicolon.
pub open spec fn struct_body_onto(
    l: Laid,
    base_indent: Alignment,
    generics: Generics,
    fields: Fields,
    semi_loc: LineColumn,
    config: FormatConfig,
) -> Laid {
    match fields {
        Fields::Named { .. } => fields.onto(
            generics.where_onto(l, base_indent, config.split_where),
            base_indent,
            config.split_attributes,
        ),
        Fields::Unnamed { .. } => generics.where_onto(
            fields.onto(l, base_indent, config.split_attributes),
            base_indent,
            config.split_where,
        ).token(semi_loc, base_indent, ";"@),
        Fields::Unit => generics.where_onto(l, base_indent, config.split_where).token(
            semi_loc,
            base_indent,
            ";"@,
        ),
    }
}

/// What an impl says up to the space behind its parameters has become
/// entries: the gaps in front of its words first, then the words.
pub open spec fn impl_intro_onto(
    l: Laid,
    base_indent: Alignment,
    defaultness: Option<LineColumn>,
    unsafety: Option<LineColumn>,
    impl_loc: LineColumn,
    generics: Generics,
) -> Laid {
    generics.params_onto(
        l.gap_if(defaultness, base_indent).gap_if(unsafety, base_indent).gap(
            impl_loc,
            base_indent,
        ).text_when(defaultness is Some, "default "@).text_when(unsafety is Some, "unsafe "@).text(
            SegmentMode::All,
            "impl"@,
        ),
        base_indent,
    ).text(SegmentMode::All, " "@)
}

/// The trait of an impl has become entries, with the words that part it
/// from the type, if the impl is one of a trait.
pub open spec fn impl_trait_onto(
    l: Laid,
    base_indent: Alignment,
    negative: Option<LineColumn>,
    trait_: Option<Syntax>,
    for_loc: LineColumn,
) -> Laid {
    match trait_ {
        Some(p) => p.laid_onto(l.keyword(negative, base_indent, "!"@), base_indent).token(
            for_loc,
            base_indent,
            " for "@,
        ),
        None => l,
    }
}

/// What a trait says in front of its name has become entries: behind the
/// visibility the gaps in front of its words, then the words.
pub open spec fn trait_intro_onto(
    l: Laid,
    base_indent: Alignment,
    vis: Visibility,
    unsafety: Option<LineColumn>,
    auto_token: Option<LineColumn>,
    trait_loc: LineColumn,
) -> Laid {
    vis.onto(l, base_indent).gap_if(unsafety, base_indent).gap_if(auto_token, base_indent).gap(
        trait_loc,
        base_indent,
    ).text_when(unsafety is Some, "unsafe "@).text_when(auto_token is Some, "auto "@).text(
        SegmentMode::All,
        "trait "@,
    )
}

/// The supertraits have become entries behind their colon, with a plus
/// between them, if the trait has a colon.
pub open spec fn supers_onto(
    l: Laid,
    base_indent: Alignment,
    colon: Option<LineColumn>,
    supertraits: Seq<Pair<Syntax>>,
) -> Laid {
    match colon {
        Some(c) => l.token(c, base_indent, ": "@).inline_list(
            base_indent,
            " +"@,
            supertraits,
            supertraits.len(),
        ),
        None => l,
    }
}

/// What the name of the ABI of a foreign module says, if it has one.
pub open spec fn abi_name_text(abi_name: Option<Token>) -> Seq<char> {
    match abi_name {
        Some(n) => n.text@,
        None => Seq::empty(),
    }
}

/// The name of the ABI of a foreign module has become entries, if it has
/// one.
pub open spec fn abi_name_onto(l: Laid, base_indent: Alignment, abi_name: Option<Token>) -> Laid {
    match abi_name {
        Some(n) => l.token(n.loc, base_indent, n.text@),
        None => l,
    }
}

impl ModContent {
    /// What the content says.
    pub open spec fn text(self) -> Seq<char>
        decreases self,
    {
        block_text(" {"@, Item::texts(self.items@))
    }
}

impl Item {
    /// The attributes of the item.
    pub open spec fn attrs(self) -> Seq<Syntax> {
        match self {
            Item::Const { attrs, .. } => attrs@,
            Item::Enum { attrs, .. } => attrs@,
            Item::ExternCrate { attrs, .. } => attrs@,
            Item::Fn { attrs, .. } => attrs@,
            Item::ForeignMod { attrs, .. } => attrs@,
            Item::Impl { attrs, .. } => attrs@,
            Item::Macro { attrs, .. } => attrs@,
            Item::Macro2 { attrs, .. } => attrs@,
            Item::Mod { attrs, .. } => attrs@,
            Item::Static { attrs, .. } => attrs@,
            Item::Struct { attrs, .. } => attrs@,
            Item::Trait { attrs, .. } => attrs@,
            Item::TraitAlias { attrs, .. } => attrs@,
            Item::Type { attrs, .. } => attrs@,
            Item::Union { attrs, .. } => attrs@,
            Item::Use { attrs, .. } => attrs@,
            Item::Verbatim(_) | Item::InnerAttr(_) => no_attrs(),
        }
    }

    /// What the content of a module says: its declarations in braces, or a
    /// semicolon where it has none.
    pub open spec fn content_text(content: Option<ModContent>) -> Seq<char>
        decreases content,
    {
        match content {
            Some(c) => c.text(),
            None => ";"@,
        }
    }

    /// What the item says behind its attributes.
    pub open spec fn inner_text(self) -> Seq<char>
        decreases self, 0int,
    {
        match self {
            Item::Const { vis, ident, ty, expr, .. } => vis.text() + "const "@ + ident.text@ + ": "@
                + ty.text() + " ="@ + " "@ + expr.text() + ";"@,
            Item::Enum { vis, ident, generics, variants, .. } => vis.text() + "enum "@ + ident.text@
                + generics.text() + bracketed(" {"@, true, variant_texts(variants@), ","@, "}"@),
            Item::ExternCrate { vis, ident, rename, .. } => vis.text() + "extern crate "@ + ident.text@
                + rename_text(
                rename,
            ) + ";"@,
            Item::Fn { vis, sig, block, .. } => vis.text() + sig.text() + block.text(),
            Item::ForeignMod { abi_name, items, .. } => "extern "@ + abi_name_text(abi_name)
                + block_text(" {"@, ForeignItem::texts(items@)),
            Item::Impl {
                defaultness,
                unsafety,
                generics,
                negative,
                trait_,
                self_ty,
                items,
                ..
            } => impl_intro_text(defaultness, unsafety, generics) + impl_trait_text(
                negative,
                trait_,
            ) + self_ty.text() + generics.where_text() + block_text(
                " {"@,
                ImplItem::texts(items@),
            ),
            Item::Macro { ident, mac, semi, .. } => mac.path.text() + "!"@ + macro_name_text(ident)
                + mac.body_text() + text_if(semi is Some, ";"@),
            Item::Macro2 { vis, ident, rules, .. } => vis.text() + "macro "@ + ident.text@
                + rules.text(),
            Item::Mod { vis, ident, content, .. } => vis.text() + "mod "@ + ident.text@
                + Item::content_text(content),
            Item::Static { vis, mutability, ident, ty, expr, .. } => vis.text() + "static "@
                + text_if(mutability is Some, "mut "@) + ident.text@ + ": "@ + ty.text() + " ="@ + " "@
                + expr.text() + ";"@,
            Item::Struct { vis, ident, generics, fields, .. } => vis.text() + "struct "@ + ident.text@
                + text_if(generics.params@.len() > 0, generics.params_text()) + struct_body_text(
                generics,
                fields,
            ),
            Item::Trait {
                vis,
                unsafety,
                auto_token,
                ident,
                generics,
                colon,
                supertraits,
                items,
                ..
            } => trait_intro_text(vis, unsafety, auto_token) + ident.text@ + text_if(
                generics.params@.len() > 0,
                generics.params_text(),
            ) + supers_text(colon, supertraits@) + generics.where_text() + block_text(
                " {"@,
                TraitItem::texts(items@),
            ),
            Item::TraitAlias { vis, ident, generics, bounds, .. } => vis.text() + "trait "@
                + ident.text@ + generics.text() + " ="@ + " "@ + bounds_text(bounds@) + ";"@,
            Item::Type { vis, ident, generics, ty, .. } => vis.text() + "type "@ + ident.text@
                + generics.text() + " ="@ + " "@ + ty.text() + ";"@,
            Item::Union { vis, ident, generics, fields, .. } => vis.text() + "union "@ + ident.text@
                + generics.text() + bracketed(" {"@, true, field_texts(fields@), ","@, "}"@),
            Item::Use { vis, leading_colon, tree, .. } => vis.text() + "use "@ + text_if(
                leading_colon is Some,
                "::"@,
            ) + tree.text() + ";"@,
            Item::Verbatim(x) | Item::InnerAttr(x) => x.text(),
        }
    }

    /// What the item says.
    pub open spec fn text(self) -> Seq<char>
        decreases self, 1int,
    {
        attrs_text(self.attrs()) + self.inner_text()
    }

    /// What each of a list says.
    pub open spec fn texts(list: Seq<Item>) -> Seq<Seq<char>>
        decreases list,
    {
        if list.len() == 0 {
            Seq::empty()
        } else {
            Item::texts(list.drop_last()).push(list.last().text())
        }
    }

    /// What stands behind the name of a module has become entries: its
    /// declarations as a block, or a semicolon where the module stands in
    /// a file of its own.
    pub open spec fn content_onto(
        l: Laid,
        base_indent: Alignment,
        content: Option<ModContent>,
        semi_loc: LineColumn,
        config: FormatConfig,
    ) -> Laid
        decreases content,
    {
        match content {
            Some(c) => l.block_of(
                base_indent,
                c.brace_start,
                Item::margins(c.items@),
                Item::all_built(c.items@, l.gaps, base_indent.deeper(), config),
                c.brace_end,
            ),
            None => l.token(semi_loc, base_indent, ";"@),
        }
    }

    /// The group for the item behind its attributes.
    pub open spec fn inner_built(self, gaps: Seq<Gap>, base_indent: Alignment, config: FormatConfig)
        -> Built
        decreases self, 0int,
    {
        let start = Laid::start(gaps);
        match self {
            Item::Const {
                vis,
                const_loc,
                ident,
                colon_loc,
                ty,
                eq_loc,
                expr,
                semi_loc,
                ..
            } => ty.laid_onto(
                vis.onto(start, base_indent)
                    .token(const_loc, base_indent, "const "@)
                    .token(ident.loc, base_indent, ident.text@)
                    .token(colon_loc, base_indent, ": "@),
                base_indent,
            ).gap(eq_loc, base_indent).binary_syntax(base_indent, " ="@, expr).token(
                semi_loc,
                base_indent,
                ";"@,
            ).built(
                false,
            ),
            Item::Enum {
                vis,
                enum_loc,
                ident,
                generics,
                brace_start,
                variants,
                brace_end,
                ..
            } => variants_onto(
                generics.onto(
                    vis.onto(start, base_indent)
                        .token(enum_loc, base_indent, "enum "@)
                        .token(ident.loc, base_indent, ident.text@),
                    base_indent,
                    config.split_where,
                ),
                base_indent,
                brace_start,
                variants@,
                brace_end,
                config,
            ).built(brace_threshold_met(config.split_brace_threshold, variants.len())),
            Item::ExternCrate {
                vis,
                extern_loc,
                crate_loc,
                ident,
                rename,
                semi_loc,
                ..
            } => rename_onto(
                vis.onto(start, base_indent).gap(extern_loc, base_indent).token(
                    crate_loc,
                    base_indent,
                    "extern crate "@,
                ).token(ident.loc, base_indent, ident.text@),
                base_indent,
                rename,
            ).token(semi_loc, base_indent, ";"@).built(false),
            Item::Fn { vis, sig, block, .. } => block.nested_onto(
                sig.nested_onto(vis.onto(start, base_indent), base_indent, config),
                base_indent,
                config,
            ).built(false),
            Item::ForeignMod { extern_loc, abi_name, brace_start, items, brace_end, .. } => {
                let head = abi_name_onto(
                    start.token(extern_loc, base_indent, "extern "@),
                    base_indent,
                    abi_name,
                );
                head.block_of(
                    base_indent,
                    brace_start,
                    ForeignItem::margins(items@),
                    ForeignItem::all_built(items@, head.gaps, base_indent.deeper(), config),
                    brace_end,
                ).built(false)
            },
            Item::Impl {
                defaultness,
                unsafety,
                impl_loc,
                generics,
                negative,
                trait_,
                for_loc,
                self_ty,
                brace_start,
                items,
                brace_end,
                ..
            } => {
                let head = generics.where_onto(
                    self_ty.laid_onto(
                        impl_trait_onto(
                            impl_intro_onto(
                                start,
                                base_indent,
                                defaultness,
                                unsafety,
                                impl_loc,
                                generics,
                            ),
                            base_indent,
                            negative,
                            trait_,
                            for_loc,
                        ),
                        base_indent,
                    ),
                    base_indent,
                    config.split_where,
                );
                head.block_of(
                    base_indent,
                    brace_start,
                    ImplItem::margins(items@),
                    ImplItem::all_built(items@, head.gaps, base_indent.deeper(), config),
                    brace_end,
                ).built(false)
            },
            Item::Macro { ident, mac, semi, .. } => mac.body_onto(
                macro_name_onto(
                    mac.path.laid_onto(start, base_indent).token(mac.bang_loc, base_indent, "!"@),
                    base_indent,
                    ident,
                ),
                base_indent,
                semi,
            ).built(false),
            Item::Macro2 { vis, macro_loc, ident, rules, .. } => rules.laid_onto(
                vis.onto(start, base_indent)
                    .token(macro_loc, base_indent, "macro "@)
                    .token(ident.loc, base_indent, ident.text@),
                base_indent.deeper(),
            ).built(false),
            Item::Mod { vis, mod_loc, ident, content, semi_loc, .. } => Item::content_onto(
                vis.onto(start, base_indent)
                    .token(mod_loc, base_indent, "mod "@)
                    .token(ident.loc, base_indent, ident.text@),
                base_indent,
                content,
                semi_loc,
                config,
            ).built(false),
            Item::Static {
                colon_loc,
                eq_loc,
                vis,
                static_loc,
                mutability,
                ident,
                ty,
                expr,
                semi_loc,
                ..
            } => ty.laid_onto(
                vis.onto(start, base_indent).token(static_loc, base_indent, "static "@).keyword(
                    mutability,
                    base_indent,
                    "mut "@,
                ).token(ident.loc, base_indent, ident.text@).token(colon_loc, base_indent, ": "@),
                base_indent,
            ).gap(eq_loc, base_indent).binary_syntax(base_indent, " ="@, expr).token(
                semi_loc,
                base_indent,
                ";"@,
            ).built(
                false,
            ),
            Item::Struct { vis, struct_loc, ident, generics, fields, semi_loc, .. } => {
                struct_body_onto(
                    generics.params_onto(
                        vis.onto(start, base_indent).token(
                            struct_loc,
                            base_indent,
                            "struct "@,
                        ).token(ident.loc, base_indent, ident.text@),
                        base_indent,
                    ),
                    base_indent,
                    generics,
                    fields,
                    semi_loc,
                    config,
                ).built(fields.marks_split(config.split_brace_threshold))
            },
            Item::Trait {
                vis,
                unsafety,
                auto_token,
                trait_loc,
                ident,
                generics,
                colon,
                supertraits,
                brace_start,
                items,
                brace_end,
                ..
            } => {
                let head = generics.where_onto(
                    supers_onto(
                        generics.params_onto(
                            trait_intro_onto(
                                start,
                                base_indent,
                                vis,
                                unsafety,
                                auto_token,
                                trait_loc,
                            ).token(ident.loc, base_indent, ident.text@),
                            base_indent,
                        ),
                        base_indent,
                        colon,
                        supertraits@,
                    ),
                    base_indent,
                    config.split_where,
                );
                head.child_built(
                    Laid::start(head.gaps).block_of(
                        base_indent,
                        brace_start,
                        TraitItem::margins(items@),
                        TraitItem::all_built(items@, head.gaps, base_indent.deeper(), config),
                        brace_end,
                    ).built(false),
                ).built(false)
            },
            Item::TraitAlias {
                vis,
                trait_loc,
                ident,
                generics,
                eq_loc,
                bounds,
                semi_loc,
                ..
            } => {
                bounds_onto(
                    generics.onto(
                        vis.onto(start, base_indent)
                            .token(trait_loc, base_indent, "trait "@)
                            .token(ident.loc, base_indent, ident.text@),
                        base_indent,
                        config.split_where,
                    ).gap(eq_loc, base_indent),
                    base_indent,
                    " ="@,
                    bounds@,
                ).token(semi_loc, base_indent, ";"@).built(false)
            },
            Item::Type { eq_loc, vis, type_loc, ident, generics, ty, semi_loc, .. } => generics.onto(
                vis.onto(start, base_indent)
                    .token(type_loc, base_indent, "type "@)
                    .token(ident.loc, base_indent, ident.text@),
                base_indent,
                config.split_where,
            ).gap(eq_loc, base_indent).binary_syntax(base_indent, " ="@, ty).token(
                semi_loc,
                base_indent,
                ";"@,
            ).built(false),
            Item::Union {
                vis,
                union_loc,
                ident,
                generics,
                brace_start,
                fields,
                brace_end,
                ..
            } => fields_onto(
                generics.onto(
                    vis.onto(start, base_indent)
                        .token(union_loc, base_indent, "union "@)
                        .token(ident.loc, base_indent, ident.text@),
                    base_indent,
                    config.split_where,
                ),
                base_indent,
                brace_start,
                " {"@,
                true,
                fields@,
                brace_end,
                "}"@,
                config.split_attributes,
            ).built(brace_threshold_met(config.split_brace_threshold, fields.len())),
            Item::Use { vis, use_loc, leading_colon, tree, semi_loc, .. } => tree.nested_onto(
                vis.onto(start, base_indent).token(use_loc, base_indent, "use "@).keyword(
                    leading_colon,
                    base_indent,
                    "::"@,
                ),
                base_indent,
                config.split_brace_threshold,
            ).token(semi_loc, base_indent, ";"@).built(false),
            Item::Verbatim(x) | Item::InnerAttr(x) => x.laid_onto(start, base_indent).built(false),
        }
    }

    /// The group for the item.
    pub open spec fn built(self, gaps: Seq<Gap>, base_indent: Alignment, config: FormatConfig)
        -> Built
        decreases self, 1int,
    {
        let attrs = attrs_laid(gaps, base_indent, self.attrs());
        with_attributes(
            attrs,
            self.attrs().len(),
            self.inner_built(attrs.gaps, base_indent, config),
            config.split_attributes,
        )
    }

    /// The groups for the items of a list, built one after the other and
    /// laid out at `indent`.
    pub open spec fn all_built(
        list: Seq<Item>,
        gaps: Seq<Gap>,
        indent: Alignment,
        config: FormatConfig,
    ) -> BuiltAll
        decreases list,
    {
        if list.len() == 0 {
            BuiltAll::none(gaps)
        } else {
            let before = Item::all_built(list.drop_last(), gaps, indent, config);
            before.and(list.last().built(before.gaps, indent, config))
        }
    }

    /// What each of a list asks for in the way of spacing.
    pub open spec fn margins(list: Seq<Item>) -> Seq<Margin> {
        Seq::new(list.len(), |i: int| list[i].margin())
    }

    /// Whether the group of the item behind its attributes is built with
    /// its children reversed, so that the body is looked at first where
    /// it is asked whether the group must split: if the item is a
    /// function.
    pub open spec fn reverses(self) -> bool {
        self is Fn
    }

    /// What the item asks for in the way of spacing. Enums, functions,
    /// foreign modules, impls, macros, traits and unions are declarations
    /// with a body; modules and structs are declarations, with a body where
    /// they have content or fields; imports are imports; the rest asks for
    /// nothing special.
    pub open spec fn margin(self) -> Margin {
        match self {
            Item::Enum { .. } => (MarginGroup::BlockDef, true),
            Item::Fn { .. } => (MarginGroup::BlockDef, true),
            Item::ForeignMod { .. } => (MarginGroup::BlockDef, true),
            Item::Impl { .. } => (MarginGroup::BlockDef, true),
            Item::Macro { .. } => (MarginGroup::BlockDef, true),
            Item::Macro2 { .. } => (MarginGroup::BlockDef, true),
            Item::Mod { content, .. } => (MarginGroup::BlockDef, content is Some),
            Item::Struct { fields, .. } => (MarginGroup::BlockDef, !(fields is Unit)),
            Item::Trait { .. } => (MarginGroup::BlockDef, true),
            Item::Union { .. } => (MarginGroup::BlockDef, true),
            Item::Use { .. } => (MarginGroup::Import, false),
            Item::InnerAttr(_) => (MarginGroup::Attr, false),
            _ => (MarginGroup::Plain, false),
        }
    }

    /// Whether the group of the item behind its attributes is marked as
    /// one that must split: if the item is an enum, a struct with named
    /// fields or a union, and the options hold a threshold that the number
    /// of its variants or fields reaches.
    pub open spec fn marks_split(self, threshold: Option<usize>) -> bool {
        match self {
            Item::Enum { variants, .. } => brace_threshold_met(threshold, variants.len()),
            Item::Struct { fields, .. } => fields.marks_split(threshold),
            Item::Union { fields, .. } => brace_threshold_met(threshold, fields.len()),
            _ => false,
        }
    }

    /// What the item asks for in the way of spacing.
    pub fn want_margin(&self) -> (m: Margin)
        ensures
            m == self.margin(),
    {
        match self {
            Item::Const { .. } => (MarginGroup::Plain, false),
            Item::Enum { .. } => (MarginGroup::BlockDef, true),
            Item::ExternCrate { .. } => (MarginGroup::Plain, false),
            Item::Fn { .. } => (MarginGroup::BlockDef, true),
            Item::ForeignMod { .. } => (MarginGroup::BlockDef, true),
            Item::Impl { .. } => (MarginGroup::BlockDef, true),
            Item::Macro { .. } => (MarginGroup::BlockDef, true),
            Item::Macro2 { .. } => (MarginGroup::BlockDef, true),
            Item::Mod { content, .. } => (MarginGroup::BlockDef, content.is_some()),
            Item::Static { .. } => (MarginGroup::Plain, false),
            Item::Struct { fields, .. } => (
                MarginGroup::BlockDef,
                match fields {
                    Fields::Named { .. } => true,
                    Fields::Unnamed { .. } => true,
                    Fields::Unit => false,
                },
            ),
            Item::Trait { .. } => (MarginGroup::BlockDef, true),
            Item::TraitAlias { .. } => (MarginGroup::Plain, false),
            Item::Type { .. } => (MarginGroup::Plain, false),
            Item::Union { .. } => (MarginGroup::BlockDef, true),
            Item::Use { .. } => (MarginGroup::Import, false),
            Item::Verbatim(_) => (MarginGroup::Plain, false),
            Item::InnerAttr(_) => (MarginGroup::Attr, false),
        }
    }

    /// Whether the item has attributes.
    pub fn has_attrs(&self) -> (b: bool)
        ensures
            b == (self.attrs().len() > 0),
    {
        match self {
            Item::Const { attrs, .. } => attrs.len() > 0,
            Item::Enum { attrs, .. } => attrs.len() > 0,
            Item::ExternCrate { attrs, .. } => attrs.len() > 0,
            Item::Fn { attrs, .. } => attrs.len() > 0,
            Item::ForeignMod { attrs, .. } => attrs.len() > 0,
            Item::Impl { attrs, .. } => attrs.len() > 0,
            Item::Macro { attrs, .. } => attrs.len() > 0,
            Item::Macro2 { attrs, .. } => attrs.len() > 0,
            Item::Mod { attrs, .. } => attrs.len() > 0,
            Item::Static { attrs, .. } => attrs.len() > 0,
            Item::Struct { attrs, .. } => attrs.len() > 0,
            Item::Trait { attrs, .. } => attrs.len() > 0,
            Item::TraitAlias { attrs, .. } => attrs.len() > 0,
            Item::Type { attrs, .. } => attrs.len() > 0,
            Item::Union { attrs, .. } => attrs.len() > 0,
            Item::Use { attrs, .. } => attrs.len() > 0,
            Item::Verbatim(_) | Item::InnerAttr(_) => false,
        }
    }

    /// A finished group, behind its attributes, for this kind of item.
    fn constant_segs(&self, out: &mut MakeSegsState, base_indent: &Alignment) -> (idx:
        SplitGroupIdx)
        requires
            old(out).wf(),
            self is Const,
        ensures
            made(old(out), final(out), idx, self.inner_text()),
            !final(out).doc(idx).split,
            built_as(
                final(out),
                idx,
                self.inner_built(old(out).whitespaces@, *base_indent, old(out).config),
            ),
            final(out).nodes[idx.0 as int].reversed == self.reverses(),
    {
        let mut sg = new_sg(out);
        assert(laid(out, sg.node) =~= Laid::start(old(out).whitespaces@));
        match self {
            Item::Const {
                vis,
                const_loc,
                ident,
                colon_loc,
                ty,
                eq_loc,
                expr,
                semi_loc,
                ..
            } => {
                append_vis(out, base_indent, &mut sg, vis);
                append_token(out, base_indent, &mut sg, *const_loc, "const ");
                append_token(out, base_indent, &mut sg, ident.loc, ident.text.as_str());
                append_token(out, base_indent, &mut sg, *colon_loc, ": ");
                ty.append(out, base_indent, &mut sg);
                let ghost head = vis.text() + "const "@ + ident.text@ + ": "@ + ty.text();
                assert(code_text(out.doc(sg.node)) =~= head);
                append_whitespace(out, base_indent, &mut sg, *eq_loc);
                append_binary_syntax(out, base_indent, &mut sg, " =", expr);
                proof {
                    lemma_join_assoc(head, " ="@ + " "@, expr.text());
                    lemma_join_assoc(head, " ="@, " "@);
                }
                append_token(out, base_indent, &mut sg, *semi_loc, ";");
                assert(code_text(out.doc(sg.node)) == self.inner_text());
            },
            _ => {},
        }
        assert(sg.wf(out));
        sg.build(out)
    }

    /// A finished group, behind its attributes, for this kind of item.
    fn extern_crate_segs(&self, out: &mut MakeSegsState, base_indent: &Alignment) -> (idx:
        SplitGroupIdx)
        requires
            old(out).wf(),
            self is ExternCrate,
        ensures
            made(old(out), final(out), idx, self.inner_text()),
            !final(out).doc(idx).split,
            built_as(
                final(out),
                idx,
                self.inner_built(old(out).whitespaces@, *base_indent, old(out).config),
            ),
            final(out).nodes[idx.0 as int].reversed == self.reverses(),
    {
        let mut sg = new_sg(out);
        assert(laid(out, sg.node) =~= Laid::start(old(out).whitespaces@));
        match self {
            Item::ExternCrate {
                vis,
                extern_loc,
                crate_loc,
                ident,
                rename,
                semi_loc,
                ..
            } => {
                append_vis(out, base_indent, &mut sg, vis);
                append_whitespace(out, base_indent, &mut sg, *extern_loc);
                append_token(out, base_indent, &mut sg, *crate_loc, "extern crate ");
                append_token(out, base_indent, &mut sg, ident.loc, ident.text.as_str());
                match rename {
                    Some(r) => {
                        append_token(out, base_indent, &mut sg, r.0, " as ");
                        append_token(out, base_indent, &mut sg, r.1.loc, r.1.text.as_str());
                    },
                    None => {},
                }
                assert(sg.wf(out));
                assert(code_text(out.doc(sg.node)) =~= vis.text() + "extern crate "@ + ident.text@
                    + rename_text(*rename));
                append_token(out, base_indent, &mut sg, *semi_loc, ";");
                assert(code_text(out.doc(sg.node)) =~= self.inner_text());
            },
            _ => {},
        }
        assert(sg.wf(out));
        sg.build(out)
    }

    /// A finished group, behind its attributes, for this kind of item.
    fn macro_call_segs(&self, out: &mut MakeSegsState, base_indent: &Alignment) -> (idx:
        SplitGroupIdx)
        requires
            old(out).wf(),
            self is Macro,
        ensures
            made(old(out), final(out), idx, self.inner_text()),
            !final(out).doc(idx).split,
            built_as(
                final(out),
                idx,
                self.inner_built(old(out).whitespaces@, *base_indent, old(out).config),
            ),
            final(out).nodes[idx.0 as int].reversed == self.reverses(),
    {
        let mut sg = new_sg(out);
        assert(laid(out, sg.node) =~= Laid::start(old(out).whitespaces@));
        match self {
            Item::Macro { ident, mac, semi, .. } => {
                append_path(out, &mut sg, base_indent, &mac.path);
                append_token(out, base_indent, &mut sg, mac.bang_loc, "!");
                match ident {
                    Some(n) => {
                        sg.seg(out, " ");
                        append_token(out, base_indent, &mut sg, n.loc, n.text.as_str());
                    },
                    None => {},
                }
                assert(sg.wf(out));
                assert(code_text(out.doc(sg.node)) =~= mac.path.text() + "!"@ + macro_name_text(
                    *ident,
                ));
                append_macro_bracketed(out, base_indent, &mut sg, mac, *semi);
                assert(code_text(out.doc(sg.node)) =~= self.inner_text());
            },
            _ => {},
        }
        assert(sg.wf(out));
        sg.build(out)
    }

    /// A finished group, behind its attributes, for this kind of item.
    fn macro_def_segs(&self, out: &mut MakeSegsState, base_indent: &Alignment) -> (idx:
        SplitGroupIdx)
        requires
            old(out).wf(),
            self is Macro2,
        ensures
            made(old(out), final(out), idx, self.inner_text()),
            !final(out).doc(idx).split,
            built_as(
                final(out),
                idx,
                self.inner_built(old(out).whitespaces@, *base_indent, old(out).config),
            ),
            final(out).nodes[idx.0 as int].reversed == self.reverses(),
    {
        let mut sg = new_sg(out);
        assert(laid(out, sg.node) =~= Laid::start(old(out).whitespaces@));
        match self {
            Item::Macro2 { vis, macro_loc, ident, rules, .. } => {
                append_vis(out, base_indent, &mut sg, vis);
                append_token(out, base_indent, &mut sg, *macro_loc, "macro ");
                append_token(out, base_indent, &mut sg, ident.loc, ident.text.as_str());
                append_macro_body(out, &base_indent.indent(), &mut sg, rules);
                assert(code_text(out.doc(sg.node)) =~= self.inner_text());
            },
            _ => {},
        }
        assert(sg.wf(out));
        sg.build(out)
    }

    /// A finished group, behind its attributes, for this kind of item.
    fn static_item_segs(&self, out: &mut MakeSegsState, base_indent: &Alignment) -> (idx:
        SplitGroupIdx)
        requires
            old(out).wf(),
            self is Static,
        ensures
            made(old(out), final(out), idx, self.inner_text()),
            !final(out).doc(idx).split,
            built_as(
                final(out),
                idx,
                self.inner_built(old(out).whitespaces@, *base_indent, old(out).config),
            ),
            final(out).nodes[idx.0 as int].reversed == self.reverses(),
    {
        let mut sg = new_sg(out);
        assert(laid(out, sg.node) =~= Laid::start(old(out).whitespaces@));
        match self {
            Item::Static {
                vis,
                static_loc,
                mutability,
                ident,
                colon_loc,
                ty,
                eq_loc,
                expr,
                semi_loc,
                ..
            } => {
                append_vis(out, base_indent, &mut sg, vis);
                append_token(out, base_indent, &mut sg, *static_loc, "static ");
                append_keyword(out, base_indent, &mut sg, *mutability, "mut ");
                append_token(out, base_indent, &mut sg, ident.loc, ident.text.as_str());
                append_token(out, base_indent, &mut sg, *colon_loc, ": ");
                ty.append(out, base_indent, &mut sg);
                let ghost head = vis.text() + "static "@ + text_if(mutability is Some, "mut "@)
                    + ident.text@ + ": "@ + ty.text();
                assert(code_text(out.doc(sg.node)) =~= head);
                append_whitespace(out, base_indent, &mut sg, *eq_loc);
                append_binary_syntax(out, base_indent, &mut sg, " =", expr);
                proof {
                    lemma_join_assoc(head, " ="@ + " "@, expr.text());
                    lemma_join_assoc(head, " ="@, " "@);
                }
                append_token(out, base_indent, &mut sg, *semi_loc, ";");
                assert(code_text(out.doc(sg.node)) == self.inner_text());
            },
            _ => {},
        }
        assert(sg.wf(out));
        sg.build(out)
    }

    /// A finished group, behind its attributes, for this kind of item.
    fn trait_alias_segs(&self, out: &mut MakeSegsState, base_indent: &Alignment) -> (idx:
        SplitGroupIdx)
        requires
            old(out).wf(),
            self is TraitAlias,
        ensures
            made(old(out), final(out), idx, self.inner_text()),
            !final(out).doc(idx).split,
            built_as(
                final(out),
                idx,
                self.inner_built(old(out).whitespaces@, *base_indent, old(out).config),
            ),
            final(out).nodes[idx.0 as int].reversed == self.reverses(),
    {
        let mut sg = new_sg(out);
        assert(laid(out, sg.node) =~= Laid::start(old(out).whitespaces@));
        match self {
            Item::TraitAlias {
                vis,
                trait_loc,
                ident,
                generics,
                eq_loc,
                bounds,
                semi_loc,
                ..
            } => {
                append_vis(out, base_indent, &mut sg, vis);
                append_token(out, base_indent, &mut sg, *trait_loc, "trait ");
                append_token(out, base_indent, &mut sg, ident.loc, ident.text.as_str());
                append_generics(out, base_indent, &mut sg, generics);
                let ghost head = vis.text() + "trait "@ + ident.text@ + generics.text();
                assert(code_text(out.doc(sg.node)) =~= head);
                append_whitespace(out, base_indent, &mut sg, *eq_loc);
                append_binary_bounds(out, base_indent, &mut sg, " =", bounds);
                proof {
                    lemma_join_assoc(head, " ="@ + " "@, bounds_text(bounds@));
                    lemma_join_assoc(head, " ="@, " "@);
                }
                append_token(out, base_indent, &mut sg, *semi_loc, ";");
                assert(code_text(out.doc(sg.node)) == self.inner_text());
            },
            _ => {},
        }
        assert(sg.wf(out));
        sg.build(out)
    }

    /// A finished group, behind its attributes, for this kind of item.
    fn type_alias_segs(&self, out: &mut MakeSegsState, base_indent: &Alignment) -> (idx:
        SplitGroupIdx)
        requires
            old(out).wf(),
            self is Type,
        ensures
            made(old(out), final(out), idx, self.inner_text()),
            !final(out).doc(idx).split,
            built_as(
                final(out),
                idx,
                self.inner_built(old(out).whitespaces@, *base_indent, old(out).config),
            ),
            final(out).nodes[idx.0 as int].reversed == self.reverses(),
    {
        let mut sg = new_sg(out);
        assert(laid(out, sg.node) =~= Laid::start(old(out).whitespaces@));
        match self {
            Item::Type { eq_loc, vis, type_loc, ident, generics, ty, semi_loc, .. } => {
                append_vis(out, base_indent, &mut sg, vis);
                append_token(out, base_indent, &mut sg, *type_loc, "type ");
                append_token(out, base_indent, &mut sg, ident.loc, ident.text.as_str());
                append_generics(out, base_indent, &mut sg, generics);
                append_whitespace(out, base_indent, &mut sg, *eq_loc);
                append_binary_syntax(out, base_indent, &mut sg, " =", ty);
                append_token(out, base_indent, &mut sg, *semi_loc, ";");
                assert(code_text(out.doc(sg.node)) =~= self.inner_text());
            },
            _ => {},
        }
        assert(sg.wf(out));
        sg.build(out)
    }

    /// A finished group, behind its attributes, for this kind of item.
    fn import_segs(&self, out: &mut MakeSegsState, base_indent: &Alignment) -> (idx: SplitGroupIdx)
        requires
            old(out).wf(),
            self is Use,
        ensures
            made(old(out), final(out), idx, self.inner_text()),
            !final(out).doc(idx).split,
            built_as(
                final(out),
                idx,
                self.inner_built(old(out).whitespaces@, *base_indent, old(out).config),
            ),
            final(out).nodes[idx.0 as int].reversed == self.reverses(),
    {
        let mut sg = new_sg(out);
        assert(laid(out, sg.node) =~= Laid::start(old(out).whitespaces@));
        match self {
            Item::Use { vis, use_loc, leading_colon, tree, semi_loc, .. } => {
                append_vis(out, base_indent, &mut sg, vis);
                append_token(out, base_indent, &mut sg, *use_loc, "use ");
                append_keyword(out, base_indent, &mut sg, *leading_colon, "::");
                assert(code_text(out.doc(sg.node)) =~= vis.text() + "use "@ + text_if(
                    *leading_colon is Some,
                    "::"@,
                ));
                append_use_tree(out, base_indent, &mut sg, tree);
                append_token(out, base_indent, &mut sg, *semi_loc, ";");
                assert(code_text(out.doc(sg.node)) =~= self.inner_text());
            },
            _ => {},
        }
        assert(sg.wf(out));
        sg.build(out)
    }

    /// A finished group, behind its attributes, for this kind of item.
    fn verbatim_segs(&self, out: &mut MakeSegsState, base_indent: &Alignment) -> (idx:
        SplitGroupIdx)
        requires
            old(out).wf(),
            self is Verbatim || self is InnerAttr,
        ensures
            made(old(out), final(out), idx, self.inner_text()),
            !final(out).doc(idx).split,
            built_as(
                final(out),
                idx,
                self.inner_built(old(out).whitespaces@, *base_indent, old(out).config),
            ),
            final(out).nodes[idx.0 as int].reversed == self.reverses(),
    {
        let mut sg = new_sg(out);
        assert(laid(out, sg.node) =~= Laid::start(old(out).whitespaces@));
        match self {
            Item::Verbatim(x) | Item::InnerAttr(x) => {
                append_macro_body(out, base_indent, &mut sg, x);
                assert(code_text(out.doc(sg.node)) =~= self.inner_text());
            },
            _ => {},
        }
        assert(sg.wf(out));
        sg.build(out)
    }

    /// A finished group, behind its attributes, for an enum. The group is
    /// marked as one that must split where the options hold a threshold
    /// that the number of variants reaches.
    fn enum_segs(&self, out: &mut MakeSegsState, base_indent: &Alignment) -> (idx: SplitGroupIdx)
        requires
            old(out).wf(),
            self is Enum,
        ensures
            made(old(out), final(out), idx, self.inner_text()),
            final(out).doc(idx).split == self.marks_split(old(out).config.split_brace_threshold),
            built_as(
                final(out),
                idx,
                self.inner_built(old(out).whitespaces@, *base_indent, old(out).config),
            ),
            final(out).nodes[idx.0 as int].reversed == self.reverses(),
    {
        let mut sg = new_sg(out);
        assert(laid(out, sg.node) =~= Laid::start(old(out).whitespaces@));
        match self {
            Item::Enum {
                vis,
                enum_loc,
                ident,
                generics,
                brace_start,
                variants,
                brace_end,
                ..
            } => {
                if check_split_brace_threshold(out, variants.len()) {
                    sg.initial_split();
                }
                append_vis(out, base_indent, &mut sg, vis);
                append_token(out, base_indent, &mut sg, *enum_loc, "enum ");
                append_token(out, base_indent, &mut sg, ident.loc, ident.text.as_str());
                append_generics(out, base_indent, &mut sg, generics);
                append_variants(out, base_indent, &mut sg, *brace_start, variants, *brace_end);
                assert(code_text(out.doc(sg.node)) =~= self.inner_text());
            },
            _ => {},
        }
        assert(sg.wf(out));
        sg.build(out)
    }

    /// Adds what a struct says behind its name and parameters. Named fields
    /// mark the group as one that must split where the options hold a
    /// threshold that their number reaches.
    fn append_struct_body(
        out: &mut MakeSegsState,
        base_indent: &Alignment,
        sg: &mut SplitGroupBuilder,
        generics: &Generics,
        fields: &Fields,
        semi_loc: LineColumn,
    )
        requires
            old(out).wf(),
            old(sg).wf(old(out)),
            !old(sg).initial_split,
        ensures
            final(sg).node == old(sg).node,
            final(sg).start == old(sg).start,
            final(sg).reverse_children == old(sg).reverse_children,
            final(sg).initial_split == fields.marks_split(old(out).config.split_brace_threshold),
            said(old(out), final(out), *final(sg), struct_body_text(*generics, *fields)),
            final(out).doc(old(sg).node).split == old(out).doc(old(sg).node).split,
            laid(final(out), old(sg).node) == struct_body_onto(
                laid(old(out), old(sg).node),
                *base_indent,
                *generics,
                *fields,
                semi_loc,
                old(out).config,
            ),
    {
        let ghost base = code_text(out.doc(sg.node));
        match fields {
            Fields::Named { brace_start, named, brace_end } => {
                append_where(out, base_indent, sg, generics);
                if check_split_brace_threshold(out, named.len()) {
                    sg.initial_split();
                }
                append_bracketed_list_curly(out, base_indent, sg, *brace_start, named, *brace_end);
                proof {
                    lemma_join_assoc(base, generics.where_text(), fields.text());
                }
            },
            Fields::Unnamed { paren_start, unnamed, paren_end } => {
                append_bracketed_list_common(
                    out,
                    base_indent,
                    sg,
                    *paren_start,
                    unnamed,
                    *paren_end,
                );
                append_where(out, base_indent, sg, generics);
                proof {
                    lemma_join_assoc(base, fields.text(), generics.where_text());
                }
                append_token(out, base_indent, sg, semi_loc, ";");
                proof {
                    lemma_join_assoc(base, fields.text() + generics.where_text(), ";"@);
                }
            },
            Fields::Unit => {
                append_where(out, base_indent, sg, generics);
                append_token(out, base_indent, sg, semi_loc, ";");
                proof {
                    lemma_join_assoc(base, generics.where_text(), ";"@);
                }
            },
        }
    }

    /// A finished group, behind its attributes, for a struct.
    fn struct_segs(&self, out: &mut MakeSegsState, base_indent: &Alignment) -> (idx:
        SplitGroupIdx)
        requires
            old(out).wf(),
            self is Struct,
        ensures
            made(old(out), final(out), idx, self.inner_text()),
            final(out).doc(idx).split == self.marks_split(old(out).config.split_brace_threshold),
            built_as(
                final(out),
                idx,
                self.inner_built(old(out).whitespaces@, *base_indent, old(out).config),
            ),
            final(out).nodes[idx.0 as int].reversed == self.reverses(),
    {
        let mut sg = new_sg(out);
        assert(laid(out, sg.node) =~= Laid::start(old(out).whitespaces@));
        match self {
            Item::Struct { vis, struct_loc, ident, generics, fields, semi_loc, .. } => {
                append_vis(out, base_indent, &mut sg, vis);
                append_token(out, base_indent, &mut sg, *struct_loc, "struct ");
                append_token(out, base_indent, &mut sg, ident.loc, ident.text.as_str());
                append_params(out, base_indent, &mut sg, generics);
                let ghost head = vis.text() + "struct "@ + ident.text@ + text_if(
                    generics.params@.len() > 0,
                    generics.params_text(),
                );
                assert(code_text(out.doc(sg.node)) =~= head);
                Item::append_struct_body(out, base_indent, &mut sg, generics, fields, *semi_loc);
                assert(code_text(out.doc(sg.node)) =~= self.inner_text());
            },
            _ => {},
        }
        assert(sg.wf(out));
        sg.build(out)
    }

    /// A finished group, behind its attributes, for a union. The group is
    /// marked as one that must split where the options hold a threshold
    /// that the number of fields reaches.
    fn union_segs(&self, out: &mut MakeSegsState, base_indent: &Alignment) -> (idx: SplitGroupIdx)
        requires
            old(out).wf(),
            self is Union,
        ensures
            made(old(out), final(out), idx, self.inner_text()),
            final(out).doc(idx).split == self.marks_split(old(out).config.split_brace_threshold),
            built_as(
                final(out),
                idx,
                self.inner_built(old(out).whitespaces@, *base_indent, old(out).config),
            ),
            final(out).nodes[idx.0 as int].reversed == self.reverses(),
    {
        let mut sg = new_sg(out);
        assert(laid(out, sg.node) =~= Laid::start(old(out).whitespaces@));
        match self {
            Item::Union {
                vis,
                union_loc,
                ident,
                generics,
                brace_start,
                fields,
                brace_end,
                ..
            } => {
                if check_split_brace_threshold(out, fields.len()) {
                    sg.initial_split();
                }
                append_vis(out, base_indent, &mut sg, vis);
                append_token(out, base_indent, &mut sg, *union_loc, "union ");
                append_token(out, base_indent, &mut sg, ident.loc, ident.text.as_str());
                append_generics(out, base_indent, &mut sg, generics);
                append_bracketed_list_curly(
                    out,
                    base_indent,
                    &mut sg,
                    *brace_start,
                    fields,
                    *brace_end,
                );
                assert(code_text(out.doc(sg.node)) =~= self.inner_text());
            },
            _ => {},
        }
        assert(sg.wf(out));
        sg.build(out)
    }

    /// Adds what an impl says up to the space behind its parameters.
    fn append_impl_intro(
        out: &mut MakeSegsState,
        base_indent: &Alignment,
        sg: &mut SplitGroupBuilder,
        defaultness: Option<LineColumn>,
        unsafety: Option<LineColumn>,
        impl_loc: LineColumn,
        generics: &Generics,
    )
        requires
            old(out).wf(),
            old(sg).wf(old(out)),
        ensures
            *final(sg) == *old(sg),
            said(old(out), final(out), *old(sg), impl_intro_text(defaultness, unsafety, *generics)),
            final(out).doc(old(sg).node).split == old(out).doc(old(sg).node).split,
            laid(final(out), old(sg).node) == impl_intro_onto(
                laid(old(out), old(sg).node),
                *base_indent,
                defaultness,
                unsafety,
                impl_loc,
                *generics,
            ),
    {
        let ghost base = code_text(out.doc(sg.node));
        let ghost a = text_if(defaultness is Some, "default "@);
        let ghost b = text_if(unsafety is Some, "unsafe "@);
        let ghost d = text_if(generics.params@.len() > 0, generics.params_text());
        append_gap_if(out, base_indent, sg, defaultness);
        append_gap_if(out, base_indent, sg, unsafety);
        append_whitespace(out, base_indent, sg, impl_loc);
        append_text_when(out, sg, defaultness.is_some(), "default ");
        append_text_when(out, sg, unsafety.is_some(), "unsafe ");
        proof {
            lemma_join_assoc(base, a, b);
        }
        sg.seg(out, "impl");
        proof {
            lemma_join_assoc(base, a + b, "impl"@);
        }
        append_params(out, base_indent, sg, generics);
        proof {
            lemma_join_assoc(base, a + b + "impl"@, d);
        }
        sg.seg(out, " ");
        proof {
            lemma_join_assoc(base, a + b + "impl"@ + d, " "@);
        }
    }

    /// Adds the trait of an impl with the words that part it from the type.
    fn append_impl_trait(
        out: &mut MakeSegsState,
        base_indent: &Alignment,
        sg: &mut SplitGroupBuilder,
        negative: Option<LineColumn>,
        trait_: &Option<Syntax>,
        for_loc: LineColumn,
    )
        requires
            old(out).wf(),
            old(sg).wf(old(out)),
        ensures
            *final(sg) == *old(sg),
            said(old(out), final(out), *old(sg), impl_trait_text(negative, *trait_)),
            final(out).doc(old(sg).node).split == old(out).doc(old(sg).node).split,
            laid(final(out), old(sg).node) == impl_trait_onto(
                laid(old(out), old(sg).node),
                *base_indent,
                negative,
                *trait_,
                for_loc,
            ),
    {
        let ghost base = code_text(out.doc(sg.node));
        match trait_ {
            Some(p) => {
                append_keyword(out, base_indent, sg, negative, "!");
                append_path(out, sg, base_indent, p);
                append_token(out, base_indent, sg, for_loc, " for ");
            },
            None => {},
        }
        assert(sg.wf(out));
        assert(code_text(out.doc(sg.node)) =~= base + impl_trait_text(negative, *trait_));
    }

    /// Adds what a trait says in front of its name.
    fn append_trait_intro(
        out: &mut MakeSegsState,
        base_indent: &Alignment,
        sg: &mut SplitGroupBuilder,
        vis: &Visibility,
        unsafety: Option<LineColumn>,
        auto_token: Option<LineColumn>,
        trait_loc: LineColumn,
    )
        requires
            old(out).wf(),
            old(sg).wf(old(out)),
        ensures
            *final(sg) == *old(sg),
            said(old(out), final(out), *old(sg), trait_intro_text(*vis, unsafety, auto_token)),
            final(out).doc(old(sg).node).split == old(out).doc(old(sg).node).split,
            laid(final(out), old(sg).node) == trait_intro_onto(
                laid(old(out), old(sg).node),
                *base_indent,
                *vis,
                unsafety,
                auto_token,
                trait_loc,
            ),
    {
        let ghost base = code_text(out.doc(sg.node));
        let ghost a = text_if(unsafety is Some, "unsafe "@);
        let ghost b = text_if(auto_token is Some, "auto "@);
        append_vis(out, base_indent, sg, vis);
        append_gap_if(out, base_indent, sg, unsafety);
        append_gap_if(out, base_indent, sg, auto_token);
        append_whitespace(out, base_indent, sg, trait_loc);
        append_text_when(out, sg, unsafety.is_some(), "unsafe ");
        proof {
            lemma_join_assoc(base, vis.text(), a);
        }
        append_text_when(out, sg, auto_token.is_some(), "auto ");
        proof {
            lemma_join_assoc(base, vis.text() + a, b);
        }
        sg.seg(out, "trait ");
        proof {
            lemma_join_assoc(base, vis.text() + a + b, "trait "@);
        }
    }

    /// Adds the traits that a trait builds on, behind a colon.
    fn append_supers(
        out: &mut MakeSegsState,
        base_indent: &Alignment,
        sg: &mut SplitGroupBuilder,
        colon: Option<LineColumn>,
        supertraits: &Vec<Pair<Syntax>>,
    )
        requires
            old(out).wf(),
            old(sg).wf(old(out)),
        ensures
            *final(sg) == *old(sg),
            said(old(out), final(out), *old(sg), supers_text(colon, supertraits@)),
            final(out).doc(old(sg).node).split == old(out).doc(old(sg).node).split,
            laid(final(out), old(sg).node) == supers_onto(
                laid(old(out), old(sg).node),
                *base_indent,
                colon,
                supertraits@,
            ),
    {
        let ghost base = code_text(out.doc(sg.node));
        match colon {
            Some(c) => {
                append_token(out, base_indent, sg, c, ": ");
                append_inline_list(out, base_indent, sg, " +", supertraits);
            },
            None => {},
        }
        assert(sg.wf(out));
        assert(code_text(out.doc(sg.node)) =~= base + supers_text(colon, supertraits@));
    }

    /// A finished group, behind its attributes, for this kind of item.
    fn function_segs(&self, out: &mut MakeSegsState, base_indent: &Alignment) -> (idx:
        SplitGroupIdx)
        requires
            old(out).wf(),
            self is Fn,
        ensures
            made(old(out), final(out), idx, self.inner_text()),
            !final(out).doc(idx).split,
            built_as(
                final(out),
                idx,
                self.inner_built(old(out).whitespaces@, *base_indent, old(out).config),
            ),
            final(out).nodes[idx.0 as int].reversed == self.reverses(),
        decreases self, 0int,
    {
        let mut sg = new_sg(out);
        assert(laid(out, sg.node) =~= Laid::start(old(out).whitespaces@));
        match self {
            Item::Fn { vis, sig, block, .. } => {
                append_vis(out, base_indent, &mut sg, vis);
                append_sig(out, base_indent, &mut sg, sig);
                block.append(out, base_indent, &mut sg);
                sg.reverse_children();
                assert(code_text(out.doc(sg.node)) =~= self.inner_text());
            },
            _ => {},
        }
        assert(sg.wf(out));
        sg.build(out)
    }

    /// A finished group, behind its attributes, for this kind of item.
    fn foreign_mod_segs(&self, out: &mut MakeSegsState, base_indent: &Alignment) -> (idx:
        SplitGroupIdx)
        requires
            old(out).wf(),
            self is ForeignMod,
        ensures
            made(old(out), final(out), idx, self.inner_text()),
            !final(out).doc(idx).split,
            built_as(
                final(out),
                idx,
                self.inner_built(old(out).whitespaces@, *base_indent, old(out).config),
            ),
            final(out).nodes[idx.0 as int].reversed == self.reverses(),
        decreases self, 0int,
    {
        let mut sg = new_sg(out);
        assert(laid(out, sg.node) =~= Laid::start(old(out).whitespaces@));
        match self {
            Item::ForeignMod { extern_loc, abi_name, brace_start, items, brace_end, .. } => {
                append_token(out, base_indent, &mut sg, *extern_loc, "extern ");
                match abi_name {
                    Some(n) => {
                        append_token(out, base_indent, &mut sg, n.loc, n.text.as_str());
                    },
                    None => {},
                }
                assert(sg.wf(out));
                assert(code_text(out.doc(sg.node)) =~= "extern "@ + abi_name_text(*abi_name));
                ForeignItem::append_block(
                    out,
                    base_indent,
                    &mut sg,
                    *brace_start,
                    items,
                    *brace_end,
                );
                assert(code_text(out.doc(sg.node)) =~= self.inner_text());
            },
            _ => {},
        }
        assert(sg.wf(out));
        sg.build(out)
    }

    /// A finished group, behind its attributes, for this kind of item.
    fn implementation_segs(&self, out: &mut MakeSegsState, base_indent: &Alignment) -> (idx:
        SplitGroupIdx)
        requires
            old(out).wf(),
            self is Impl,
        ensures
            made(old(out), final(out), idx, self.inner_text()),
            !final(out).doc(idx).split,
            built_as(
                final(out),
                idx,
                self.inner_built(old(out).whitespaces@, *base_indent, old(out).config),
            ),
            final(out).nodes[idx.0 as int].reversed == self.reverses(),
        decreases self, 0int,
    {
        let mut sg = new_sg(out);
        assert(laid(out, sg.node) =~= Laid::start(old(out).whitespaces@));
        match self {
            Item::Impl {
                defaultness,
                unsafety,
                impl_loc,
                generics,
                negative,
                trait_,
                for_loc,
                self_ty,
                brace_start,
                items,
                brace_end,
                ..
            } => {
                Item::append_impl_intro(
                    out,
                    base_indent,
                    &mut sg,
                    *defaultness,
                    *unsafety,
                    *impl_loc,
                    generics,
                );
                Item::append_impl_trait(
                    out,
                    base_indent,
                    &mut sg,
                    *negative,
                    trait_,
                    *for_loc,
                );
                self_ty.append(out, base_indent, &mut sg);
                append_where(out, base_indent, &mut sg, generics);
                ImplItem::append_block(out, base_indent, &mut sg, *brace_start, items, *brace_end);
                assert(code_text(out.doc(sg.node)) =~= self.inner_text());
            },
            _ => {},
        }
        assert(sg.wf(out));
        sg.build(out)
    }

    /// A finished group, behind its attributes, for this kind of item.
    fn module_segs(&self, out: &mut MakeSegsState, base_indent: &Alignment) -> (idx: SplitGroupIdx)
        requires
            old(out).wf(),
            self is Mod,
        ensures
            made(old(out), final(out), idx, self.inner_text()),
            !final(out).doc(idx).split,
            built_as(
                final(out),
                idx,
                self.inner_built(old(out).whitespaces@, *base_indent, old(out).config),
            ),
            final(out).nodes[idx.0 as int].reversed == self.reverses(),
        decreases self, 0int,
    {
        let mut sg = new_sg(out);
        assert(laid(out, sg.node) =~= Laid::start(old(out).whitespaces@));
        match self {
            Item::Mod { vis, mod_loc, ident, content, semi_loc, .. } => {
                append_vis(out, base_indent, &mut sg, vis);
                append_token(out, base_indent, &mut sg, *mod_loc, "mod ");
                append_token(out, base_indent, &mut sg, ident.loc, ident.text.as_str());
                match content {
                    Some(c) => {
                        Item::append_block(
                            out,
                            base_indent,
                            &mut sg,
                            c.brace_start,
                            &c.items,
                            c.brace_end,
                        );
                    },
                    None => {
                        append_token(out, base_indent, &mut sg, *semi_loc, ";");
                    },
                }
                assert(sg.wf(out));
                assert(code_text(out.doc(sg.node)) =~= self.inner_text());
            },
            _ => {},
        }
        assert(sg.wf(out));
        sg.build(out)
    }

    /// A finished group, behind its attributes, for this kind of item.
    fn trait_def_segs(&self, out: &mut MakeSegsState, base_indent: &Alignment) -> (idx:
        SplitGroupIdx)
        requires
            old(out).wf(),
            self is Trait,
        ensures
            made(old(out), final(out), idx, self.inner_text()),
            !final(out).doc(idx).split,
            built_as(
                final(out),
                idx,
                self.inner_built(old(out).whitespaces@, *base_indent, old(out).config),
            ),
            final(out).nodes[idx.0 as int].reversed == self.reverses(),
        decreases self, 0int,
    {
        let mut sg = new_sg(out);
        assert(laid(out, sg.node) =~= Laid::start(old(out).whitespaces@));
        match self {
            Item::Trait {
                vis,
                unsafety,
                auto_token,
                trait_loc,
                ident,
                generics,
                colon,
                supertraits,
                brace_start,
                items,
                brace_end,
                ..
            } => {
                Item::append_trait_intro(
                    out,
                    base_indent,
                    &mut sg,
                    vis,
                    *unsafety,
                    *auto_token,
                    *trait_loc,
                );
                append_token(out, base_indent, &mut sg, ident.loc, ident.text.as_str());
                append_params(out, base_indent, &mut sg, generics);
                Item::append_supers(out, base_indent, &mut sg, *colon, supertraits);
                append_where(out, base_indent, &mut sg, generics);
                let ghost head = code_text(out.doc(sg.node));
                let mut node = new_sg(out);
                TraitItem::append_block(
                    out,
                    base_indent,
                    &mut node,
                    *brace_start,
                    items,
                    *brace_end,
                );
                let child = node.build(out);
                assert(sg.wf(out));
                assert(code_text(out.doc(sg.node)) == head);
                sg.child(out, child);
                assert(code_text(out.doc(sg.node)) =~= self.inner_text());
            },
            _ => {},
        }
        assert(sg.wf(out));
        sg.build(out)
    }


    /// A finished group for the item behind its attributes.
    fn inner_segs(&self, out: &mut MakeSegsState, base_indent: &Alignment) -> (idx: SplitGroupIdx)
        requires
            old(out).wf(),
        ensures
            made(old(out), final(out), idx, self.inner_text()),
            final(out).doc(idx).split == self.marks_split(old(out).config.split_brace_threshold),
            built_as(
                final(out),
                idx,
                self.inner_built(old(out).whitespaces@, *base_indent, old(out).config),
            ),
            final(out).nodes[idx.0 as int].reversed == self.reverses(),
        decreases self, 1int,
    {
        match self {
            Item::Const { .. } => self.constant_segs(out, base_indent),
            Item::ExternCrate { .. } => self.extern_crate_segs(out, base_indent),
            Item::Macro { .. } => self.macro_call_segs(out, base_indent),
            Item::Macro2 { .. } => self.macro_def_segs(out, base_indent),
            Item::Static { .. } => self.static_item_segs(out, base_indent),
            Item::TraitAlias { .. } => self.trait_alias_segs(out, base_indent),
            Item::Type { .. } => self.type_alias_segs(out, base_indent),
            Item::Use { .. } => self.import_segs(out, base_indent),
            Item::Verbatim(_) | Item::InnerAttr(_) => self.verbatim_segs(out, base_indent),
            Item::Enum { .. } => self.enum_segs(out, base_indent),
            Item::Struct { .. } => self.struct_segs(out, base_indent),
            Item::Union { .. } => self.union_segs(out, base_indent),
            Item::Fn { .. } => self.function_segs(out, base_indent),
            Item::ForeignMod { .. } => self.foreign_mod_segs(out, base_indent),
            Item::Impl { .. } => self.implementation_segs(out, base_indent),
            Item::Mod { .. } => self.module_segs(out, base_indent),
            Item::Trait { .. } => self.trait_def_segs(out, base_indent),
        }
    }

    /// A finished group for the item: its attributes and what it says
    /// behind them. Without attributes the group is marked as one that must
    /// split where the item is an enum, a struct with named fields or a
    /// union and the options hold a threshold that the number of its
    /// variants or fields reaches.
    pub fn make_segs(&self, out: &mut MakeSegsState, base_indent: &Alignment) -> (idx:
        SplitGroupIdx)
        requires
            old(out).wf(),
        ensures
            made(old(out), final(out), idx, self.text()),
            self.attrs().len() == 0 ==> final(out).doc(idx).split == self.marks_split(
                old(out).config.split_brace_threshold,
            ),
            built_as(
                final(out),
                idx,
                self.built(old(out).whitespaces@, *base_indent, old(out).config),
            ),
            self.attrs().len() == 0 ==> final(out).nodes[idx.0 as int].reversed == self.reverses(),
        decreases self, 2int,
    {
        match self {
            Item::Const { attrs, .. } | Item::Enum { attrs, .. } | Item::ExternCrate {
                attrs,
                ..
            } | Item::Fn { attrs, .. } | Item::ForeignMod { attrs, .. } | Item::Impl {
                attrs,
                ..
            } | Item::Macro { attrs, .. } | Item::Macro2 { attrs, .. } | Item::Mod {
                attrs,
                ..
            } | Item::Static { attrs, .. } | Item::Struct { attrs, .. } | Item::Trait {
                attrs,
                ..
            } | Item::TraitAlias { attrs, .. } | Item::Type { attrs, .. } | Item::Union {
                attrs,
                ..
            } | Item::Use { attrs, .. } => {
                let wrap = start_outer_attrs(out, base_indent, attrs);
                let ghost mid = *out;
                let inner = self.inner_segs(out, base_indent);
                finish_attrs(
                    out,
                    wrap,
                    inner,
                    attrs,
                    Ghost(*base_indent),
                    Ghost(*old(out)),
                    Ghost(mid),
                )
            },
            Item::Verbatim(_) | Item::InnerAttr(_) => {
                let idx = self.inner_segs(out, base_indent);
                assert(attrs_text(self.attrs()) + self.inner_text() =~= self.inner_text());
                idx
            },
        }
    }

    /// A finished group for each of `list`, laid out at `indent`, for a
    /// block of the group of `sg`, with what each asks for in the way of
    /// spacing.
    fn build_entries(
        out: &mut MakeSegsState,
        indent: &Alignment,
        sg: &SplitGroupBuilder,
        list: &Vec<Item>,
    ) -> (entries: Vec<StmtEntry>)
        requires
            old(out).wf(),
            sg.wf(old(out)),
        ensures
            final(out).wf(),
            sg.wf(final(out)),
            final(out).extends(old(out)),
            entries.len() == list.len(),
            all_finished(final(out), sg.node, entry_groups(entries@)),
            group_texts(final(out), entry_groups(entries@)) == Item::texts(list@),
            forall|i: int|
                0 <= i < entries.len() ==> (#[trigger] entries[i]).margin == list[i].margin(),
            entry_margins(entries@) == Item::margins(list@),
            final(out).doc(sg.node) == old(out).doc(sg.node),
            group_docs(final(out), entry_groups(entries@)) == Item::all_built(
                list@,
                old(out).whitespaces@,
                *indent,
                old(out).config,
            ).docs,
            final(out).whitespaces@ == Item::all_built(
                list@,
                old(out).whitespaces@,
                *indent,
                old(out).config,
            ).gaps,
            final(out).loose() == old(out).loose() + list@.len(),
        decreases list, 0int,
    {
        let mut entries: Vec<StmtEntry> = Vec::new();
        let mut i: usize = 0;
        assert(group_docs(out, entry_groups(entries@)) =~= Seq::<Doc>::empty());
        assert(group_texts(out, entry_groups(entries@)) =~= Item::texts(list@.take(0)));
        while i < list.len()
            invariant
                out.loose() == old(out).loose() + i,
                i <= list.len(),
                entries.len() == i,
                out.wf(),
                sg.wf(out),
                out.extends(old(out)),
                all_finished(out, sg.node, entry_groups(entries@)),
                group_texts(out, entry_groups(entries@)) == Item::texts(list@.take(i as int)),
                forall|j: int|
                    0 <= j < entries.len() ==> (#[trigger] entries[j]).margin == list[j].margin(),
                out.doc(sg.node) == old(out).doc(sg.node),
                group_docs(out, entry_groups(entries@)) == Item::all_built(
                    list@.take(i as int),
                    old(out).whitespaces@,
                    *indent,
                    old(out).config,
                ).docs,
                out.whitespaces@ == Item::all_built(
                    list@.take(i as int),
                    old(out).whitespaces@,
                    *indent,
                    old(out).config,
                ).gaps,
            decreases list.len() - i,
        {
            let ghost before = *out;
            let ghost groups = entry_groups(entries@);
            proof {
                assert(decreases_to!(list => list@));
                assert(decreases_to!(list@ => list@[i as int]));
            }
            let child = list[i].make_segs(out, indent);
            let margin = list[i].want_margin();
            entries.push(StmtEntry { group: child, margin });
            proof {
                assert(entry_groups(entries@) =~= groups.push(child));
                lemma_push_finished(&before, out, sg.node, groups, child);
                assert(out.nodes[sg.node.0 as int] == before.nodes[sg.node.0 as int]);
                assert(out.doc(sg.node) == before.doc(sg.node));
                crate::arena::lemma_grown_trans(out.nodes@, before.nodes@, old(out).nodes@);
                crate::arena::lemma_grown_trans(out.nodes@, before.nodes@, sg.start@);
                assert(list@.take(i + 1).drop_last() =~= list@.take(i as int));
                assert(list@.take(i + 1).last() == list@[i as int]);
            }
            i += 1;
        }
        assert(list@.take(i as int) =~= list@);
        assert(entry_margins(entries@) =~= Item::margins(list@));
        entries
    }

    /// Adds a block of `list` in braces: see
    /// [`append_bracketed_statement_list`].
    fn append_block(
        out: &mut MakeSegsState,
        base_indent: &Alignment,
        sg: &mut SplitGroupBuilder,
        prefix_start: LineColumn,
        list: &Vec<Item>,
        suffix_start: LineColumn,
    )
        requires
            old(out).wf(),
            old(sg).wf(old(out)),
        ensures
            *final(sg) == *old(sg),
            said(old(out), final(out), *old(sg), block_text(" {"@, Item::texts(list@))),
            final(out).doc(old(sg).node).split == old(out).doc(old(sg).node).split,
            laid(final(out), old(sg).node) == laid(old(out), old(sg).node).block_of(
                *base_indent,
                prefix_start,
                Item::margins(list@),
                Item::all_built(
                    list@,
                    old(out).whitespaces@,
                    base_indent.deeper(),
                    old(out).config,
                ),
                suffix_start,
            ),
        decreases list, 1int,
    {
        let entries = Item::build_entries(out, &base_indent.indent(), sg, list);
        assert(code_text(out.doc(sg.node)) == code_text(old(out).doc(sg.node)));
        assert(laid(out, sg.node) == laid(old(out), sg.node).with_gaps(out.whitespaces@));
        append_bracketed_statement_list(
            out,
            base_indent,
            sg,
            prefix_start,
            " {",
            &entries,
            suffix_start,
        );
    }
}

impl File {
    /// What the file says: its declarations, a space apart.
    pub open spec fn text(self) -> Seq<char> {
        joined(Item::texts(self.items@), " "@)
    }

    /// The group for the file: its declarations, built first and laid out
    /// at `base_indent`, and behind them the gap that stood behind the last
    /// token.
    pub open spec fn built(self, gaps: Seq<Gap>, base_indent: Alignment, config: FormatConfig)
        -> Built {
        let all = Item::all_built(self.items@, gaps, base_indent, config);
        Laid::start(all.gaps).statements(base_indent, Item::margins(self.items@), all.docs).gap(
            LineColumn { line: 0, column: 1 },
            base_indent,
        ).built(false)
    }

    /// A finished group for the file: its declarations, each on lines of
    /// its own, with an empty line between two neighbours where the margin
    /// rule asks for one, and behind them the comments that stood behind
    /// the last token.
    pub fn make_segs(&self, out: &mut MakeSegsState, base_indent: &Alignment) -> (idx:
        SplitGroupIdx)
        requires
            old(out).wf(),
        ensures
            made(old(out), final(out), idx, self.text()),
            built_as(
                final(out),
                idx,
                self.built(old(out).whitespaces@, *base_indent, old(out).config),
            ),
    {
        let mut sg = new_sg(out);
        assert(laid(out, sg.node) =~= Laid::start(old(out).whitespaces@));
        let entries = Item::build_entries(out, base_indent, &sg, &self.items);
        assert(code_text(out.doc(sg.node)) == Seq::<char>::empty());
        assert(laid(out, sg.node) =~= Laid::start(out.whitespaces@));
        append_statement_list(out, base_indent, &mut sg, &entries);
        append_whitespace(out, base_indent, &mut sg, LineColumn { line: 0, column: 1 });
        let idx = sg.build(out);
        assert(code_text(out.doc(idx)) =~= self.text());
        idx
    }
}

} // verus!
