//! Blank lines between the entries of a block.

use vstd::prelude::*;

verus! {

/// The kind of spacing an entry of a block asks for.
#[derive(Clone, Copy, Debug, PartialEq, Eq, Structural)]
pub enum MarginGroup {
    /// Attributes in front of the first entry.
    Attr,
    /// A declaration that owns a body or a definition.
    BlockDef,
    /// An import; imports may stand close together.
    Import,
    /// No special spacing.
    Plain,
}

/// What an entry of a block asks for: its kind, and whether it has a body
/// that shows.
pub type Margin = (MarginGroup, bool);

/// Whether an empty line stands between two neighbours: if one of them is a
/// declaration with a body or definition, if they are of different kinds, or
/// if one of them has a body that shows.
pub open spec fn margin_required(prev: Margin, next: Margin) -> bool {
    prev.0 == MarginGroup::BlockDef || next.0 == MarginGroup::BlockDef || prev.0 != next.0
        || prev.1 || next.1
}

/// Whether an empty line stands between two neighbours of a block: see
/// [`margin_required`].
pub fn want_blank_line(prev: Margin, next: Margin) -> (b: bool)
    ensures
        b == margin_required(prev, next),
{
    let block = match prev.0 {
        MarginGroup::BlockDef => true,
        _ => match next.0 {
            MarginGroup::BlockDef => true,
            _ => false,
        },
    };
    block || prev.0 != next.0 || prev.1 || next.1
}

/// Two imports without bodies never get an empty line from the rule.
pub proof fn lemma_imports_pack()
    ensures
        !margin_required((MarginGroup::Import, false), (MarginGroup::Import, false)),
{
}

/// Next to a declaration with a body or definition there is always an empty
/// line.
pub proof fn lemma_block_def_margin(prev: Margin, next: Margin)
    requires
        prev.0 == MarginGroup::BlockDef || next.0 == MarginGroup::BlockDef,
    ensures
        margin_required(prev, next),
{
}

} // verus!
