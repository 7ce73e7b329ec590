//! The declarations and statements of a program as the front end reads
//! them: the places of the tokens whose gaps are reattached, the names, and
//! the pieces that are laid out by rules of their own.

use crate::sg_general::Syntax;
use crate::whitespace::LineColumn;
use vstd::prelude::*;

verus! {

/// A name or literal of the source at its place.
#[derive(Debug, PartialEq, Eq)]
pub struct Token {
    pub loc: LineColumn,
    pub text: String,
}

/// An element of a list with the place of the mark that follows it, if one
/// does.
#[derive(Debug, PartialEq, Eq)]
pub struct Pair<T> {
    pub value: T,
    pub punct: Option<LineColumn>,
}

#[derive(Debug, PartialEq, Eq)]
pub enum Visibility {
    Public { pub_loc: LineColumn },
    Crate { crate_loc: LineColumn },
    Restricted {
        pub_loc: LineColumn,
        in_token: Option<LineColumn>,
        path: Syntax,
        paren_end: LineColumn,
    },
    Inherited,
}

#[derive(Debug, PartialEq, Eq)]
pub struct Abi {
    pub extern_loc: LineColumn,
    pub name: Option<Token>,
}

#[derive(Debug, PartialEq, Eq)]
pub struct WhereClause {
    pub where_loc: LineColumn,
    pub predicates: Vec<Pair<Syntax>>,
}

/// Generic parameters in angle brackets, of which there may be none, and a
/// where clause.
#[derive(Debug, PartialEq, Eq)]
pub struct Generics {
    pub lt_loc: LineColumn,
    pub params: Vec<Pair<Syntax>>,
    pub gt_loc: LineColumn,
    pub where_clause: Option<WhereClause>,
}

#[derive(Debug, PartialEq, Eq)]
pub struct Signature {
    pub constness: Option<LineColumn>,
    pub asyncness: Option<LineColumn>,
    pub unsafety: Option<LineColumn>,
    pub abi: Option<Abi>,
    pub fn_loc: LineColumn,
    pub ident: Token,
    pub generics: Generics,
    pub paren_start: LineColumn,
    pub inputs: Vec<Pair<FnArg>>,
    pub paren_end: LineColumn,
    pub output: Option<(LineColumn, Syntax)>,
}

/// What a function takes: the receiver, a pattern with its type, or, as the
/// last input of a variadic function, the dots.
#[derive(Debug, PartialEq, Eq)]
pub enum FnArg {
    Receiver {
        attrs: Vec<Syntax>,
        and_loc: Option<LineColumn>,
        lifetime: Option<Token>,
        mutability: Option<LineColumn>,
        self_loc: LineColumn,
    },
    Typed { attrs: Vec<Syntax>, pat: Syntax, colon_loc: LineColumn, ty: Syntax },
    Variadic { attrs: Vec<Syntax>, dots_loc: LineColumn },
}

#[derive(Debug, PartialEq, Eq)]
pub struct Field {
    pub attrs: Vec<Syntax>,
    pub vis: Visibility,
    pub ident: Option<Token>,
    /// The place of the colon behind the name, if the field has a name.
    pub colon_loc: LineColumn,
    pub ty: Syntax,
}

#[derive(Debug, PartialEq, Eq)]
pub enum Fields {
    Named { brace_start: LineColumn, named: Vec<Pair<Field>>, brace_end: LineColumn },
    Unnamed { paren_start: LineColumn, unnamed: Vec<Pair<Field>>, paren_end: LineColumn },
    Unit,
}

#[derive(Debug, PartialEq, Eq)]
pub struct Variant {
    pub attrs: Vec<Syntax>,
    pub ident: Token,
    pub fields: Fields,
    pub discriminant: Option<(LineColumn, Syntax)>,
}

#[derive(Debug, PartialEq, Eq)]
pub enum UseTree {
    Path { ident: Token, colons_loc: LineColumn, tree: Box<UseTree> },
    Name { ident: Token },
    Rename { ident: Token, as_loc: LineColumn, rename: Token },
    Glob { star_loc: LineColumn },
    Group { brace_start: LineColumn, items: Vec<Pair<UseTree>>, brace_end: LineColumn },
}

/// A macro call: the path, and the body between its delimiters.
#[derive(Debug, PartialEq, Eq)]
pub struct Macro {
    pub path: Syntax,
    pub bang_loc: LineColumn,
    pub open: Token,
    pub body: Syntax,
    pub close: Token,
}

#[derive(Debug, PartialEq, Eq)]
pub struct Block {
    pub brace_start: LineColumn,
    pub stmts: Vec<Stmt>,
    pub brace_end: LineColumn,
}

#[derive(Debug, PartialEq, Eq)]
pub struct Local {
    pub attrs: Vec<Syntax>,
    pub let_loc: LineColumn,
    pub pat: Syntax,
    pub init: Option<(LineColumn, Syntax)>,
    pub semi_loc: LineColumn,
}

#[derive(Debug, PartialEq, Eq)]
pub enum Stmt {
    Local(Local),
    Item(Item),
    Expr { expr: Syntax, has_attrs: bool },
    Semi { expr: Syntax, has_attrs: bool, semi_loc: LineColumn },
    /// An attribute of the block that the statement stands in.
    InnerAttr(Syntax),
}

#[derive(Debug, PartialEq, Eq)]
pub enum ForeignItem {
    Fn { attrs: Vec<Syntax>, vis: Visibility, sig: Signature, semi_loc: LineColumn },
    Static {
        attrs: Vec<Syntax>,
        vis: Visibility,
        static_loc: LineColumn,
        mutability: Option<LineColumn>,
        ident: Token,
        colon_loc: LineColumn,
        ty: Syntax,
        semi_loc: LineColumn,
    },
    Type {
        attrs: Vec<Syntax>,
        vis: Visibility,
        type_loc: LineColumn,
        ident: Token,
        semi_loc: LineColumn,
    },
    Macro { attrs: Vec<Syntax>, mac: Macro, semi: Option<LineColumn> },
    Verbatim(Syntax),
    /// An attribute of the block that the entry stands in.
    InnerAttr(Syntax),
}

#[derive(Debug, PartialEq, Eq)]
pub enum ImplItem {
    Const {
        attrs: Vec<Syntax>,
        vis: Visibility,
        defaultness: Option<LineColumn>,
        const_loc: LineColumn,
        ident: Token,
        colon_loc: LineColumn,
        ty: Syntax,
        eq_loc: LineColumn,
        expr: Syntax,
        semi_loc: LineColumn,
    },
    Method {
        attrs: Vec<Syntax>,
        vis: Visibility,
        defaultness: Option<LineColumn>,
        sig: Signature,
        block: Block,
    },
    Type {
        attrs: Vec<Syntax>,
        vis: Visibility,
        defaultness: Option<LineColumn>,
        type_loc: LineColumn,
        ident: Token,
        generics: Generics,
        eq_loc: LineColumn,
        ty: Syntax,
        semi_loc: LineColumn,
    },
    Macro { attrs: Vec<Syntax>, mac: Macro, semi: Option<LineColumn> },
    Verbatim(Syntax),
    /// An attribute of the block that the entry stands in.
    InnerAttr(Syntax),
}

#[derive(Debug, PartialEq, Eq)]
pub enum TraitItem {
    Const {
        attrs: Vec<Syntax>,
        const_loc: LineColumn,
        ident: Token,
        colon_loc: LineColumn,
        ty: Syntax,
        default: Option<(LineColumn, Syntax)>,
        semi_loc: LineColumn,
    },
    Method { attrs: Vec<Syntax>, sig: Signature, default: Option<Block>, semi_loc: LineColumn },
    Type {
        attrs: Vec<Syntax>,
        type_loc: LineColumn,
        ident: Token,
        generics: Generics,
        colon_loc: Option<LineColumn>,
        bounds: Vec<Pair<Syntax>>,
        default: Option<(LineColumn, Syntax)>,
        semi_loc: LineColumn,
    },
    Macro { attrs: Vec<Syntax>, mac: Macro, semi: Option<LineColumn> },
    Verbatim(Syntax),
    /// An attribute of the block that the entry stands in.
    InnerAttr(Syntax),
}

#[derive(Debug, PartialEq, Eq)]
pub enum Item {
    Const {
        attrs: Vec<Syntax>,
        vis: Visibility,
        const_loc: LineColumn,
        ident: Token,
        colon_loc: LineColumn,
        ty: Syntax,
        eq_loc: LineColumn,
        expr: Syntax,
        semi_loc: LineColumn,
    },
    Enum {
        attrs: Vec<Syntax>,
        vis: Visibility,
        enum_loc: LineColumn,
        ident: Token,
        generics: Generics,
        brace_start: LineColumn,
        variants: Vec<Pair<Variant>>,
        brace_end: LineColumn,
    },
    ExternCrate {
        attrs: Vec<Syntax>,
        vis: Visibility,
        extern_loc: LineColumn,
        crate_loc: LineColumn,
        ident: Token,
        rename: Option<(LineColumn, Token)>,
        semi_loc: LineColumn,
    },
    Fn { attrs: Vec<Syntax>, vis: Visibility, sig: Signature, block: Block },
    ForeignMod {
        attrs: Vec<Syntax>,
        extern_loc: LineColumn,
        abi_name: Option<Token>,
        brace_start: LineColumn,
        items: Vec<ForeignItem>,
        brace_end: LineColumn,
    },
    Impl {
        attrs: Vec<Syntax>,
        defaultness: Option<LineColumn>,
        unsafety: Option<LineColumn>,
        impl_loc: LineColumn,
        generics: Generics,
        negative: Option<LineColumn>,
        trait_: Option<Syntax>,
        for_loc: LineColumn,
        self_ty: Syntax,
        brace_start: LineColumn,
        items: Vec<ImplItem>,
        brace_end: LineColumn,
    },
    Macro { attrs: Vec<Syntax>, ident: Option<Token>, mac: Macro, semi: Option<LineColumn> },
    Macro2 {
        attrs: Vec<Syntax>,
        vis: Visibility,
        macro_loc: LineColumn,
        ident: Token,
        rules: Syntax,
    },
    Mod {
        attrs: Vec<Syntax>,
        vis: Visibility,
        mod_loc: LineColumn,
        ident: Token,
        content: Option<ModContent>,
        semi_loc: LineColumn,
    },
    Static {
        attrs: Vec<Syntax>,
        vis: Visibility,
        static_loc: LineColumn,
        mutability: Option<LineColumn>,
        ident: Token,
        colon_loc: LineColumn,
        ty: Syntax,
        eq_loc: LineColumn,
        expr: Syntax,
        semi_loc: LineColumn,
    },
    Struct {
        attrs: Vec<Syntax>,
        vis: Visibility,
        struct_loc: LineColumn,
        ident: Token,
        generics: Generics,
        fields: Fields,
        semi_loc: LineColumn,
    },
    Trait {
        attrs: Vec<Syntax>,
        vis: Visibility,
        unsafety: Option<LineColumn>,
        auto_token: Option<LineColumn>,
        trait_loc: LineColumn,
        ident: Token,
        generics: Generics,
        colon: Option<LineColumn>,
        supertraits: Vec<Pair<Syntax>>,
        brace_start: LineColumn,
        items: Vec<TraitItem>,
        brace_end: LineColumn,
    },
    TraitAlias {
        attrs: Vec<Syntax>,
        vis: Visibility,
        trait_loc: LineColumn,
        ident: Token,
        generics: Generics,
        eq_loc: LineColumn,
        bounds: Vec<Pair<Syntax>>,
        semi_loc: LineColumn,
    },
    Type {
        attrs: Vec<Syntax>,
        vis: Visibility,
        type_loc: LineColumn,
        ident: Token,
        generics: Generics,
        eq_loc: LineColumn,
        ty: Syntax,
        semi_loc: LineColumn,
    },
    Union {
        attrs: Vec<Syntax>,
        vis: Visibility,
        union_loc: LineColumn,
        ident: Token,
        generics: Generics,
        brace_start: LineColumn,
        fields: Vec<Pair<Field>>,
        brace_end: LineColumn,
    },
    Use {
        attrs: Vec<Syntax>,
        vis: Visibility,
        use_loc: LineColumn,
        leading_colon: Option<LineColumn>,
        tree: UseTree,
        semi_loc: LineColumn,
    },
    Verbatim(Syntax),
    /// An attribute of the block that the entry stands in.
    InnerAttr(Syntax),
}

/// The declarations of a module between their braces.
#[derive(Debug, PartialEq, Eq)]
pub struct ModContent {
    pub brace_start: LineColumn,
    pub items: Vec<Item>,
    pub brace_end: LineColumn,
}

/// A source file: its declarations.
#[derive(Debug, PartialEq, Eq)]
pub struct File {
    pub items: Vec<Item>,
}

} // verus!
