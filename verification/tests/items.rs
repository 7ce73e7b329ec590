use genemichaels::format_ast;
use genemichaels::syntax::Abi;
use genemichaels::syntax::Block;
use genemichaels::syntax::Field;
use genemichaels::syntax::Fields;
use genemichaels::syntax::FnArg;
use genemichaels::syntax::ForeignItem;
use genemichaels::syntax::Generics;
use genemichaels::syntax::ImplItem;
use genemichaels::syntax::Local;
use genemichaels::syntax::Macro;
use genemichaels::syntax::ModContent;
use genemichaels::syntax::Pair;
use genemichaels::syntax::Signature;
use genemichaels::syntax::Stmt;
use genemichaels::syntax::Token;
use genemichaels::syntax::TraitItem;
use genemichaels::syntax::UseTree;
use genemichaels::syntax::Variant;
use genemichaels::syntax::Visibility;
use genemichaels::syntax::WhereClause;
use genemichaels::Comment;
use genemichaels::CommentMode;
use genemichaels::File;
use genemichaels::FormatConfig;
use genemichaels::Gap;
use genemichaels::Item;
use genemichaels::LineColumn;
use genemichaels::MarginGroup;
use genemichaels::Syntax;
use genemichaels::Whitespace;

fn nowhere() -> LineColumn {
    LineColumn { line: 0, column: 0 }
}

fn plain(max_width: usize) -> FormatConfig {
    FormatConfig {
        max_width,
        root_splits: false,
        split_brace_threshold: None,
        split_attributes: false,
        split_where: false,
        comment_width: None,
        comment_errors_fatal: false,
        quiet: false,
    }
}

fn tok(text: &str) -> Syntax {
    Syntax::Token { loc: nowhere(), text: text.to_string() }
}

fn token(text: &str) -> Token {
    Token { loc: nowhere(), text: text.to_string() }
}

fn list<T>(values: Vec<T>) -> Vec<Pair<T>> {
    values.into_iter().map(|value| Pair { value, punct: None }).collect()
}

fn generics(params: &[&str], preds: &[&str]) -> Generics {
    Generics {
        lt_loc: nowhere(),
        params: list(params.iter().map(|p| tok(p)).collect()),
        gt_loc: nowhere(),
        where_clause: if preds.is_empty() {
            None
        } else {
            Some(WhereClause {
                where_loc: nowhere(),
                predicates: list(preds.iter().map(|p| tok(p)).collect()),
            })
        },
    }
}

fn arg(text: &str) -> FnArg {
    match text.split_once(": ") {
        Some((pat, ty)) => FnArg::Typed {
            attrs: vec![],
            pat: tok(pat),
            colon_loc: nowhere(),
            ty: tok(ty),
        },
        None => FnArg::Receiver {
            attrs: vec![],
            and_loc: text.starts_with('&').then(nowhere),
            lifetime: None,
            mutability: text.contains("mut").then(nowhere),
            self_loc: nowhere(),
        },
    }
}

fn sig(name: &str, params: &[&str], inputs: &[&str], output: Option<&str>, preds: &[&str]) -> Signature {
    Signature {
        constness: None,
        asyncness: None,
        unsafety: None,
        abi: None,
        fn_loc: nowhere(),
        ident: token(name),
        generics: generics(params, preds),
        paren_start: nowhere(),
        inputs: list(inputs.iter().map(|p| arg(p)).collect()),
        paren_end: nowhere(),
        output: output.map(|t| (nowhere(), tok(t))),
    }
}

fn block(stmts: Vec<Stmt>) -> Block {
    Block { brace_start: nowhere(), stmts, brace_end: nowhere() }
}

fn expr(text: &str) -> Stmt {
    Stmt::Expr { expr: tok(text), has_attrs: false }
}

fn semi(text: &str) -> Stmt {
    Stmt::Semi { expr: tok(text), has_attrs: false, semi_loc: nowhere() }
}

fn local(pat: &str, init: Option<&str>) -> Stmt {
    Stmt::Local(Local {
        attrs: vec![],
        let_loc: nowhere(),
        pat: tok(pat),
        init: init.map(|t| (nowhere(), tok(t))),
        semi_loc: nowhere(),
    })
}

fn show(items: Vec<Item>, config: &FormatConfig) -> String {
    format_ast(&File { items }, config, vec![]).unwrap().rendered
}


fn generic_fn(attrs: Vec<Syntax>) -> Item {
    Item::Fn {
        attrs,
        vis: Visibility::Public { pub_loc: nowhere() },
        sig: sig("f", &["T"], &["a: T", "b: u8"], Some("T"), &["T: Copy"]),
        block: block(vec![local("x", Some("a")), semi("g(x)"), expr("x")]),
    }
}

#[test]
fn function_with_body() {
    assert_eq!(
        show(vec![generic_fn(vec![tok("#[inline]")])], &plain(80)),
        "#[inline] pub fn f<T>(a: T, b: u8) -> T where T: Copy {\n    let x = a;\n    g(x);\n    x\n}\n"
    );
}

#[test]
fn attributes_and_where_clause_split_where_the_options_say_so() {
    let mut cfg = plain(80);
    cfg.split_where = true;
    cfg.split_attributes = true;
    assert_eq!(
        show(vec![generic_fn(vec![tok("#[inline]")])], &cfg),
        "#[inline]\npub fn f<T>(a: T, b: u8) -> T\nwhere\n    T: Copy,\n{\n    let x = a;\n    g(x);\n    x\n}\n"
    );
}

#[test]
fn split_attributes_alone() {
    let mut cfg = plain(80);
    cfg.split_attributes = true;
    assert_eq!(
        show(vec![generic_fn(vec![tok("#[a]"), tok("#[b]")])], &cfg),
        "#[a]\n#[b]\npub fn f<T>(a: T, b: u8) -> T where T: Copy {\n    let x = a;\n    g(x);\n    x\n}\n"
    );
}

#[test]
fn where_clause_forced_by_option_splits_every_ancestor_with_root_splits() {
    let item = || Item::Impl {
        attrs: vec![],
        defaultness: None,
        unsafety: None,
        impl_loc: nowhere(),
        generics: generics(&[], &[]),
        negative: None,
        trait_: None,
        for_loc: nowhere(),
        self_ty: tok("S"),
        brace_start: nowhere(),
        items: vec![ImplItem::Type {
            attrs: vec![],
            vis: Visibility::Inherited,
            defaultness: None,
            type_loc: nowhere(),
            ident: token("X"),
            generics: generics(&["T"], &["T: A"]),
            eq_loc: nowhere(),
            ty: tok("u8"),
            semi_loc: nowhere(),
        }],
        brace_end: nowhere(),
    };
    let mut cfg = plain(80);
    assert_eq!(show(vec![item()], &cfg), "impl S {\n    type X<T> where T: A = u8;\n}\n");
    cfg.split_where = true;
    assert_eq!(
        show(vec![item()], &cfg),
        "impl S {\n    type X<T>\n    where\n        T: A,\n    = u8;\n}\n"
    );
    cfg.root_splits = true;
    assert_eq!(
        show(vec![item()], &cfg),
        "impl S {\n    type X<T>\n    where\n        T: A,\n    =\n        u8;\n}\n"
    );
}

#[test]
fn empty_function() {
    let f = Item::Fn {
        attrs: vec![],
        vis: Visibility::Inherited,
        sig: sig("f", &[], &["a: T"], None, &[]),
        block: block(vec![]),
    };
    assert_eq!(show(vec![f], &plain(80)), "fn f(a: T) {}\n");
}

#[test]
fn long_signature_splits_its_inputs() {
    let f = Item::Fn {
        attrs: vec![],
        vis: Visibility::Inherited,
        sig: sig("f", &[], &["first: Type", "second: Type"], None, &[]),
        block: block(vec![]),
    };
    assert_eq!(
        show(vec![f], &plain(24)),
        "fn f(\n    first: Type,\n    second: Type,\n) {}\n"
    );
}

fn enum_e() -> Item {
    Item::Enum {
        attrs: vec![],
        vis: Visibility::Crate { crate_loc: nowhere() },
        enum_loc: nowhere(),
        ident: token("E"),
        generics: generics(&[], &[]),
        brace_start: nowhere(),
        variants: list(vec![
            Variant {
                attrs: vec![],
                ident: token("A"),
                fields: Fields::Unit,
                discriminant: Some((nowhere(), tok("1"))),
            },
            Variant {
                attrs: vec![],
                ident: token("B"),
                fields: Fields::Unnamed {
                    paren_start: nowhere(),
                    unnamed: list(vec![Field {
                        attrs: vec![],
                        vis: Visibility::Inherited,
                        ident: None,
                        colon_loc: nowhere(),
                        ty: tok("u8"),
                    }]),
                    paren_end: nowhere(),
                },
                discriminant: None,
            },
        ]),
        brace_end: nowhere(),
    }
}

#[test]
fn enum_on_one_line() {
    assert_eq!(show(vec![enum_e()], &plain(80)), "crate enum E { A = 1, B(u8) }\n");
}

#[test]
fn enum_splits_at_threshold() {
    let mut cfg = plain(80);
    cfg.split_brace_threshold = Some(2);
    assert_eq!(show(vec![enum_e()], &cfg), "crate enum E {\n    A = 1,\n    B(u8),\n}\n");
    cfg.split_brace_threshold = Some(3);
    assert_eq!(show(vec![enum_e()], &cfg), "crate enum E { A = 1, B(u8) }\n");
}

#[test]
fn impl_with_items() {
    let i = Item::Impl {
        attrs: vec![],
        defaultness: None,
        unsafety: Some(nowhere()),
        impl_loc: nowhere(),
        generics: generics(&["T"], &[]),
        negative: None,
        trait_: Some(tok("Tr")),
        for_loc: nowhere(),
        self_ty: tok("S<T>"),
        brace_start: nowhere(),
        items: vec![
            ImplItem::Const {
                attrs: vec![],
                vis: Visibility::Inherited,
                defaultness: None,
                const_loc: nowhere(),
                ident: token("C"),
                colon_loc: nowhere(),
                ty: tok("u8"),
                eq_loc: nowhere(),
                expr: tok("1"),
                semi_loc: nowhere(),
            },
            ImplItem::Method {
                attrs: vec![],
                vis: Visibility::Inherited,
                defaultness: None,
                sig: sig("m", &[], &["&self"], None, &[]),
                block: block(vec![]),
            },
        ],
        brace_end: nowhere(),
    };
    assert_eq!(
        show(vec![i], &plain(80)),
        "unsafe impl<T> Tr for S<T> {\n    const C: u8 = 1;\n\n    fn m(&self) {}\n}\n"
    );
}

#[test]
fn trait_with_items() {
    let t = Item::Trait {
        attrs: vec![],
        vis: Visibility::Public { pub_loc: nowhere() },
        unsafety: None,
        auto_token: None,
        trait_loc: nowhere(),
        ident: token("Tr"),
        generics: generics(&[], &[]),
        colon: Some(nowhere()),
        supertraits: list(vec![tok("A"), tok("B")]),
        brace_start: nowhere(),
        items: vec![
            TraitItem::Method {
                attrs: vec![],
                sig: sig("a", &[], &[], None, &[]),
                default: None,
                semi_loc: nowhere(),
            },
            TraitItem::Method {
                attrs: vec![],
                sig: sig("b", &[], &[], None, &[]),
                default: Some(block(vec![expr("1")])),
                semi_loc: nowhere(),
            },
            TraitItem::Type {
                attrs: vec![],
                type_loc: nowhere(),
                ident: token("X"),
                generics: generics(&[], &[]),
                colon_loc: Some(nowhere()),
                bounds: list(vec![tok("A"), tok("B")]),
                default: Some((nowhere(), tok("u8"))),
                semi_loc: nowhere(),
            },
        ],
        brace_end: nowhere(),
    };
    assert_eq!(
        show(vec![t], &plain(80)),
        "pub trait Tr: A + B {\n    fn a();\n\n    fn b() {\n        1\n    }\n\n    type X: A + B = u8;\n}\n"
    );
}

#[test]
fn module_with_imports() {
    let m = Item::Mod {
        attrs: vec![],
        vis: Visibility::Inherited,
        mod_loc: nowhere(),
        ident: token("m"),
        content: Some(ModContent {
            brace_start: nowhere(),
            items: vec![
                Item::Use {
                    attrs: vec![],
                    vis: Visibility::Inherited,
                    use_loc: nowhere(),
                    leading_colon: Some(nowhere()),
                    tree: UseTree::Path {
                        ident: token("a"),
                        colons_loc: nowhere(),
                        tree: Box::new(UseTree::Group {
                            brace_start: nowhere(),
                            items: list(vec![
                                UseTree::Name { ident: token("b") },
                                UseTree::Rename { ident: token("c"), as_loc: nowhere(), rename: token("d") },
                                UseTree::Glob { star_loc: nowhere() },
                            ]),
                            brace_end: nowhere(),
                        }),
                    },
                    semi_loc: nowhere(),
                },
                Item::Static {
                    attrs: vec![],
                    vis: Visibility::Inherited,
                    static_loc: nowhere(),
                    mutability: Some(nowhere()),
                    ident: token("X"),
                    colon_loc: nowhere(),
                    ty: tok("u8"),
                    eq_loc: nowhere(),
                    expr: tok("0"),
                    semi_loc: nowhere(),
                },
            ],
            brace_end: nowhere(),
        }),
        semi_loc: nowhere(),
    };
    assert_eq!(
        show(vec![m], &plain(80)),
        "mod m {\n    use ::a::{ b, c as d, * };\n\n    static mut X: u8 = 0;\n}\n"
    );
}

#[test]
fn use_group_splits_at_threshold() {
    let u = Item::Use {
        attrs: vec![],
        vis: Visibility::Public { pub_loc: nowhere() },
        use_loc: nowhere(),
        leading_colon: None,
        tree: UseTree::Path {
            ident: token("a"),
            colons_loc: nowhere(),
            tree: Box::new(UseTree::Group {
                brace_start: nowhere(),
                items: list(vec![
                    UseTree::Name { ident: token("b") },
                    UseTree::Name { ident: token("c") },
                ]),
                brace_end: nowhere(),
            }),
        },
        semi_loc: nowhere(),
    };
    let mut cfg = plain(80);
    cfg.split_brace_threshold = Some(1);
    assert_eq!(show(vec![u], &cfg), "pub use a::{\n    b,\n    c,\n};\n");
}

#[test]
fn module_without_content() {
    let m = Item::Mod {
        attrs: vec![],
        vis: Visibility::Restricted { pub_loc: nowhere(), in_token: Some(nowhere()), path: tok("a::b"), paren_end: nowhere() },
        mod_loc: nowhere(),
        ident: token("m"),
        content: None,
        semi_loc: nowhere(),
    };
    assert_eq!(show(vec![m], &plain(80)), "pub(in a::b) mod m;\n");
}

#[test]
fn foreign_module() {
    let fm = Item::ForeignMod {
        attrs: vec![],
        extern_loc: nowhere(),
        abi_name: Some(token("\"C\"")),
        brace_start: nowhere(),
        items: vec![
            ForeignItem::Fn {
                attrs: vec![],
                vis: Visibility::Inherited,
                sig: Signature {
                    unsafety: Some(nowhere()),
                    inputs: list(vec![
                        arg("f: *const u8"),
                        FnArg::Variadic { attrs: vec![tok("#[a]")], dots_loc: nowhere() },
                    ]),
                    ..sig("printf", &[], &[], None, &[])
                },
                semi_loc: nowhere(),
            },
            ForeignItem::Static {
                attrs: vec![],
                vis: Visibility::Inherited,
                static_loc: nowhere(),
                mutability: None,
                ident: token("X"),
                colon_loc: nowhere(),
                ty: tok("u8"),
                semi_loc: nowhere(),
            },
            ForeignItem::Type {
                attrs: vec![],
                vis: Visibility::Inherited,
                type_loc: nowhere(),
                ident: token("T"),
                semi_loc: nowhere(),
            },
        ],
        brace_end: nowhere(),
    };
    assert_eq!(
        show(vec![fm], &plain(80)),
        "extern \"C\" {\n    unsafe fn printf(f: *const u8, #[a] ...);\n    static X: u8;\n    type T;\n}\n"
    );
}

#[test]
fn signature_with_all_its_words() {
    let f = Item::Fn {
        attrs: vec![],
        vis: Visibility::Inherited,
        sig: Signature {
            constness: Some(nowhere()),
            asyncness: Some(nowhere()),
            unsafety: Some(nowhere()),
            abi: Some(Abi { extern_loc: nowhere(), name: Some(token("\"C\"")) }),
            ..sig("f", &[], &[], None, &[])
        },
        block: block(vec![]),
    };
    assert_eq!(show(vec![f], &plain(80)), "const async unsafe extern \"C\" fn f() {}\n");
}

#[test]
fn macro_call() {
    let mac = Item::Macro {
        attrs: vec![],
        ident: Some(token("m")),
        mac: Macro {
            path: tok("macro_rules"),
            bang_loc: nowhere(),
            open: token(" {"),
            body: Syntax::Group {
                split: true,
                indent: false,
                parts: vec![tok("() => {};"), Syntax::Break { deeper: false }, tok("(x) => {};")],
            },
            close: token("}"),
        },
        semi: None,
    };
    assert_eq!(
        show(vec![mac], &plain(80)),
        "macro_rules! m {\n    () => {};\n    (x) => {};\n}\n"
    );
}

#[test]
fn other_declarations() {
    let items = vec![
        Item::ExternCrate {
            attrs: vec![],
            vis: Visibility::Inherited,
            extern_loc: nowhere(),
            crate_loc: nowhere(),
            ident: token("a"),
            rename: Some((nowhere(), token("b"))),
            semi_loc: nowhere(),
        },
        Item::Const {
            attrs: vec![],
            vis: Visibility::Inherited,
            const_loc: nowhere(),
            ident: token("C"),
            colon_loc: nowhere(),
            ty: tok("u8"),
            eq_loc: nowhere(),
            expr: tok("1"),
            semi_loc: nowhere(),
        },
        Item::Type {
            attrs: vec![],
            vis: Visibility::Inherited,
            type_loc: nowhere(),
            ident: token("T"),
            generics: generics(&["A"], &[]),
            eq_loc: nowhere(),
            ty: tok("Vec<A>"),
            semi_loc: nowhere(),
        },
        Item::TraitAlias {
            attrs: vec![],
            vis: Visibility::Inherited,
            trait_loc: nowhere(),
            ident: token("Tr"),
            generics: generics(&[], &[]),
            eq_loc: nowhere(),
            bounds: list(vec![tok("A"), tok("B")]),
            semi_loc: nowhere(),
        },
        Item::Macro2 {
            attrs: vec![],
            vis: Visibility::Inherited,
            macro_loc: nowhere(),
            ident: token("m"),
            rules: tok("() {}"),
        },
        Item::Union {
            attrs: vec![],
            vis: Visibility::Inherited,
            union_loc: nowhere(),
            ident: token("U"),
            generics: generics(&[], &[]),
            brace_start: nowhere(),
            fields: list(vec![Field {
                attrs: vec![],
                vis: Visibility::Public { pub_loc: nowhere() },
                ident: Some(token("a")),
                colon_loc: nowhere(),
                ty: tok("u8"),
            }]),
            brace_end: nowhere(),
        },
        Item::Struct {
            attrs: vec![],
            vis: Visibility::Inherited,
            struct_loc: nowhere(),
            ident: token("P"),
            generics: generics(&["T"], &["T: A"]),
            fields: Fields::Unnamed {
                paren_start: nowhere(),
                unnamed: list(vec![Field {
                    attrs: vec![],
                    vis: Visibility::Inherited,
                    ident: None,
                    colon_loc: nowhere(),
                    ty: tok("T"),
                }]),
                paren_end: nowhere(),
            },
            semi_loc: nowhere(),
        },
        Item::Verbatim(tok("anything")),
    ];
    assert_eq!(
        show(items, &plain(80)),
        "extern crate a as b;\nconst C: u8 = 1;\ntype T<A> = Vec<A>;\ntrait Tr = A + B;\n\nmacro m() {}\n\nunion U { pub a: u8 }\n\nstruct P<T>(T) where T: A;\n\nanything\n"
    );
}

#[test]
fn margins_and_attributes_are_told() {
    assert_eq!(enum_e().want_margin(), (MarginGroup::BlockDef, true));
    assert!(!enum_e().has_attrs());
    assert!(generic_fn(vec![tok("#[a]")]).has_attrs());
    assert_eq!(Item::Verbatim(tok("x")).want_margin(), (MarginGroup::Plain, false));
    let unit = Item::Struct {
        attrs: vec![],
        vis: Visibility::Inherited,
        struct_loc: nowhere(),
        ident: token("U"),
        generics: generics(&[], &[]),
        fields: Fields::Unit,
        semi_loc: nowhere(),
    };
    assert_eq!(unit.want_margin(), (MarginGroup::BlockDef, false));
    let method = TraitItem::Method {
        attrs: vec![],
        sig: sig("a", &[], &[], None, &[]),
        default: None,
        semi_loc: nowhere(),
    };
    assert_eq!(method.want_margin(), (MarginGroup::BlockDef, false));
    assert_eq!(Stmt::Item(enum_e()).want_margin(), (MarginGroup::BlockDef, true));
    assert_eq!(semi("x").want_margin(), (MarginGroup::Plain, false));
    assert!(Stmt::Expr { expr: tok("x"), has_attrs: true }.has_attrs());
    assert!(!(UseTree::Glob { star_loc: nowhere() }).has_attrs());
}

fn impl_of(items: Vec<ImplItem>) -> Item {
    Item::Impl {
        attrs: vec![],
        defaultness: None,
        unsafety: None,
        impl_loc: nowhere(),
        generics: generics(&[], &[]),
        negative: None,
        trait_: None,
        for_loc: nowhere(),
        self_ty: tok("S"),
        brace_start: nowhere(),
        items,
        brace_end: nowhere(),
    }
}

#[test]
fn constant_of_an_impl_breaks_behind_its_equals_sign() {
    let c = ImplItem::Const {
        attrs: vec![],
        vis: Visibility::Inherited,
        defaultness: None,
        const_loc: nowhere(),
        ident: token("LONG"),
        colon_loc: nowhere(),
        ty: tok("u8"),
        eq_loc: nowhere(),
        expr: tok("a_long_value"),
        semi_loc: nowhere(),
    };
    assert_eq!(
        show(vec![impl_of(vec![c])], &plain(24)),
        "impl S {\n    const LONG: u8 =\n        a_long_value;\n}\n"
    );
}

#[test]
fn constant_of_a_trait_breaks_behind_its_equals_sign() {
    let c = TraitItem::Const {
        attrs: vec![],
        const_loc: nowhere(),
        ident: token("LONG"),
        colon_loc: nowhere(),
        ty: tok("u8"),
        default: Some((nowhere(), tok("a_long_value"))),
        semi_loc: nowhere(),
    };
    let t = Item::Trait {
        attrs: vec![],
        vis: Visibility::Inherited,
        unsafety: None,
        auto_token: None,
        trait_loc: nowhere(),
        ident: token("T"),
        generics: generics(&[], &[]),
        colon: None,
        supertraits: vec![],
        brace_start: nowhere(),
        items: vec![c],
        brace_end: nowhere(),
    };
    assert_eq!(
        show(vec![t], &plain(24)),
        "trait T {\n    const LONG: u8 =\n        a_long_value;\n}\n"
    );
}

#[test]
fn type_of_a_trait_without_default() {
    let ty = TraitItem::Type {
        attrs: vec![],
        type_loc: nowhere(),
        ident: token("Out"),
        generics: generics(&[], &[]),
        colon_loc: Some(nowhere()),
        bounds: list(vec![tok("A"), tok("B")]),
        default: None,
        semi_loc: nowhere(),
    };
    let t = Item::Trait {
        attrs: vec![],
        vis: Visibility::Inherited,
        unsafety: None,
        auto_token: None,
        trait_loc: nowhere(),
        ident: token("T"),
        generics: generics(&[], &[]),
        colon: None,
        supertraits: vec![],
        brace_start: nowhere(),
        items: vec![ty],
        brace_end: nowhere(),
    };
    assert_eq!(show(vec![t], &plain(80)), "trait T {\n    type Out: A + B;\n}\n");
}

#[test]
fn comments_in_front_of_the_words_of_an_impl_come_first() {
    let at = LineColumn { line: 1, column: 7 };
    let note = Comment {
        loc: at,
        offset: 0,
        mode: CommentMode::Block,
        trailing_newline: false,
        text: " x ".to_string(),
    };
    let mut i = impl_of(vec![]);
    if let Item::Impl { unsafety, impl_loc, .. } = &mut i {
        *unsafety = Some(LineColumn { line: 1, column: 0 });
        *impl_loc = at;
    }
    let gaps = vec![Gap { loc: at, items: vec![Whitespace::Comment(note)] }];
    let res = format_ast(&File { items: vec![i] }, &plain(80), gaps).unwrap();
    assert_eq!(res.rendered, "/* x */ unsafe impl S {}\n");
    assert!(res.lost_comments.is_empty());
}

#[test]
fn extern_crate_keeps_its_visibility() {
    let e = Item::ExternCrate {
        attrs: vec![],
        vis: Visibility::Public { pub_loc: nowhere() },
        extern_loc: nowhere(),
        crate_loc: nowhere(),
        ident: token("foo"),
        rename: Some((nowhere(), token("bar"))),
        semi_loc: nowhere(),
    };
    assert_eq!(show(vec![e], &plain(80)), "pub extern crate foo as bar;\n");
}

#[test]
fn method_of_an_impl_keeps_its_default() {
    let m = ImplItem::Method {
        attrs: vec![],
        vis: Visibility::Inherited,
        defaultness: Some(nowhere()),
        sig: sig("f", &[], &[], None, &[]),
        block: block(vec![]),
    };
    assert_eq!(show(vec![impl_of(vec![m])], &plain(80)), "impl S {\n    default fn f() {}\n}\n");
}

#[test]
fn input_has_a_space_behind_its_colon() {
    let f = ForeignItem::Fn {
        attrs: vec![],
        vis: Visibility::Inherited,
        sig: Signature {
            inputs: list(vec![FnArg::Typed {
                attrs: vec![],
                pat: tok("a"),
                colon_loc: nowhere(),
                ty: tok("i32"),
            }]),
            ..sig("f", &[], &[], Some("i32"), &[])
        },
        semi_loc: nowhere(),
    };
    let fm = Item::ForeignMod {
        attrs: vec![],
        extern_loc: nowhere(),
        abi_name: None,
        brace_start: nowhere(),
        items: vec![f],
        brace_end: nowhere(),
    };
    assert_eq!(show(vec![fm], &plain(80)), "extern  {\n    fn f(a: i32) -> i32;\n}\n");
}

#[test]
fn receiver_is_laid_out_by_its_words() {
    let r = FnArg::Receiver {
        attrs: vec![],
        and_loc: Some(nowhere()),
        lifetime: Some(token("'a")),
        mutability: Some(nowhere()),
        self_loc: nowhere(),
    };
    let m = ImplItem::Method {
        attrs: vec![],
        vis: Visibility::Inherited,
        defaultness: None,
        sig: Signature { inputs: list(vec![r, arg("x: u8")]), ..sig("f", &[], &[], None, &[]) },
        block: block(vec![]),
    };
    assert_eq!(
        show(vec![impl_of(vec![m])], &plain(80)),
        "impl S {\n    fn f(&'a mut self, x: u8) {}\n}\n"
    );
    assert!(!arg("self").has_attrs());
}

#[test]
fn attributes_of_a_block_stand_first_in_it() {
    let m = Item::Mod {
        attrs: vec![],
        vis: Visibility::Inherited,
        mod_loc: nowhere(),
        ident: token("m"),
        content: Some(ModContent {
            brace_start: nowhere(),
            items: vec![
                Item::InnerAttr(tok("#![allow(a)]")),
                Item::InnerAttr(tok("#![allow(b)]")),
                Item::Verbatim(tok("x;")),
            ],
            brace_end: nowhere(),
        }),
        semi_loc: nowhere(),
    };
    assert_eq!(
        show(vec![m], &plain(80)),
        "mod m {\n    #![allow(a)]\n    #![allow(b)]\n\n    x;\n}\n"
    );
    assert_eq!(Item::InnerAttr(tok("#![a]")).want_margin(), (MarginGroup::Attr, false));
    assert_eq!(Stmt::InnerAttr(tok("#![a]")).want_margin(), (MarginGroup::Attr, false));
    assert!(!Item::InnerAttr(tok("#![a]")).has_attrs());
}

fn note(at: LineColumn) -> Gap {
    Gap {
        loc: at,
        items: vec![Whitespace::Comment(Comment {
            loc: at,
            offset: 0,
            mode: CommentMode::Block,
            trailing_newline: false,
            text: " x ".to_string(),
        })],
    }
}

#[test]
fn comment_in_front_of_a_star_is_placed() {
    let at = LineColumn { line: 1, column: 7 };
    let u = Item::Use {
        attrs: vec![],
        vis: Visibility::Inherited,
        use_loc: nowhere(),
        leading_colon: None,
        tree: UseTree::Path {
            ident: token("a"),
            colons_loc: nowhere(),
            tree: Box::new(UseTree::Glob { star_loc: at }),
        },
        semi_loc: nowhere(),
    };
    let res = format_ast(&File { items: vec![u] }, &plain(80), vec![note(at)]).unwrap();
    assert_eq!(res.rendered, "use a::/* x */ *;\n");
    assert!(res.lost_comments.is_empty());
}

#[test]
fn comment_in_front_of_extern_and_macro_is_placed() {
    let at = LineColumn { line: 1, column: 0 };
    let fm = Item::ForeignMod {
        attrs: vec![],
        extern_loc: at,
        abi_name: Some(token("\"C\"")),
        brace_start: nowhere(),
        items: vec![],
        brace_end: nowhere(),
    };
    let res = format_ast(&File { items: vec![fm] }, &plain(80), vec![note(at)]).unwrap();
    assert_eq!(res.rendered, "/* x */ extern \"C\" {}\n");
    assert!(res.lost_comments.is_empty());
    let m = Item::Macro2 {
        attrs: vec![],
        vis: Visibility::Inherited,
        macro_loc: at,
        ident: token("m"),
        rules: tok("() {}"),
    };
    let res = format_ast(&File { items: vec![m] }, &plain(80), vec![note(at)]).unwrap();
    assert_eq!(res.rendered, "/* x */ macro m() {}\n");
    assert!(res.lost_comments.is_empty());
}

#[test]
fn comments_in_front_of_fixed_words_are_placed() {
    let at = LineColumn { line: 1, column: 9 };
    let c = Item::Const {
        attrs: vec![],
        vis: Visibility::Inherited,
        const_loc: nowhere(),
        ident: token("C"),
        colon_loc: nowhere(),
        ty: tok("u8"),
        eq_loc: at,
        expr: tok("1"),
        semi_loc: nowhere(),
    };
    let res = format_ast(&File { items: vec![c] }, &plain(80), vec![note(at)]).unwrap();
    assert_eq!(res.rendered, "const C: u8/* x */  = 1;\n");
    assert!(res.lost_comments.is_empty());
    let f = Item::Fn {
        attrs: vec![],
        vis: Visibility::Inherited,
        sig: Signature { output: Some((at, tok("u8"))), ..sig("f", &[], &[], None, &[]) },
        block: block(vec![]),
    };
    let res = format_ast(&File { items: vec![f] }, &plain(80), vec![note(at)]).unwrap();
    assert_eq!(res.rendered, "fn f()/* x */  -> u8 {}\n");
    assert!(res.lost_comments.is_empty());
    let mut i = impl_of(vec![]);
    if let Item::Impl { trait_, for_loc, .. } = &mut i {
        *trait_ = Some(tok("T"));
        *for_loc = at;
    }
    let res = format_ast(&File { items: vec![i] }, &plain(80), vec![note(at)]).unwrap();
    assert_eq!(res.rendered, "impl T/* x */  for S {}\n");
    assert!(res.lost_comments.is_empty());
}
