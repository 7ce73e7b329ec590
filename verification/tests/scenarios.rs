use genemichaels::extract_whitespaces;
use genemichaels::format_ast;
use genemichaels::syntax::Field;
use genemichaels::syntax::Fields;
use genemichaels::syntax::Generics;
use genemichaels::syntax::Pair;
use genemichaels::syntax::Token;
use genemichaels::syntax::UseTree;
use genemichaels::syntax::Visibility;
use genemichaels::File;
use genemichaels::FormatConfig;
use genemichaels::Item;
use genemichaels::LineColumn;
use genemichaels::Syntax;
use genemichaels::TokenSpan;

fn at(line: usize, column: usize) -> LineColumn {
    LineColumn { line, column }
}

fn token(text: &str) -> Token {
    Token { loc: at(0, 0), text: text.to_string() }
}

fn plain(max_width: usize, threshold: Option<usize>) -> FormatConfig {
    FormatConfig {
        max_width,
        root_splits: false,
        split_brace_threshold: threshold,
        split_attributes: false,
        split_where: false,
        comment_width: None,
        comment_errors_fatal: false,
        quiet: false,
    }
}

fn no_generics() -> Generics {
    Generics { lt_loc: at(0, 0), params: vec![], gt_loc: at(0, 0), where_clause: None }
}

fn field(name: &str, ty: &str, column: usize, comma: Option<usize>) -> Pair<Field> {
    Pair {
        value: Field {
            attrs: vec![],
            vis: Visibility::Inherited,
            ident: Some(Token { loc: at(1, column), text: name.to_string() }),
            colon_loc: at(1, column + name.len()),
            ty: Syntax::Token { loc: at(1, column + name.len() + 1), text: ty.to_string() },
        },
        punct: comma.map(|c| at(1, c)),
    }
}

/// `struct S{a:i32,b:i32}`
fn struct_s() -> File {
    File {
        items: vec![Item::Struct {
            attrs: vec![],
            vis: Visibility::Inherited,
            struct_loc: at(1, 0),
            ident: token("S"),
            generics: no_generics(),
            fields: Fields::Named {
                brace_start: at(1, 8),
                named: vec![field("a", "i32", 9, Some(14)), field("b", "i32", 15, None)],
                brace_end: at(1, 20),
            },
            semi_loc: at(0, 0),
        }],
    }
}

fn import(line: usize, name: &str) -> Item {
    Item::Use {
        attrs: vec![],
        vis: Visibility::Inherited,
        use_loc: at(line, 0),
        leading_colon: None,
        tree: UseTree::Name { ident: Token { loc: at(line, 4), text: name.to_string() } },
        semi_loc: at(line, 4 + name.len()),
    }
}

fn unit_struct(line: usize, name: &str) -> Item {
    Item::Struct {
        attrs: vec![],
        vis: Visibility::Inherited,
        struct_loc: at(line, 0),
        ident: token(name),
        generics: no_generics(),
        fields: Fields::Unit,
        semi_loc: at(line, 7 + name.len()),
    }
}

#[test]
fn struct_fits_on_one_line() {
    let res = format_ast(&struct_s(), &plain(80, None), vec![]).unwrap();
    assert_eq!(res.rendered, "struct S { a: i32, b: i32 }\n");
    assert!(res.lost_comments.is_empty());
}

#[test]
fn struct_splits_at_threshold() {
    let res = format_ast(&struct_s(), &plain(80, Some(2)), vec![]).unwrap();
    assert_eq!(res.rendered, "struct S {\n    a: i32,\n    b: i32,\n}\n");
}

#[test]
fn struct_below_threshold_stays() {
    let res = format_ast(&struct_s(), &plain(80, Some(3)), vec![]).unwrap();
    assert_eq!(res.rendered, "struct S { a: i32, b: i32 }\n");
}

#[test]
fn struct_splits_when_too_wide() {
    let res = format_ast(&struct_s(), &plain(26, None), vec![]).unwrap();
    assert_eq!(res.rendered, "struct S {\n    a: i32,\n    b: i32,\n}\n");
}

#[test]
fn struct_fits_at_exact_width() {
    let res = format_ast(&struct_s(), &plain(27, None), vec![]).unwrap();
    assert_eq!(res.rendered, "struct S { a: i32, b: i32 }\n");
}

#[test]
fn block_defs_get_one_blank_line() {
    let file = File { items: vec![unit_struct(1, "A"), unit_struct(2, "B")] };
    let res = format_ast(&file, &plain(80, None), vec![]).unwrap();
    assert_eq!(res.rendered, "struct A;\n\nstruct B;\n");
}

#[test]
fn imports_pack() {
    let file = File { items: vec![import(1, "a"), import(2, "b")] };
    let res = format_ast(&file, &plain(80, None), vec![]).unwrap();
    assert_eq!(res.rendered, "use a;\nuse b;\n");
}

#[test]
fn import_and_block_def_are_parted() {
    let file = File { items: vec![import(1, "a"), unit_struct(2, "B")] };
    let res = format_ast(&file, &plain(80, None), vec![]).unwrap();
    assert_eq!(res.rendered, "use a;\n\nstruct B;\n");
}

fn import_spans(line: usize) -> Vec<TokenSpan> {
    vec![
        TokenSpan { start: at(line, 0), end: at(line, 3) },
        TokenSpan { start: at(line, 4), end: at(line, 5) },
        TokenSpan { start: at(line, 5), end: at(line, 6) },
    ]
}

fn two_imports(source: &str, second_line: usize) -> String {
    let mut tokens = import_spans(1);
    tokens.extend(import_spans(second_line));
    let gaps = extract_whitespaces(source, &tokens);
    let file = File { items: vec![import(1, "a"), import(second_line, "b")] };
    let res = format_ast(&file, &plain(80, None), gaps).unwrap();
    assert!(res.lost_comments.is_empty());
    res.rendered
}

#[test]
fn blank_line_of_the_source_is_kept() {
    assert_eq!(two_imports("use a;\n\nuse b;\n", 3), "use a;\n\nuse b;\n");
}

#[test]
fn blank_lines_of_the_source_become_one() {
    assert_eq!(two_imports("use a;\n\n\n\n\nuse b;\n", 6), "use a;\n\nuse b;\n");
}

#[test]
fn no_blank_line_is_made_between_imports() {
    assert_eq!(two_imports("use a;\nuse b;\n", 2), "use a;\nuse b;\n");
}

#[test]
fn blank_line_of_the_source_and_of_the_margin_are_one() {
    let source = "use a;\n\n\nstruct B;\n";
    let mut tokens = import_spans(1);
    tokens.extend(vec![
        TokenSpan { start: at(4, 0), end: at(4, 6) },
        TokenSpan { start: at(4, 7), end: at(4, 8) },
        TokenSpan { start: at(4, 8), end: at(4, 9) },
    ]);
    let gaps = extract_whitespaces(source, &tokens);
    let file = File { items: vec![import(1, "a"), unit_struct(4, "B")] };
    let res = format_ast(&file, &plain(80, None), gaps).unwrap();
    assert_eq!(res.rendered, "use a;\n\nstruct B;\n");
}

#[test]
fn comment_between_declarations_stays_with_the_one_behind_it() {
    let source = "use a;\n// about b\nuse b;\n";
    assert_eq!(two_imports(source, 3), "use a;\n// about b\nuse b;\n");
    let source = "use a; // about b\n\nuse b;\n";
    assert_eq!(two_imports(source, 3), "use a;\n// about b\n\nuse b;\n");
}

#[test]
fn formatting_the_output_again_changes_nothing() {
    let first = two_imports("use a;   // about b\n\n\n\nuse b;\n", 5);
    assert_eq!(first, "use a;\n// about b\n\nuse b;\n");
    // In the output the second declaration stands on line 4.
    assert_eq!(two_imports(&first, 4), first);
}
