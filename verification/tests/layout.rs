use genemichaels::append_whitespace;
use genemichaels::check_split_brace_threshold;
use genemichaels::finish;
use genemichaels::new_sg;
use genemichaels::new_sg_lit;
use genemichaels::render;
use genemichaels::Alignment;
use genemichaels::Comment;
use genemichaels::CommentMode;
use genemichaels::FormatConfig;
use genemichaels::FormatError;
use genemichaels::Gap;
use genemichaels::LineColumn;
use genemichaels::MakeSegsState;
use genemichaels::SplitGroupIdx;
use genemichaels::Whitespace;

fn config(max_width: usize) -> FormatConfig {
    FormatConfig {
        max_width,
        root_splits: false,
        split_brace_threshold: None,
        split_attributes: false,
        split_where: false,
        comment_width: None,
        comment_errors_fatal: false,
        quiet: false,
    }
}

fn at(line: usize, column: usize) -> LineColumn {
    LineColumn { line, column }
}

fn comment(mode: CommentMode, text: &str, trailing_newline: bool, loc: LineColumn) -> Comment {
    Comment { loc, offset: 0, mode, trailing_newline, text: text.to_string() }
}

fn gap(loc: LineColumn, items: Vec<Whitespace>) -> Gap {
    Gap { loc, items }
}

/// `head {` elements `}` as a list in braces.
fn braces(out: &mut MakeSegsState, head: &str, fields: &[&str], force: bool) -> SplitGroupIdx {
    let sg = open_braces(out, head, fields, force, Alignment::base());
    sg
}

fn open_braces(
    out: &mut MakeSegsState,
    head: &str,
    fields: &[&str],
    force: bool,
    base: Alignment,
) -> SplitGroupIdx {
    let indent = base.indent();
    let mut sg = new_sg(out);
    if force {
        sg.initial_split();
    }
    sg.seg(out, head);
    sg.seg(out, " {");
    sg.seg_unsplit(out, " ");
    for (i, f) in fields.iter().enumerate() {
        if i > 0 {
            sg.seg(out, ",");
            sg.seg_unsplit(out, " ");
        }
        sg.split(out, indent);
        let c = new_sg_lit(out, None, f);
        sg.child(out, c);
    }
    sg.seg_split(out, ",");
    sg.split(out, base);
    sg.seg_unsplit(out, " ");
    sg.seg(out, "}");
    sg.build(out)
}

#[test]
fn short_group_stays_on_one_line() {
    let mut out = MakeSegsState::new(config(80), vec![]);
    let root = braces(&mut out, "struct S", &["a: i32", "b: i32"], false);
    assert_eq!(render(&out, root), "struct S { a: i32, b: i32 }\n");
}

#[test]
fn marked_group_splits() {
    let mut out = MakeSegsState::new(config(80), vec![]);
    let root = braces(&mut out, "struct S", &["a: i32", "b: i32"], true);
    assert_eq!(render(&out, root), "struct S {\n    a: i32,\n    b: i32,\n}\n");
}

#[test]
fn marked_group_splits_at_any_width() {
    for width in [0usize, 1, 27, 80, 10_000, usize::MAX] {
        let mut out = MakeSegsState::new(config(width), vec![]);
        let root = braces(&mut out, "S", &["A", "B"], true);
        assert_eq!(render(&out, root), "S {\n    A,\n    B,\n}\n");
    }
}

#[test]
fn width_is_an_inclusive_bound() {
    let mut out = MakeSegsState::new(config(27), vec![]);
    let root = braces(&mut out, "struct S", &["a: i32", "b: i32"], false);
    assert_eq!(render(&out, root), "struct S { a: i32, b: i32 }\n");
    let mut out = MakeSegsState::new(config(26), vec![]);
    let root = braces(&mut out, "struct S", &["a: i32", "b: i32"], false);
    assert_eq!(render(&out, root), "struct S {\n    a: i32,\n    b: i32,\n}\n");
}

#[test]
fn unsplit_line_is_within_width() {
    for width in 0usize..40 {
        let mut out = MakeSegsState::new(config(width), vec![]);
        let root = braces(&mut out, "struct S", &["a: i32", "b: i32"], false);
        let text = render(&out, root);
        if text.lines().count() == 1 {
            assert!(text.lines().next().unwrap().chars().count() <= width);
        }
    }
}

#[test]
fn literal_wider_than_the_width_is_kept_as_it_is() {
    let mut out = MakeSegsState::new(config(4), vec![]);
    let root = new_sg_lit(&mut out, None, "a_very_long_name");
    assert_eq!(render(&out, root), "a_very_long_name\n");
}

#[test]
fn width_counts_characters_not_bytes() {
    let mut out = MakeSegsState::new(config(11), vec![]);
    let root = braces(&mut out, "S", &["äöü"], false);
    assert_eq!(render(&out, root), "S { äöü }\n");
}

/// `let x = ` and a list in braces nested in it.
fn nested(out: &mut MakeSegsState, force_inner: bool) -> SplitGroupIdx {
    let mut sg = new_sg(out);
    sg.seg(out, "let x = ");
    let inner = open_braces(out, "S", &["a", "b"], force_inner, Alignment::base());
    sg.child(out, inner);
    sg.seg(out, ";");
    sg.build(out)
}

#[test]
fn nested_group_decides_for_itself() {
    let mut out = MakeSegsState::new(config(80), vec![]);
    let root = nested(&mut out, true);
    assert_eq!(render(&out, root), "let x = S {\n    a,\n    b,\n};\n");
}

/// A list in parentheses that holds a list in braces.
fn call(out: &mut MakeSegsState, force_inner: bool) -> SplitGroupIdx {
    let base = Alignment::base();
    let indent = base.indent();
    let mut sg = new_sg(out);
    sg.seg(out, "f(");
    sg.split(out, indent);
    let inner = open_braces(out, "S", &["a"], force_inner, indent);
    sg.child(out, inner);
    sg.seg_split(out, ",");
    sg.split(out, base);
    sg.seg(out, ")");
    sg.build(out)
}

#[test]
fn split_of_nested_group_stays_inside_without_root_splits() {
    let mut out = MakeSegsState::new(config(80), vec![]);
    let root = call(&mut out, true);
    assert_eq!(render(&out, root), "f(S {\n        a,\n    })\n");
}

#[test]
fn root_splits_propagates_to_ancestors() {
    let mut cfg = config(80);
    cfg.root_splits = true;
    let mut out = MakeSegsState::new(cfg, vec![]);
    let root = call(&mut out, true);
    assert_eq!(render(&out, root), "f(\n    S {\n        a,\n    },\n)\n");
}

#[test]
fn root_splits_changes_nothing_where_nothing_must_split() {
    let mut cfg = config(80);
    cfg.root_splits = true;
    let mut out = MakeSegsState::new(cfg, vec![]);
    let root = call(&mut out, false);
    assert_eq!(render(&out, root), "f(S { a })\n");
}

#[test]
fn break_that_always_holds_splits_the_group() {
    let base = Alignment::base();
    let mut out = MakeSegsState::new(config(80), vec![]);
    let mut sg = new_sg(&mut out);
    sg.seg(&mut out, "a;");
    sg.seg_unsplit(&mut out, " ");
    sg.split_always(&mut out, base);
    sg.seg(&mut out, "b;");
    let root = sg.build(&mut out);
    assert_eq!(render(&out, root), "a;\nb;\n");
}

#[test]
fn text_that_starts_a_line_loses_its_leading_spaces() {
    let base = Alignment::base();
    let mut out = MakeSegsState::new(config(80), vec![]);
    let mut sg = new_sg(&mut out);
    sg.seg(&mut out, "a");
    sg.split_always(&mut out, base.indent());
    sg.seg(&mut out, "  b");
    let root = sg.build(&mut out);
    assert_eq!(render(&out, root), "a\n    b\n");
}

#[test]
fn blank_lines_never_repeat() {
    let base = Alignment::base();
    let mut out = MakeSegsState::new(config(80), vec![]);
    let mut sg = new_sg(&mut out);
    sg.initial_split();
    sg.blank_line(&mut out, base);
    sg.seg(&mut out, "a");
    sg.blank_line(&mut out, base);
    sg.blank_line(&mut out, base);
    sg.split(&mut out, base);
    sg.seg(&mut out, "b");
    let root = sg.build(&mut out);
    assert_eq!(render(&out, root), "a\n\nb\n");
}

#[test]
fn blank_line_shows_only_while_the_group_is_split() {
    let base = Alignment::base();
    let mut out = MakeSegsState::new(config(80), vec![]);
    let mut sg = new_sg(&mut out);
    sg.seg(&mut out, "a");
    sg.blank_line(&mut out, base);
    sg.seg(&mut out, "b");
    let root = sg.build(&mut out);
    assert_eq!(render(&out, root), "ab\n");
}

#[test]
fn empty_tree_renders_nothing() {
    let mut out = MakeSegsState::new(config(80), vec![]);
    let root = new_sg(&mut out).build(&mut out);
    assert_eq!(render(&out, root), "");
}

#[test]
fn handles_are_given_in_order_and_stay() {
    let mut out = MakeSegsState::new(config(80), vec![]);
    let a = new_sg(&mut out);
    let b = new_sg(&mut out);
    assert_eq!(a.node, SplitGroupIdx(0));
    assert_eq!(b.node, SplitGroupIdx(1));
    let b = b.build(&mut out);
    let a = a.build(&mut out);
    assert_eq!(a, SplitGroupIdx(0));
    assert_eq!(b, SplitGroupIdx(1));
}

#[test]
fn threshold_check() {
    let mut cfg = config(80);
    let out = MakeSegsState::new(cfg, vec![]);
    assert!(!check_split_brace_threshold(&out, 100));
    cfg.split_brace_threshold = Some(2);
    let out = MakeSegsState::new(cfg, vec![]);
    assert!(!check_split_brace_threshold(&out, 1));
    assert!(check_split_brace_threshold(&out, 2));
    assert!(check_split_brace_threshold(&out, 3));
    cfg.split_brace_threshold = Some(0);
    let out = MakeSegsState::new(cfg, vec![]);
    assert!(check_split_brace_threshold(&out, 0));
}

#[test]
fn line_comment_gets_lines_of_its_own() {
    let base = Alignment::base();
    let gaps = vec![gap(
        at(1, 4),
        vec![Whitespace::Comment(comment(CommentMode::Normal, " note", true, at(1, 4)))],
    )];
    let mut out = MakeSegsState::new(config(80), gaps);
    let mut sg = new_sg(&mut out);
    sg.seg(&mut out, "a ");
    append_whitespace(&mut out, &base, &mut sg, at(1, 4));
    sg.seg(&mut out, "b");
    let root = sg.build(&mut out);
    let res = finish(&out, root).unwrap();
    assert_eq!(res.rendered, "a \n// note\nb\n");
    assert!(res.lost_comments.is_empty());
}

#[test]
fn block_comment_stays_in_the_line() {
    let base = Alignment::base();
    let gaps = vec![gap(
        at(1, 2),
        vec![Whitespace::Comment(comment(CommentMode::Block, " x ", false, at(1, 2)))],
    )];
    let mut out = MakeSegsState::new(config(80), gaps);
    let mut sg = new_sg(&mut out);
    sg.seg(&mut out, "f(");
    append_whitespace(&mut out, &base, &mut sg, at(1, 2));
    sg.seg(&mut out, "a)");
    let root = sg.build(&mut out);
    assert_eq!(render(&out, root), "f(/* x */ a)\n");
}

#[test]
fn block_comment_that_ended_its_line_gets_a_line_of_its_own() {
    let base = Alignment::base();
    let gaps = vec![gap(
        at(2, 0),
        vec![Whitespace::Comment(comment(CommentMode::Block, " x ", true, at(2, 0)))],
    )];
    let mut out = MakeSegsState::new(config(80), gaps);
    let mut sg = new_sg(&mut out);
    append_whitespace(&mut out, &base, &mut sg, at(2, 0));
    sg.seg(&mut out, "a");
    let root = sg.build(&mut out);
    assert_eq!(render(&out, root), "/* x */\na\n");
}

#[test]
fn doc_comments_keep_their_marks() {
    let base = Alignment::base();
    let gaps = vec![gap(
        at(3, 0),
        vec![
            Whitespace::Comment(comment(CommentMode::DocInner, " inner", true, at(3, 0))),
            Whitespace::Comment(comment(CommentMode::DocOuter, " outer", true, at(3, 0))),
        ],
    )];
    let mut out = MakeSegsState::new(config(80), gaps);
    let mut sg = new_sg(&mut out);
    append_whitespace(&mut out, &base, &mut sg, at(3, 0));
    sg.seg(&mut out, "a");
    let root = sg.build(&mut out);
    assert_eq!(render(&out, root), "//! inner\n/// outer\na\n");
}

#[test]
fn comment_is_wrapped_at_the_comment_width() {
    let indent = Alignment::base().indent().indent();
    let gaps = vec![gap(
        at(1, 0),
        vec![Whitespace::Comment(comment(
            CommentMode::Normal,
            " one two three   four five",
            true,
            at(1, 0),
        ))],
    )];
    let mut cfg = config(80);
    cfg.comment_width = Some(12);
    let mut out = MakeSegsState::new(cfg, gaps);
    let mut sg = new_sg(&mut out);
    sg.initial_split();
    sg.split(&mut out, indent);
    append_whitespace(&mut out, &indent, &mut sg, at(1, 0));
    sg.seg(&mut out, "a");
    let root = sg.build(&mut out);
    // The width is counted from the mark of the comment, whatever the
    // indentation: "// one two" holds 10 characters, "// one two three" 16.
    assert_eq!(
        render(&out, root),
        "        // one two\n        // three\n        // four five\n        a\n"
    );
}

#[test]
fn comment_without_width_is_kept_as_it_is() {
    let base = Alignment::base();
    let gaps = vec![gap(
        at(1, 0),
        vec![Whitespace::Comment(comment(
            CommentMode::Normal,
            "  spaced   out ",
            true,
            at(1, 0),
        ))],
    )];
    let mut out = MakeSegsState::new(config(80), gaps);
    let mut sg = new_sg(&mut out);
    append_whitespace(&mut out, &base, &mut sg, at(1, 0));
    sg.seg(&mut out, "a");
    let root = sg.build(&mut out);
    assert_eq!(render(&out, root), "//  spaced   out \na\n");
}

#[test]
fn word_longer_than_the_comment_width_stands_alone() {
    let base = Alignment::base();
    let gaps = vec![gap(
        at(1, 0),
        vec![Whitespace::Comment(comment(
            CommentMode::Normal,
            "a https://example.org/long b",
            true,
            at(1, 0),
        ))],
    )];
    let mut cfg = config(80);
    cfg.comment_width = Some(8);
    let mut out = MakeSegsState::new(cfg, gaps);
    let mut sg = new_sg(&mut out);
    append_whitespace(&mut out, &base, &mut sg, at(1, 0));
    sg.seg(&mut out, "x");
    let root = sg.build(&mut out);
    assert_eq!(render(&out, root), "// a\n// https://example.org/long\n// b\nx\n");
}

#[test]
fn gap_is_taken_once() {
    let base = Alignment::base();
    let gaps = vec![gap(
        at(1, 0),
        vec![Whitespace::Comment(comment(CommentMode::Normal, " once", true, at(1, 0)))],
    )];
    let mut out = MakeSegsState::new(config(80), gaps);
    let mut sg = new_sg(&mut out);
    append_whitespace(&mut out, &base, &mut sg, at(1, 0));
    append_whitespace(&mut out, &base, &mut sg, at(1, 0));
    sg.seg(&mut out, "a");
    let root = sg.build(&mut out);
    assert!(out.whitespaces.is_empty());
    assert_eq!(render(&out, root), "// once\na\n");
}

#[test]
fn comment_that_no_token_asked_for_is_lost() {
    let gaps = vec![
        gap(at(1, 0), vec![Whitespace::BlankLines]),
        gap(
            at(9, 9),
            vec![Whitespace::Comment(comment(CommentMode::Normal, " stray", true, at(9, 9)))],
        ),
    ];
    let mut out = MakeSegsState::new(config(80), gaps);
    let root = new_sg_lit(&mut out, None, "a");
    let res = finish(&out, root).unwrap();
    assert_eq!(res.rendered, "a\n");
    assert_eq!(res.lost_comments.len(), 1);
    assert_eq!(res.lost_comments[0].loc, at(9, 9));
    assert_eq!(
        res.lost_comments[0].comments,
        vec![comment(CommentMode::Normal, " stray", true, at(9, 9))]
    );
}

#[test]
fn lost_comment_is_fatal_where_the_options_say_so() {
    let gaps = vec![gap(
        at(9, 9),
        vec![Whitespace::Comment(comment(CommentMode::Normal, " stray", true, at(9, 9)))],
    )];
    let mut cfg = config(80);
    cfg.comment_errors_fatal = true;
    let mut out = MakeSegsState::new(cfg, gaps);
    let root = new_sg_lit(&mut out, None, "a");
    assert_eq!(finish(&out, root), Err(FormatError::UnplacedComment(at(9, 9))));
}

#[test]
fn fatal_option_changes_nothing_where_no_comment_is_lost() {
    let mut cfg = config(80);
    cfg.comment_errors_fatal = true;
    let mut out = MakeSegsState::new(cfg, vec![gap(at(1, 0), vec![Whitespace::BlankLines])]);
    let root = new_sg_lit(&mut out, None, "a");
    let res = finish(&out, root).unwrap();
    assert_eq!(res.rendered, "a\n");
    assert!(res.lost_comments.is_empty());
}

#[test]
fn comments_of_a_group_outside_the_tree_are_lost() {
    let base = Alignment::base();
    let gaps = vec![gap(
        at(1, 0),
        vec![Whitespace::Comment(comment(CommentMode::Normal, " adrift", true, at(1, 0)))],
    )];
    let mut out = MakeSegsState::new(config(80), gaps);
    let mut stray = new_sg(&mut out);
    append_whitespace(&mut out, &base, &mut stray, at(1, 0));
    stray.build(&mut out);
    let root = new_sg_lit(&mut out, None, "a");
    let res = finish(&out, root).unwrap();
    assert_eq!(res.rendered, "a\n");
    assert_eq!(res.lost_comments.len(), 1);
    assert_eq!(res.lost_comments[0].comments[0].text, " adrift");
}

#[test]
fn every_comment_is_placed_or_lost_once() {
    let base = Alignment::base();
    let names = [" one", " two", " three", " four"];
    let gaps: Vec<Gap> = names
        .iter()
        .enumerate()
        .map(|(i, n)| {
            gap(
                at(i + 1, 0),
                vec![Whitespace::Comment(comment(CommentMode::Normal, n, true, at(i + 1, 0)))],
            )
        })
        .collect();
    let mut out = MakeSegsState::new(config(80), gaps);
    let mut sg = new_sg(&mut out);
    append_whitespace(&mut out, &base, &mut sg, at(1, 0));
    sg.seg(&mut out, "a");
    append_whitespace(&mut out, &base, &mut sg, at(3, 0));
    sg.seg(&mut out, "b");
    let root = sg.build(&mut out);
    let res = finish(&out, root).unwrap();
    for name in names {
        let placed = res.rendered.matches(&format!("//{}\n", name)).count();
        let lost = res
            .lost_comments
            .iter()
            .flat_map(|l| l.comments.iter())
            .filter(|c| c.text == name)
            .count();
        assert_eq!(placed + lost, 1);
    }
    assert_eq!(res.rendered, "// one\na\n// three\nb\n");
    assert_eq!(res.lost_comments.len(), 2);
}

#[test]
fn defaults() {
    let d = FormatConfig::default();
    assert_eq!(d.max_width, 120);
    assert!(!d.root_splits);
    assert_eq!(d.split_brace_threshold, Some(1));
    assert!(d.split_attributes);
    assert!(d.split_where);
    assert_eq!(d.comment_width, Some(80));
    assert!(!d.comment_errors_fatal);
}

#[test]
fn indent_leaves_the_parent_as_it_was() {
    let base = Alignment::base();
    let deeper = base.indent();
    assert_eq!(base.depth, 0);
    assert_eq!(deeper.depth, 1);
    assert_eq!(deeper.indent().depth, 2);
    let deepest = Alignment { depth: usize::MAX };
    assert_eq!(deepest.indent().depth, usize::MAX);
}

#[test]
fn group_takes_a_child_that_was_made_before_it() {
    let mut out = MakeSegsState::new(config(80), vec![]);
    let first = new_sg_lit(&mut out, None, "x");
    let mut sg = new_sg(&mut out);
    sg.seg(&mut out, "f(");
    sg.child(&mut out, first);
    sg.seg(&mut out, ")");
    let root = sg.build(&mut out);
    let res = finish(&out, root).unwrap();
    assert_eq!(res.rendered, "f(x)\n");
    assert!(res.lost_comments.is_empty());
}
