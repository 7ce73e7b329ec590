use genemichaels::extract_whitespaces;
use genemichaels::scan_gap;
use genemichaels::Comment;
use genemichaels::CommentMode;
use genemichaels::Gap;
use genemichaels::LineColumn;
use genemichaels::TokenSpan;
use genemichaels::Whitespace;

fn at(line: usize, column: usize) -> LineColumn {
    LineColumn { line, column }
}

fn scan(text: &str) -> Vec<Whitespace> {
    let chars: Vec<char> = text.chars().collect();
    scan_gap(&chars, 0, chars.len(), at(7, 3))
}

fn comment(offset: usize, mode: CommentMode, trailing_newline: bool, text: &str) -> Whitespace {
    Whitespace::Comment(Comment {
        loc: at(7, 3),
        offset,
        mode,
        trailing_newline,
        text: text.to_string(),
    })
}

#[test]
fn nothing_stands_in_plain_space() {
    assert_eq!(scan(""), vec![]);
    assert_eq!(scan(" "), vec![]);
    assert_eq!(scan("\n    "), vec![]);
    assert_eq!(scan(" \t\r\n"), vec![]);
}

#[test]
fn two_line_feeds_are_a_blank_line() {
    assert_eq!(scan("\n\n"), vec![Whitespace::BlankLines]);
    assert_eq!(scan("\n  \n  "), vec![Whitespace::BlankLines]);
}

#[test]
fn many_blank_lines_are_one() {
    assert_eq!(scan("\n\n\n\n\n"), vec![Whitespace::BlankLines]);
}

#[test]
fn line_comment() {
    assert_eq!(scan(" // note\n"), vec![comment(1, CommentMode::Normal, true, " note")]);
    assert_eq!(scan("//"), vec![comment(0, CommentMode::Normal, true, "")]);
    assert_eq!(scan("//x"), vec![comment(0, CommentMode::Normal, true, "x")]);
}

#[test]
fn doc_comments() {
    assert_eq!(scan("/// outer\n"), vec![comment(0, CommentMode::DocOuter, true, " outer")]);
    assert_eq!(scan("//! inner\n"), vec![comment(0, CommentMode::DocInner, true, " inner")]);
    assert_eq!(scan("//// rule\n"), vec![comment(0, CommentMode::Normal, true, "// rule")]);
    assert_eq!(scan("///"), vec![comment(0, CommentMode::DocOuter, true, "")]);
}

#[test]
fn block_comment() {
    assert_eq!(scan("/* a */"), vec![comment(0, CommentMode::Block, false, " a ")]);
    assert_eq!(scan("/* a */  "), vec![comment(0, CommentMode::Block, false, " a ")]);
    assert_eq!(scan("/* a */ \n"), vec![comment(0, CommentMode::Block, true, " a ")]);
    assert_eq!(scan("/**/"), vec![comment(0, CommentMode::Block, false, "")]);
}

#[test]
fn block_comments_nest() {
    assert_eq!(
        scan("/* a /* b */ c */"),
        vec![comment(0, CommentMode::Block, false, " a /* b */ c ")]
    );
}

#[test]
fn block_comment_that_is_not_closed_holds_the_rest() {
    assert_eq!(scan("/* a\nb"), vec![comment(0, CommentMode::Block, false, " a\nb")]);
    assert_eq!(scan("/* a /* b */"), vec![comment(0, CommentMode::Block, false, " a /* b */")]);
    assert_eq!(scan("/*"), vec![comment(0, CommentMode::Block, false, "")]);
}

#[test]
fn block_comment_keeps_its_lines() {
    assert_eq!(scan("/* a\n * b\n */\n"), vec![comment(0, CommentMode::Block, true, " a\n * b\n ")]);
}

#[test]
fn comments_and_blank_lines_in_order() {
    assert_eq!(
        scan("\n\n// a\n\n/* b */ // c\n// d\n\n\n"),
        vec![
            Whitespace::BlankLines,
            comment(2, CommentMode::Normal, true, " a"),
            Whitespace::BlankLines,
            comment(8, CommentMode::Block, false, " b "),
            comment(16, CommentMode::Normal, true, " c"),
            comment(21, CommentMode::Normal, true, " d"),
            Whitespace::BlankLines,
        ]
    );
}

#[test]
fn line_feed_that_ends_a_comment_counts_for_the_blank_line() {
    assert_eq!(scan("// a\n// b"), vec![
        comment(0, CommentMode::Normal, true, " a"),
        comment(5, CommentMode::Normal, true, " b"),
    ]);
    assert_eq!(scan("// a\n\n// b"), vec![
        comment(0, CommentMode::Normal, true, " a"),
        Whitespace::BlankLines,
        comment(6, CommentMode::Normal, true, " b"),
    ]);
}

#[test]
fn scan_stops_at_the_end_of_the_gap() {
    let chars: Vec<char> = "a // b\nc".chars().collect();
    assert_eq!(scan_gap(&chars, 1, 4, at(7, 3)), vec![comment(2, CommentMode::Normal, true, "")]);
    assert_eq!(scan_gap(&chars, 4, 4, at(7, 3)), vec![]);
    assert_eq!(scan_gap(&chars, 1, 7, at(7, 3)), vec![comment(2, CommentMode::Normal, true, " b")]);
}

fn span(line: usize, from: usize, to: usize) -> TokenSpan {
    TokenSpan { start: at(line, from), end: at(line, to) }
}

#[test]
fn gaps_are_kept_for_the_token_that_follows() {
    let source = "// first\na /* in */ b\n\n\nc // last\n";
    let tokens = vec![span(2, 0, 1), span(2, 11, 12), span(5, 0, 1)];
    let gaps = extract_whitespaces(source, &tokens);
    assert_eq!(
        gaps,
        vec![
            Gap {
                loc: at(2, 0),
                items: vec![Whitespace::Comment(Comment {
                    loc: at(2, 0),
                    offset: 0,
                    mode: CommentMode::Normal,
                    trailing_newline: true,
                    text: " first".to_string(),
                })],
            },
            Gap {
                loc: at(2, 11),
                items: vec![Whitespace::Comment(Comment {
                    loc: at(2, 11),
                    offset: 11,
                    mode: CommentMode::Block,
                    trailing_newline: false,
                    text: " in ".to_string(),
                })],
            },
            Gap { loc: at(5, 0), items: vec![Whitespace::BlankLines] },
            Gap {
                loc: at(0, 1),
                items: vec![Whitespace::Comment(Comment {
                    loc: at(0, 1),
                    offset: 26,
                    mode: CommentMode::Normal,
                    trailing_newline: true,
                    text: " last".to_string(),
                })],
            },
        ]
    );
}

#[test]
fn source_without_comments_has_no_gaps() {
    let source = "a b\nc\n";
    let tokens = vec![span(1, 0, 1), span(1, 2, 3), span(2, 0, 1)];
    assert_eq!(extract_whitespaces(source, &tokens), vec![]);
    assert_eq!(extract_whitespaces("", &vec![]), vec![]);
}

#[test]
fn columns_count_characters() {
    let source = "ä /* ö */ ü";
    let tokens = vec![span(1, 0, 1), span(1, 10, 11)];
    let gaps = extract_whitespaces(source, &tokens);
    assert_eq!(gaps.len(), 1);
    assert_eq!(gaps[0].loc, at(1, 10));
    assert_eq!(gaps[0].items.len(), 1);
    match &gaps[0].items[0] {
        Whitespace::Comment(c) => {
            assert_eq!(c.text, " ö ");
            assert_eq!(c.offset, 2);
        },
        Whitespace::BlankLines => panic!("a comment stands in the gap"),
    }
}

#[test]
fn places_behind_the_source_are_its_end() {
    let source = "a // b";
    let tokens = vec![span(1, 0, 1), span(9, 0, 1)];
    let gaps = extract_whitespaces(source, &tokens);
    assert_eq!(gaps.len(), 1);
    assert_eq!(gaps[0].loc, at(9, 0));
}
