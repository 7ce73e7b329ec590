use genemichaels::check_rendered;
use genemichaels::excerpt;
use genemichaels::join_outcome;
use genemichaels::process;
use genemichaels::skip;
use genemichaels::want_blank_line;
use genemichaels::Comment;
use genemichaels::CommentMode;
use genemichaels::File;
use genemichaels::FormatConfig;
use genemichaels::FormatError;
use genemichaels::FormatRes;
use genemichaels::Gap;
use genemichaels::Item;
use genemichaels::JoinError;
use genemichaels::LineColumn;
use genemichaels::LostComments;
use genemichaels::MarginGroup;
use genemichaels::NumberErr;
use genemichaels::Offable;
use genemichaels::On;
use genemichaels::OnErr;
use genemichaels::ParseFailure;
use genemichaels::ProcessError;
use genemichaels::Seen;
use genemichaels::Syntax;
use genemichaels::Whitespace;

fn at(line: usize, column: usize) -> LineColumn {
    LineColumn { line, column }
}

fn plain() -> FormatConfig {
    FormatConfig {
        max_width: 80,
        root_splits: false,
        split_brace_threshold: None,
        split_attributes: false,
        split_where: false,
        comment_width: None,
        comment_errors_fatal: false,
        quiet: false,
    }
}

fn verbatim(text: &str) -> File {
    File { items: vec![Item::Verbatim(Syntax::Token { loc: at(1, 0), text: text.to_string() })] }
}

fn stray() -> Vec<Gap> {
    vec![Gap {
        loc: at(9, 9),
        items: vec![Whitespace::Comment(Comment {
            loc: at(9, 9),
            offset: 0,
            mode: CommentMode::Normal,
            trailing_newline: true,
            text: " stray".to_string(),
        })],
    }]
}

#[test]
fn skip_finds_marker() {
    assert!(skip("// `nogenemichaels`\nfn main() {}\n"));
    assert!(skip("`nogenemichaels`"));
    assert!(!skip("fn main() {}\n"));
    assert!(!skip(""));
}

#[test]
fn skip_needs_the_backticks() {
    assert!(!skip("// nogenemichaels\n"));
    assert!(!skip("// `nogenemichaels\n"));
}

#[test]
fn skip_looks_at_five_lines() {
    assert!(skip("\n\n\n\n// `nogenemichaels`\n"));
    assert!(!skip("\n\n\n\n\n// `nogenemichaels`\n"));
    assert!(skip("1\n2\n3\n4\nx `nogenemichaels` y"));
}

#[test]
fn skip_does_not_join_lines() {
    assert!(!skip("`nogene\nmichaels`\n"));
}

#[test]
fn switch_is_read() {
    assert_eq!(On::parse("on"), Ok(On));
    assert_eq!(
        On::parse("yes"),
        Err(OnErr("[yes] not allowed, must be on or off".to_string()))
    );
    assert_eq!(On::parse(""), Err(OnErr("[] not allowed, must be on or off".to_string())));
    assert_eq!(Offable::<On>::parse("off"), Ok(Offable::Off));
    assert_eq!(Offable::<On>::parse("on"), Ok(Offable::On(On)));
    assert_eq!(
        Offable::<On>::parse("On"),
        Err(OnErr("[On] not allowed, must be on or off".to_string()))
    );
    assert_eq!(Offable::<On>::Off.text(), "off");
    assert_eq!(Offable::On(On).text(), "on");
    assert!(Offable::On(On).is_on());
    assert!(!Offable::<On>::Off.is_on());
}

#[test]
fn number_setting_is_read() {
    assert_eq!(Offable::<usize>::parse("off"), Ok(Offable::Off));
    assert_eq!(Offable::<usize>::parse("12"), Ok(Offable::On(12)));
    assert_eq!(Offable::<usize>::parse("0"), Ok(Offable::On(0)));
    assert_eq!(Offable::<usize>::parse("twelve"), Err(NumberErr::InvalidDigit));
    assert_eq!(Offable::<usize>::parse("-1"), Err(NumberErr::InvalidDigit));
    assert_eq!(Offable::<usize>::parse(""), Err(NumberErr::Empty));
    assert_eq!(Offable::<usize>::parse("99999999999999999999999999"), Err(NumberErr::TooLarge));
    assert_eq!(Offable::<usize>::parse("+5"), Ok(Offable::On(5)));
    assert_eq!(Offable::<usize>::parse("007"), Ok(Offable::On(7)));
    assert_eq!(Offable::<usize>::parse("+"), Err(NumberErr::InvalidDigit));
    assert_eq!(Offable::<usize>::parse("++5"), Err(NumberErr::InvalidDigit));
    assert_eq!(Offable::<usize>::parse(" 5"), Err(NumberErr::InvalidDigit));
    assert_eq!(Offable::<usize>::parse("5 "), Err(NumberErr::InvalidDigit));
    assert_eq!(Offable::<usize>::parse("1_000"), Err(NumberErr::InvalidDigit));
    assert_eq!(Offable::<usize>::parse("٣"), Err(NumberErr::InvalidDigit));
    assert_eq!(
        Offable::<usize>::parse(&usize::MAX.to_string()),
        Ok(Offable::On(usize::MAX))
    );
    assert_eq!(Offable::On(3usize).value(), Some(3));
    assert_eq!(Offable::<usize>::Off.value(), None);
}

#[test]
fn excerpt_shows_ten_lines_from_the_fifth_in_front() {
    let text: String = (1..=20).map(|i| format!("line {}\n", i)).collect();
    assert_eq!(
        excerpt(&text, 8),
        "0004 line 4\n0005 line 5\n0006 line 6\n0007 line 7\n0008 line 8\n0009 line 9\n0010 line 10\n0011 line 11\n0012 line 12\n0013 line 13"
    );
}

#[test]
fn excerpt_at_the_start_and_the_end() {
    let text = "a\nb\nc\n";
    assert_eq!(excerpt(text, 0), "0001 a\n0002 b\n0003 c");
    assert_eq!(excerpt(text, 5), "0001 a\n0002 b\n0003 c");
    assert_eq!(excerpt(text, 7), "0003 c");
    assert_eq!(excerpt(text, 8), "");
    assert_eq!(excerpt(text, usize::MAX), "");
    assert_eq!(excerpt("", 1), "");
}

#[test]
fn excerpt_reads_lines_as_std_does() {
    for text in ["a\r\nb\rc\n\nd", "a\n", "a", "\n", "\r\n", "a\r", "x\n\n"] {
        let expected: Vec<String> = text
            .lines()
            .enumerate()
            .map(|(i, l)| format!("{:0>4} {}", i + 1, l))
            .collect();
        assert_eq!(excerpt(text, 0), expected.join("\n"));
    }
}

#[test]
fn excerpt_numbers_wider_than_four_digits() {
    let text: String = (0..10_001).map(|_| "x\n").collect();
    assert_eq!(excerpt(&text, 10_004), "10000 x\n10001 x");
}

#[test]
fn lost_comments_fail_before_the_output_is_read_back() {
    let lost = vec![LostComments { loc: at(1, 0), comments: vec![] }];
    let res = FormatRes { rendered: "fn (".to_string(), lost_comments: lost };
    let failure = Some(ParseFailure { line: 1, column: 3, message: "m".to_string() });
    assert_eq!(
        check_rendered(res, failure),
        Err(ProcessError::MissedComments(vec![LostComments { loc: at(1, 0), comments: vec![] }]))
    );
}

#[test]
fn failure_to_read_back_is_told_with_an_excerpt() {
    let res = FormatRes { rendered: "a\nb\n".to_string(), lost_comments: vec![] };
    let failure = Some(ParseFailure { line: 2, column: 3, message: "m".to_string() });
    assert_eq!(
        check_rendered(res, failure),
        Err(ProcessError::Reparse {
            line: 2,
            column: 3,
            message: "m".to_string(),
            excerpt: "0001 a\n0002 b".to_string(),
        })
    );
}

#[test]
fn output_that_is_read_back_is_given() {
    let res = FormatRes { rendered: "a\n".to_string(), lost_comments: vec![] };
    assert_eq!(check_rendered(res, None), Ok("a\n".to_string()));
}

#[test]
fn process_gives_the_text() {
    assert_eq!(process(&plain(), &verbatim("fn main() {}"), vec![]), Ok("fn main() {}\n".to_string()));
    assert_eq!(process(&plain(), &File { items: vec![] }, vec![]), Ok("".to_string()));
}

#[test]
fn process_tells_where_the_output_is_not_read_back() {
    match process(&plain(), &verbatim("struct S;\nfn ("), vec![]) {
        Err(ProcessError::Reparse { line, column, message, excerpt }) => {
            assert_eq!(line, 2);
            assert_eq!(column, 3);
            assert_eq!(message, "lex error");
            assert_eq!(excerpt, "0001 struct S;\n0002 fn (");
        },
        other => panic!("the output is no source: {:?}", other),
    }
    match process(&plain(), &verbatim("struct S;\n\nfn 1 {}"), vec![]) {
        Err(ProcessError::Reparse { line, column, message, excerpt }) => {
            assert_eq!(line, 3);
            assert_eq!(column, 3);
            assert_eq!(message, "expected identifier");
            assert_eq!(excerpt, "0001 struct S;\n0002 \n0003 fn 1 {}");
        },
        other => panic!("the output is no source: {:?}", other),
    }
}

#[test]
fn process_fails_on_lost_comments() {
    match process(&plain(), &verbatim("fn main() {}"), stray()) {
        Err(ProcessError::MissedComments(lost)) => {
            assert_eq!(lost.len(), 1);
            assert_eq!(lost[0].loc, at(9, 9));
            assert_eq!(lost[0].comments[0].text, " stray");
        },
        other => panic!("a comment is lost: {:?}", other),
    }
}

#[test]
fn process_passes_on_the_error_of_the_format_call() {
    let mut cfg = plain();
    cfg.comment_errors_fatal = true;
    assert_eq!(
        process(&cfg, &verbatim("fn main() {}"), stray()),
        Err(ProcessError::Format(FormatError::UnplacedComment(at(9, 9))))
    );
}

#[test]
fn pool_outcome() {
    assert_eq!(join_outcome(0, 0), Ok(()));
    assert_eq!(join_outcome(0, 2), Err(JoinError::Errors));
    assert_eq!(join_outcome(1, 0), Err(JoinError::Panic));
    assert_eq!(join_outcome(1, 2), Err(JoinError::Panic));
}

#[test]
fn paths_are_met_once() {
    let mut seen = Seen::new();
    assert!(seen.insert("src"));
    assert!(!seen.insert("src"));
    assert!(seen.accept("src/a.rs", true));
    assert!(!seen.accept("src/a.rs", true));
    assert!(!seen.accept("src/b.txt", false));
    assert!(!seen.accept("src/b.txt", true));
    assert!(seen.insert("src2"));
}

#[test]
fn margin_rule() {
    let kinds = [MarginGroup::Attr, MarginGroup::BlockDef, MarginGroup::Import, MarginGroup::Plain];
    for a in kinds {
        for b in kinds {
            for body_a in [false, true] {
                for body_b in [false, true] {
                    let expected = a == MarginGroup::BlockDef
                        || b == MarginGroup::BlockDef
                        || a != b
                        || body_a
                        || body_b;
                    assert_eq!(want_blank_line((a, body_a), (b, body_b)), expected);
                }
            }
        }
    }
    assert!(!want_blank_line((MarginGroup::Import, false), (MarginGroup::Import, false)));
    assert!(want_blank_line((MarginGroup::BlockDef, false), (MarginGroup::BlockDef, false)));
    assert!(want_blank_line((MarginGroup::Import, false), (MarginGroup::Plain, false)));
    assert!(want_blank_line((MarginGroup::Import, true), (MarginGroup::Import, false)));
}
