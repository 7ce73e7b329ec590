use genemichaels::default_dirs;
use genemichaels::format_ast;
use genemichaels::from_tokens;
use genemichaels::product_paths;
use genemichaels::File;
use genemichaels::FormatConfig;
use genemichaels::Item;
use genemichaels::LineColumn;
use genemichaels::SegmentMode;
use genemichaels::SourceToken;
use genemichaels::Syntax;
use genemichaels::Targets;
use genemichaels::TokenKind;
use genemichaels::TokenSpan;

fn plain(max_width: usize) -> FormatConfig {
    FormatConfig {
        max_width,
        root_splits: false,
        split_brace_threshold: None,
        split_attributes: false,
        split_where: false,
        comment_width: None,
        comment_errors_fatal: false,
        quiet: false,
    }
}

/// The tokens of one line of source, told apart by spaces and delimiters.
fn lex(source: &str) -> Vec<SourceToken> {
    let mut tokens = vec![];
    let chars: Vec<char> = source.chars().collect();
    let mut i = 0;
    while i < chars.len() {
        let c = chars[i];
        if c == ' ' {
            i += 1;
            continue;
        }
        let kind = match c {
            '(' | '[' | '{' => TokenKind::Open,
            ')' | ']' | '}' => TokenKind::Close,
            ',' => TokenKind::Comma,
            _ => TokenKind::Other,
        };
        let mut j = i + 1;
        if kind == TokenKind::Other && c != ':' && c != '$' {
            while j < chars.len() && !" ()[]{},:$".contains(chars[j]) {
                j += 1;
            }
        }
        tokens.push(SourceToken {
            span: TokenSpan {
                start: LineColumn { line: 1, column: i },
                end: LineColumn { line: 1, column: j },
            },
            kind,
            text: chars[i..j].iter().collect(),
        });
        i = j;
    }
    tokens
}

fn show(source: &str, max_width: usize) -> String {
    let file = File { items: vec![Item::Verbatim(from_tokens(&lex(source)))] };
    format_ast(&file, &plain(max_width), vec![]).unwrap().rendered
}

#[test]
fn tokens_keep_their_spacing() {
    assert_eq!(show("f(a, b)", 80), "f(a, b)\n");
    assert_eq!(show("a   +    b", 80), "a + b\n");
    assert_eq!(show("a+b", 80), "a+b\n");
    assert_eq!(show("{ a }", 80), "{ a }\n");
    assert_eq!(show("", 80), "");
}

#[test]
fn spacing_at_commas_brackets_and_colons_is_made_even() {
    assert_eq!(show("f ( a ,b )", 80), "f (a, b)\n");
    assert_eq!(show("f(a,b,)", 80), "f(a, b,)\n");
    assert_eq!(show("v[ 0 ]", 80), "v[0]\n");
    assert_eq!(show("x :T", 80), "x: T\n");
    assert_eq!(show("x : T", 80), "x: T\n");
    assert_eq!(show("a : : b", 80), "a : : b\n");
    assert_eq!(show("a: :b", 80), "a: :b\n");
    assert_eq!(show("a::b", 80), "a::b\n");
    assert_eq!(show("$ x : expr", 80), "$ x : expr\n");
    assert_eq!(show("$ x: expr", 80), "$ x: expr\n");
    assert_eq!(show("{a ,b}", 80), "{a, b}\n");
}

#[test]
fn run_of_tokens_breaks_behind_commas_between_delimiters() {
    assert_eq!(show("call(first, second)", 12), "call(\n    first,\n    second\n)\n");
}

#[test]
fn nested_delimiters_are_nested_groups() {
    assert_eq!(show("f(g(a, b), c)", 80), "f(g(a, b), c)\n");
    assert_eq!(show("f(g(a, b), c)", 11), "f(\n    g(a, b),\n    c\n)\n");
    assert_eq!(show("f(g(aaaa, bbbb), c)", 12), "f(\n    g(\n        aaaa,\n        bbbb\n    ),\n    c\n)\n");
}

#[test]
fn delimiter_that_closes_nothing_is_a_token() {
    assert_eq!(show("a ) b", 80), "a) b\n");
    assert_eq!(show("a } b", 80), "a } b\n");
    assert_eq!(show("f(a", 80), "f(a\n");
}

#[test]
fn piece_for_tokens() {
    assert_eq!(
        from_tokens(&lex("a (b)")),
        Syntax::Group {
            split: false,
            indent: false,
            parts: vec![
                Syntax::Token { loc: LineColumn { line: 1, column: 0 }, text: "a".to_string() },
                Syntax::Group {
                    split: false,
                    indent: false,
                    parts: vec![
                        Syntax::Text { mode: SegmentMode::All, text: " ".to_string() },
                        Syntax::Token {
                            loc: LineColumn { line: 1, column: 2 },
                            text: "(".to_string(),
                        },
                        Syntax::Break { deeper: true },
                        Syntax::Token {
                            loc: LineColumn { line: 1, column: 3 },
                            text: "b".to_string(),
                        },
                        Syntax::Break { deeper: false },
                        Syntax::Token {
                            loc: LineColumn { line: 1, column: 4 },
                            text: ")".to_string(),
                        },
                    ],
                },
            ],
        }
    );
}

#[test]
fn targets_in_the_order_of_the_visit() {
    let targets = Targets {
        bin: vec![Some("src/bin/a.rs".to_string()), None, Some("src/bin/b.rs".to_string())],
        lib: Some("src/lib.rs".to_string()),
        bench: vec![None],
        test: vec![Some("tests/t.rs".to_string())],
        example: vec![Some("examples/e.rs".to_string())],
    };
    assert_eq!(
        product_paths(&targets),
        vec!["src/bin/a.rs", "src/bin/b.rs", "src/lib.rs", "tests/t.rs", "examples/e.rs"]
    );
    let none = Targets { bin: vec![], lib: None, bench: vec![], test: vec![], example: vec![] };
    assert!(product_paths(&none).is_empty());
}

#[test]
fn directories_of_a_package() {
    assert_eq!(default_dirs(), vec!["bin", "benches", "tests", "examples", "src"]);
}
