//! What a program around the library decides before and after a format call.

use crate::extract::line_end;
use crate::format::lost_views;
use crate::format::FormatError;
use crate::format::FormatRes;
use crate::format::LostComments;
use crate::format::LostView;
use crate::text::from_chars;
use crate::text::occurs_at;
use crate::text::line_views;
use crate::text::to_chars;
use vstd::string::StringExecFns;
use crate::text::same_text;
use vstd::prelude::*;

verus! {

/// The words by which a source opts out of formatting.
pub const SKIP_MARKER: &'static str = "`nogenemichaels`";

/// How many of the first lines of a source are searched for the marker.
pub const SKIP_LINES: usize = 5;

/// The number of line feeds among the first `i` characters of `s`: the
/// index, counted from 0, of the line that character `i` is on.
pub open spec fn line_of(s: Seq<char>, i: int) -> nat
    decreases i,
{
    if i <= 0 {
        0
    } else {
        line_of(s, i - 1) + if s[i - 1] == '\n' {
            1nat
        } else {
            0nat
        }
    }
}

/// Whether the marker stands on one of the first five lines of `s`.
pub open spec fn opts_out(s: Seq<char>) -> bool {
    exists|i: int| occurs_at(s, SKIP_MARKER@, i) && line_of(s, i) < SKIP_LINES
}

/// A later place stands in no earlier line.
proof fn lemma_line_of_monotonic(s: Seq<char>, i: int, j: int)
    requires
        i <= j,
    ensures
        line_of(s, i) <= line_of(s, j),
    decreases j - i,
{
    if i < j {
        lemma_line_of_monotonic(s, i, j - 1);
    }
}

/// Whether `pat` stands in `s` at index `i`.
fn matches_at(s: &Vec<char>, pat: &Vec<char>, i: usize) -> (b: bool)
    requires
        i <= s.len(),
    ensures
        b == occurs_at(s@, pat@, i as int),
{
    if pat.len() > s.len() - i {
        return false;
    }
    let mut k: usize = 0;
    while k < pat.len()
        invariant
            k <= pat.len(),
            i + pat.len() <= s.len(),
            forall|j: int| 0 <= j < k ==> s@[i + j] == pat@[j],
        decreases pat.len() - k,
    {
        if s[i + k] != pat[k] {
            assert(s@.subrange(i as int, i + pat.len())[k as int] != pat@[k as int]);
            return false;
        }
        k += 1;
    }
    assert(s@.subrange(i as int, i + pat.len()) =~= pat@);
    true
}

/// Whether a source opts out of formatting: the marker stands on one of its
/// first five lines.
pub fn skip(src: &str) -> (b: bool)
    ensures
        b == opts_out(src@),
{
    let s = to_chars(src);
    let pat = to_chars(SKIP_MARKER);
    let mut line: usize = 0;
    let mut i: usize = 0;
    while i < s.len() && line < SKIP_LINES
        invariant
            i <= s.len(),
            s@ == src@,
            pat@ == SKIP_MARKER@,
            line == line_of(s@, i as int),
            line <= SKIP_LINES,
            forall|j: int| 0 <= j < i ==> !(occurs_at(s@, pat@, j) && line_of(s@, j) < SKIP_LINES),
        decreases s.len() - i,
    {
        if matches_at(&s, &pat, i) {
            return true;
        }
        if s[i] == '\n' {
            line += 1;
        }
        i += 1;
    }
    if line < SKIP_LINES && matches_at(&s, &pat, i) {
        return true;
    }
    proof {
        assert forall|j: int| !(occurs_at(s@, pat@, j) && line_of(s@, j) < SKIP_LINES) by {
            if j > i {
                lemma_line_of_monotonic(s@, i as int, j);
                if line < SKIP_LINES {
                    assert(i == s.len());
                    assert(!occurs_at(s@, pat@, j)) by {
                        if pat@.len() == 0 {
                        }
                    }
                }
            }
        }
    }
    false
}

/// A setting that is switched off or holds a value.
#[derive(Clone, Copy, Debug, PartialEq, Eq)]
pub enum Offable<T> {
    Off,
    On(T),
}

/// The value of a setting that can only be switched on or off.
#[derive(Clone, Copy, Debug, PartialEq, Eq, Structural)]
pub struct On;

/// The word that is no setting of a switch.
#[derive(Debug, PartialEq, Eq)]
pub struct OnErr(pub String);

/// The value of a decimal digit; nothing for any other character.
pub open spec fn digit_value(c: char) -> Option<nat> {
    if '0' as int <= c as int && c as int <= '9' as int {
        Some((c as int - '0' as int) as nat)
    } else {
        None
    }
}

/// The number that a run of decimal digits stands for; nothing where the
/// run is empty or holds anything but digits.
pub open spec fn digits_value(s: Seq<char>) -> Option<nat>
    decreases s.len(),
{
    if s.len() == 0 {
        None
    } else {
        match digit_value(s.last()) {
            None => None,
            Some(d) => if s.len() == 1 {
                Some(d)
            } else {
                match digits_value(s.drop_last()) {
                    Some(n) => Some(n * 10 + d),
                    None => None,
                }
            },
        }
    }
}

/// The number that a text is read as: decimal digits, with a plus sign in
/// front of them or without, if they stand for a number that a `usize`
/// holds.
pub open spec fn read_usize(s: Seq<char>) -> Option<usize> {
    let body = if s.len() > 0 && s[0] == '+' {
        s.drop_first()
    } else {
        s
    };
    match digits_value(body) {
        Some(n) => if n <= usize::MAX {
            Some(n as usize)
        } else {
            None
        },
        None => None,
    }
}

/// Why a text is read as no number.
#[derive(Clone, Copy, Debug, PartialEq, Eq, Structural)]
pub enum NumberErr {
    /// The text is empty.
    Empty,
    /// The text holds something that is no digit where a digit is due.
    InvalidDigit,
    /// The number is larger than a `usize` holds.
    TooLarge,
}

/// Whether `r` is what reading `s` as a number gives: the number where
/// [`read_usize`] gives one, and else a reason, which is
/// [`NumberErr::Empty`] for the empty text and for no other.
pub open spec fn read_as(s: Seq<char>, r: Result<usize, NumberErr>) -> bool {
    match read_usize(s) {
        Some(n) => r == Ok::<usize, NumberErr>(n),
        None => r is Err && (r->Err_0 == NumberErr::Empty <==> s.len() == 0),
    }
}

/// `str::parse::<usize>` of std: the text is read as a number if it is an
/// optional plus sign followed by decimal digits only, of which there is
/// one at least, and the number is one that a `usize` holds. Where it is
/// not, the kind of std's error is given back; of the kinds it is stated
/// only that the empty text, and no other, gives the kind for empty text.
#[verifier::external_body]
fn parse_usize(s: &str) -> (r: Result<usize, NumberErr>)
    ensures
        read_as(s@, r),
{
    match s.parse::<usize>() {
        Ok(n) => Ok(n),
        Err(e) => match e.kind() {
            std::num::IntErrorKind::Empty => Err(NumberErr::Empty),
            std::num::IntErrorKind::PosOverflow => Err(NumberErr::TooLarge),
            _ => Err(NumberErr::InvalidDigit),
        },
    }
}

impl On {
    /// Reads the setting of a switch: `on` is the one word that is read.
    /// Any other word comes back in the message that refuses it.
    pub fn parse(s: &str) -> (r: Result<On, OnErr>)
        ensures
            r is Ok <==> s@ == "on"@,
            r matches Err(e) ==> e.0@ == "["@ + s@ + "] not allowed, must be on or off"@,
    {
        if same_text(s, "on") {
            Ok(On)
        } else {
            let mut message = String::from_str("[");
            message.append(s);
            message.append("] not allowed, must be on or off");
            Err(OnErr(message))
        }
    }
}

impl Offable<On> {
    /// Reads a switch: `off`, or what [`On::parse`] reads.
    pub fn parse(s: &str) -> (r: Result<Offable<On>, OnErr>)
        ensures
            s@ == "off"@ ==> r == Ok::<Offable<On>, OnErr>(Offable::Off),
            s@ == "on"@ && s@ != "off"@ ==> r == Ok::<Offable<On>, OnErr>(Offable::On(On)),
            s@ != "off"@ && s@ != "on"@ ==> r is Err && r->Err_0.0@ == "["@ + s@
                + "] not allowed, must be on or off"@,
    {
        if same_text(s, "off") {
            Ok(Offable::Off)
        } else {
            match On::parse(s) {
                Ok(on) => Ok(Offable::On(on)),
                Err(e) => Err(e),
            }
        }
    }

    /// The word for the switch.
    pub fn text(&self) -> (s: &'static str)
        ensures
            s@ == (if *self == Offable::<On>::Off {
                "off"@
            } else {
                "on"@
            }),
    {
        match self {
            Offable::Off => "off",
            Offable::On(_) => "on",
        }
    }

    /// Whether the switch is on.
    pub fn is_on(&self) -> (b: bool)
        ensures
            b == (*self != Offable::<On>::Off),
    {
        match self {
            Offable::Off => false,
            Offable::On(_) => true,
        }
    }
}

/// What a number setting is read as from a word that is not `off`, given
/// what the word is read as as a number.
pub fn number_setting(parsed: Result<usize, NumberErr>) -> (r: Result<Offable<usize>, NumberErr>)
    ensures
        r == match parsed {
            Ok(n) => Ok::<Offable<usize>, NumberErr>(Offable::On(n)),
            Err(e) => Err::<Offable<usize>, NumberErr>(e),
        },
{
    match parsed {
        Ok(n) => Ok(Offable::On(n)),
        Err(e) => Err(e),
    }
}

impl Offable<usize> {
    /// Reads a number setting: `off`, or a number in decimal digits (see
    /// [`read_usize`]). Any other word is refused, with the reason why it
    /// is no number (see [`read_as`]).
    pub fn parse(s: &str) -> (r: Result<Offable<usize>, NumberErr>)
        ensures
            s@ == "off"@ ==> r == Ok::<Offable<usize>, NumberErr>(Offable::Off),
            s@ != "off"@ ==> match read_usize(s@) {
                Some(n) => r == Ok::<Offable<usize>, NumberErr>(Offable::On(n)),
                None => r is Err && (r->Err_0 == NumberErr::Empty <==> s@.len() == 0),
            },
    {
        if same_text(s, "off") {
            Ok(Offable::Off)
        } else {
            number_setting(parse_usize(s))
        }
    }

    /// The setting as an option.
    pub fn value(&self) -> (v: Option<usize>)
        ensures
            v == match *self {
                Offable::Off => None::<usize>,
                Offable::On(n) => Some(n),
            },
    {
        match self {
            Offable::Off => None,
            Offable::On(n) => Some(*n),
        }
    }
}

/// The digit for a number below ten.
pub open spec fn digit(n: nat) -> char {
    if n == 0 {
        '0'
    } else if n == 1 {
        '1'
    } else if n == 2 {
        '2'
    } else if n == 3 {
        '3'
    } else if n == 4 {
        '4'
    } else if n == 5 {
        '5'
    } else if n == 6 {
        '6'
    } else if n == 7 {
        '7'
    } else if n == 8 {
        '8'
    } else {
        '9'
    }
}

/// The decimal digits of a number.
pub open spec fn digits(n: nat) -> Seq<char>
    decreases n,
{
    if n < 10 {
        seq![digit(n)]
    } else {
        digits(n / 10).push(digit(n % 10))
    }
}

/// A line number as it stands in front of a line of an excerpt: its digits,
/// with zeros in front of them where they are fewer than four.
pub open spec fn line_number(n: nat) -> Seq<char> {
    let d = digits(n);
    if d.len() < 4 {
        Seq::new((4 - d.len()) as nat, |i: int| '0') + d
    } else {
        d
    }
}

/// The digit for a number below ten.
fn digit_char(n: usize) -> (c: char)
    requires
        n < 10,
    ensures
        c == digit(n as nat),
{
    if n == 0 {
        '0'
    } else if n == 1 {
        '1'
    } else if n == 2 {
        '2'
    } else if n == 3 {
        '3'
    } else if n == 4 {
        '4'
    } else if n == 5 {
        '5'
    } else if n == 6 {
        '6'
    } else if n == 7 {
        '7'
    } else if n == 8 {
        '8'
    } else {
        '9'
    }
}

/// See [`digits`].
fn decimal(n: usize) -> (d: Vec<char>)
    ensures
        d@ == digits(n as nat),
    decreases n,
{
    if n < 10 {
        let mut d: Vec<char> = Vec::new();
        d.push(digit_char(n));
        d
    } else {
        let mut d = decimal(n / 10);
        d.push(digit_char(n % 10));
        d
    }
}

/// See [`line_number`].
fn padded_number(n: usize) -> (d: Vec<char>)
    ensures
        d@ == line_number(n as nat),
{
    let shown = decimal(n);
    let mut d: Vec<char> = Vec::new();
    let mut i: usize = shown.len();
    assert(d@ =~= Seq::new((i - shown.len()) as nat, |j: int| '0'));
    while i < 4
        invariant
            shown.len() <= i,
            shown.len() < 4 ==> i <= 4,
            shown.len() >= 4 ==> i == shown.len(),
            d@ == Seq::new((i - shown.len()) as nat, |j: int| '0'),
        decreases 4 - i,
    {
        d.push('0');
        i += 1;
        assert(d@ =~= Seq::new((i - shown.len()) as nat, |j: int| '0'));
    }
    let mut k: usize = 0;
    let ghost pad = d@;
    assert(d@ =~= pad + shown@.take(0));
    while k < shown.len()
        invariant
            k <= shown.len(),
            shown@ == digits(n as nat),
            shown.len() < 4 ==> pad == Seq::new((4 - shown.len()) as nat, |j: int| '0'),
            shown.len() >= 4 ==> pad == Seq::<char>::empty(),
            d@ == pad + shown@.take(k as int),
        decreases shown.len() - k,
    {
        d.push(shown[k]);
        k += 1;
        assert(d@ =~= pad + shown@.take(k as int));
    }
    assert(shown@.take(k as int) =~= shown@);
    assert(d@ =~= line_number(n as nat));
    d
}

/// The lines of a text from index `i` on, as std's `lines` gives them: a
/// line ends at a line feed, which is no part of it, nor is a carriage
/// return in front of that line feed; what stands behind the last line
/// feed is a line if it is not empty.
pub open spec fn lines_from(s: Seq<char>, i: int) -> Seq<Seq<char>>
    decreases s.len() - i,
{
    if i >= s.len() || i < 0 {
        Seq::empty()
    } else {
        let e = line_end(s, i, s.len() as int);
        if i <= e < s.len() {
            seq![strip_return(s.subrange(i, e))] + lines_from(s, e + 1)
        } else {
            seq![s.subrange(i, s.len() as int)]
        }
    }
}

/// A line without the carriage return at its end, if it ends in one.
pub open spec fn strip_return(line: Seq<char>) -> Seq<char> {
    if line.len() > 0 && line.last() == '\r' {
        line.drop_last()
    } else {
        line
    }
}

/// The lines of a text: see [`lines_from`].
fn text_lines(s: &Vec<char>) -> (lines: Vec<(usize, usize)>)
    ensures
        lines.len() == lines_from(s@, 0).len(),
        forall|k: int|
            0 <= k < lines.len() ==> (#[trigger] lines[k]).0 <= lines[k].1 <= s.len() && s@.subrange(
                lines[k].0 as int,
                lines[k].1 as int,
            ) == lines_from(s@, 0)[k],
{
    let mut lines: Vec<(usize, usize)> = Vec::new();
    let mut i: usize = 0;
    let ghost mut found: Seq<Seq<char>> = Seq::empty();
    assert(found + lines_from(s@, 0) =~= lines_from(s@, 0));
    while i < s.len()
        invariant
            i <= s.len(),
            lines.len() == found.len(),
            forall|k: int|
                0 <= k < lines.len() ==> (#[trigger] lines[k]).0 <= lines[k].1 <= s.len()
                    && s@.subrange(lines[k].0 as int, lines[k].1 as int) == found[k],
            found + lines_from(s@, i as int) == lines_from(s@, 0),
        decreases s.len() - i,
    {
        let mut e: usize = i;
        while e < s.len() && s[e] != '\n'
            invariant
                i <= e <= s.len(),
                line_end(s@, e as int, s.len() as int) == line_end(s@, i as int, s.len() as int),
            decreases s.len() - e,
        {
            e += 1;
        }
        if e < s.len() {
            let stop = if e > i && s[e - 1] == '\r' {
                e - 1
            } else {
                e
            };
            lines.push((i, stop));
            proof {
                let line = s@.subrange(i as int, e as int);
                assert(s@.subrange(i as int, stop as int) =~= strip_return(line));
                found = found.push(strip_return(line));
                assert(found + lines_from(s@, e + 1) =~= lines_from(s@, 0));
            }
            i = e + 1;
        } else {
            lines.push((i, e));
            proof {
                found = found.push(s@.subrange(i as int, s.len() as int));
                assert(lines_from(s@, s.len() as int) =~= Seq::<Seq<char>>::empty());
                assert(found + lines_from(s@, s.len() as int) =~= lines_from(s@, 0));
            }
            i = e;
        }
    }
    assert(found + Seq::<Seq<char>>::empty() =~= found);
    lines
}

/// How many lines an excerpt holds at most.
pub const EXCERPT_LINES: usize = 10;

/// How many lines of an excerpt stand in front of the line it is shown
/// for.
pub const EXCERPT_LEAD: usize = 5;

/// The first line of the excerpt for line `line`, counted from 0.
pub open spec fn excerpt_start(line: usize) -> int {
    if line >= EXCERPT_LEAD {
        line - EXCERPT_LEAD
    } else {
        0
    }
}

/// Lines `from` up to `to`, each behind its number, counted from 1, and a
/// space, with line feeds between them.
pub open spec fn numbered(lines: Seq<Seq<char>>, from: int, to: int) -> Seq<char>
    decreases to - from,
{
    if from >= to {
        Seq::empty()
    } else if from + 1 == to {
        line_number((to) as nat) + seq![' '] + lines[to - 1]
    } else {
        numbered(lines, from, to - 1) + seq!['\n'] + line_number(to as nat) + seq![' ']
            + lines[to - 1]
    }
}

/// The excerpt of a text that is shown for line `line`: up to ten lines,
/// from the fifth line in front of the line on, each with its number.
pub open spec fn excerpt_of(text: Seq<char>, line: usize) -> Seq<char> {
    let lines = lines_from(text, 0);
    let from = if excerpt_start(line) <= lines.len() {
        excerpt_start(line)
    } else {
        lines.len() as int
    };
    let to = if from + EXCERPT_LINES <= lines.len() {
        from + EXCERPT_LINES
    } else {
        lines.len() as int
    };
    numbered(lines, from, to)
}

/// See [`excerpt_of`].
pub fn excerpt(text: &str, line: usize) -> (e: String)
    ensures
        e@ == excerpt_of(text@, line),
{
    let s = to_chars(text);
    let lines = text_lines(&s);
    let start = if line >= EXCERPT_LEAD {
        line - EXCERPT_LEAD
    } else {
        0
    };
    let from = if start <= lines.len() {
        start
    } else {
        lines.len()
    };
    let to = if lines.len() - from >= EXCERPT_LINES {
        from + EXCERPT_LINES
    } else {
        lines.len()
    };
    let ghost all = lines_from(s@, 0);
    let mut e = String::new();
    let mut k = from;
    while k < to
        invariant
            from <= k <= to <= lines.len(),
            lines.len() == all.len(),
            all == lines_from(s@, 0),
            forall|j: int|
                0 <= j < lines.len() ==> (#[trigger] lines[j]).0 <= lines[j].1 <= s.len()
                    && s@.subrange(lines[j].0 as int, lines[j].1 as int) == all[j],
            e@ == numbered(all, from as int, k as int),
        decreases to - k,
    {
        proof {
            reveal_strlit("\n");
            reveal_strlit(" ");
        }
        if k > from {
            e.append("\n");
        }
        let number = padded_number(k + 1);
        let number_text = from_chars(&number, 0, number.len());
        e.append(number_text.as_str());
        e.append(" ");
        let line_text = from_chars(&s, lines[k].0, lines[k].1);
        e.append(line_text.as_str());
        proof {
            assert(number_text@ =~= line_number((k + 1) as nat));
            assert(line_text@ == all[k as int]);
            assert(e@ =~= numbered(all, from as int, k + 1));
        }
        k += 1;
    }
    e
}

/// Why a source could not be formatted.
#[derive(Debug, PartialEq, Eq)]
pub enum ProcessError {
    /// The format call failed.
    Format(FormatError),
    /// Comments found no place in the output.
    MissedComments(Vec<LostComments>),
    /// The output is not read back as a source: where reading failed, the
    /// message, and the excerpt of the output around that line.
    Reparse { line: usize, column: usize, message: String, excerpt: String },
}

/// Where and why the output of a format call is not read back as a source.
#[derive(Debug, PartialEq, Eq)]
pub struct ParseFailure {
    pub line: usize,
    pub column: usize,
    pub message: String,
}

/// A failure as plain values.
pub open spec fn failure_view(f: Option<ParseFailure>) -> Option<(usize, usize, Seq<char>)> {
    match f {
        Some(f) => Some((f.line, f.column, f.message@)),
        None => None,
    }
}

/// What `syn::parse_str::<syn::File>` gives for a text: nothing where the
/// text is read as a source file, and else the line and column at which the
/// error starts and its message.
pub uninterp spec fn reparse_failure(text: Seq<char>) -> Option<(usize, usize, Seq<char>)>;

/// `syn::parse_str::<syn::File>`: reads the text as a source file. Where
/// that fails, the start of the error's span and the error's message are
/// given back.
#[verifier::external_body]
fn reparse(text: &str) -> (r: Option<ParseFailure>)
    ensures
        failure_view(r) == reparse_failure(text@),
{
    match syn::parse_str::<syn::File>(text) {
        Ok(_) => None,
        Err(e) => {
            let at = e.span().start();
            Some(ParseFailure { line: at.line, column: at.column, message: e.to_string() })
        },
    }
}

/// What is made of the outcome of a format call whose output was read back
/// with the given result: lost comments make it fail; then a failure to
/// read the output back does, with the excerpt around the line of the
/// failure; else the output is given.
pub open spec fn judged(
    lost: Seq<LostView>,
    rendered: Seq<char>,
    failure: Option<(usize, usize, Seq<char>)>,
    verdict: Result<String, ProcessError>,
) -> bool {
    if lost.len() > 0 {
        verdict matches Err(ProcessError::MissedComments(m)) && lost_views(m@) == lost
    } else {
        match failure {
            None => verdict matches Ok(text) && text@ == rendered,
            Some(f) => verdict matches Err(ProcessError::Reparse { line, column, message, excerpt })
                && line == f.0 && column == f.1 && message@ == f.2 && excerpt@ == excerpt_of(
                rendered,
                f.0,
            ),
        }
    }
}

/// Judges the outcome of a format call whose output was read back with the
/// result `failure`: see [`judged`].
pub fn check_rendered(res: FormatRes, failure: Option<ParseFailure>) -> (verdict: Result<
    String,
    ProcessError,
>)
    ensures
        judged(lost_views(res.lost_comments@), res.rendered@, failure_view(failure), verdict),
{
    if res.lost_comments.len() > 0 {
        return Err(ProcessError::MissedComments(res.lost_comments));
    }
    match failure {
        None => Ok(res.rendered),
        Some(f) => {
            let excerpt = excerpt(res.rendered.as_str(), f.line);
            Err(
                ProcessError::Reparse {
                    line: f.line,
                    column: f.column,
                    message: f.message,
                    excerpt,
                },
            )
        },
    }
}

/// What [`process`] makes of what a file was laid out as: where comments
/// are lost and the options make that fatal, the error of the format call;
/// where comments are lost otherwise, they are the error; else the text
/// that the tree renders to is judged by what the parser says of it.
pub open spec fn processed_as(
    b: crate::sg_general::Built,
    config: crate::config::FormatConfig,
    verdict: Result<String, ProcessError>,
) -> bool {
    let lost = crate::format::leftover(b.gaps);
    let rendered = crate::layout::rendered_text(b.doc, config);
    if config.comment_errors_fatal && lost.len() > 0 {
        verdict == Err::<String, ProcessError>(
            ProcessError::Format(FormatError::UnplacedComment(lost[0].0)),
        )
    } else {
        judged(lost, rendered, reparse_failure(rendered), verdict)
    }
}

/// Formats a file and checks the outcome: the format call must succeed and
/// lose no comment, and its output must be read back as a source file by
/// the parser. The file is laid out as by [`crate::format::format_ast`],
/// and what is given back is what [`processed_as`] says of that tree.
pub fn process(
    config: &crate::config::FormatConfig,
    ast: &crate::syntax::File,
    whitespaces: Vec<crate::whitespace::Gap>,
) -> (verdict: Result<String, ProcessError>)
    ensures
        processed_as(crate::format::file_built(ast, config, whitespaces@), *config, verdict),
{
    let fres = crate::format::format_ast(ast, config, whitespaces);
    match fres {
        Err(e) => Err(ProcessError::Format(e)),
        Ok(res) => {
            if res.lost_comments.len() > 0 {
                check_rendered(res, None)
            } else {
                let failure = reparse(res.rendered.as_str());
                check_rendered(res, failure)
            }
        },
    }
}

/// Why the work of a pool of formatting jobs failed.
#[derive(Clone, Copy, Debug, PartialEq, Eq, Structural)]
pub enum JoinError {
    /// A job panicked.
    Panic,
    /// Jobs reported errors.
    Errors,
}

/// What the work of a pool of formatting jobs comes to, given how many jobs
/// panicked and how many errors were reported: a panic counts first.
pub fn join_outcome(panic_count: usize, errors: usize) -> (r: Result<(), JoinError>)
    ensures
        panic_count > 0 ==> r == Err::<(), JoinError>(JoinError::Panic),
        panic_count == 0 && errors > 0 ==> r == Err::<(), JoinError>(JoinError::Errors),
        panic_count == 0 && errors == 0 ==> r == Ok::<(), JoinError>(()),
{
    if panic_count > 0 {
        Err(JoinError::Panic)
    } else if errors > 0 {
        Err(JoinError::Errors)
    } else {
        Ok(())
    }
}

/// The paths that were met so far, each once, in the order in which they
/// were met. A path is the text that the caller gives for it; two paths are
/// the same if their texts are.
pub struct Seen {
    paths: Vec<String>,
}

impl Seen {
    /// The paths that were met.
    pub closed spec fn view(&self) -> Seq<Seq<char>> {
        Seq::new(self.paths@.len(), |i: int| self.paths@[i]@)
    }

    /// No path is held twice.
    pub closed spec fn wf(&self) -> bool {
        forall|i: int, j: int|
            0 <= i < j < self.paths@.len() ==> self.paths@[i]@ != self.paths@[j]@
    }

    /// Whether `path` was met.
    pub open spec fn holds(&self, path: Seq<char>) -> bool {
        self.view().contains(path)
    }

    /// No path was met yet.
    pub fn new() -> (seen: Seen)
        ensures
            seen.wf(),
            seen.view().len() == 0,
    {
        Seen { paths: Vec::new() }
    }

    /// Meets `path`: it is held from now on. Tells whether it is met for
    /// the first time.
    pub fn insert(&mut self, path: &str) -> (fresh: bool)
        requires
            old(self).wf(),
        ensures
            final(self).wf(),
            fresh == !old(self).holds(path@),
            fresh ==> final(self).view() == old(self).view().push(path@),
            !fresh ==> final(self).view() == old(self).view(),
    {
        let mut i: usize = 0;
        while i < self.paths.len()
            invariant
                i <= self.paths.len(),
                *self == *old(self),
                self.wf(),
                forall|j: int| 0 <= j < i ==> self.paths@[j]@ != path@,
            decreases self.paths.len() - i,
        {
            if same_text(self.paths[i].as_str(), path) {
                assert(self.view()[i as int] == path@);
                return false;
            }
            i += 1;
        }
        proof {
            assert(!self.view().contains(path@)) by {
                if self.view().contains(path@) {
                    let k = choose|k: int| 0 <= k < self.view().len() && self.view()[k] == path@;
                    assert(self.paths@[k]@ == path@);
                }
            }
        }
        self.paths.push(String::from_str(path));
        assert(self.view() =~= old(self).view().push(path@));
        true
    }

    /// Meets the path of a file and tells whether the file is to be
    /// formatted: if it is met for the first time and is a source file.
    pub fn accept(&mut self, path: &str, is_source: bool) -> (go: bool)
        requires
            old(self).wf(),
        ensures
            final(self).wf(),
            go == (is_source && !old(self).holds(path@)),
            final(self).view() == (if old(self).holds(path@) {
                old(self).view()
            } else {
                old(self).view().push(path@)
            }),
            final(self).holds(path@),
            forall|p: Seq<char>| old(self).holds(p) ==> final(self).holds(p),
    {
        let fresh = self.insert(path);
        proof {
            if fresh {
                assert(self.view().last() == path@);
                assert forall|p: Seq<char>| old(self).holds(p) implies self.holds(p) by {
                    let k = choose|k: int| 0 <= k < old(self).view().len() && old(self).view()[k]
                        == p;
                    assert(self.view()[k] == p);
                }
            }
        }
        fresh && is_source
    }
}

/// The paths that a package manifest gives for its targets: for each kind
/// of target the paths of the targets that name one.
#[derive(Debug, PartialEq, Eq)]
pub struct Targets {
    pub bin: Vec<Option<String>>,
    pub lib: Option<String>,
    pub bench: Vec<Option<String>>,
    pub test: Vec<Option<String>>,
    pub example: Vec<Option<String>>,
}

/// The paths among `paths` that are there, in order.
pub open spec fn present(paths: Seq<Option<String>>) -> Seq<Seq<char>>
    decreases paths.len(),
{
    if paths.len() == 0 {
        Seq::empty()
    } else {
        match paths.last() {
            Some(p) => present(paths.drop_last()).push(p@),
            None => present(paths.drop_last()),
        }
    }
}

/// The path of the library target, if it names one.
pub open spec fn lib_path(lib: Option<String>) -> Seq<Seq<char>> {
    match lib {
        Some(p) => seq![p@],
        None => Seq::empty(),
    }
}

/// The paths of the targets whose directories are formatted, in the order
/// in which they are visited: binaries, the library, benchmarks, tests,
/// examples.
pub open spec fn target_paths(t: Targets) -> Seq<Seq<char>> {
    present(t.bin@) + lib_path(t.lib) + present(t.bench@) + present(t.test@) + present(
        t.example@,
    )
}

/// Adds the paths among `paths` that are there.
fn push_present(paths: &Vec<Option<String>>, found: &mut Vec<String>)
    ensures
        line_views(final(found)@) == line_views(old(found)@) + present(paths@),
{
    let mut i: usize = 0;
    assert(paths@.take(0) =~= Seq::<Option<String>>::empty());
    assert(line_views(found@) =~= line_views(old(found)@) + present(paths@.take(0)));
    while i < paths.len()
        invariant
            i <= paths.len(),
            line_views(found@) == line_views(old(found)@) + present(paths@.take(i as int)),
        decreases paths.len() - i,
    {
        proof {
            assert(paths@.take(i + 1).drop_last() =~= paths@.take(i as int));
            assert(paths@.take(i + 1).last() == paths@[i as int]);
        }
        let ghost before = found@;
        match &paths[i] {
            Some(p) => {
                found.push(p.clone());
                assert(line_views(found@) =~= line_views(before).push(p@));
                assert(line_views(found@) =~= line_views(old(found)@) + present(
                    paths@.take(i + 1),
                ));
            },
            None => {},
        }
        i += 1;
    }
    assert(paths@.take(i as int) =~= paths@);
}

/// The paths of the targets whose directories are formatted: see
/// [`target_paths`].
pub fn product_paths(t: &Targets) -> (paths: Vec<String>)
    ensures
        line_views(paths@) == target_paths(*t),
{
    let mut paths: Vec<String> = Vec::new();
    assert(line_views(paths@) =~= Seq::<Seq<char>>::empty());
    push_present(&t.bin, &mut paths);
    let ghost bins = line_views(paths@);
    match &t.lib {
        Some(p) => {
            paths.push(p.clone());
            assert(line_views(paths@) =~= bins + lib_path(t.lib));
        },
        None => {
            assert(line_views(paths@) =~= bins + lib_path(t.lib));
        },
    }
    push_present(&t.bench, &mut paths);
    push_present(&t.test, &mut paths);
    push_present(&t.example, &mut paths);
    assert(line_views(paths@) =~= target_paths(*t));
    paths
}

/// The directories of a package that are formatted if they are there, in
/// the order in which they are visited.
pub fn default_dirs() -> (dirs: Vec<&'static str>)
    ensures
        dirs@.len() == 5,
        dirs@[0]@ == "bin"@,
        dirs@[1]@ == "benches"@,
        dirs@[2]@ == "tests"@,
        dirs@[3]@ == "examples"@,
        dirs@[4]@ == "src"@,
{
    let mut dirs: Vec<&'static str> = Vec::new();
    dirs.push("bin");
    dirs.push("benches");
    dirs.push("tests");
    dirs.push("examples");
    dirs.push("src");
    dirs
}

} // verus!
