//! Laying out a run of tokens for which the front end has no rules.

use crate::extract::TokenSpan;
use crate::model::SegmentMode;
use crate::sg_general::Piece;
use crate::sg_general::Syntax;
use crate::sg_statement::text_if;
use crate::text::lemma_join_assoc;
use crate::text::same_text;
use vstd::prelude::*;
use vstd::string::StringExecFns;

verus! {

/// What a token is to the layout of a run of tokens.
#[derive(Clone, Copy, Debug, PartialEq, Eq, Structural)]
pub enum TokenKind {
    /// An opening delimiter.
    Open,
    /// A closing delimiter.
    Close,
    /// A comma.
    Comma,
    /// Any other token.
    Other,
}

/// A token of the source: where it stands, what it is, and its text.
#[derive(Debug, PartialEq, Eq)]
pub struct SourceToken {
    pub span: TokenSpan,
    pub kind: TokenKind,
    pub text: String,
}

/// Whether the source holds something between token `k` and the token in
/// front of it.
pub open spec fn apart(tokens: Seq<SourceToken>, k: int) -> bool {
    0 < k < tokens.len() && tokens[k - 1].span.end != tokens[k].span.start
}

/// Whether the token is a round or a square bracket.
pub open spec fn bracket(t: SourceToken) -> bool {
    t.text@ == "("@ || t.text@ == ")"@ || t.text@ == "["@ || t.text@ == "]"@
}

/// Whether the token is a colon.
pub open spec fn colon(t: SourceToken) -> bool {
    t.text@ == ":"@
}

/// Whether token `k` is a colon that stands alone: no part of `::`, and
/// not behind the name of a macro's variable.
pub open spec fn lone_colon(tokens: Seq<SourceToken>, k: int) -> bool {
    &&& 0 <= k < tokens.len()
    &&& colon(tokens[k])
    &&& !(k > 0 && colon(tokens[k - 1]))
    &&& !(k + 1 < tokens.len() && colon(tokens[k + 1]))
    &&& !(k > 1 && tokens[k - 2].text@ == "$"@)
}

/// Whether a space stands in front of token `k`. None stands in front of
/// the first token, of a comma, behind an opening or in front of a closing
/// round or square bracket, or in front of a colon that stands alone. One
/// stands behind a comma, unless a closing delimiter follows, and behind a
/// colon that stands alone. Everywhere else one stands where the source
/// parts the two tokens.
pub open spec fn parted(tokens: Seq<SourceToken>, k: int) -> bool {
    if !(0 < k < tokens.len()) {
        false
    } else if tokens[k].kind == TokenKind::Comma {
        false
    } else if tokens[k].kind == TokenKind::Close && bracket(tokens[k]) {
        false
    } else if tokens[k - 1].kind == TokenKind::Open && bracket(tokens[k - 1]) {
        false
    } else if tokens[k - 1].kind == TokenKind::Comma {
        tokens[k].kind != TokenKind::Close
    } else if lone_colon(tokens, k) {
        false
    } else if lone_colon(tokens, k - 1) {
        true
    } else {
        apart(tokens, k)
    }
}

/// What token `k` says, behind a space if one stands in front
/// of it.
pub open spec fn token_text(tokens: Seq<SourceToken>, k: int) -> Seq<char> {
    text_if(parted(tokens, k), " "@) + tokens[k].text@
}

/// What the tokens from `from` up to `to` say: their texts, with one space
/// wherever one stands (see [`parted`]).
pub open spec fn spaced(tokens: Seq<SourceToken>, from: int, to: int) -> Seq<char>
    decreases to - from,
{
    if from >= to {
        Seq::empty()
    } else {
        spaced(tokens, from, to - 1) + token_text(tokens, to - 1)
    }
}

/// What a stretch of tokens says is what its two parts say.
pub proof fn lemma_spaced_split(tokens: Seq<SourceToken>, from: int, mid: int, to: int)
    requires
        from <= mid <= to,
    ensures
        spaced(tokens, from, to) == spaced(tokens, from, mid) + spaced(tokens, mid, to),
    decreases to - mid,
{
    if mid < to {
        lemma_spaced_split(tokens, from, mid, to - 1);
        assert(spaced(tokens, from, to) =~= spaced(tokens, from, mid) + spaced(tokens, mid, to));
    } else {
        assert(spaced(tokens, from, to) =~= spaced(tokens, from, mid) + spaced(tokens, mid, to));
    }
}

/// What one token says.
pub proof fn lemma_spaced_one(tokens: Seq<SourceToken>, k: int)
    ensures
        spaced(tokens, k, k + 1) == token_text(tokens, k),
{
    reveal_with_fuel(spaced, 3);
    assert(spaced(tokens, k, k + 1) =~= token_text(tokens, k));
}

/// The pieces for token `k`: the token, behind a space if one stands
/// in front of it.
pub open spec fn token_pieces(tokens: Seq<SourceToken>, k: int) -> Seq<Piece> {
    (if parted(tokens, k) {
        seq![Piece::Text { mode: SegmentMode::All, text: " "@ }]
    } else {
        Seq::empty()
    }).push(Piece::Token { loc: tokens[k].span.start, text: tokens[k].text@ })
}

/// What stands for the tokens of one level: the pieces, and the place of
/// the closing delimiter that ends the level, or the number of tokens
/// where none does.
pub struct Level {
    pub pieces: Seq<Piece>,
    pub end: int,
}

/// The pieces for the tokens from `from` on, up to the closing delimiter
/// that ends their level or to the end. A comma is followed by a place to
/// break, one level deeper where the tokens stand between delimiters
/// themselves (`inside`). An opening delimiter starts a group, which stands
/// one level deeper under the same condition: it holds the delimiter, a
/// place to break one level deeper, the pieces of the level that the
/// delimiter opens and, where that level is closed, a place to break and
/// the closing delimiter.
pub open spec fn level(tokens: Seq<SourceToken>, from: int, inside: bool) -> Level
    decreases tokens.len() - from,
{
    if from < 0 || from >= tokens.len() {
        Level { pieces: Seq::empty(), end: tokens.len() as int }
    } else {
        match tokens[from].kind {
            TokenKind::Close => Level { pieces: Seq::empty(), end: from },
            TokenKind::Open => {
                let opened = level(tokens, from + 1, true);
                let stop = group_stop(tokens, opened.end);
                if from < stop <= tokens.len() {
                    let rest = level(tokens, stop, inside);
                    Level {
                        pieces: seq![group_piece(tokens, from, opened, inside)] + rest.pieces,
                        end: rest.end,
                    }
                } else {
                    Level { pieces: Seq::empty(), end: tokens.len() as int }
                }
            },
            TokenKind::Comma => {
                let rest = level(tokens, from + 1, inside);
                Level {
                    pieces: token_pieces(tokens, from).push(Piece::Break { deeper: inside })
                        + rest.pieces,
                    end: rest.end,
                }
            },
            TokenKind::Other => {
                let rest = level(tokens, from + 1, inside);
                Level { pieces: token_pieces(tokens, from) + rest.pieces, end: rest.end }
            },
        }
    }
}

/// The place behind a group whose level ends at `end`: behind the closing
/// delimiter, where there is one.
pub open spec fn group_stop(tokens: Seq<SourceToken>, end: int) -> int {
    if end < tokens.len() {
        end + 1
    } else {
        end
    }
}

/// The group for the delimiter at `from` and the level `opened` that it
/// opens.
pub open spec fn group_piece(tokens: Seq<SourceToken>, from: int, opened: Level, inside: bool)
    -> Piece {
    Piece::Group {
        split: false,
        indent: inside,
        parts: token_pieces(tokens, from).push(Piece::Break { deeper: true }) + opened.pieces + (
        if opened.end < tokens.len() {
            seq![Piece::Break { deeper: false }] + token_pieces(tokens, opened.end)
        } else {
            Seq::empty()
        }),
    }
}

/// The pieces for the tokens from `from` on: level by level, and between
/// two levels the closing delimiter that closes nothing, as a token like
/// any other.
pub open spec fn run_pieces(tokens: Seq<SourceToken>, from: int) -> Seq<Piece>
    decreases tokens.len() - from,
{
    let first = level(tokens, from, false);
    if from <= first.end < tokens.len() {
        first.pieces + token_pieces(tokens, first.end) + run_pieces(tokens, first.end + 1)
    } else {
        first.pieces
    }
}

/// A level ends at or behind its start and within the tokens, at a closing
/// delimiter where it ends before the last token: so what follows the
/// group of an opening delimiter is always the rest of the level.
pub proof fn lemma_level_end(tokens: Seq<SourceToken>, from: int, inside: bool)
    requires
        0 <= from <= tokens.len(),
    ensures
        from <= level(tokens, from, inside).end <= tokens.len(),
        level(tokens, from, inside).end < tokens.len() ==> tokens[level(
            tokens,
            from,
            inside,
        ).end].kind == TokenKind::Close,
    decreases tokens.len() - from,
{
    if from < tokens.len() {
        match tokens[from].kind {
            TokenKind::Close => {},
            TokenKind::Open => {
                lemma_level_end(tokens, from + 1, true);
                let stop = group_stop(tokens, level(tokens, from + 1, true).end);
                lemma_level_end(tokens, stop, inside);
            },
            TokenKind::Comma => {
                lemma_level_end(tokens, from + 1, inside);
            },
            TokenKind::Other => {
                lemma_level_end(tokens, from + 1, inside);
            },
        }
    }
}

/// Pieces with one more piece say what they said, then what the piece
/// says, and are what they were, then what the piece is.
pub proof fn lemma_texts_push(parts: Seq<Syntax>, piece: Syntax)
    ensures
        Syntax::texts(parts.push(piece)) == Syntax::texts(parts) + piece.text(),
        Syntax::shapes(parts.push(piece)) == Syntax::shapes(parts).push(piece.shape()),
{
    assert(parts.push(piece).drop_last() =~= parts);
}

/// Exec form of [`bracket`].
fn is_bracket(t: &SourceToken) -> (b: bool)
    ensures
        b == bracket(*t),
{
    let text = t.text.as_str();
    same_text(text, "(") || same_text(text, ")") || same_text(text, "[") || same_text(text, "]")
}

/// Exec form of [`lone_colon`].
fn is_lone_colon(tokens: &Vec<SourceToken>, k: usize) -> (b: bool)
    requires
        k < tokens.len(),
    ensures
        b == lone_colon(tokens@, k as int),
{
    if !same_text(tokens[k].text.as_str(), ":") {
        return false;
    }
    if k > 0 && same_text(tokens[k - 1].text.as_str(), ":") {
        return false;
    }
    if k + 1 < tokens.len() && same_text(tokens[k + 1].text.as_str(), ":") {
        return false;
    }
    !(k > 1 && same_text(tokens[k - 2].text.as_str(), "$"))
}

/// Exec form of [`parted`].
fn is_parted(tokens: &Vec<SourceToken>, k: usize) -> (b: bool)
    requires
        k < tokens.len(),
    ensures
        b == parted(tokens@, k as int),
{
    if k == 0 {
        return false;
    }
    let here = &tokens[k];
    let prev = &tokens[k - 1];
    match here.kind {
        TokenKind::Comma => {
            return false;
        },
        TokenKind::Close => {
            if is_bracket(here) {
                return false;
            }
        },
        _ => {},
    }
    match prev.kind {
        TokenKind::Open => {
            if is_bracket(prev) {
                return false;
            }
        },
        TokenKind::Comma => {
            return match here.kind {
                TokenKind::Close => false,
                _ => true,
            };
        },
        _ => {},
    }
    if is_lone_colon(tokens, k) {
        false
    } else if is_lone_colon(tokens, k - 1) {
        true
    } else {
        prev.span.end != here.span.start
    }
}

/// Adds token `k` to the pieces, behind a space if one stands in
/// front of it.
fn push_token(tokens: &Vec<SourceToken>, k: usize, parts: &mut Vec<Syntax>)
    requires
        k < tokens.len(),
    ensures
        Syntax::texts(final(parts)@) == Syntax::texts(old(parts)@) + token_text(
            tokens@,
            k as int,
        ),
        Syntax::shapes(final(parts)@) == Syntax::shapes(old(parts)@) + token_pieces(
            tokens@,
            k as int,
        ),
{
    let ghost before = parts@;
    if is_parted(tokens, k) {
        let space = Syntax::Text { mode: SegmentMode::All, text: String::from_str(" ") };
        proof {
            lemma_texts_push(before, space);
            assert(space.text() == " "@);
        }
        parts.push(space);
    }
    let ghost mid = parts@;
    assert(Syntax::texts(mid) =~= Syntax::texts(before) + text_if(parted(tokens@, k as int), " "@));
    let token = Syntax::Token { loc: tokens[k].span.start, text: tokens[k].text.clone() };
    proof {
        lemma_texts_push(mid, token);
        assert(token.text() == tokens@[k as int].text@);
    }
    parts.push(token);
    assert(Syntax::texts(parts@) =~= Syntax::texts(before) + token_text(tokens@, k as int));
    assert(Syntax::shapes(parts@) =~= Syntax::shapes(before) + token_pieces(tokens@, k as int));
}

/// Adds a place to break to the pieces.
fn push_break(parts: &mut Vec<Syntax>, deeper: bool)
    ensures
        final(parts)@ == old(parts)@.push(Syntax::Break { deeper }),
        Syntax::texts(final(parts)@) == Syntax::texts(old(parts)@),
        Syntax::shapes(final(parts)@) == Syntax::shapes(old(parts)@).push(
            Piece::Break { deeper },
        ),
{
    let ghost before = parts@;
    let piece = Syntax::Break { deeper };
    proof {
        lemma_texts_push(before, piece);
        assert(piece.text() == Seq::<char>::empty());
    }
    parts.push(piece);
    assert(Syntax::texts(parts@) =~= Syntax::texts(before));
}

/// Adds the group for the opening delimiter at `k` and the level that it
/// opens, and tells where the group ends: see [`group_piece`].
fn push_group(tokens: &Vec<SourceToken>, k: usize, inside: bool, parts: &mut Vec<Syntax>) -> (stop:
    usize)
    requires
        k < tokens.len(),
    ensures
        k < stop <= tokens.len(),
        stop == group_stop(tokens@, level(tokens@, k + 1, true).end),
        Syntax::texts(final(parts)@) == Syntax::texts(old(parts)@) + spaced(
            tokens@,
            k as int,
            stop as int,
        ),
        Syntax::shapes(final(parts)@) == Syntax::shapes(old(parts)@).push(
            group_piece(tokens@, k as int, level(tokens@, k + 1, true), inside),
        ),
    decreases tokens.len() - k, 0int,
{
    let ghost before = parts@;
    let ghost opened = level(tokens@, k + 1, true);
    let mut inner: Vec<Syntax> = Vec::new();
    assert(Syntax::texts(inner@) =~= Seq::<char>::empty());
    assert(Syntax::shapes(inner@) =~= Seq::<Piece>::empty());
    push_token(tokens, k, &mut inner);
    push_break(&mut inner, true);
    let end = push_level(tokens, k + 1, true, &mut inner);
    let ghost opening = Syntax::shapes(inner@);
    assert(opening =~= token_pieces(tokens@, k as int).push(Piece::Break { deeper: true })
        + opened.pieces);
    let stop = if end < tokens.len() {
        push_break(&mut inner, false);
        push_token(tokens, end, &mut inner);
        assert(Syntax::shapes(inner@) =~= opening + (seq![Piece::Break { deeper: false }]
            + token_pieces(tokens@, end as int)));
        end + 1
    } else {
        assert(Syntax::shapes(inner@) =~= opening + Seq::<Piece>::empty());
        end
    };
    proof {
        lemma_spaced_split(tokens@, k as int, k + 1, end as int);
        lemma_spaced_split(tokens@, k as int, end as int, stop as int);
        lemma_spaced_one(tokens@, k as int);
        if end < tokens.len() {
            lemma_spaced_one(tokens@, end as int);
        }
        assert(Syntax::texts(inner@) =~= spaced(tokens@, k as int, stop as int));
    }
    let group = Syntax::Group { split: false, indent: inside, parts: inner };
    proof {
        lemma_texts_push(before, group);
        assert(group.text() == Syntax::texts(inner@));
        assert(group.shape() == group_piece(tokens@, k as int, opened, inside));
    }
    parts.push(group);
    stop
}

/// Adds the pieces for the tokens from `from` on, up to the closing
/// delimiter that ends their level or to the end, and tells where that is:
/// see [`level`]. With `inside` set the tokens stand between delimiters
/// themselves.
fn push_level(tokens: &Vec<SourceToken>, from: usize, inside: bool, parts: &mut Vec<Syntax>) -> (next:
    usize)
    requires
        from <= tokens.len(),
    ensures
        from <= next <= tokens.len(),
        next < tokens.len() ==> tokens[next as int].kind == TokenKind::Close,
        Syntax::texts(final(parts)@) == Syntax::texts(old(parts)@) + spaced(
            tokens@,
            from as int,
            next as int,
        ),
        next == level(tokens@, from as int, inside).end,
        Syntax::shapes(final(parts)@) == Syntax::shapes(old(parts)@) + level(
            tokens@,
            from as int,
            inside,
        ).pieces,
    decreases tokens.len() - from, 1int,
{
    let mut k = from;
    let ghost whole = level(tokens@, from as int, inside);
    assert(Syntax::texts(parts@) =~= Syntax::texts(old(parts)@) + spaced(
        tokens@,
        from as int,
        from as int,
    ));
    while k < tokens.len()
        invariant
            from <= k <= tokens.len(),
            Syntax::texts(parts@) == Syntax::texts(old(parts)@) + spaced(
                tokens@,
                from as int,
                k as int,
            ),
            whole == level(tokens@, from as int, inside),
            level(tokens@, k as int, inside).end == whole.end,
            Syntax::shapes(parts@) + level(tokens@, k as int, inside).pieces == Syntax::shapes(
                old(parts)@,
            ) + whole.pieces,
        decreases tokens.len() - k,
    {
        let ghost so_far = Syntax::shapes(parts@);
        let ghost here = level(tokens@, k as int, inside);
        match tokens[k].kind {
            TokenKind::Close => {
                assert(so_far + here.pieces =~= so_far);
                return k;
            },
            TokenKind::Open => {
                let stop = push_group(tokens, k, inside, parts);
                proof {
                    lemma_spaced_split(tokens@, from as int, k as int, stop as int);
                    lemma_join_assoc(
                        Syntax::texts(old(parts)@),
                        spaced(tokens@, from as int, k as int),
                        spaced(tokens@, k as int, stop as int),
                    );
                    let rest = level(tokens@, stop as int, inside);
                    let group = group_piece(tokens@, k as int, level(tokens@, k + 1, true), inside);
                    assert(here.pieces == seq![group] + rest.pieces);
                    assert(so_far.push(group) + rest.pieces =~= so_far + here.pieces);
                }
                k = stop;
            },
            TokenKind::Comma => {
                push_token(tokens, k, parts);
                push_break(parts, inside);
                proof {
                    lemma_spaced_one(tokens@, k as int);
                    lemma_spaced_split(tokens@, from as int, k as int, k + 1);
                    lemma_join_assoc(
                        Syntax::texts(old(parts)@),
                        spaced(tokens@, from as int, k as int),
                        token_text(tokens@, k as int),
                    );
                    let rest = level(tokens@, k + 1, inside);
                    assert((so_far + token_pieces(tokens@, k as int)).push(
                        Piece::Break { deeper: inside },
                    ) + rest.pieces =~= so_far + here.pieces);
                }
                k += 1;
            },
            TokenKind::Other => {
                push_token(tokens, k, parts);
                proof {
                    lemma_spaced_one(tokens@, k as int);
                    lemma_spaced_split(tokens@, from as int, k as int, k + 1);
                    lemma_join_assoc(
                        Syntax::texts(old(parts)@),
                        spaced(tokens@, from as int, k as int),
                        token_text(tokens@, k as int),
                    );
                    let rest = level(tokens@, k + 1, inside);
                    assert((so_far + token_pieces(tokens@, k as int)) + rest.pieces =~= so_far
                        + here.pieces);
                }
                k += 1;
            },
        }
    }
    assert(Syntax::shapes(parts@) + level(tokens@, k as int, inside).pieces =~= Syntax::shapes(
        parts@,
    ));
    k
}

/// A piece for a run of tokens: a group that says what the tokens say,
/// with one space wherever one stands (see [`parted`]). Tokens between
/// delimiters become nested groups that can break behind the opening
/// delimiter, behind each comma and in front of the closing delimiter. A
/// closing delimiter that closes nothing is a token like any other. See
/// [`run_pieces`].
pub fn from_tokens(tokens: &Vec<SourceToken>) -> (piece: Syntax)
    ensures
        piece.shape() == (Piece::Group {
            split: false,
            indent: false,
            parts: run_pieces(tokens@, 0),
        }),
        piece.text() == spaced(tokens@, 0, tokens.len() as int),
        piece is Group,
        !piece.marked(),
{
    let mut parts: Vec<Syntax> = Vec::new();
    let mut k: usize = 0;
    assert(Syntax::texts(parts@) =~= spaced(tokens@, 0, 0));
    assert(Syntax::shapes(parts@) + run_pieces(tokens@, 0) =~= run_pieces(tokens@, 0));
    while k < tokens.len()
        invariant
            k <= tokens.len(),
            Syntax::texts(parts@) == spaced(tokens@, 0, k as int),
            Syntax::shapes(parts@) + run_pieces(tokens@, k as int) == run_pieces(tokens@, 0),
        decreases tokens.len() - k,
    {
        let ghost so_far = Syntax::shapes(parts@);
        let ghost first = level(tokens@, k as int, false);
        let next = push_level(tokens, k, false, &mut parts);
        proof {
            lemma_spaced_split(tokens@, 0, k as int, next as int);
        }
        if next < tokens.len() {
            push_token(tokens, next, &mut parts);
            proof {
                lemma_spaced_split(tokens@, 0, next as int, next + 1);
                lemma_spaced_one(tokens@, next as int);
                assert((so_far + first.pieces) + token_pieces(tokens@, next as int) + run_pieces(
                    tokens@,
                    next + 1,
                ) =~= so_far + run_pieces(tokens@, k as int));
            }
            k = next + 1;
        } else {
            assert(so_far + first.pieces =~= so_far + run_pieces(tokens@, k as int));
            k = next;
        }
    }
    assert(Syntax::shapes(parts@) + run_pieces(tokens@, k as int) =~= Syntax::shapes(parts@));
    Syntax::Group { split: false, indent: false, parts }
}

} // verus!
