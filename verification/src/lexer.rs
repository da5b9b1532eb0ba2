//! The lexer: source bytes to a token stream with source positions.
//!
//! A single pass with one byte of lookahead.  Whitespace and `//` comments
//! are skipped.  Keywords are recognised among identifier words.  Integers
//! are decimal and non-negative; a literal too large for `i64` saturates.
//! Bytes outside the language become [`Token::Unexpected`] so that the
//! parser, not the lexer, reports the error.

use vstd::prelude::*;

use crate::errors::{LocationData, Position, SpecLocation};
use crate::tokens::{SpecToken, Token};

verus! {

// ---------------------------------------------------------------------------
// Byte classes
// ---------------------------------------------------------------------------
pub open spec fn is_ws(b: u8) -> bool {
    b == 32 || b == 9 || b == 10 || b == 11 || b == 12 || b == 13
}

pub open spec fn is_digit(b: u8) -> bool {
    48 <= b <= 57
}

pub open spec fn is_alpha(b: u8) -> bool {
    (65 <= b <= 90) || (97 <= b <= 122)
}

/// A byte that may continue an identifier word.
pub open spec fn is_word(b: u8) -> bool {
    is_alpha(b) || is_digit(b) || b == 95
}

// ---------------------------------------------------------------------------
// Positions
// ---------------------------------------------------------------------------
/// The position after stepping over byte `b`; counters saturate rather than
/// wrap on inputs at the numeric limits.
pub open spec fn spec_pos_advance(p: Position, b: u8) -> Position {
    Position {
        byte_index: if p.byte_index < usize::MAX { (p.byte_index + 1) as usize } else { p.byte_index },
        line_number: if b == 10 {
            if p.line_number < u32::MAX { (p.line_number + 1) as u32 } else { p.line_number }
        } else {
            p.line_number
        },
        column_number: if b == 10 {
            1
        } else {
            if p.column_number < u32::MAX { (p.column_number + 1) as u32 } else { p.column_number }
        },
    }
}

pub fn pos_advance(p: Position, b: u8) -> (r: Position)
    ensures
        r == spec_pos_advance(p, b),
{
    let byte_index: usize = if p.byte_index < usize::MAX { p.byte_index + 1 } else { p.byte_index };
    if b == 10 {
        let line_number: u32 = if p.line_number < u32::MAX { p.line_number + 1 } else { p.line_number };
        Position { byte_index, line_number, column_number: 1 }
    } else {
        let column_number: u32 = if p.column_number < u32::MAX { p.column_number + 1 } else { p.column_number };
        Position { byte_index, line_number: p.line_number, column_number }
    }
}

/// The position after stepping over `src[from..to]`.
pub open spec fn spec_advance_over(p: Position, src: Seq<u8>, from: int, to: int) -> Position
    decreases to - from,
{
    if from >= to {
        p
    } else {
        spec_advance_over(spec_pos_advance(p, src[from]), src, from + 1, to)
    }
}

// ---------------------------------------------------------------------------
// Scanning words and integers
// ---------------------------------------------------------------------------
/// The first index at or after `i` that does not continue a digit run.
pub open spec fn digits_end(src: Seq<u8>, i: int) -> int
    decreases src.len() - i,
{
    if 0 <= i < src.len() && is_digit(src[i]) {
        digits_end(src, i + 1)
    } else {
        i
    }
}

/// The first index at or after `i` that does not continue a word.
pub open spec fn word_end(src: Seq<u8>, i: int) -> int
    decreases src.len() - i,
{
    if 0 <= i < src.len() && is_word(src[i]) {
        word_end(src, i + 1)
    } else {
        i
    }
}

pub proof fn lemma_digits_end_bounds(src: Seq<u8>, i: int)
    requires
        0 <= i <= src.len(),
    ensures
        i <= digits_end(src, i) <= src.len(),
    decreases src.len() - i,
{
    if i < src.len() && is_digit(src[i]) {
        lemma_digits_end_bounds(src, i + 1);
    }
}

pub proof fn lemma_word_end_bounds(src: Seq<u8>, i: int)
    requires
        0 <= i <= src.len(),
    ensures
        i <= word_end(src, i) <= src.len(),
    decreases src.len() - i,
{
    if i < src.len() && is_word(src[i]) {
        lemma_word_end_bounds(src, i + 1);
    }
}

/// One step of the saturating decimal accumulator.
pub open spec fn sat_step(acc: int, d: int) -> int {
    if acc > (i64::MAX - d) / 10 {
        i64::MAX as int
    } else {
        acc * 10 + d
    }
}

/// The saturating value of the digits `src[k..j]`, folded onto `acc`.
pub open spec fn int_value_from(src: Seq<u8>, k: int, j: int, acc: int) -> int
    decreases j - k,
{
    if k >= j {
        acc
    } else {
        int_value_from(src, k + 1, j, sat_step(acc, src[k] - 48))
    }
}

pub proof fn lemma_int_value_range(src: Seq<u8>, k: int, j: int, acc: int)
    requires
        0 <= acc <= i64::MAX,
        forall|m: int| k <= m < j ==> 0 <= #[trigger] (src[m] - 48) <= 9,
    ensures
        0 <= int_value_from(src, k, j, acc) <= i64::MAX,
    decreases j - k,
{
    if k < j {
        let d = src[k] - 48;
        if acc > (i64::MAX - d) / 10 {
            lemma_int_value_range(src, k + 1, j, i64::MAX as int);
        } else {
            lemma_int_value_range(src, k + 1, j, acc * 10 + d);
        }
    }
}

/// The token a word denotes: a keyword or a plain name.
pub open spec fn spec_keyword(w: Seq<u8>) -> SpecToken {
    if w == seq![100u8, 101u8, 102u8] {
        SpecToken::Def
    } else if w == seq![102u8, 110u8] {
        SpecToken::Fn
    } else if w == seq![105u8, 109u8, 112u8, 111u8, 114u8, 116u8] {
        SpecToken::Import
    } else if w == seq![73u8, 110u8, 116u8] {
        SpecToken::Int
    } else if w == seq![112u8, 114u8, 105u8, 110u8, 116u8] {
        SpecToken::Print
    } else {
        SpecToken::Name(w)
    }
}

/// Recognise a collected word.
pub fn keyword_or_name(word: Vec<u8>) -> (t: Token)
    ensures
        t@ == spec_keyword(word@),
{
    if word.len() == 3 && word[0] == 100 && word[1] == 101 && word[2] == 102 {
        proof {
            assert(word@ =~= seq![100u8, 101u8, 102u8]);
        }
        Token::Def
    } else if word.len() == 2 && word[0] == 102 && word[1] == 110 {
        proof {
            assert(word@ =~= seq![102u8, 110u8]);
        }
        Token::Fn
    } else if word.len() == 6 && word[0] == 105 && word[1] == 109 && word[2] == 112 && word[3]
        == 111 && word[4] == 114 && word[5] == 116 {
        proof {
            assert(word@ =~= seq![105u8, 109u8, 112u8, 111u8, 114u8, 116u8]);
        }
        Token::Import
    } else if word.len() == 3 && word[0] == 73 && word[1] == 110 && word[2] == 116 {
        proof {
            assert(word@ =~= seq![73u8, 110u8, 116u8]);
        }
        Token::Int
    } else if word.len() == 5 && word[0] == 112 && word[1] == 114 && word[2] == 105 && word[3]
        == 110 && word[4] == 116 {
        proof {
            assert(word@ =~= seq![112u8, 114u8, 105u8, 110u8, 116u8]);
        }
        Token::Print
    } else {
        proof {
            assert(word@ != seq![100u8, 101u8, 102u8]);
            assert(word@ != seq![102u8, 110u8]);
            assert(word@ != seq![105u8, 109u8, 112u8, 111u8, 114u8, 116u8]);
            assert(word@ != seq![73u8, 110u8, 116u8]);
            assert(word@ != seq![112u8, 114u8, 105u8, 110u8, 116u8]);
        }
        Token::Name(word)
    }
}

// ---------------------------------------------------------------------------
// The token stream
// ---------------------------------------------------------------------------
pub open spec fn spec_loc(file: Seq<u8>, start: Position, end: Position) -> SpecLocation {
    SpecLocation { file_name: file, start, end }
}

/// The tokens of `src[i..]`, starting at position `pos`.
pub open spec fn spec_lex_from(file: Seq<u8>, src: Seq<u8>, i: int, pos: Position) -> Seq<
    (SpecToken, SpecLocation),
>
    decreases src.len() - i, 1int,
{
    if i < 0 || i >= src.len() {
        Seq::empty()
    } else {
        let b = src[i];
        let p1 = spec_pos_advance(pos, b);
        if is_ws(b) {
            spec_lex_from(file, src, i + 1, p1)
        } else if b == 61 {
            seq![(SpecToken::Equals, spec_loc(file, pos, p1))] + spec_lex_from(file, src, i + 1, p1)
        } else if b == 58 {
            seq![(SpecToken::Colon, spec_loc(file, pos, p1))] + spec_lex_from(file, src, i + 1, p1)
        } else if b == 45 && i + 1 < src.len() && src[i + 1] == 62 {
            let p2 = spec_pos_advance(p1, src[i + 1]);
            seq![(SpecToken::RightArrow, spec_loc(file, pos, p2))] + spec_lex_from(
                file,
                src,
                i + 2,
                p2,
            )
        } else if b == 45 {
            seq![(SpecToken::Minus, spec_loc(file, pos, p1))] + spec_lex_from(file, src, i + 1, p1)
        } else if b == 43 {
            seq![(SpecToken::Plus, spec_loc(file, pos, p1))] + spec_lex_from(file, src, i + 1, p1)
        } else if b == 40 {
            seq![(SpecToken::ParenLeft, spec_loc(file, pos, p1))] + spec_lex_from(
                file,
                src,
                i + 1,
                p1,
            )
        } else if b == 41 {
            seq![(SpecToken::ParenRight, spec_loc(file, pos, p1))] + spec_lex_from(
                file,
                src,
                i + 1,
                p1,
            )
        } else if b == 47 && i + 1 < src.len() && src[i + 1] == 47 {
            let p2 = spec_pos_advance(p1, src[i + 1]);
            spec_skip_comment(file, src, i + 2, p2)
        } else if is_digit(b) {
            proof {
                lemma_digits_end_bounds(src, i + 1);
                assert(digits_end(src, i) == digits_end(src, i + 1));
            }
            let j = digits_end(src, i);
            let p2 = spec_advance_over(pos, src, i, j);
            let value = int_value_from(src, i, j, 0);
            seq![(SpecToken::Integer(value as i64), spec_loc(file, pos, p2))] + spec_lex_from(
                file,
                src,
                j,
                p2,
            )
        } else if is_alpha(b) {
            proof {
                lemma_word_end_bounds(src, i + 1);
                assert(word_end(src, i) == word_end(src, i + 1));
            }
            let j = word_end(src, i);
            let p2 = spec_advance_over(pos, src, i, j);
            seq![(spec_keyword(src.subrange(i, j)), spec_loc(file, pos, p2))] + spec_lex_from(
                file,
                src,
                j,
                p2,
            )
        } else {
            seq![(SpecToken::Unexpected(b), spec_loc(file, pos, p1))] + spec_lex_from(
                file,
                src,
                i + 1,
                p1,
            )
        }
    }
}

/// Skips the rest of a `//` comment; the terminating newline is left for the
/// whitespace rule.
pub open spec fn spec_skip_comment(file: Seq<u8>, src: Seq<u8>, i: int, pos: Position) -> Seq<
    (SpecToken, SpecLocation),
>
    decreases src.len() - i, 2int,
{
    if i < 0 || i >= src.len() {
        Seq::empty()
    } else if src[i] == 10 {
        spec_lex_from(file, src, i, pos)
    } else {
        spec_skip_comment(file, src, i + 1, spec_pos_advance(pos, src[i]))
    }
}

/// The whole token stream of a file.
pub open spec fn spec_lex(file: Seq<u8>, src: Seq<u8>) -> Seq<(SpecToken, SpecLocation)> {
    spec_lex_from(file, src, 0, Position { byte_index: 0, line_number: 1, column_number: 1 })
}

/// The models of a produced token vector.
pub open spec fn toks_view(s: Seq<(Token, LocationData)>) -> Seq<(SpecToken, SpecLocation)> {
    s.map_values(|p: (Token, LocationData)| (p.0@, p.1@))
}

/// Lex an entire file: its name (for locations) and its text.
pub fn lex_file(file_name: &Vec<u8>, source_text: &Vec<u8>) -> (r: Vec<(Token, LocationData)>)
    ensures
        toks_view(r@) == spec_lex(file_name@, source_text@),
{
    let src = source_text;
    let n = src.len();
    let mut out: Vec<(Token, LocationData)> = Vec::new();
    let mut i: usize = 0;
    let mut pos = Position { byte_index: 0, line_number: 1, column_number: 1 };
    while i < n
        invariant
            n == src@.len(),
            0 <= i <= n,
            spec_lex(file_name@, src@) =~= toks_view(out@) + spec_lex_from(
                file_name@,
                src@,
                i as int,
                pos,
            ),
        decreases n - i,
    {
        let ghost i0 = i as int;
        let pos0 = pos;
        let b = src[i];
        if b == 32 || b == 9 || b == 10 || b == 11 || b == 12 || b == 13 {
            pos = pos_advance(pos, b);
            i = i + 1;
        } else if b == 61 {
            let p1 = pos_advance(pos, b);
            push_token(&mut out, Token::Equals, file_name, pos, p1);
            pos = p1;
            i = i + 1;
        } else if b == 58 {
            let p1 = pos_advance(pos, b);
            push_token(&mut out, Token::Colon, file_name, pos, p1);
            pos = p1;
            i = i + 1;
        } else if b == 45 && i + 1 < n && src[i + 1] == 62 {
            let p1 = pos_advance(pos, b);
            let p2 = pos_advance(p1, src[i + 1]);
            push_token(&mut out, Token::RightArrow, file_name, pos, p2);
            pos = p2;
            i = i + 2;
        } else if b == 45 {
            let p1 = pos_advance(pos, b);
            push_token(&mut out, Token::Minus, file_name, pos, p1);
            pos = p1;
            i = i + 1;
        } else if b == 43 {
            let p1 = pos_advance(pos, b);
            push_token(&mut out, Token::Plus, file_name, pos, p1);
            pos = p1;
            i = i + 1;
        } else if b == 40 {
            let p1 = pos_advance(pos, b);
            push_token(&mut out, Token::ParenLeft, file_name, pos, p1);
            pos = p1;
            i = i + 1;
        } else if b == 41 {
            let p1 = pos_advance(pos, b);
            push_token(&mut out, Token::ParenRight, file_name, pos, p1);
            pos = p1;
            i = i + 1;
        } else if b == 47 && i + 1 < n && src[i + 1] == 47 {
            pos = pos_advance(pos, b);
            pos = pos_advance(pos, src[i + 1]);
            i = i + 2;
            proof {
                assert(spec_lex_from(file_name@, src@, i0, pos0) == spec_skip_comment(
                    file_name@,
                    src@,
                    i as int,
                    pos,
                ));
            }
            while i < n && src[i] != 10
                invariant
                    n == src@.len(),
                    0 <= i <= n,
                    i0 + 2 <= i,
                    spec_lex(file_name@, src@) =~= toks_view(out@) + spec_skip_comment(
                        file_name@,
                        src@,
                        i as int,
                        pos,
                    ),
                decreases n - i,
            {
                pos = pos_advance(pos, src[i]);
                i = i + 1;
            }
            proof {
                assert(spec_skip_comment(file_name@, src@, i as int, pos) == spec_lex_from(
                    file_name@,
                    src@,
                    i as int,
                    pos,
                ));
            }
        } else if 48 <= b && b <= 57 {
            let ghost j = digits_end(src@, i0);
            proof {
                lemma_digits_end_bounds(src@, i + 1);
                assert(digits_end(src@, i0) == digits_end(src@, i0 + 1));
                assert(i0 + 1 <= j <= n);
            }
            let mut acc: i64 = 0;
            while i < n && 48 <= src[i] && src[i] <= 57
                invariant
                    n == src@.len(),
                    0 <= i0 <= i <= n,
                    j == digits_end(src@, i0),
                    j == digits_end(src@, i as int),
                    i as int <= j <= n,
                    0 <= acc <= i64::MAX,
                    int_value_from(src@, i0, j, 0) == int_value_from(src@, i as int, j, acc as int),
                    spec_advance_over(pos0, src@, i0, j) == spec_advance_over(
                        pos,
                        src@,
                        i as int,
                        j,
                    ),
                decreases n - i,
            {
                let d: i64 = (src[i] - 48) as i64;
                proof {
                    assert(digits_end(src@, i as int) == digits_end(src@, i + 1));
                    lemma_digits_end_bounds(src@, i + 1);
                    assert((i64::MAX - d) / 10 * 10 + (i64::MAX - d) % 10 == i64::MAX - d);
                }
                if acc > (i64::MAX - d) / 10 {
                    acc = i64::MAX;
                } else {
                    acc = acc * 10 + d;
                }
                pos = pos_advance(pos, src[i]);
                i = i + 1;
            }
            proof {
                assert(digits_end(src@, i as int) == i as int);
                assert(j == i as int);
                assert(int_value_from(src@, i as int, j, acc as int) == acc as int);
                assert(spec_advance_over(pos0, src@, i0, j) == pos);
            }
            push_token(&mut out, Token::Integer(acc), file_name, pos0, pos);
        } else if (65 <= b && b <= 90) || (97 <= b && b <= 122) {
            let ghost j = word_end(src@, i0);
            proof {
                lemma_word_end_bounds(src@, i + 1);
                assert(word_end(src@, i0) == word_end(src@, i0 + 1));
                assert(i0 + 1 <= j <= n);
            }
            let mut word: Vec<u8> = Vec::new();
            while i < n && ((65 <= src[i] && src[i] <= 90) || (97 <= src[i] && src[i] <= 122) || (48
                <= src[i] && src[i] <= 57) || src[i] == 95)
                invariant
                    n == src@.len(),
                    0 <= i0 <= i <= n,
                    j == word_end(src@, i0),
                    j == word_end(src@, i as int),
                    i as int <= j <= n,
                    word@ =~= src@.subrange(i0, i as int),
                    spec_advance_over(pos0, src@, i0, j) == spec_advance_over(
                        pos,
                        src@,
                        i as int,
                        j,
                    ),
                decreases n - i,
            {
                proof {
                    assert(word_end(src@, i as int) == word_end(src@, i + 1));
                    lemma_word_end_bounds(src@, i + 1);
                }
                word.push(src[i]);
                pos = pos_advance(pos, src[i]);
                i = i + 1;
                proof {
                    assert(word@ =~= src@.subrange(i0, i as int));
                }
            }
            proof {
                assert(word_end(src@, i as int) == i as int);
                assert(j == i as int);
                assert(word@ =~= src@.subrange(i0, j));
                assert(spec_advance_over(pos0, src@, i0, j) == pos);
            }
            let t = keyword_or_name(word);
            push_token(&mut out, t, file_name, pos0, pos);
        } else {
            let p1 = pos_advance(pos, b);
            push_token(&mut out, Token::Unexpected(b), file_name, pos, p1);
            pos = p1;
            i = i + 1;
        }
    }
    proof {
        assert(spec_lex_from(file_name@, src@, i as int, pos) =~= Seq::<
            (SpecToken, SpecLocation),
        >::empty());
        assert(toks_view(out@) =~= spec_lex(file_name@, src@));
    }
    out
}

/// Record one token spanning `start..end`.
fn push_token(
    out: &mut Vec<(Token, LocationData)>,
    t: Token,
    file_name: &Vec<u8>,
    start: Position,
    end: Position,
)
    ensures
        final(out)@.len() == old(out)@.len() + 1,
        toks_view(final(out)@) =~= toks_view(old(out)@) + seq![
            (t@, spec_loc(file_name@, start, end)),
        ],
{
    let loc = LocationData { file_name: crate::errors::bytes_clone(file_name), start, end };
    out.push((t, loc));
    proof {
        assert(toks_view(out@) =~= toks_view(old(out)@) + seq![
            (t@, spec_loc(file_name@, start, end)),
        ]);
    }
}

} // verus!

verus! {

/// Every token the lexer produces carries a location in the lexed file.
pub proof fn lemma_cons_files(
    head: (SpecToken, SpecLocation),
    tail: Seq<(SpecToken, SpecLocation)>,
    file: Seq<u8>,
)
    requires
        head.1.file_name == file,
        forall|k: int| 0 <= k < tail.len() ==> (#[trigger] tail[k]).1.file_name == file,
    ensures
        forall|k: int|
            0 <= k < (seq![head] + tail).len() ==> (#[trigger] (seq![head] + tail)[k]).1.file_name
                == file,
{
    assert forall|k: int| 0 <= k < (seq![head] + tail).len() implies (#[trigger] (seq![head]
        + tail)[k]).1.file_name == file by {
        if k == 0 {
            assert((seq![head] + tail)[0] == head);
        } else {
            assert((seq![head] + tail)[k] == tail[k - 1]);
        }
    }
}

/// Every token the lexer produces carries a location in the lexed file.
pub proof fn lemma_lex_file_names(file: Seq<u8>, src: Seq<u8>, i: int, pos: Position)
    ensures
        forall|k: int|
            0 <= k < spec_lex_from(file, src, i, pos).len() ==> (#[trigger] spec_lex_from(
                file,
                src,
                i,
                pos,
            )[k]).1.file_name == file,
    decreases src.len() - i, 1int,
{
    if i < 0 || i >= src.len() {
    } else {
        let b = src[i];
        let p1 = spec_pos_advance(pos, b);
        let s = spec_lex_from(file, src, i, pos);
        if is_ws(b) {
            lemma_lex_file_names(file, src, i + 1, p1);
            let t = spec_lex_from(file, src, i + 1, p1);
            assert forall|k: int| 0 <= k < s.len() implies (#[trigger] s[k]).1.file_name
                == file by {
                assert(s[k] == t[k]);
            }
        } else if b == 61 || b == 58 || b == 43 || b == 40 || b == 41 || (b == 45 && !(i + 1
            < src.len() && src[i + 1] == 62)) {
            lemma_lex_file_names(file, src, i + 1, p1);
            let t = spec_lex_from(file, src, i + 1, p1);
            assert forall|k: int| 0 <= k < s.len() implies (#[trigger] s[k]).1.file_name
                == file by {
                if k > 0 {
                    assert(s[k] == t[k - 1]);
                }
            }
        } else if b == 45 {
            let p2 = spec_pos_advance(p1, src[i + 1]);
            lemma_lex_file_names(file, src, i + 2, p2);
            let t = spec_lex_from(file, src, i + 2, p2);
            assert forall|k: int| 0 <= k < s.len() implies (#[trigger] s[k]).1.file_name
                == file by {
                if k > 0 {
                    assert(s[k] == t[k - 1]);
                }
            }
        } else if b == 47 && i + 1 < src.len() && src[i + 1] == 47 {
            let p2 = spec_pos_advance(p1, src[i + 1]);
            lemma_skip_comment_file_names(file, src, i + 2, p2);
            let t = spec_skip_comment(file, src, i + 2, p2);
            assert forall|k: int| 0 <= k < s.len() implies (#[trigger] s[k]).1.file_name
                == file by {
                assert(s[k] == t[k]);
            }
        } else if is_digit(b) {
            lemma_digits_end_bounds(src, i + 1);
            let j = digits_end(src, i);
            let p2 = spec_advance_over(pos, src, i, j);
            lemma_lex_file_names(file, src, j, p2);
            let t = spec_lex_from(file, src, j, p2);
            assert forall|k: int| 0 <= k < s.len() implies (#[trigger] s[k]).1.file_name
                == file by {
                if k > 0 {
                    assert(s[k] == t[k - 1]);
                }
            }
        } else if is_alpha(b) {
            lemma_word_end_bounds(src, i + 1);
            let j = word_end(src, i);
            let p2 = spec_advance_over(pos, src, i, j);
            lemma_lex_file_names(file, src, j, p2);
            let t = spec_lex_from(file, src, j, p2);
            assert forall|k: int| 0 <= k < s.len() implies (#[trigger] s[k]).1.file_name
                == file by {
                if k > 0 {
                    assert(s[k] == t[k - 1]);
                }
            }
        } else {
            lemma_lex_file_names(file, src, i + 1, p1);
            let t = spec_lex_from(file, src, i + 1, p1);
            assert forall|k: int| 0 <= k < s.len() implies (#[trigger] s[k]).1.file_name
                == file by {
                if k > 0 {
                    assert(s[k] == t[k - 1]);
                }
            }
        }
    }
}

pub proof fn lemma_skip_comment_file_names(file: Seq<u8>, src: Seq<u8>, i: int, pos: Position)
    ensures
        forall|k: int|
            0 <= k < spec_skip_comment(file, src, i, pos).len() ==> (#[trigger] spec_skip_comment(
                file,
                src,
                i,
                pos,
            )[k]).1.file_name == file,
    decreases src.len() - i, 2int,
{
    let s = spec_skip_comment(file, src, i, pos);
    if i < 0 || i >= src.len() {
    } else if src[i] == 10 {
        lemma_lex_file_names(file, src, i, pos);
        let t = spec_lex_from(file, src, i, pos);
        assert forall|k: int| 0 <= k < s.len() implies (#[trigger] s[k]).1.file_name == file by {
            assert(s[k] == t[k]);
        }
    } else {
        let p2 = spec_pos_advance(pos, src[i]);
        lemma_skip_comment_file_names(file, src, i + 1, p2);
        let t = spec_skip_comment(file, src, i + 1, p2);
        assert forall|k: int| 0 <= k < s.len() implies (#[trigger] s[k]).1.file_name == file by {
            assert(s[k] == t[k]);
        }
    }
}

} // verus!
