//! The lexical grammar, as functions on a byte sequence and offsets into it.
//!
//! Nothing here runs: these functions say which token starts where, and the
//! scanner's contracts are stated over them.
use vstd::prelude::*;
use crate::keyword::keyword_of;
use crate::token::{Lexeme, Tag};

verus! {

/// A decimal digit.
#[verifier::allow_in_spec]
pub fn is_digit(b: u8) -> bool
    returns
        '0' as u8 <= b <= '9' as u8,
{
    '0' as u8 <= b && b <= '9' as u8
}

/// An ASCII letter or an underscore: what an identifier starts with.
#[verifier::allow_in_spec]
pub fn is_identifier_start(b: u8) -> bool
    returns
        'a' as u8 <= b <= 'z' as u8 || 'A' as u8 <= b <= 'Z' as u8 || b == '_' as u8,
{
    ('a' as u8 <= b && b <= 'z' as u8) || ('A' as u8 <= b && b <= 'Z' as u8) || b == '_' as u8
}

/// What an identifier goes on with: a letter, an underscore or a digit.
#[verifier::allow_in_spec]
pub fn is_identifier_part(b: u8) -> bool
    returns
        is_identifier_start(b) || is_digit(b),
{
    is_identifier_start(b) || is_digit(b)
}

/// Whitespace that stays on the line: space, tab, carriage return.
#[verifier::allow_in_spec]
pub fn is_blank(b: u8) -> bool
    returns
        b == ' ' as u8 || b == '\t' as u8 || b == '\r' as u8,
{
    b == ' ' as u8 || b == '\t' as u8 || b == '\r' as u8
}

/// The byte that ends a line.
#[verifier::allow_in_spec]
pub fn is_newline(b: u8) -> bool
    returns
        b == '\n' as u8,
{
    b == '\n' as u8
}

/// The byte at `at`, if `at` is inside `s`.
pub open spec fn byte_at(s: Seq<u8>, at: int) -> Option<u8> {
    if 0 <= at < s.len() {
        Some(s[at])
    } else {
        None
    }
}

/// The number of newline bytes in `s[from..to)`.
pub open spec fn newlines(s: Seq<u8>, from: int, to: int) -> int
    decreases to - from,
{
    if to <= from {
        0
    } else if is_newline(s[to - 1]) {
        newlines(s, from, to - 1) + 1
    } else {
        newlines(s, from, to - 1)
    }
}

/// The end of the longest run of bytes of `class` that starts at `from`.
pub open spec fn run_end(s: Seq<u8>, from: int, class: spec_fn(u8) -> bool) -> int
    decreases s.len() - from,
{
    if 0 <= from < s.len() && class(s[from]) {
        run_end(s, from + 1, class)
    } else {
        from
    }
}

/// The class of decimal digits.
pub open spec fn digits() -> spec_fn(u8) -> bool {
    |b: u8| is_digit(b)
}

/// The class of bytes that an identifier goes on with.
pub open spec fn identifier_parts() -> spec_fn(u8) -> bool {
    |b: u8| is_identifier_part(b)
}

/// The class of bytes that a line comment goes on with: all but the newline.
pub open spec fn comment_parts() -> spec_fn(u8) -> bool {
    |b: u8| !is_newline(b)
}

/// Two slashes stand at `at`.
pub open spec fn starts_comment(s: Seq<u8>, at: int) -> bool {
    byte_at(s, at) == Some('/' as u8) && byte_at(s, at + 1) == Some('/' as u8)
}

/// The end of the line comment that starts at `at`: the offset of the next
/// newline, which is not part of the comment, or the end of `s`.
pub open spec fn comment_end(s: Seq<u8>, at: int) -> int {
    run_end(s, at + 2, comment_parts())
}

/// The offset at which the trivia that starts at `from` ends: whitespace and
/// line comments, in any number and order. A slash that no second slash
/// follows is no trivia.
pub open spec fn trivia_end(s: Seq<u8>, from: int) -> int
    decreases s.len() - from,
    via trivia_end_decreases
{
    if from < 0 || from >= s.len() {
        from
    } else if is_blank(s[from]) || is_newline(s[from]) {
        trivia_end(s, from + 1)
    } else if starts_comment(s, from) {
        trivia_end(s, comment_end(s, from))
    } else {
        from
    }
}

#[via_fn]
proof fn trivia_end_decreases(s: Seq<u8>, from: int) {
    if 0 <= from < s.len() && starts_comment(s, from) {
        lemma_run_end(s, from + 2, comment_parts());
    }
}

/// The end of the number that starts at `start`: a run of digits, and then,
/// if a dot and a digit follow, the dot and a second run of digits.
pub open spec fn number_end(s: Seq<u8>, start: int) -> int {
    let whole = run_end(s, start, digits());
    if has_fraction(s, whole) {
        run_end(s, whole + 1, digits())
    } else {
        whole
    }
}

/// A dot stands at `at` and a digit behind it.
pub open spec fn has_fraction(s: Seq<u8>, at: int) -> bool {
    &&& byte_at(s, at) == Some('.' as u8)
    &&& byte_at(s, at + 1) matches Some(d)
    &&& is_digit(d)
}

/// The end of the identifier or keyword that starts at `start`.
pub open spec fn identifier_end(s: Seq<u8>, start: int) -> int {
    run_end(s, start, identifier_parts())
}

/// The category of a word: that of the keyword it spells, or identifier.
pub open spec fn word_tag(text: Seq<u8>) -> Tag {
    match keyword_of(text) {
        Some(tag) => tag,
        None => Tag::Identifier,
    }
}

/// The category of a punctuation byte.
pub open spec fn punctuation(b: u8) -> Option<Tag> {
    if b == '(' as u8 {
        Some(Tag::LeftParen)
    } else if b == ')' as u8 {
        Some(Tag::RightParen)
    } else if b == '{' as u8 {
        Some(Tag::LeftBrace)
    } else if b == '}' as u8 {
        Some(Tag::RightBrace)
    } else if b == ',' as u8 {
        Some(Tag::Comma)
    } else if b == '.' as u8 {
        Some(Tag::Dot)
    } else if b == '-' as u8 {
        Some(Tag::Minus)
    } else if b == '+' as u8 {
        Some(Tag::Plus)
    } else if b == ';' as u8 {
        Some(Tag::Semicolon)
    } else if b == '*' as u8 {
        Some(Tag::Star)
    } else if b == '/' as u8 {
        Some(Tag::Slash)
    } else {
        None
    }
}

/// The category of the operator that starts with `b`, alone or with an
/// equals sign behind it.
pub open spec fn operator(b: u8, with_equal: bool) -> Option<Tag> {
    if b == '!' as u8 {
        Some(if with_equal { Tag::BangEqual } else { Tag::Bang })
    } else if b == '=' as u8 {
        Some(if with_equal { Tag::EqualEqual } else { Tag::Equal })
    } else if b == '<' as u8 {
        Some(if with_equal { Tag::LessEqual } else { Tag::Less })
    } else if b == '>' as u8 {
        Some(if with_equal { Tag::GreaterEqual } else { Tag::Greater })
    } else {
        None
    }
}

/// The token that starts at `start`, an offset inside `s` at which no trivia
/// starts.
pub open spec fn lexeme_at(s: Seq<u8>, start: int) -> Lexeme {
    let b = s[start];
    if is_digit(b) {
        Lexeme { tag: Tag::Number, start, end: number_end(s, start) }
    } else if is_identifier_start(b) {
        let end = identifier_end(s, start);
        Lexeme { tag: word_tag(s.subrange(start, end)), start, end }
    } else if operator(b, false) is Some {
        let with_equal = byte_at(s, start + 1) == Some('=' as u8);
        Lexeme {
            tag: operator(b, with_equal)->0,
            start,
            end: if with_equal { start + 2 } else { start + 1 },
        }
    } else {
        Lexeme {
            tag: match punctuation(b) {
                Some(tag) => tag,
                None => Tag::Invalid,
            },
            start,
            end: start + 1,
        }
    }
}

/// The token that a scanner at offset `from` produces next: the one behind
/// the trivia, or end-of-input with an empty range where `s` ends there.
pub open spec fn scan(s: Seq<u8>, from: int) -> Lexeme {
    let start = trivia_end(s, from);
    if start >= s.len() {
        Lexeme { tag: Tag::Eof, start, end: start }
    } else {
        lexeme_at(s, start)
    }
}

/// The token stream from offset `from` on: every token up to and including
/// the one end-of-input token.
pub open spec fn lexemes(s: Seq<u8>, from: int) -> Seq<Lexeme>
    decreases s.len() - from,
    via lexemes_decreases
{
    let first = scan(s, from);
    if 0 <= from <= s.len() && first.tag != Tag::Eof {
        seq![first] + lexemes(s, first.end)
    } else {
        seq![first]
    }
}

/// `tokens` follow one another from `from` to the end of `s`: each lies
/// inside `s`, the first starts where the trivia at `from` ends, each next
/// one starts where the trivia behind its predecessor ends, and the last
/// ends where `s` ends. So no two overlap, and nothing lies between two of
/// them but trivia.
pub open spec fn tiles(s: Seq<u8>, from: int, tokens: Seq<Lexeme>) -> bool {
    &&& tokens.len() > 0
    &&& tokens[0].start == trivia_end(s, from)
    &&& forall|k: int|
        0 <= k < tokens.len() ==> from <= (#[trigger] tokens[k]).start <= tokens[k].end <= s.len()
    &&& forall|j: int, k: int|
        0 <= j && k == j + 1 && k < tokens.len() ==> (#[trigger] tokens[k]).start == trivia_end(
            s,
            (#[trigger] tokens[j]).end,
        )
    &&& tokens.last().end == s.len()
}

/// The bytes of `s` from `from` on that `tokens` and the gaps before them
/// hold, put together in order: for each token the gap before it, then the
/// token itself.
pub open spec fn covered(s: Seq<u8>, from: int, tokens: Seq<Lexeme>) -> Seq<u8>
    decreases tokens.len(),
{
    if tokens.len() == 0 {
        Seq::empty()
    } else {
        s.subrange(from, tokens[0].start) + s.subrange(tokens[0].start, tokens[0].end) + covered(
            s,
            tokens[0].end,
            tokens.drop_first(),
        )
    }
}

#[via_fn]
proof fn lexemes_decreases(s: Seq<u8>, from: int) {
    if 0 <= from <= s.len() {
        lemma_scan(s, from);
    }
}

/// A run ends inside the sequence, holds only bytes of its class, and cannot
/// be made longer.
pub proof fn lemma_run_end(s: Seq<u8>, from: int, class: spec_fn(u8) -> bool)
    requires
        0 <= from <= s.len(),
    ensures
        from <= run_end(s, from, class) <= s.len(),
        forall|k: int| from <= k < run_end(s, from, class) ==> class(#[trigger] s[k]),
        byte_at(s, run_end(s, from, class)) matches Some(b) ==> !class(b),
    decreases s.len() - from,
{
    if from < s.len() && class(s[from]) {
        lemma_run_end(s, from + 1, class);
    }
}

/// Trivia ends inside the sequence, and no trivia starts where it ends.
pub proof fn lemma_trivia_end(s: Seq<u8>, from: int)
    requires
        0 <= from <= s.len(),
    ensures
        from <= trivia_end(s, from) <= s.len(),
        trivia_end(s, trivia_end(s, from)) == trivia_end(s, from),
        byte_at(s, trivia_end(s, from)) matches Some(b) ==> !is_blank(b) && !is_newline(b),
        !starts_comment(s, trivia_end(s, from)),
    decreases s.len() - from,
{
    if from < s.len() {
        if is_blank(s[from]) || is_newline(s[from]) {
            lemma_trivia_end(s, from + 1);
        } else if starts_comment(s, from) {
            lemma_run_end(s, from + 2, comment_parts());
            lemma_trivia_end(s, comment_end(s, from));
        }
    }
}

/// Where a token is owed it is not empty and ends inside the sequence; where
/// none is, the end-of-input token stands at the end of the sequence.
pub proof fn lemma_scan(s: Seq<u8>, from: int)
    requires
        0 <= from <= s.len(),
    ensures
        from <= scan(s, from).start <= scan(s, from).end <= s.len(),
        scan(s, from).start == trivia_end(s, from),
        scan(s, from).tag == Tag::Eof <==> scan(s, from).start == s.len(),
        scan(s, from).tag == Tag::Eof <==> scan(s, from).start == scan(s, from).end,
{
    lemma_trivia_end(s, from);
    let start = trivia_end(s, from);
    if start < s.len() {
        let b = s[start];
        if is_digit(b) {
            lemma_run_end(s, start, digits());
            let whole = run_end(s, start, digits());
            if has_fraction(s, whole) {
                lemma_run_end(s, whole + 1, digits());
            }
        } else if is_identifier_start(b) {
            lemma_run_end(s, start, identifier_parts());
            crate::keyword::lemma_keyword_of(s.subrange(start, identifier_end(s, start)));
        }
    }
}

/// A range holds no more newlines than bytes.
pub proof fn lemma_newlines_bound(s: Seq<u8>, from: int, to: int)
    requires
        from <= to,
    ensures
        0 <= newlines(s, from, to) <= to - from,
    decreases to - from,
{
    if from < to {
        lemma_newlines_bound(s, from, to - 1);
    }
}

/// Newline counts add up over adjoining ranges.
pub proof fn lemma_newlines_split(s: Seq<u8>, from: int, mid: int, to: int)
    requires
        from <= mid <= to,
    ensures
        newlines(s, from, to) == newlines(s, from, mid) + newlines(s, mid, to),
    decreases to - mid,
{
    if mid < to {
        lemma_newlines_split(s, from, mid, to - 1);
    }
}

/// The stream from `from` on tiles the rest of the sequence, and its tokens
/// and gaps put together give that rest back.
pub proof fn lemma_lexemes_tile(s: Seq<u8>, from: int)
    requires
        0 <= from <= s.len(),
    ensures
        tiles(s, from, lexemes(s, from)),
        covered(s, from, lexemes(s, from)) == s.subrange(from, s.len() as int),
    decreases s.len() - from,
{
    lemma_scan(s, from);
    let first = scan(s, from);
    let all = lexemes(s, from);
    if first.tag != Tag::Eof {
        let rest = lexemes(s, first.end);
        lemma_lexemes_tile(s, first.end);
        assert(all == seq![first] + rest);
        assert(all.drop_first() == rest);
        assert forall|k: int| 0 <= k < all.len() implies from <= (#[trigger] all[k]).start
            <= all[k].end <= s.len() by {
            if k > 0 {
                assert(all[k] == rest[k - 1]);
            }
        }
        assert forall|j: int, k: int| 0 <= j && k == j + 1 && k < all.len() implies (
        #[trigger] all[k]).start == trivia_end(s, (#[trigger] all[j]).end) by {
            assert(all[k] == rest[k - 1]);
            if j > 0 {
                assert(all[j] == rest[j - 1]);
            }
        }
        assert(all.last() == rest.last());
        assert(covered(s, from, all) == s.subrange(from, s.len() as int));
    } else {
        assert(all == seq![first]);
        assert(covered(s, first.end, all.drop_first()) == Seq::<u8>::empty());
        assert(covered(s, from, all) == s.subrange(from, s.len() as int));
    }
}

/// The stream from `from` on holds one token for each byte at most, and one
/// more; only its last token is end-of-input.
pub proof fn lemma_lexemes_end(s: Seq<u8>, from: int)
    requires
        0 <= from <= s.len(),
    ensures
        1 <= lexemes(s, from).len() <= s.len() - from + 1,
        forall|k: int|
            0 <= k < lexemes(s, from).len() ==> ((#[trigger] lexemes(s, from)[k]).tag == Tag::Eof
                <==> k == lexemes(s, from).len() - 1),
    decreases s.len() - from,
{
    lemma_scan(s, from);
    let first = scan(s, from);
    let all = lexemes(s, from);
    if first.tag != Tag::Eof {
        let rest = lexemes(s, first.end);
        lemma_lexemes_end(s, first.end);
        assert(all == seq![first] + rest);
        assert forall|k: int| 0 <= k < all.len() implies ((#[trigger] all[k]).tag == Tag::Eof
            <==> k == all.len() - 1) by {
            if k > 0 {
                assert(all[k] == rest[k - 1]);
            }
        }
    }
}

} // verus!
