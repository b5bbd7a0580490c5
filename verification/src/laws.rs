//! What holds of every buffer, stated over the grammar and proved from it.
use vstd::prelude::*;
use vstd::string::StringSliceAdditionalSpecFns;
use crate::grammar::{
    byte_at, covered, digits, has_fraction, identifier_end, identifier_parts, is_digit,
    is_identifier_part, is_identifier_start, lemma_lexemes_end, lemma_lexemes_tile, lemma_run_end,
    lemma_scan, lexeme_at, lexemes, run_end, scan, tiles, trivia_end,
};
use crate::keyword::{keyword_of, lemma_keyword_of};
use crate::token::{Lexeme, Tag};

verus! {

/// The tokens of a buffer and the trivia skipped before each of them cover
/// the buffer exactly once: the first token starts where the leading trivia
/// ends, each next one where the trivia behind its predecessor ends, the
/// last one ends where the buffer ends, and all these pieces put together
/// in order are the buffer.
pub proof fn lemma_tokens_cover_buffer(s: Seq<u8>)
    ensures
        tiles(s, 0, lexemes(s, 0)),
        covered(s, 0, lexemes(s, 0)) == s,
{
    lemma_lexemes_tile(s, 0);
    assert(s.subrange(0, s.len() as int) == s);
}

/// Scanning ends: the stream of a buffer holds at most one token for each
/// byte and the end-of-input token, which comes last and only there.
pub proof fn lemma_stream_is_finite(s: Seq<u8>)
    ensures
        1 <= lexemes(s, 0).len() <= s.len() + 1,
        forall|k: int|
            0 <= k < lexemes(s, 0).len() ==> ((#[trigger] lexemes(s, 0)[k]).tag == Tag::Eof <==> k
                == lexemes(s, 0).len() - 1),
{
    lemma_lexemes_end(s, 0);
}

/// Every token but end-of-input holds a byte at least, so each call moves
/// the scanner on. End-of-input is returned only with the scanner at the end
/// of the buffer, and from there every further call returns it again and
/// leaves the scanner where it is.
pub proof fn lemma_end_of_input_repeats(s: Seq<u8>, from: int)
    requires
        0 <= from <= s.len(),
    ensures
        scan(s, from).tag != Tag::Eof ==> from < scan(s, from).end,
        scan(s, from).tag == Tag::Eof ==> scan(s, from).end == s.len(),
        scan(s, s.len() as int) == (Lexeme {
            tag: Tag::Eof,
            start: s.len() as int,
            end: s.len() as int,
        }),
{
    lemma_scan(s, from);
}

/// A token that starts with a letter or an underscore is a keyword exactly
/// if its text, byte for byte, is the reserved word of a keyword category,
/// and then it has that category. Every other such token is an identifier.
pub proof fn lemma_keyword_exactness(s: Seq<u8>, start: int)
    requires
        0 <= start < s.len(),
        is_identifier_start(s[start]),
    ensures
        ({
            let token = lexeme_at(s, start);
            let text = s.subrange(start, token.end);
            &&& token.start == start
            &&& token.end == identifier_end(s, start)
            &&& start < token.end <= s.len()
            &&& forall|k: int| start <= k < token.end ==> is_identifier_part(#[trigger] s[k])
            &&& byte_at(s, token.end) matches Some(b) ==> !is_identifier_part(b)
            &&& token.tag.is_keyword() <==> exists|tag: Tag|
                tag.is_keyword() && tag.spelling() == text
            &&& token.tag.is_keyword() ==> token.tag.spelling() == text
            &&& !token.tag.is_keyword() ==> token.tag == Tag::Identifier
        }),
{
    lemma_run_end(s, start, identifier_parts());
    let token = lexeme_at(s, start);
    let text = s.subrange(start, token.end);
    lemma_keyword_of(text);
    if exists|tag: Tag| tag.is_keyword() && tag.spelling() == text {
        let tag = choose|tag: Tag| tag.is_keyword() && tag.spelling() == text;
        lemma_reserved_word_is_found(tag);
    }
}

/// The sixteen reserved words, byte for byte.
pub proof fn lemma_spellings()
    ensures
        Tag::KeywordAnd.spelling() == seq!['a' as u8, 'n' as u8, 'd' as u8],
        Tag::KeywordClass.spelling() == seq![
            'c' as u8,
            'l' as u8,
            'a' as u8,
            's' as u8,
            's' as u8,
        ],
        Tag::KeywordElse.spelling() == seq!['e' as u8, 'l' as u8, 's' as u8, 'e' as u8],
        Tag::KeywordFalse.spelling() == seq![
            'f' as u8,
            'a' as u8,
            'l' as u8,
            's' as u8,
            'e' as u8,
        ],
        Tag::KeywordFun.spelling() == seq!['f' as u8, 'u' as u8, 'n' as u8],
        Tag::KeywordFor.spelling() == seq!['f' as u8, 'o' as u8, 'r' as u8],
        Tag::KeywordIf.spelling() == seq!['i' as u8, 'f' as u8],
        Tag::KeywordNil.spelling() == seq!['n' as u8, 'i' as u8, 'l' as u8],
        Tag::KeywordOr.spelling() == seq!['o' as u8, 'r' as u8],
        Tag::KeywordPrint.spelling() == seq![
            'p' as u8,
            'r' as u8,
            'i' as u8,
            'n' as u8,
            't' as u8,
        ],
        Tag::KeywordReturn.spelling() == seq![
            'r' as u8,
            'e' as u8,
            't' as u8,
            'u' as u8,
            'r' as u8,
            'n' as u8,
        ],
        Tag::KeywordSuper.spelling() == seq![
            's' as u8,
            'u' as u8,
            'p' as u8,
            'e' as u8,
            'r' as u8,
        ],
        Tag::KeywordThis.spelling() == seq!['t' as u8, 'h' as u8, 'i' as u8, 's' as u8],
        Tag::KeywordTrue.spelling() == seq!['t' as u8, 'r' as u8, 'u' as u8, 'e' as u8],
        Tag::KeywordVar.spelling() == seq!['v' as u8, 'a' as u8, 'r' as u8],
        Tag::KeywordWhile.spelling() == seq![
            'w' as u8,
            'h' as u8,
            'i' as u8,
            'l' as u8,
            'e' as u8,
        ],
{
    lemma_literal_bytes("and");
    lemma_literal_bytes("class");
    lemma_literal_bytes("else");
    lemma_literal_bytes("false");
    lemma_literal_bytes("fun");
    lemma_literal_bytes("for");
    lemma_literal_bytes("if");
    lemma_literal_bytes("nil");
    lemma_literal_bytes("or");
    lemma_literal_bytes("print");
    lemma_literal_bytes("return");
    lemma_literal_bytes("super");
    lemma_literal_bytes("this");
    lemma_literal_bytes("true");
    lemma_literal_bytes("var");
    lemma_literal_bytes("while");
    reveal_strlit("and");
    reveal_strlit("class");
    reveal_strlit("else");
    reveal_strlit("false");
    reveal_strlit("fun");
    reveal_strlit("for");
    reveal_strlit("if");
    reveal_strlit("nil");
    reveal_strlit("or");
    reveal_strlit("print");
    reveal_strlit("return");
    reveal_strlit("super");
    reveal_strlit("this");
    reveal_strlit("true");
    reveal_strlit("var");
    reveal_strlit("while");
}

/// The bytes of an ASCII text are its characters, one byte each.
proof fn lemma_literal_bytes(text: &str)
    ensures
        vstd::string::is_ascii(text) ==> text.spec_bytes() == Seq::new(
            text@.len(),
            |i: int| text@[i] as u8,
        ),
{
    vstd::string::is_ascii_spec_bytes(text);
}

/// Each reserved word is found, and stands for its own category: no two
/// categories share a word.
pub proof fn lemma_reserved_word_is_found(tag: Tag)
    requires
        tag.is_keyword(),
    ensures
        keyword_of(tag.spelling()) == Some(tag),
{
    lemma_spellings();
}

/// A number is digits with at most one dot among them. It starts and ends
/// with a digit, so a dot that no digit follows stays outside; and no digit
/// follows the number.
pub proof fn lemma_number_shape(s: Seq<u8>, start: int)
    requires
        0 <= start < s.len(),
        is_digit(s[start]),
    ensures
        ({
            let token = lexeme_at(s, start);
            let whole = run_end(s, start, digits());
            &&& token.tag == Tag::Number
            &&& token.start == start < whole <= token.end <= s.len()
            &&& forall|k: int| start <= k < whole ==> is_digit(#[trigger] s[k])
            &&& forall|k: int| whole < k < token.end ==> is_digit(#[trigger] s[k])
            &&& whole < token.end ==> s[whole] == '.' as u8 && whole + 1 < token.end
            &&& is_digit(s[token.end - 1])
            &&& byte_at(s, token.end) matches Some(b) ==> !is_digit(b)
            &&& whole == token.end <==> !has_fraction(s, whole)
        }),
{
    lemma_run_end(s, start, digits());
    let whole = run_end(s, start, digits());
    if has_fraction(s, whole) {
        lemma_run_end(s, whole + 1, digits());
    }
}

/// No token is of the string category: the grammar has no rule for quoted
/// text.
pub proof fn lemma_no_string_token(s: Seq<u8>, from: int)
    requires
        0 <= from <= s.len(),
    ensures
        scan(s, from).tag != Tag::String,
{
    lemma_scan(s, from);
    let start = trivia_end(s, from);
    if start < s.len() && is_identifier_start(s[start]) {
        lemma_keyword_of(s.subrange(start, identifier_end(s, start)));
    }
}

/// An operator byte takes the equals sign behind it: `!=`, `==`, `<=` and
/// `>=` are one token of two bytes each. With any other byte behind it, or
/// none, the operator byte is a token by itself.
pub proof fn lemma_operators_are_greedy(s: Seq<u8>, start: int)
    requires
        0 <= start < s.len(),
        s[start] == '!' as u8 || s[start] == '=' as u8 || s[start] == '<' as u8 || s[start]
            == '>' as u8,
    ensures
        scan(s, start).start == start,
        byte_at(s, start + 1) == Some('=' as u8) ==> {
            &&& scan(s, start).end == start + 2
            &&& s[start] == '!' as u8 ==> scan(s, start).tag == Tag::BangEqual
            &&& s[start] == '=' as u8 ==> scan(s, start).tag == Tag::EqualEqual
            &&& s[start] == '<' as u8 ==> scan(s, start).tag == Tag::LessEqual
            &&& s[start] == '>' as u8 ==> scan(s, start).tag == Tag::GreaterEqual
        },
        byte_at(s, start + 1) != Some('=' as u8) ==> {
            &&& scan(s, start).end == start + 1
            &&& s[start] == '!' as u8 ==> scan(s, start).tag == Tag::Bang
            &&& s[start] == '=' as u8 ==> scan(s, start).tag == Tag::Equal
            &&& s[start] == '<' as u8 ==> scan(s, start).tag == Tag::Less
            &&& s[start] == '>' as u8 ==> scan(s, start).tag == Tag::Greater
        },
{
}

} // verus!
