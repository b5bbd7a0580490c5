//! The scanner: a cursor over a borrowed buffer that produces one token per
//! call.
use vstd::prelude::*;
use crate::grammar::{
    byte_at, comment_end, comment_parts, digits, has_fraction, identifier_end, identifier_parts,
    is_blank, is_digit, is_identifier_part, is_identifier_start, is_newline, lemma_newlines_bound,
    lemma_newlines_split, lemma_run_end, lemma_scan, lexeme_at, lexemes, newlines, number_end,
    run_end, scan, starts_comment, trivia_end,
};
use crate::token::{lexemes_of, Lexeme, Loc, Tag, Token};

verus! {

/// What a scanner is to its contracts: the buffer it reads, the offset it
/// has read up to, and the line that offset is on.
pub struct Cursor {
    pub buffer: Seq<u8>,
    pub offset: int,
    pub line: int,
}

impl Cursor {
    /// The offset lies inside the buffer or at its end, and the line is one
    /// more than the number of newlines before the offset.
    pub open spec fn well_formed(self) -> bool {
        &&& 0 <= self.offset <= self.buffer.len()
        &&& self.line == 1 + newlines(self.buffer, 0, self.offset)
    }

    /// The well-formed cursor over the same buffer at `offset`.
    pub open spec fn moved_to(self, offset: int) -> Cursor {
        Cursor { buffer: self.buffer, offset, line: 1 + newlines(self.buffer, 0, offset) }
    }
}

/// A scanner over a borrowed byte buffer.
pub struct Tokenizer<'a> {
    buffer: &'a [u8],
    index: usize,
    line: usize,
}

impl<'a> View for Tokenizer<'a> {
    type V = Cursor;

    closed spec fn view(&self) -> Cursor {
        Cursor { buffer: self.buffer@, offset: self.index as int, line: self.line as int }
    }
}

impl<'a> Tokenizer<'a> {
    #[verifier::type_invariant]
    spec fn consistent(&self) -> bool {
        &&& self@.well_formed()
        &&& self.buffer@.len() < usize::MAX
    }

    /// A scanner at the start of `buffer`, on line 1.
    ///
    /// The bound on the length keeps the line counter inside `usize`. Every
    /// slice meets it: none is longer than `isize::MAX` bytes.
    pub fn new(buffer: &'a [u8]) -> (tokenizer: Self)
        requires
            buffer@.len() < usize::MAX,
        ensures
            tokenizer@ == (Cursor { buffer: buffer@, offset: 0, line: 1 }),
            tokenizer@.well_formed(),
    {
        Tokenizer { buffer, index: 0, line: 1 }
    }

    /// The line that the scanner is on, counted from 1.
    pub fn line(&self) -> (line: usize)
        ensures
            line == self@.line,
            self@.well_formed(),
    {
        proof {
            use_type_invariant(self);
        }
        self.line
    }

    /// The offset that the scanner has read up to.
    pub fn offset(&self) -> (offset: usize)
        ensures
            offset == self@.offset,
            self@.well_formed(),
    {
        proof {
            use_type_invariant(self);
        }
        self.index
    }

    /// The byte `offset` places after the current one, if the buffer
    /// reaches that far.
    fn peek_offset(&self, offset: usize) -> (b: Option<u8>)
        ensures
            b == byte_at(self@.buffer, self@.offset + offset),
    {
        proof {
            use_type_invariant(self);
        }
        if offset < self.buffer.len() - self.index {
            Some(self.buffer[self.index + offset])
        } else {
            None
        }
    }

    /// The byte at the current offset, if there is one.
    fn peek(&self) -> (b: Option<u8>)
        ensures
            b == byte_at(self@.buffer, self@.offset),
    {
        self.peek_offset(0)
    }

    /// The byte after the current one, if there is one.
    fn peek_next(&self) -> (b: Option<u8>)
        ensures
            b == byte_at(self@.buffer, self@.offset + 1),
    {
        self.peek_offset(1)
    }

    /// The byte at the current offset, which lies inside the buffer.
    fn current_char(&self) -> (b: u8)
        requires
            self@.offset < self@.buffer.len(),
        ensures
            b == self@.buffer[self@.offset],
    {
        proof {
            use_type_invariant(self);
        }
        self.buffer[self.index]
    }

    /// Consumes one byte, and counts the line if it is a newline.
    fn advance(&mut self)
        requires
            old(self)@.offset < old(self)@.buffer.len(),
        ensures
            final(self)@ == old(self)@.moved_to(old(self)@.offset + 1),
    {
        proof {
            use_type_invariant(&*self);
            lemma_newlines_bound(self@.buffer, 0, self@.offset);
        }
        let line: usize = if is_newline(self.current_char()) {
            self.line + 1
        } else {
            self.line
        };
        *self = Tokenizer { buffer: self.buffer, index: self.index + 1, line };
    }

    /// Consumes the current byte if it is `expected`.
    fn match_char(&mut self, expected: u8) -> (matched: bool)
        ensures
            matched == (byte_at(old(self)@.buffer, old(self)@.offset) == Some(expected)),
            final(self)@ == if matched {
                old(self)@.moved_to(old(self)@.offset + 1)
            } else {
                old(self)@
            },
    {
        match self.peek() {
            Some(b) => {
                if b == expected {
                    self.advance();
                    true
                } else {
                    false
                }
            },
            None => false,
        }
    }

    /// Consumes a line comment, whose two slashes stand at the current
    /// offset, up to the newline that ends it or to the end of the buffer.
    /// The newline itself is left in place.
    fn skip_line_comment(&mut self)
        requires
            starts_comment(old(self)@.buffer, old(self)@.offset),
        ensures
            final(self)@ == old(self)@.moved_to(
                comment_end(old(self)@.buffer, old(self)@.offset),
            ),
    {
        self.advance();
        self.advance();
        loop
            invariant
                self@ == old(self)@.moved_to(self@.offset),
                old(self)@.offset + 2 <= self@.offset <= self@.buffer.len(),
                run_end(self@.buffer, self@.offset, comment_parts()) == comment_end(
                    old(self)@.buffer,
                    old(self)@.offset,
                ),
            ensures
                run_end(self@.buffer, self@.offset, comment_parts()) == self@.offset,
            decreases self@.buffer.len() - self@.offset,
        {
            match self.peek() {
                Some(b) => {
                    if is_newline(b) {
                        break ;
                    }
                    self.advance();
                },
                None => {
                    break ;
                },
            }
        }
    }

    /// Consumes whitespace and line comments up to the next byte that
    /// belongs to a token, or to the end of the buffer.
    fn skip_whitespace(&mut self)
        ensures
            final(self)@ == old(self)@.moved_to(
                trivia_end(old(self)@.buffer, old(self)@.offset),
            ),
    {
        proof {
            use_type_invariant(&*self);
        }
        loop
            invariant
                self@ == old(self)@.moved_to(self@.offset),
                old(self)@.offset <= self@.offset <= self@.buffer.len(),
                trivia_end(self@.buffer, self@.offset) == trivia_end(
                    old(self)@.buffer,
                    old(self)@.offset,
                ),
            ensures
                trivia_end(self@.buffer, self@.offset) == self@.offset,
            decreases self@.buffer.len() - self@.offset,
        {
            match self.peek() {
                Some(b) => {
                    if is_blank(b) || is_newline(b) {
                        self.advance();
                    } else if b == '/' as u8 && self.match_next('/' as u8) {
                        proof {
                            lemma_run_end(self@.buffer, self@.offset + 2, comment_parts());
                        }
                        self.skip_line_comment();
                    } else {
                        break ;
                    }
                },
                None => {
                    break ;
                },
            }
        }
    }

    /// Whether the byte after the current one is `expected`.
    fn match_next(&self, expected: u8) -> (matched: bool)
        ensures
            matched == (byte_at(self@.buffer, self@.offset + 1) == Some(expected)),
    {
        match self.peek_next() {
            Some(b) => b == expected,
            None => false,
        }
    }

    /// Consumes the longest run of digits at the current offset.
    fn skip_digits(&mut self)
        ensures
            final(self)@ == old(self)@.moved_to(
                run_end(old(self)@.buffer, old(self)@.offset, digits()),
            ),
    {
        proof {
            use_type_invariant(&*self);
        }
        loop
            invariant
                self@ == old(self)@.moved_to(self@.offset),
                old(self)@.offset <= self@.offset <= self@.buffer.len(),
                run_end(self@.buffer, self@.offset, digits()) == run_end(
                    old(self)@.buffer,
                    old(self)@.offset,
                    digits(),
                ),
            ensures
                run_end(self@.buffer, self@.offset, digits()) == self@.offset,
            decreases self@.buffer.len() - self@.offset,
        {
            match self.peek() {
                Some(b) => {
                    if !is_digit(b) {
                        break ;
                    }
                    self.advance();
                },
                None => {
                    break ;
                },
            }
        }
    }

    /// Scans the number that starts at `start`, the current offset.
    fn number(&mut self, start: usize) -> (token: Option<Token>)
        requires
            old(self)@.offset == start,
            byte_at(old(self)@.buffer, start as int) matches Some(b) && is_digit(b),
        ensures
            final(self)@ == old(self)@.moved_to(number_end(old(self)@.buffer, start as int)),
            token matches Some(t) && t@ == lexeme_at(old(self)@.buffer, start as int),
    {
        self.skip_digits();
        // A dot belongs to the number only if a digit follows it.
        if self.match_dot_digit() {
            self.advance();
            self.skip_digits();
        }
        proof {
            use_type_invariant(&*self);
        }
        Some(Token { tag: Tag::Number, loc: Loc { start, end: self.index } })
    }

    /// Whether a dot stands at the current offset and a digit behind it.
    fn match_dot_digit(&self) -> (matched: bool)
        ensures
            matched == has_fraction(self@.buffer, self@.offset),
    {
        match self.peek() {
            Some(b) => {
                b == '.' as u8 && match self.peek_next() {
                    Some(d) => is_digit(d),
                    None => false,
                }
            },
            None => false,
        }
    }

    /// Scans the identifier or keyword that starts at `start`, the current
    /// offset.
    fn identifier(&mut self, start: usize) -> (token: Option<Token>)
        requires
            old(self)@.offset == start,
            byte_at(old(self)@.buffer, start as int) matches Some(b) && is_identifier_start(b),
        ensures
            final(self)@ == old(self)@.moved_to(identifier_end(old(self)@.buffer, start as int)),
            token matches Some(t) && t@ == lexeme_at(old(self)@.buffer, start as int),
    {
        proof {
            use_type_invariant(&*self);
        }
        loop
            invariant
                self@ == old(self)@.moved_to(self@.offset),
                start <= self@.offset <= self@.buffer.len(),
                run_end(self@.buffer, self@.offset, identifier_parts()) == identifier_end(
                    old(self)@.buffer,
                    start as int,
                ),
            ensures
                run_end(self@.buffer, self@.offset, identifier_parts()) == self@.offset,
            decreases self@.buffer.len() - self@.offset,
        {
            match self.peek() {
                Some(b) => {
                    if !is_identifier_part(b) {
                        break ;
                    }
                    self.advance();
                },
                None => {
                    break ;
                },
            }
        }
        proof {
            use_type_invariant(&*self);
        }
        let text = &self.buffer[start..self.index];
        let tag = match Tag::from_keyword(text) {
            Some(keyword) => keyword,
            None => Tag::Identifier,
        };
        Some(Token { tag, loc: Loc { start, end: self.index } })
    }

    /// Skips the trivia at the current offset and scans the token behind it.
    ///
    /// The result is always `Some`, and is the token that the grammar puts
    /// at the scanner's offset; the scanner ends up where that token ends.
    /// A byte that starts no token is consumed and comes back as an invalid
    /// token of that one byte. Every token but end-of-input moves the
    /// scanner on. At the end of the buffer the result is the end-of-input
    /// token, with an empty range there, on every call, and the scanner
    /// stays as it is. The line counter grows by the newlines passed.
    pub fn next_token(&mut self) -> (token: Option<Token>)
        ensures
            token matches Some(t) && t@ == scan(old(self)@.buffer, old(self)@.offset),
            final(self)@ == old(self)@.moved_to(scan(old(self)@.buffer, old(self)@.offset).end),
            final(self)@.well_formed(),
            ({
                let before = old(self)@;
                let after = final(self)@;
                let lexeme = scan(before.buffer, before.offset);
                &&& lexeme.tag != Tag::Eof ==> before.offset < after.offset
                &&& lexeme.tag == Tag::Eof ==> after.offset == before.buffer.len()
                &&& before.offset == before.buffer.len() ==> after == before && lexeme == (Lexeme {
                    tag: Tag::Eof,
                    start: before.offset,
                    end: before.offset,
                })
                &&& after.line == before.line + newlines(before.buffer, before.offset, after.offset)
            }),
    {
        proof {
            use_type_invariant(&*self);
            lemma_scan(old(self)@.buffer, old(self)@.offset);
            lemma_newlines_split(
                old(self)@.buffer,
                0,
                old(self)@.offset,
                scan(old(self)@.buffer, old(self)@.offset).end,
            );
        }
        self.skip_whitespace();
        proof {
            use_type_invariant(&*self);
        }
        if self.index >= self.buffer.len() {
            return Some(Token { tag: Tag::Eof, loc: Loc { start: self.index, end: self.index } });
        }
        let start = self.index;
        let c = self.current_char();
        if is_digit(c) {
            return self.number(start);
        }
        if is_identifier_start(c) {
            return self.identifier(start);
        }
        self.advance();
        let tag = if c == '(' as u8 {
            Tag::LeftParen
        } else if c == ')' as u8 {
            Tag::RightParen
        } else if c == '{' as u8 {
            Tag::LeftBrace
        } else if c == '}' as u8 {
            Tag::RightBrace
        } else if c == ',' as u8 {
            Tag::Comma
        } else if c == '.' as u8 {
            Tag::Dot
        } else if c == '-' as u8 {
            Tag::Minus
        } else if c == '+' as u8 {
            Tag::Plus
        } else if c == ';' as u8 {
            Tag::Semicolon
        } else if c == '*' as u8 {
            Tag::Star
        } else if c == '/' as u8 {
            Tag::Slash
        } else if c == '!' as u8 {
            if self.match_char('=' as u8) {
                Tag::BangEqual
            } else {
                Tag::Bang
            }
        } else if c == '=' as u8 {
            if self.match_char('=' as u8) {
                Tag::EqualEqual
            } else {
                Tag::Equal
            }
        } else if c == '<' as u8 {
            if self.match_char('=' as u8) {
                Tag::LessEqual
            } else {
                Tag::Less
            }
        } else if c == '>' as u8 {
            if self.match_char('=' as u8) {
                Tag::GreaterEqual
            } else {
                Tag::Greater
            }
        } else {
            Tag::Invalid
        };
        Some(Token { tag, loc: Loc { start, end: self.index } })
    }
}

/// Scans all of `buffer`: every token up to and including the one
/// end-of-input token, in order.
///
/// The bound on the length is that of [`Tokenizer::new`].
pub fn tokenize(buffer: &[u8]) -> (tokens: Vec<Token>)
    requires
        buffer@.len() < usize::MAX,
    ensures
        lexemes_of(tokens@) == lexemes(buffer@, 0),
        tokens.len() <= buffer@.len() + 1,
{
    let mut tokenizer = Tokenizer::new(buffer);
    let mut tokens: Vec<Token> = Vec::new();
    loop
        invariant_except_break
            tokens.len() <= tokenizer@.offset,
            lexemes_of(tokens@) + lexemes(buffer@, tokenizer@.offset) == lexemes(buffer@, 0),
        invariant
            tokenizer@.buffer == buffer@,
            tokenizer@.well_formed(),
        ensures
            lexemes_of(tokens@) == lexemes(buffer@, 0),
            tokens.len() <= buffer@.len() + 1,
        decreases buffer@.len() - tokenizer@.offset,
    {
        let ghost from = tokenizer@.offset;
        let ghost before = tokens@;
        proof {
            lemma_scan(buffer@, from);
        }
        match tokenizer.next_token() {
            Some(token) => {
                let at_end = token.tag == Tag::Eof;
                tokens.push(token);
                proof {
                    assert(lexemes_of(tokens@) == lexemes_of(before) + seq![token@]);
                    if at_end {
                        assert(lexemes(buffer@, from) == seq![token@]);
                    } else {
                        assert(lexemes(buffer@, from) == seq![token@] + lexemes(
                            buffer@,
                            token@.end,
                        ));
                        assert(lexemes_of(tokens@) + lexemes(buffer@, token@.end) == lexemes_of(
                            before,
                        ) + lexemes(buffer@, from));
                    }
                }
                if at_end {
                    break ;
                }
            },
            None => {
                break ;
            },
        }
    }
    tokens
}

} // verus!
