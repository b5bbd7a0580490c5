use lexer::{tokenize, Loc, Tag, Token};

fn token(tag: Tag, start: usize, end: usize) -> Token {
    Token { tag, loc: Loc { start, end } }
}

fn reserved() -> Vec<(&'static [u8], Tag)> {
    vec![
        (&b"and"[..], Tag::KeywordAnd),
        (&b"class"[..], Tag::KeywordClass),
        (&b"else"[..], Tag::KeywordElse),
        (&b"false"[..], Tag::KeywordFalse),
        (&b"fun"[..], Tag::KeywordFun),
        (&b"for"[..], Tag::KeywordFor),
        (&b"if"[..], Tag::KeywordIf),
        (&b"nil"[..], Tag::KeywordNil),
        (&b"or"[..], Tag::KeywordOr),
        (&b"print"[..], Tag::KeywordPrint),
        (&b"return"[..], Tag::KeywordReturn),
        (&b"super"[..], Tag::KeywordSuper),
        (&b"this"[..], Tag::KeywordThis),
        (&b"true"[..], Tag::KeywordTrue),
        (&b"var"[..], Tag::KeywordVar),
        (&b"while"[..], Tag::KeywordWhile),
    ]
}

#[test]
fn every_reserved_word_is_found() {
    for (word, tag) in reserved() {
        assert_eq!(Tag::from_keyword(word), Some(tag));
    }
}

#[test]
fn every_reserved_word_scans_as_its_keyword() {
    for (word, tag) in reserved() {
        assert_eq!(
            tokenize(word),
            vec![token(tag, 0, word.len()), token(Tag::Eof, word.len(), word.len())]
        );
    }
}

#[test]
fn reserved_words_are_case_sensitive() {
    assert_eq!(Tag::from_keyword(b"Class"), None);
    assert_eq!(Tag::from_keyword(b"CLASS"), None);
    assert_eq!(Tag::from_keyword(b"classS"), None);
    assert_eq!(
        tokenize(b"Class"),
        vec![token(Tag::Identifier, 0, 5), token(Tag::Eof, 5, 5)]
    );
    for (word, _) in reserved() {
        let upper = word.to_ascii_uppercase();
        assert_eq!(Tag::from_keyword(&upper), None);
        assert_eq!(
            tokenize(&upper),
            vec![token(Tag::Identifier, 0, word.len()), token(Tag::Eof, word.len(), word.len())]
        );
        let mut capital = word.to_vec();
        capital[0] = capital[0].to_ascii_uppercase();
        assert_eq!(Tag::from_keyword(&capital), None);
    }
}

#[test]
fn reserved_words_match_whole_tokens_only() {
    for (word, _) in reserved() {
        let mut longer = word.to_vec();
        longer.push(b'y');
        assert_eq!(Tag::from_keyword(&longer), None);
        assert_eq!(
            tokenize(&longer),
            vec![
                token(Tag::Identifier, 0, longer.len()),
                token(Tag::Eof, longer.len(), longer.len()),
            ]
        );
        let mut numbered = word.to_vec();
        numbered.push(b'1');
        assert_eq!(tokenize(&numbered)[0], token(Tag::Identifier, 0, numbered.len()));
        let mut led = vec![b'_'];
        led.extend_from_slice(word);
        assert_eq!(tokenize(&led)[0], token(Tag::Identifier, 0, led.len()));
        let shorter = &word[..word.len() - 1];
        assert_eq!(Tag::from_keyword(shorter), None);
    }
}

#[test]
fn other_text_is_no_keyword() {
    assert_eq!(Tag::from_keyword(b""), None);
    assert_eq!(Tag::from_keyword(b"x"), None);
    assert_eq!(Tag::from_keyword(b"fu"), None);
    assert_eq!(Tag::from_keyword(b"fon"), None);
    assert_eq!(Tag::from_keyword(b"fur"), None);
    assert_eq!(Tag::from_keyword(b"and "), None);
    assert_eq!(Tag::from_keyword(b" and"), None);
    assert_eq!(Tag::from_keyword(b"an\0"), None);
    assert_eq!(Tag::from_keyword(b"function"), None);
}

#[test]
fn keywords_end_where_the_word_ends() {
    assert_eq!(
        tokenize(b"if(x)"),
        vec![
            token(Tag::KeywordIf, 0, 2),
            token(Tag::LeftParen, 2, 3),
            token(Tag::Identifier, 3, 4),
            token(Tag::RightParen, 4, 5),
            token(Tag::Eof, 5, 5),
        ]
    );
    assert_eq!(
        tokenize(b"nil.or"),
        vec![
            token(Tag::KeywordNil, 0, 3),
            token(Tag::Dot, 3, 4),
            token(Tag::KeywordOr, 4, 6),
            token(Tag::Eof, 6, 6),
        ]
    );
}
