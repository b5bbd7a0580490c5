use lexer::{Tag, Tokenizer};

#[test]
fn naive_zig_like_test_all_features() {
    let source = b"class Test { fun main() { var x = 42.5; if (x != 0) { return true; } } }";
    let mut tokenizer = Tokenizer::new(source);
    let expected_tags = vec![
        Tag::KeywordClass,
        Tag::Identifier,
        Tag::LeftBrace,
        Tag::KeywordFun,
        Tag::Identifier,
        Tag::LeftParen,
        Tag::RightParen,
        Tag::LeftBrace,
        Tag::KeywordVar,
        Tag::Identifier,
        Tag::Equal,
        Tag::Number,
        Tag::Semicolon,
        Tag::KeywordIf,
        Tag::LeftParen,
        Tag::Identifier,
        Tag::BangEqual,
        Tag::Number,
        Tag::RightParen,
        Tag::LeftBrace,
        Tag::KeywordReturn,
        Tag::KeywordTrue,
        Tag::Semicolon,
        Tag::RightBrace,
        Tag::RightBrace,
        Tag::RightBrace,
    ];

    for expected_tag in expected_tags {
        if let Some(token) = tokenizer.next_token() {
            assert_eq!(token.tag, expected_tag);
        }
    }
}

#[test]
fn with_opt_intermediate_zero_copy_test_all_features() {
    let source = b"class Test { fun main() { var x = 42.5; if (x != 0) { return true; } } }";
    let mut tokenizer = Tokenizer::new(source);
    let expected_tags = vec![
        Tag::KeywordClass,
        Tag::Identifier,
        Tag::LeftBrace,
        Tag::KeywordFun,
        Tag::Identifier,
        Tag::LeftParen,
        Tag::RightParen,
        Tag::LeftBrace,
        Tag::KeywordVar,
        Tag::Identifier,
        Tag::Equal,
        Tag::Number,
        Tag::Semicolon,
        Tag::KeywordIf,
        Tag::LeftParen,
        Tag::Identifier,
        Tag::BangEqual,
        Tag::Number,
        Tag::RightParen,
        Tag::LeftBrace,
        Tag::KeywordReturn,
        Tag::KeywordTrue,
        Tag::Semicolon,
        Tag::RightBrace,
        Tag::RightBrace,
        Tag::RightBrace,
    ];

    for expected_tag in expected_tags {
        if let Some(token) = tokenizer.next_token() {
            assert_eq!(token.tag, expected_tag);
        }
    }
}
