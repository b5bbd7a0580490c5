//! The reserved words and the categories they stand for.
use vstd::prelude::*;
use vstd::string::StringSliceAdditionalSpecFns;
use crate::token::Tag;

verus! {

impl Tag {
    /// The sixteen keyword categories.
    pub open spec fn is_keyword(self) -> bool {
        match self {
            Tag::KeywordAnd
            | Tag::KeywordClass
            | Tag::KeywordElse
            | Tag::KeywordFalse
            | Tag::KeywordFun
            | Tag::KeywordFor
            | Tag::KeywordIf
            | Tag::KeywordNil
            | Tag::KeywordOr
            | Tag::KeywordPrint
            | Tag::KeywordReturn
            | Tag::KeywordSuper
            | Tag::KeywordThis
            | Tag::KeywordTrue
            | Tag::KeywordVar
            | Tag::KeywordWhile => true,
            _ => false,
        }
    }

    /// The reserved word of a keyword category, as bytes; empty for every
    /// other category.
    pub open spec fn spelling(self) -> Seq<u8> {
        match self {
            Tag::KeywordAnd => "and".spec_bytes(),
            Tag::KeywordClass => "class".spec_bytes(),
            Tag::KeywordElse => "else".spec_bytes(),
            Tag::KeywordFalse => "false".spec_bytes(),
            Tag::KeywordFun => "fun".spec_bytes(),
            Tag::KeywordFor => "for".spec_bytes(),
            Tag::KeywordIf => "if".spec_bytes(),
            Tag::KeywordNil => "nil".spec_bytes(),
            Tag::KeywordOr => "or".spec_bytes(),
            Tag::KeywordPrint => "print".spec_bytes(),
            Tag::KeywordReturn => "return".spec_bytes(),
            Tag::KeywordSuper => "super".spec_bytes(),
            Tag::KeywordThis => "this".spec_bytes(),
            Tag::KeywordTrue => "true".spec_bytes(),
            Tag::KeywordVar => "var".spec_bytes(),
            Tag::KeywordWhile => "while".spec_bytes(),
            _ => Seq::empty(),
        }
    }
}

/// The keyword category that `text` spells, if it spells one.
pub open spec fn keyword_of(text: Seq<u8>) -> Option<Tag> {
    if text == Tag::KeywordAnd.spelling() {
        Some(Tag::KeywordAnd)
    } else if text == Tag::KeywordClass.spelling() {
        Some(Tag::KeywordClass)
    } else if text == Tag::KeywordElse.spelling() {
        Some(Tag::KeywordElse)
    } else if text == Tag::KeywordFalse.spelling() {
        Some(Tag::KeywordFalse)
    } else if text == Tag::KeywordFun.spelling() {
        Some(Tag::KeywordFun)
    } else if text == Tag::KeywordFor.spelling() {
        Some(Tag::KeywordFor)
    } else if text == Tag::KeywordIf.spelling() {
        Some(Tag::KeywordIf)
    } else if text == Tag::KeywordNil.spelling() {
        Some(Tag::KeywordNil)
    } else if text == Tag::KeywordOr.spelling() {
        Some(Tag::KeywordOr)
    } else if text == Tag::KeywordPrint.spelling() {
        Some(Tag::KeywordPrint)
    } else if text == Tag::KeywordReturn.spelling() {
        Some(Tag::KeywordReturn)
    } else if text == Tag::KeywordSuper.spelling() {
        Some(Tag::KeywordSuper)
    } else if text == Tag::KeywordThis.spelling() {
        Some(Tag::KeywordThis)
    } else if text == Tag::KeywordTrue.spelling() {
        Some(Tag::KeywordTrue)
    } else if text == Tag::KeywordVar.spelling() {
        Some(Tag::KeywordVar)
    } else if text == Tag::KeywordWhile.spelling() {
        Some(Tag::KeywordWhile)
    } else {
        None
    }
}

/// What `keyword_of` finds is a keyword category, and the one that `text`
/// spells.
pub proof fn lemma_keyword_of(text: Seq<u8>)
    ensures
        keyword_of(text) matches Some(tag) ==> tag.is_keyword() && tag.spelling() == text,
{
}

/// Whether two slices hold the same bytes.
fn same_bytes(a: &[u8], b: &[u8]) -> (same: bool)
    ensures
        same == (a@ == b@),
{
    if a.len() != b.len() {
        return false;
    }
    let mut i: usize = 0;
    while i < a.len()
        invariant
            a.len() == b.len(),
            i <= a.len(),
            a@.take(i as int) == b@.take(i as int),
        decreases a.len() - i,
    {
        if a[i] != b[i] {
            return false;
        }
        i += 1;
        assert(a@.take(i as int) == a@.take(i - 1).push(a@[i - 1]));
        assert(b@.take(i as int) == b@.take(i - 1).push(b@[i - 1]));
    }
    assert(a@ == a@.take(i as int));
    assert(b@ == b@.take(i as int));
    true
}

impl Tag {
    /// Looks `keyword` up among the reserved words. The comparison is exact:
    /// case matters, and so does every byte.
    pub fn from_keyword(keyword: &[u8]) -> (tag: Option<Tag>)
        ensures
            tag == keyword_of(keyword@),
    {
        if same_bytes(keyword, "and".as_bytes()) {
            Some(Tag::KeywordAnd)
        } else if same_bytes(keyword, "class".as_bytes()) {
            Some(Tag::KeywordClass)
        } else if same_bytes(keyword, "else".as_bytes()) {
            Some(Tag::KeywordElse)
        } else if same_bytes(keyword, "false".as_bytes()) {
            Some(Tag::KeywordFalse)
        } else if same_bytes(keyword, "fun".as_bytes()) {
            Some(Tag::KeywordFun)
        } else if same_bytes(keyword, "for".as_bytes()) {
            Some(Tag::KeywordFor)
        } else if same_bytes(keyword, "if".as_bytes()) {
            Some(Tag::KeywordIf)
        } else if same_bytes(keyword, "nil".as_bytes()) {
            Some(Tag::KeywordNil)
        } else if same_bytes(keyword, "or".as_bytes()) {
            Some(Tag::KeywordOr)
        } else if same_bytes(keyword, "print".as_bytes()) {
            Some(Tag::KeywordPrint)
        } else if same_bytes(keyword, "return".as_bytes()) {
            Some(Tag::KeywordReturn)
        } else if same_bytes(keyword, "super".as_bytes()) {
            Some(Tag::KeywordSuper)
        } else if same_bytes(keyword, "this".as_bytes()) {
            Some(Tag::KeywordThis)
        } else if same_bytes(keyword, "true".as_bytes()) {
            Some(Tag::KeywordTrue)
        } else if same_bytes(keyword, "var".as_bytes()) {
            Some(Tag::KeywordVar)
        } else if same_bytes(keyword, "while".as_bytes()) {
            Some(Tag::KeywordWhile)
        } else {
            None
        }
    }
}

} // verus!
