//! Counting the code points of source text.
use std::str::Chars;
use vstd::prelude::*;
use vstd::std_specs::iter::IteratorSpec;
use vstd::utf8::encode_utf8;

verus! {

/// The number of code points that `it` has yet to yield.
///
/// The count has to fit in `usize`, and the iterator has to come with a
/// measure of what is left of it; [`count_code_points`] shows that both hold
/// of the iterator over any `str`.
pub fn iter_code_points(mut it: Chars) -> (count: usize)
    requires
        it.decrease() is Some,
        it.remaining().len() <= usize::MAX,
    ensures
        count == it.remaining().len(),
{
    let ghost all = it.remaining();
    let mut i: usize = 0;
    loop
        invariant
            it.decrease() is Some,
            i + it.remaining().len() == all.len(),
            all.len() <= usize::MAX,
        ensures
            i == all.len(),
        decreases it.decrease()->0,
    {
        let ghost before = it;
        match it.next() {
            Some(_c) => {
                proof {
                    vstd::string::next_postcondition(&before, &it, Some(_c));
                }
                i += 1;
            },
            None => {
                proof {
                    vstd::string::next_postcondition(&before, &it, None);
                }
                break ;
            },
        }
    }
    i
}

/// The number of code points in `text`.
pub fn count_code_points(text: &str) -> (count: usize)
    ensures
        count == text@.len(),
{
    let bytes = text.as_bytes();
    proof {
        lemma_code_points_fit(text@);
        vstd::string::axiom_spec_iter(text);
        assert(bytes@.len() == bytes.len());
    }
    iter_code_points(text.chars())
}

/// A text holds no more code points than its UTF-8 encoding holds bytes.
pub proof fn lemma_code_points_fit(chars: Seq<char>)
    ensures
        chars.len() <= encode_utf8(chars).len(),
    decreases chars.len(),
{
    if chars.len() > 0 {
        lemma_code_points_fit(chars.drop_first());
    }
}

} // verus!
