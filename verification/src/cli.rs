//! What the command-line tool decides for itself: which languages it serves,
//! and which entry of a numbered list an answer picks. The storage mapping
//! knows nothing of either.

use vstd::prelude::*;
use vstd::string::StrSliceExecFns;

verus! {

/// The languages that the tool serves: `de` and `en`.
pub open spec fn is_served(lang: Seq<char>) -> bool {
    lang == seq!['d', 'e'] || lang == seq!['e', 'n']
}

/// Whether `lang` is the two characters `first` and `second`.
fn is_code(lang: &str, first: char, second: char) -> (b: bool)
    ensures
        b == (lang@ == seq![first, second]),
{
    if lang.unicode_len() != 2 {
        return false;
    }
    let b = lang.get_char(0) == first && lang.get_char(1) == second;
    assert(b ==> lang@ =~= seq![first, second]);
    assert(lang@ == seq![first, second] ==> lang@[0] == first && lang@[1] == second);
    b
}

/// Whether the tool serves `lang`.
pub fn valid_language(lang: &str) -> (b: bool)
    ensures
        b == is_served(lang@),
{
    is_code(lang, 'd', 'e') || is_code(lang, 'e', 'n')
}

/// The index of the entry that the answer `number` picks from a list of
/// `count` entries shown with the numbers 1 to `count`, if it picks one.
pub fn chosen_entry(number: usize, count: usize) -> (index: Option<usize>)
    ensures
        index == if 1 <= number <= count {
            Some((number - 1) as usize)
        } else {
            None
        },
{
    if number > 0 && number <= count {
        Some(number - 1)
    } else {
        None
    }
}

} // verus!
