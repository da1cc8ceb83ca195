//! Natural (digit-aware) order of two texts.
use std::cmp::Ordering;
use vstd::prelude::*;

use crate::text::{compare_chars, digit_value, flip, fold_case, folded, chars_of, is_skipped};

verus! {

/// What `natord::compare_iter` returns for two texts when it skips the
/// characters of `is_skipped`, compares other characters by code point and
/// reads ASCII decimal digits as digits: runs of digits compare by magnitude,
/// skipped characters are absent on both sides.
pub uninterp spec fn natural_order(left: Seq<char>, right: Seq<char>) -> Ordering;

/// Relies on `natord::compare_iter`, driven by `is_skipped`, `compare_chars`
/// and `digit_value`, for the natural order of the two texts. Every step of
/// `compare_iter` reads both sides and compares them with functions that
/// reverse their result when their arguments are swapped, so swapping the two
/// texts reverses the outcome.
#[verifier::external_body]
pub(crate) fn natord_compare(left: &Vec<char>, right: &Vec<char>) -> (r: Ordering)
    ensures
        r == natural_order(left@, right@),
        flip(r) == natural_order(right@, left@),
{
    natord::compare_iter(
        left.iter().copied(),
        right.iter().copied(),
        |c: &char| is_skipped(*c),
        |l: &char, r: &char| compare_chars(*l, *r),
        |c: &char| digit_value(*c),
    )
}

/// The text that natural and alphabetical order compare: the text itself,
/// or its lowercase form when case does not matter.
pub open spec fn comparable(s: Seq<char>, sensitive: bool) -> Seq<char> {
    if sensitive {
        s
    } else {
        fold_case(s)
    }
}

/// The characters of `s` in the form that ordering compares.
pub fn comparable_chars(s: &str, sensitive: bool) -> (r: Vec<char>)
    ensures
        r@ == comparable(s@, sensitive),
{
    if sensitive {
        chars_of(s)
    } else {
        folded(s)
    }
}

/// Natural order of two texts: case-sensitive on raw code points, or else on
/// the full lowercase mapping of each character.
pub fn natural_compare(left: &str, right: &str, sensitive: bool) -> (r: Ordering)
    ensures
        r == natural_order(comparable(left@, sensitive), comparable(right@, sensitive)),
        flip(r) == natural_order(comparable(right@, sensitive), comparable(left@, sensitive)),
{
    let l = comparable_chars(left, sensitive);
    let r = comparable_chars(right, sensitive);
    natord_compare(&l, &r)
}

} // verus!
