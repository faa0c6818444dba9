use vstd::prelude::*;
use std::str::FromStr;

verus! {

/// Whether `at` is the place of the first `separator` in `text`.
pub open spec fn is_first_separator(text: Seq<char>, separator: char, at: int) -> bool {
    &&& 0 <= at < text.len()
    &&& text[at] == separator
    &&& forall|k: int| 0 <= k < at ==> text[k] != separator
}

/// What stands before the character at `at`.
pub open spec fn left_of(text: Seq<char>, at: int) -> Seq<char> {
    text.subrange(0, at)
}

/// What stands behind the character at `at`.
pub open spec fn right_of(text: Seq<char>, at: int) -> Seq<char> {
    text.subrange(at + 1, text.len() as int)
}

/// Whether `text` is cut at `at`, the place of its first `separator`, into
/// `left` and `right`; the separator belongs to neither.
pub open spec fn cut_at(
    text: Seq<char>,
    separator: char,
    at: int,
    left: Seq<char>,
    right: Seq<char>,
) -> bool {
    &&& is_first_separator(text, separator, at)
    &&& left == left_of(text, at)
    &&& right == right_of(text, at)
}

/// Whether `left` and `right` are the two halves of `text` about its first
/// `separator`.
pub open spec fn halves_of(
    text: Seq<char>,
    separator: char,
    left: Seq<char>,
    right: Seq<char>,
) -> bool {
    exists|at: int| cut_at(text, separator, at, left, right)
}

/// The two values of a pair, where both were read; nothing where either is
/// missing.
pub open spec fn both<T>(left: Option<T>, right: Option<T>) -> Option<(T, T)> {
    match (left, right) {
        (Some(l), Some(r)) => Some((l, r)),
        _ => None,
    }
}

/// A text has one pair of halves only, and they give the text back when
/// they are joined by the separator, which the left half does not hold.
pub proof fn halves_are_exact(
    text: Seq<char>,
    separator: char,
    left: Seq<char>,
    right: Seq<char>,
)
    requires
        halves_of(text, separator, left, right),
    ensures
        left + seq![separator] + right == text,
        !left.contains(separator),
        forall|l: Seq<char>, r: Seq<char>|
            #[trigger] halves_of(text, separator, l, r) ==> l == left && r == right,
{
    let at = choose|at: int| cut_at(text, separator, at, left, right);
    assert(left + seq![separator] + right =~= text);
    assert forall|l: Seq<char>, r: Seq<char>| #[trigger]
        halves_of(text, separator, l, r) implies l == left && r == right by {
        let other = choose|other: int| cut_at(text, separator, other, l, r);
        assert(other == at);
    }
}

/// Finds the first `separator` in `text`, counted in characters.
pub fn find_separator(text: &str, separator: char) -> (found: Option<usize>)
    ensures
        found is None <==> !text@.contains(separator),
        found matches Some(at) ==> is_first_separator(text@, separator, at as int),
{
    let length = text.unicode_len();
    let mut at: usize = 0;
    for c in it: text.chars()
        invariant
            at == it.index(),
            it.seq() == text@,
            length == text@.len(),
            forall|k: int| 0 <= k < at ==> text@[k] != separator,
    {
        if c == separator {
            return Some(at);
        }
        at = at + 1;
    }
    None
}

/// Cuts `text` at its first `separator`, which belongs to neither half.
pub fn split_pair<'a>(text: &'a str, separator: char) -> (halves: Option<(&'a str, &'a str)>)
    ensures
        halves is None <==> !text@.contains(separator),
        halves matches Some((left, right)) ==> halves_of(text@, separator, left@, right@),
{
    match find_separator(text, separator) {
        None => None,
        Some(at) => {
            let length = text.unicode_len();
            let left = text.substring_char(0, at);
            let right = text.substring_char(at + 1, length);
            assert(cut_at(text@, separator, at as int, left@, right@));
            Some((left, right))
        },
    }
}

/// Puts two parsed halves together.
pub fn pair_of<T>(left: Option<T>, right: Option<T>) -> (pair: Option<(T, T)>)
    ensures
        pair == both(left, right),
{
    match (left, right) {
        (Some(l), Some(r)) => Some((l, r)),
        _ => None,
    }
}

/// `FromStr::from_str` of `T` on `text`, its error dropped. What it accepts
/// is for `T` to say: nothing is claimed of the value.
#[verifier::external_body]
fn parse_text<T: FromStr>(text: &str) -> (value: Option<T>) {
    match T::from_str(text) {
        Ok(value) => Some(value),
        Err(_) => None,
    }
}

/// Parses `text` as a coordinate pair such as `"400x600"` or `"1.0,0.5"`:
/// a left value, `separator`, a right value. The text is cut at the first
/// `separator` and each half is read by `T`'s own `from_str`; the pair is
/// there only if both halves were read.
///
/// Which texts `T` reads is `T`'s affair; `split_pair` says what it is
/// given, and `pair_of` what is made of its answers.
pub fn parse_pair<T: FromStr>(text: &str, separator: char) -> (pair: Option<(T, T)>)
    ensures
        !text@.contains(separator) ==> pair is None,
{
    match split_pair(text, separator) {
        None => None,
        Some((left, right)) => pair_of(parse_text::<T>(left), parse_text::<T>(right)),
    }
}

} // verus!
