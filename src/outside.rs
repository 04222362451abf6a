//! The calls that the library makes into std and outside crates, each with
//! the contract that the library relies on.
use vstd::prelude::*;

use rand::seq::SliceRandom;
use rand::Rng;

use crate::value::Type;

verus! {

/// Relies on `str::chars` collected into a `Vec`: the characters of `s`, in order.
#[verifier::external_body]
pub(crate) fn chars_of(s: &str) -> (r: Vec<char>)
    ensures
        r@ == s@,
{
    s.chars().collect()
}

/// Relies on `String`'s `FromIterator<&char>`: the text made of `cs`, in order.
#[verifier::external_body]
pub(crate) fn string_of(cs: &[char]) -> (r: String)
    ensures
        r@ == cs@,
{
    cs.iter().collect()
}

/// Whether `n` is the code of a Unicode scalar value.
pub open spec fn is_scalar(n: u32) -> bool {
    n < 0xD800 || (0xE000 <= n && n <= 0x10FFFF)
}

/// The character with code `n`.
pub open spec fn char_with_code(n: u32) -> char {
    choose|c: char| #[trigger] (c as u32) == n
}

/// Relies on `char::from_u32`: the character with code `n`, none for a
/// surrogate or a code above U+10FFFF.
#[verifier::external_body]
pub(crate) fn char_from_code(n: u32) -> (r: Option<char>)
    ensures
        r is Some <==> is_scalar(n),
        r matches Some(c) ==> c as u32 == n && c == char_with_code(n),
{
    char::from_u32(n)
}

/// What `str::to_lowercase` makes of a text.
pub uninterp spec fn lower_of(s: Seq<char>) -> Seq<char>;

/// What `str::to_uppercase` makes of a text.
pub uninterp spec fn upper_of(s: Seq<char>) -> Seq<char>;

/// Relies on `str::to_lowercase`: the result depends on the characters alone.
#[verifier::external_body]
pub(crate) fn lowercase(s: &str) -> (r: String)
    ensures
        r@ == lower_of(s@),
{
    s.to_lowercase()
}

/// Relies on `str::to_uppercase`: the result depends on the characters alone.
#[verifier::external_body]
pub(crate) fn uppercase(s: &str) -> (r: String)
    ensures
        r@ == upper_of(s@),
{
    s.to_uppercase()
}

/// Whether `regex::Regex::new` accepts a pattern.
pub uninterp spec fn regex_compiles(pattern: Seq<char>) -> bool;

/// The texts of the matches that `regex::Regex::find_iter` yields for a
/// pattern in a text, in order.
pub uninterp spec fn regex_found(pattern: Seq<char>, text: Seq<char>) -> Seq<Seq<char>>;

/// The views of a sequence of strings.
pub open spec fn string_views(v: Seq<String>) -> Seq<Seq<char>> {
    v.map_values(|s: String| s@)
}

/// Relies on `regex::Regex::new` (whether the pattern compiles) and on
/// `Regex::find_iter` (the text of each match, in order of occurrence).
#[verifier::external_body]
pub(crate) fn regex_matches(pattern: &str, text: &str) -> (r: Option<Vec<String>>)
    ensures
        r is Some <==> regex_compiles(pattern@),
        r matches Some(found) ==> string_views(found@) == regex_found(pattern@, text@),
{
    match regex::Regex::new(pattern) {
        Ok(re) => Some(re.find_iter(text).map(|m| m.as_str().to_string()).collect()),
        Err(_) => None,
    }
}

/// Relies on `rand::thread_rng` and `Rng::gen_range`: a number below `n`,
/// drawn at random (the range must not be empty).
#[verifier::external_body]
pub(crate) fn random_below(n: usize) -> (r: usize)
    requires
        n > 0,
    ensures
        r < n,
{
    rand::thread_rng().gen_range(0..n)
}

/// Whether `p` orders the positions `0..n`: each once.
pub open spec fn is_permutation(p: Seq<int>, n: nat) -> bool {
    &&& p.len() == n
    &&& forall|i: int| 0 <= i < n ==> 0 <= #[trigger] p[i] < n
    &&& forall|i: int, j: int| 0 <= i < n && 0 <= j < n && i != j ==> #[trigger] p[i] != #[trigger] p[j]
}

/// Relies on `SliceRandom::shuffle` with `rand::thread_rng`: the same values,
/// moved to a random order by swaps.
#[verifier::external_body]
pub(crate) fn shuffle_values(v: &mut Vec<Type>)
    ensures
        final(v)@.len() == old(v)@.len(),
        exists|p: Seq<int>|
            is_permutation(p, old(v)@.len()) && forall|i: int|
                0 <= i < old(v)@.len() ==> #[trigger] final(v)@[i] == old(v)@[p[i]],
{
    v.shuffle(&mut rand::thread_rng());
}

} // verus!
