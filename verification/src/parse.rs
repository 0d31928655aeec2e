//! Parsing of the paired command-line fields: a dimension or coordinate
//! pair is two fields separated by a single character. Locating the
//! separator and combining the two parses is verified; what a single
//! field parses to is the standard parser's affair.

use vstd::prelude::*;
use vstd::string::StrSliceExecFns;

verus! {

/// The separator occurs somewhere in the string.
pub open spec fn has_separator(s: Seq<char>, separator: char) -> bool {
    exists|i: int| 0 <= i < s.len() && s[i] == separator
}

/// The position of the first occurrence of `separator` in `s`: `Some(i)`
/// exactly when the separator occurs, with nothing but other characters
/// before `i`.
pub fn separator_index(s: &str, separator: char) -> (r: Option<usize>)
    ensures
        r matches Some(i) ==> i < s@.len() && s@[i as int] == separator && (forall|j: int|
            0 <= j < i ==> s@[j] != separator),
        r is None ==> !has_separator(s@, separator),
{
    let n = s.unicode_len();
    let mut k: usize = 0;
    while k < n
        invariant
            n == s@.len(),
            k <= n,
            forall|j: int| 0 <= j < k ==> s@[j] != separator,
        decreases n - k,
    {
        if s.get_char(k) == separator {
            return Some(k);
        }
        k = k + 1;
    }
    None
}

/// Relies on `T::from_str` for the parsing of one field; nothing is
/// assumed about which strings parse or what value results.
#[verifier::external_body]
fn parse_field<T: core::str::FromStr>(s: &str) -> (r: Option<T>) {
    match T::from_str(s) {
        Ok(v) => Some(v),
        Err(_) => None,
    }
}

/// Split `s` at the first occurrence of `separator` and parse the two
/// sides as values of `T`. Without a separator there is no pair; with
/// one, the pair is the two parsed sides, present exactly when both
/// sides parse.
pub fn parse_pair<T: core::str::FromStr>(s: &str, separator: char) -> (r: Option<(T, T)>)
    ensures
        !has_separator(s@, separator) ==> r is None,
        r is Some ==> has_separator(s@, separator),
{
    match separator_index(s, separator) {
        None => None,
        Some(index) => {
            proof {
                assert(has_separator(s@, separator));
            }
            let n = s.unicode_len();
            let left = s.substring_char(0, index);
            let right = s.substring_char(index + 1, n);
            match (parse_field::<T>(left), parse_field::<T>(right)) {
                (Some(l), Some(r)) => Some((l, r)),
                _ => None,
            }
        },
    }
}

} // verus!
