use vstd::prelude::*;
use vstd::string::StrSliceExecFns;

verus! {

/// `i` is the position of the first occurrence of `c` in `s`.
pub open spec fn is_first_index(s: Seq<char>, c: char, i: int) -> bool {
    &&& 0 <= i < s.len()
    &&& s[i] == c
    &&& forall|j: int| 0 <= j < i ==> s[j] != c
}

/// Splits `s` once, at the first occurrence of `separator`. The separator itself
/// belongs to neither half. `None` when the separator does not occur.
pub fn split_pair(s: &str, separator: char) -> (r: Option<(&str, &str)>)
    ensures
        r is None <==> !s@.contains(separator),
        r matches Some((left, right)) ==> {
            &&& is_first_index(s@, separator, left@.len() as int)
            &&& left@ == s@.subrange(0, left@.len() as int)
            &&& right@ == s@.subrange(left@.len() + 1int, s@.len() as int)
        },
{
    let n = s.unicode_len();
    let mut i: usize = 0;
    while i < n
        invariant
            n == s@.len(),
            i <= n,
            forall|j: int| 0 <= j < i ==> s@[j] != separator,
        decreases n - i,
    {
        if s.get_char(i) == separator {
            let left = s.substring_char(0, i);
            let right = s.substring_char(i + 1, n);
            return Some((left, right));
        }
        i = i + 1;
    }
    None
}

/// Relies on `str::parse` (that is, `T::from_str`) to read one half of a pair.
/// Nothing is assumed of what it returns.
#[verifier::external_body]
fn parse_half<T: std::str::FromStr>(s: &str) -> (r: Option<T>) {
    s.parse::<T>().ok()
}

/// Joins two independently parsed halves: a pair only when both halves parsed.
pub fn pair_of<T>(left: Option<T>, right: Option<T>) -> (r: Option<(T, T)>)
    ensures
        r is Some <==> (left is Some && right is Some),
        r matches Some((a, b)) ==> left == Some(a) && right == Some(b),
{
    match (left, right) {
        (Some(a), Some(b)) => Some((a, b)),
        _ => None,
    }
}

/// Parses text of the shape `<left><separator><right>`, each half read by
/// `T::from_str`: a pair only when the separator occurs and both halves, split at
/// its first occurrence, parse in full.
pub fn analy_paire<T: std::str::FromStr>(s: &str, separator: char) -> (r: Option<(T, T)>)
    ensures
        !s@.contains(separator) ==> r is None,
{
    match split_pair(s, separator) {
        None => None,
        Some((left, right)) => pair_of(parse_half::<T>(left), parse_half::<T>(right)),
    }
}

} // verus!
