use vstd::prelude::*;

verus! {

pub open spec fn is_decimal_digit(c: char) -> bool {
    '0' <= c && c <= '9'
}

/// The number that a sequence of decimal digits denotes, most significant
/// digit first.
pub open spec fn digits_value(s: Seq<char>) -> nat
    decreases s.len(),
{
    if s.len() == 0 {
        0
    } else {
        digits_value(s.drop_last()) * 10 + ((s.last() as u32 - '0' as u32) as nat)
    }
}

/// The digits of an unsigned number's text: what follows a leading `+`, if
/// there is one.
pub open spec fn unsigned_digits(s: Seq<char>) -> Seq<char> {
    if s.len() > 0 && s[0] == '+' {
        s.drop_first()
    } else {
        s
    }
}

/// The `usize` that a text denotes: an optional `+` followed by one or more
/// decimal digits, with a value that fits. Any other text denotes none.
pub open spec fn usize_of_text(s: Seq<char>) -> Option<usize> {
    let d = unsigned_digits(s);
    if d.len() > 0 && (forall|i: int| 0 <= i < d.len() ==> is_decimal_digit(#[trigger] d[i]))
        && digits_value(d) <= usize::MAX {
        Some(digits_value(d) as usize)
    } else {
        None
    }
}

/// Relies on `usize::from_str` (through `str::parse`), which accepts exactly an
/// optional `+` sign followed by decimal digits, and fails where the value
/// does not fit.
#[verifier::external_body]
fn parse_usize(s: &str) -> (r: Option<usize>)
    ensures
        r == usize_of_text(s@),
{
    s.parse::<usize>().ok()
}

/// `s` holds no `separator` before index `i`.
pub open spec fn is_first_at(s: Seq<char>, separator: char, i: int) -> bool {
    &&& 0 <= i < s.len()
    &&& s[i] == separator
    &&& forall|j: int| 0 <= j < i ==> s[j] != separator
}

/// The text before and the text after the first `separator` in `s`, or none
/// where `s` holds no separator.
pub open spec fn split_spec(s: Seq<char>, separator: char) -> Option<(Seq<char>, Seq<char>)> {
    if exists|i: int| is_first_at(s, separator, i) {
        let i = choose|i: int| is_first_at(s, separator, i);
        Some((s.subrange(0, i), s.subrange(i + 1, s.len() as int)))
    } else {
        None
    }
}

/// The pair of numbers that `s` holds on either side of its first
/// `separator`, or none where there is no separator or a side is not a
/// number.
pub open spec fn pair_spec(s: Seq<char>, separator: char) -> Option<(usize, usize)> {
    match split_spec(s, separator) {
        None => None,
        Some((left, right)) => match (usize_of_text(left), usize_of_text(right)) {
            (Some(l), Some(r)) => Some((l, r)),
            _ => None,
        },
    }
}

/// Splits `s` at its first `separator` into the text before and the text
/// after it.
pub fn split_pair(s: &str, separator: char) -> (r: Option<(&str, &str)>)
    ensures
        r is None <==> split_spec(s@, separator) is None,
        r matches Some((left, right)) ==> split_spec(s@, separator) == Some((left@, right@)),
{
    let n: usize = s.unicode_len();
    let mut i: usize = 0;
    while i < n
        invariant
            n == s@.len(),
            i <= n,
            forall|j: int| 0 <= j < i ==> s@[j] != separator,
        decreases n - i,
    {
        if s.get_char(i) == separator {
            assert(is_first_at(s@, separator, i as int));
            proof {
                let k = choose|k: int| is_first_at(s@, separator, k);
                assert(k == i);
            }
            return Some((s.substring_char(0, i), s.substring_char(i + 1, n)));
        }
        i = i + 1;
    }
    assert(!exists|k: int| is_first_at(s@, separator, k));
    None
}

/// Parses a pair of numbers written on either side of `separator`, as in
/// `"800x600"`.
pub fn parse_pair(s: &str, separator: char) -> (r: Option<(usize, usize)>)
    ensures
        r == pair_spec(s@, separator),
{
    match split_pair(s, separator) {
        None => None,
        Some((left, right)) => match (parse_usize(left), parse_usize(right)) {
            (Some(l), Some(r)) => Some((l, r)),
            _ => None,
        },
    }
}

} // verus!
