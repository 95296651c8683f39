use vstd::prelude::*;

verus! {

/// Whether two strings hold the same characters.
pub fn same_text(a: &str, b: &str) -> (r: bool)
    ensures
        r == (a@ == b@),
{
    let x = String::from_str(a);
    let y = String::from_str(b);
    x == y
}

/// Whether every character of `d` is an ASCII decimal digit.
pub open spec fn all_decimal_digits(d: Seq<char>) -> bool {
    forall|i: int| 0 <= i < d.len() ==> '0' <= #[trigger] d[i] <= '9'
}

/// The number that a string of decimal digits spells, most significant first.
pub open spec fn decimal_value(d: Seq<char>) -> nat
    decreases d.len(),
{
    if d.len() == 0 {
        0
    } else {
        decimal_value(d.drop_last()) * 10 + ((d.last() as int) - ('0' as int)) as nat
    }
}

/// The `usize` that a text denotes in the syntax `str::parse::<usize>` accepts:
/// an optional `+` followed by one or more decimal digits, with a value that
/// fits in a `usize`. `None` for every other text.
pub open spec fn usize_from_text(s: Seq<char>) -> Option<nat> {
    let digits = if s.len() > 1 && s[0] == '+' {
        s.drop_first()
    } else {
        s
    };
    if digits.len() > 0 && all_decimal_digits(digits) && decimal_value(digits) <= usize::MAX {
        Some(decimal_value(digits))
    } else {
        None
    }
}

/// Calls `str::parse::<usize>`, keeping only whether it succeeded. As std documents
/// it, the text must be an optional `+` sign followed by decimal digits only, and
/// a value that does not fit in a `usize` is refused.
#[verifier::external_body]
pub(crate) fn parse_usize(s: &str) -> (r: Option<usize>)
    ensures
        match r {
            Some(n) => usize_from_text(s@) == Some(n as nat),
            None => usize_from_text(s@) is None,
        },
{
    s.parse::<usize>().ok()
}

} // verus!
