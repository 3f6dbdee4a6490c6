//! The smallest parser: one that takes a single letter.

use vstd::prelude::*;
use vstd::string::StrSliceExecFns;

verus! {

/// Whether `s` begins with the letter `a`.
pub open spec fn starts_with_a(s: Seq<char>) -> bool {
    s.len() > 0 && s[0] == 'a'
}

/// Takes the letter `a` off the front of `input`. Gives what follows the
/// letter, or, where `input` does not begin with it, `input` itself as the
/// error.
pub fn the_letter_a<'a>(input: &'a str) -> (r: Result<(&'a str, ()), &'a str>)
    ensures
        match r {
            Ok((rest, _)) => starts_with_a(input@) && rest@ == input@.skip(1),
            Err(rest) => !starts_with_a(input@) && rest@ == input@,
        },
{
    let n = input.unicode_len();
    if n > 0 && input.get_char(0) == 'a' {
        Ok((input.substring_char(1, n), ()))
    } else {
        Err(input)
    }
}

} // verus!
