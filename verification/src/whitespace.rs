//! White space, as Unicode defines it.

use vstd::prelude::*;

verus! {

/// Whether `c` has the Unicode property `White_Space`.
///
/// The property holds of twenty-five code points: the controls U+0009 to
/// U+000D and U+0085, the spaces U+0020, U+00A0, U+1680, U+2000 to U+200A,
/// U+202F, U+205F and U+3000, and the separators U+2028 and U+2029.
pub open spec fn white_space(c: char) -> bool {
    let n = c as u32;
    ||| 0x0009 <= n <= 0x000D
    ||| n == 0x0020
    ||| n == 0x0085
    ||| n == 0x00A0
    ||| n == 0x1680
    ||| 0x2000 <= n <= 0x200A
    ||| n == 0x2028
    ||| n == 0x2029
    ||| n == 0x202F
    ||| n == 0x205F
    ||| n == 0x3000
}

/// Tells whether `c` is white space.
pub fn is_whitespace(c: char) -> (b: bool)
    ensures
        b == white_space(c),
{
    let n: u32 = c as u32;
    (0x0009 <= n && n <= 0x000D) || n == 0x0020 || n == 0x0085 || n == 0x00A0 || n == 0x1680
        || (0x2000 <= n && n <= 0x200A) || n == 0x2028 || n == 0x2029 || n == 0x202F
        || n == 0x205F || n == 0x3000
}

} // verus!
