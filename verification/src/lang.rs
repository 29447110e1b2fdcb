//! Language tags recognized at the translation-provider boundary.
//!
//! The provider accepts a fixed set of two-letter language codes; a channel
//! may only be enrolled under one of them.

use vstd::prelude::*;
use crate::text::chars_of;

verus! {

/// The two characters form one of the provider's recognized codes.
pub open spec fn recognized_pair(a: char, b: char) -> bool {
    ||| (a == 'B' && b == 'G')
    ||| (a == 'C' && b == 'S')
    ||| (a == 'D' && b == 'A')
    ||| (a == 'D' && b == 'E')
    ||| (a == 'E' && b == 'L')
    ||| (a == 'E' && b == 'N')
    ||| (a == 'E' && b == 'S')
    ||| (a == 'E' && b == 'T')
    ||| (a == 'F' && b == 'I')
    ||| (a == 'F' && b == 'R')
    ||| (a == 'H' && b == 'U')
    ||| (a == 'I' && b == 'D')
    ||| (a == 'I' && b == 'T')
    ||| (a == 'J' && b == 'A')
    ||| (a == 'K' && b == 'O')
    ||| (a == 'L' && b == 'T')
    ||| (a == 'L' && b == 'V')
    ||| (a == 'N' && b == 'B')
    ||| (a == 'N' && b == 'L')
    ||| (a == 'P' && b == 'L')
    ||| (a == 'P' && b == 'T')
    ||| (a == 'R' && b == 'O')
    ||| (a == 'R' && b == 'U')
    ||| (a == 'S' && b == 'K')
    ||| (a == 'S' && b == 'L')
    ||| (a == 'S' && b == 'V')
    ||| (a == 'T' && b == 'R')
    ||| (a == 'U' && b == 'K')
    ||| (a == 'Z' && b == 'H')
}

/// `s` is a language tag the translation provider recognizes.
pub open spec fn recognized_tag(s: Seq<char>) -> bool {
    s.len() == 2 && recognized_pair(s[0], s[1])
}

/// Whether `tag` is a recognized language tag.
pub fn is_recognized_tag(tag: &str) -> (r: bool)
    ensures
        r == recognized_tag(tag@),
{
    let v = chars_of(tag);
    if v.len() != 2 {
        return false;
    }
    let a = v[0];
    let b = v[1];
    (a == 'B' && b == 'G') || (a == 'C' && b == 'S') || (a == 'D' && b == 'A') || (a == 'D' && b
        == 'E') || (a == 'E' && b == 'L') || (a == 'E' && b == 'N') || (a == 'E' && b == 'S') || (a
        == 'E' && b == 'T') || (a == 'F' && b == 'I') || (a == 'F' && b == 'R') || (a == 'H' && b
        == 'U') || (a == 'I' && b == 'D') || (a == 'I' && b == 'T') || (a == 'J' && b == 'A') || (a
        == 'K' && b == 'O') || (a == 'L' && b == 'T') || (a == 'L' && b == 'V') || (a == 'N' && b
        == 'B') || (a == 'N' && b == 'L') || (a == 'P' && b == 'L') || (a == 'P' && b == 'T') || (a
        == 'R' && b == 'O') || (a == 'R' && b == 'U') || (a == 'S' && b == 'K') || (a == 'S' && b
        == 'L') || (a == 'S' && b == 'V') || (a == 'T' && b == 'R') || (a == 'U' && b == 'K') || (a
        == 'Z' && b == 'H')
}

} // verus!
