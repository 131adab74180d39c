use vstd::prelude::*;

verus! {

/// Picks the singular or the plural form of a word for `count` items.
pub fn pluralize<'a>(count: usize, singular: &'a str, plural: &'a str) -> (r: &'a str)
    ensures
        r == (if count == 1 { singular } else { plural }),
{
    if count == 1 {
        singular
    } else {
        plural
    }
}

} // verus!
