use vstd::prelude::*;

verus! {

/// Whether `name` is the text `expected`.
pub fn name_is(name: &str, expected: &str) -> (result: bool)
    ensures
        result == (name@ == expected@),
{
    name.to_owned() == expected.to_owned()
}

} // verus!
