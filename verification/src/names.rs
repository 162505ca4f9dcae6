//! Validation of candidate project names.

use vstd::prelude::*;

use crate::errors::NameError;

verus! {

/// Bytes a project name may consist of: ASCII letters, digits, `-` and `_`.
pub open spec fn allowed_name_byte(b: u8) -> bool {
    ||| 97 <= b <= 122
    ||| 65 <= b <= 90
    ||| 48 <= b <= 57
    ||| b == 45
    ||| b == 95
}

/// A valid project name is non-empty and made of allowed bytes only.
pub open spec fn valid_project_name(s: Seq<u8>) -> bool {
    s.len() > 0 && forall|i: int| 0 <= i < s.len() ==> allowed_name_byte(s[i])
}

/// Accepts exactly the non-empty names made of ASCII letters, digits, hyphens
/// and underscores, telling an empty name apart from one with a disallowed
/// character.
pub fn validate_project_name(name: &[u8]) -> (r: Result<(), NameError>)
    ensures
        (r is Ok) == valid_project_name(name@),
        (r == Err::<(), NameError>(NameError::Empty)) == (name@.len() == 0),
        (r == Err::<(), NameError>(NameError::DisallowedCharacter)) == (name@.len() > 0
            && !valid_project_name(name@)),
{
    if name.len() == 0 {
        return Err(NameError::Empty);
    }
    let mut i: usize = 0;
    while i < name.len()
        invariant
            0 < name@.len(),
            0 <= i <= name@.len(),
            forall|j: int| 0 <= j < i ==> allowed_name_byte(name@[j]),
        decreases name@.len() - i,
    {
        let b = name[i];
        let ok = (b >= 97 && b <= 122) || (b >= 65 && b <= 90) || (b >= 48 && b <= 57) || b == 45
            || b == 95;
        if !ok {
            return Err(NameError::DisallowedCharacter);
        }
        i = i + 1;
    }
    Ok(())
}

} // verus!
