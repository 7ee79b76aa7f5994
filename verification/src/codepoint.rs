//! Reading one Unicode scalar value from a string or from an integer.
use vstd::prelude::*;

verus! {

broadcast use {vstd::string::axiom_spec_iter, vstd::string::next_postcondition};

/// Why a character input or a profile lookup was refused.
#[derive(Debug, PartialEq, Eq)]
pub enum ResolveError {
    /// The string holds no Unicode scalar value.
    EmptyCharacter,
    /// The string holds more than one Unicode scalar value.
    MultipleCharacters,
    /// The integer is a surrogate or lies above U+10FFFF.
    InvalidCodepoint(u32),
    /// No profile carries the requested name.
    ProfileNotFound(String),
}

/// The result of reading exactly one scalar value out of `chars`.
pub open spec fn spec_single_codepoint(chars: Seq<char>) -> Result<char, ResolveError> {
    if chars.len() == 0 {
        Err(ResolveError::EmptyCharacter)
    } else if chars.len() == 1 {
        Ok(chars[0])
    } else {
        Err(ResolveError::MultipleCharacters)
    }
}

/// A Unicode scalar value: not a surrogate and at most U+10FFFF.
pub open spec fn scalar_value(value: u32) -> bool {
    value < 0xD800 || (0xE000 <= value && value <= 0x10FFFF)
}

/// Accepts a string that holds exactly one Unicode scalar value.
pub fn single_codepoint(value: &str) -> (r: Result<char, ResolveError>)
    ensures
        r == spec_single_codepoint(value@),
{
    let mut chars = value.chars();
    let first = match chars.next() {
        Some(first) => first,
        None => return Err(ResolveError::EmptyCharacter),
    };
    if chars.next().is_some() {
        return Err(ResolveError::MultipleCharacters);
    }
    Ok(first)
}

/// Calls `char::from_u32`, which returns the character whose scalar value is
/// the argument, or `None` for a surrogate or a value above U+10FFFF.
#[verifier::external_body]
fn char_from_u32(value: u32) -> (c: Option<char>)
    ensures
        c is Some <==> scalar_value(value),
        c matches Some(ch) ==> ch as u32 == value,
{
    char::from_u32(value)
}

/// Accepts an integer that is a Unicode scalar value.
pub fn codepoint_to_char(value: u32) -> (r: Result<char, ResolveError>)
    ensures
        scalar_value(value) ==> (r matches Ok(c) && c as u32 == value),
        !scalar_value(value) ==> r == Err::<char, ResolveError>(ResolveError::InvalidCodepoint(value)),
{
    match char_from_u32(value) {
        Some(c) => Ok(c),
        None => Err(ResolveError::InvalidCodepoint(value)),
    }
}

} // verus!
