use vstd::prelude::*;
use vstd::string::StringExecFns;

verus! {

/// How the text supplied for an argument is checked and coerced.
#[derive(Clone, Copy, Debug, PartialEq, Eq, Structural)]
pub enum TypeRule {
    /// Any text is accepted as it is.
    Text,
    /// The text must be a signed 64-bit integer in decimal notation.
    Integer,
    /// The text must be one of the literals `true` and `false`.
    Boolean,
}

/// The failure of a lookup: the tag that no entry of the registry carries.
#[derive(Debug)]
pub struct UnknownType {
    pub tag: String,
}

/// The rule registered under `tag`, if there is one.
pub open spec fn resolve_spec(tag: Seq<char>) -> Option<TypeRule> {
    if tag == "string"@ {
        Some(TypeRule::Text)
    } else if tag == "integer"@ {
        Some(TypeRule::Integer)
    } else if tag == "boolean"@ {
        Some(TypeRule::Boolean)
    } else {
        None
    }
}

/// Whether two pieces of text hold the same characters.
pub fn same_text(a: &str, b: &str) -> (same: bool)
    ensures
        same == (a@ == b@),
{
    let left = String::from_str(a);
    let right = String::from_str(b);
    left == right
}

/// Looks a type tag up in the registry.
pub fn resolve(tag: &str) -> (found: Result<TypeRule, UnknownType>)
    ensures
        match found {
            Ok(rule) => resolve_spec(tag@) == Some(rule),
            Err(unknown) => resolve_spec(tag@) is None && unknown.tag@ == tag@,
        },
{
    if same_text(tag, "string") {
        Ok(TypeRule::Text)
    } else if same_text(tag, "integer") {
        Ok(TypeRule::Integer)
    } else if same_text(tag, "boolean") {
        Ok(TypeRule::Boolean)
    } else {
        Err(UnknownType { tag: String::from_str(tag) })
    }
}

} // verus!
