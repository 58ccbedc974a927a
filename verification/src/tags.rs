//! The tags of a network object, as `osmpbfreader` hands them out.
//!
//! `Tags` is a sorted flat map from key to value. Its contents are read
//! through the two lookups below and nothing else.

use osmpbfreader::Tags;
use vstd::prelude::*;

verus! {

/// `osmpbfreader::Tags`. Its contents are known as [`tag_map`] only.
#[verifier::external_type_specification]
#[verifier::external_body]
pub struct ExTags(osmpbfreader::Tags);

/// The key-value pairs that a `Tags` holds.
pub uninterp spec fn tag_map(tags: Tags) -> Map<Seq<char>, Seq<char>>;

/// `FlatMap::contains_key`, reached through `Tags`: whether some pair has
/// exactly this key.
#[verifier::external_body]
pub(crate) fn has_key(tags: &Tags, key: &str) -> (r: bool)
    ensures
        r == tag_map(*tags).contains_key(key@),
{
    tags.contains_key(key)
}

/// `FlatMap::get`, reached through `Tags`: the value held under exactly this
/// key, copied out of its `smartstring` into a `String`.
#[verifier::external_body]
pub(crate) fn value_of(tags: &Tags, key: &str) -> (r: Option<String>)
    ensures
        match r {
            Some(value) => tag_map(*tags).contains_key(key@) && tag_map(*tags)[key@] == value@,
            None => !tag_map(*tags).contains_key(key@),
        },
{
    match tags.get(key) {
        Some(value) => Some(String::from(smartstring::alias::String::as_str(value))),
        None => None,
    }
}

} // verus!
