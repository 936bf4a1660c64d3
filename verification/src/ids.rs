//! Random identifiers.
use crate::numbers::is_lower_hex;
use vstd::prelude::*;

verus! {

/// Whether a text has the form of a random UUID: groups of 8, 4, 4, 4 and 12 lower-case hexadecimal
/// digits with hyphens between them, of version 4.
pub open spec fn has_uuid_form(text: Seq<char>) -> bool {
    &&& text.len() == 36
    &&& forall|i: int|
        0 <= i < 36 ==> if i == 8 || i == 13 || i == 18 || i == 23 {
            #[trigger] text[i] == '-'
        } else {
            is_lower_hex(text[i])
        }
    &&& text[14] == '4'
    &&& text[19] == '8' || text[19] == '9' || text[19] == 'a' || text[19] == 'b'
}

/// A random UUID in its hyphenated form, from `uuid::Uuid::new_v4`.
#[verifier::external_body]
fn draw_uuid() -> (id: String)
    ensures
        has_uuid_form(id@),
{
    uuid::Uuid::new_v4().to_string()
}

/// Whether a text is a UUID that was drawn at random.
pub closed spec fn is_random_uuid(text: Seq<char>) -> bool {
    exists|id: String| #[trigger] call_ensures(draw_uuid, (), id) && id@ == text
}

/// A UUID that is drawn at random has the form of one.
pub proof fn law_random_uuid_has_its_form(text: Seq<char>)
    requires
        is_random_uuid(text),
    ensures
        has_uuid_form(text),
{
}

/// Draws a UUID at random.
pub(crate) fn new_uuid() -> (id: String)
    ensures
        is_random_uuid(id@),
        has_uuid_form(id@),
{
    let id = draw_uuid();
    assert(call_ensures(draw_uuid, (), id));
    id
}

} // verus!
