//! Matrix identifiers.

use vstd::prelude::*;

verus! {

broadcast use vstd::string::group_string_axioms;

/// True for a room id: it begins with `!` and holds no NUL.
pub open spec fn valid_room_id(id: Seq<char>) -> bool {
    id.len() > 0 && id[0] == '!' && !id.contains('\0')
}

/// True for an event id, as the identifier grammar of Matrix has it.
pub uninterp spec fn valid_event_id(id: Seq<char>) -> bool;

/// True for a user id, as the identifier grammar of Matrix has it.
pub uninterp spec fn valid_user_id(id: Seq<char>) -> bool;

/// `RoomId::parse` of ruma: accepts what begins with `!` and holds no NUL, at any length.
#[verifier::external_body]
pub(crate) fn is_room_id(id: &str) -> (r: bool)
    ensures
        r == valid_room_id(id@),
{
    matrix_sdk::ruma::RoomId::parse(id).is_ok()
}

/// `EventId::parse` of ruma. What it accepts begins with `$`; where there is no colon, that is
/// all it asks. Behind a colon it asks for a server name, whose grammar is not stated here.
#[verifier::external_body]
pub(crate) fn is_event_id(id: &str) -> (r: bool)
    ensures
        r == valid_event_id(id@),
        r ==> id@.len() > 0 && id@[0] == '$',
        !id@.contains(':') ==> r == (id@.len() > 0 && id@[0] == '$'),
{
    matrix_sdk::ruma::EventId::parse(id).is_ok()
}

/// `UserId::parse` of ruma. What it accepts begins with `@` and holds a colon; the grammar of
/// the server name behind it is not stated here.
#[verifier::external_body]
pub(crate) fn is_user_id(id: &str) -> (r: bool)
    ensures
        r == valid_user_id(id@),
        r ==> id@.len() > 0 && id@[0] == '@' && id@.contains(':'),
{
    matrix_sdk::ruma::UserId::parse(id).is_ok()
}

/// A room id is an exclamation mark and any text without NUL.
pub proof fn law_room_ids_begin_with_a_mark(id: Seq<char>, rest: Seq<char>)
    ensures
        valid_room_id(seq!['!'] + rest) <==> !rest.contains('\0'),
        valid_room_id(id) ==> id == seq!['!'] + id.skip(1),
{
    let whole = seq!['!'] + rest;
    assert(whole[0] == '!');
    if rest.contains('\0') {
        let k = choose|k: int| 0 <= k < rest.len() && rest[k] == '\0';
        assert(whole[k + 1] == '\0');
    }
    if whole.contains('\0') {
        let k = choose|k: int| 0 <= k < whole.len() && whole[k] == '\0';
        assert(rest[k - 1] == '\0');
    }
    if valid_room_id(id) {
        assert(id =~= seq!['!'] + id.skip(1));
    }
}

} // verus!
