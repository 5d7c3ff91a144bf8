//! The names of conversations and completions.
use crate::http::push_text;
use vstd::prelude::*;

verus! {

broadcast use vstd::string::group_string_axioms;

/// A hexadecimal digit in lower case.
pub open spec fn is_hex_digit(c: char) -> bool {
    '0' <= c <= '9' || 'a' <= c <= 'f'
}

/// A hyphen stands here in a UUID.
pub open spec fn hyphen_at(i: int) -> bool {
    i == 8 || i == 13 || i == 18 || i == 23
}

/// The text of a random UUID: 32 digits in five groups, of which one gives the
/// version and one the variant.
pub open spec fn random_uuid(s: Seq<char>) -> bool {
    &&& s.len() == 36
    &&& forall|i: int|
        0 <= i < 36 ==> if hyphen_at(i) {
            #[trigger] s[i] == '-'
        } else {
            is_hex_digit(s[i])
        }
    &&& s[14] == '4'
    &&& s[19] == '8' || s[19] == '9' || s[19] == 'a' || s[19] == 'b'
}

/// Calls `uuid::Uuid::new_v4` and writes the result with its `Display`, which
/// gives a UUID of version 4 and of the variant of RFC 4122 in lower-case
/// hyphenated form. Which one is left to chance. `new_v4` panics where the
/// operating system gives no random bytes.
#[verifier::external_body]
fn new_uuid() -> (r: String)
    ensures
        random_uuid(r@),
{
    uuid::Uuid::new_v4().to_string()
}

/// The name of a conversation.
pub open spec fn conversation_of(uuid: Seq<char>) -> Seq<char> {
    "cdx1_"@ + uuid
}

/// The name of a completion.
pub open spec fn completion_of(uuid: Seq<char>) -> Seq<char> {
    "chatcmpl-prism-"@ + uuid
}

/// Makes the name of a conversation from a UUID.
pub fn conversation_id(uuid: &str) -> (r: String)
    ensures
        r@ == conversation_of(uuid@),
{
    let mut out = "cdx1_".to_owned();
    push_text(&mut out, uuid);
    out
}

/// Makes the name of a completion from a UUID.
pub fn completion_id(uuid: &str) -> (r: String)
    ensures
        r@ == completion_of(uuid@),
{
    let mut out = "chatcmpl-prism-".to_owned();
    push_text(&mut out, uuid);
    out
}

/// A conversation of its own for each request, so that none sees another's
/// context. Which one is left to chance.
pub fn fresh_conversation_id() -> (r: String)
    ensures
        exists|uuid: Seq<char>| random_uuid(uuid) && r@ == #[trigger] conversation_of(uuid),
{
    let uuid = new_uuid();
    conversation_id(uuid.as_str())
}

/// The name of a new completion.
pub fn fresh_completion_id() -> (r: String)
    ensures
        exists|uuid: Seq<char>| random_uuid(uuid) && r@ == #[trigger] completion_of(uuid),
{
    let uuid = new_uuid();
    completion_id(uuid.as_str())
}

// ---------------------------------------------------------------------------
// Laws
// ---------------------------------------------------------------------------

/// Different UUIDs name different conversations and different completions, and
/// each name begins as names of its kind do. That two draws are different is
/// left to chance.
pub proof fn different_uuids_name_differently(a: Seq<char>, b: Seq<char>)
    ensures
        a != b ==> conversation_of(a) != conversation_of(b),
        a != b ==> completion_of(a) != completion_of(b),
        conversation_of(a).take("cdx1_"@.len() as int) == "cdx1_"@,
        completion_of(a).take("chatcmpl-prism-"@.len() as int) == "chatcmpl-prism-"@,
{
    let short = "cdx1_"@.len() as int;
    let long = "chatcmpl-prism-"@.len() as int;
    assert(conversation_of(a).skip(short) =~= a);
    assert(conversation_of(b).skip(short) =~= b);
    assert(completion_of(a).skip(long) =~= a);
    assert(completion_of(b).skip(long) =~= b);
    assert(conversation_of(a).take(short) =~= "cdx1_"@);
    assert(completion_of(a).take(long) =~= "chatcmpl-prism-"@);
}

} // verus!
